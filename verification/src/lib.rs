//! A small CUDA-like GPU emulator: a PTX front end (lexer, parser, lowering),
//! a C-signature reader, and the scheduling and per-thread execution model
//! of the emulated device.

pub mod utils;
pub mod warp_scheduler;
pub mod nvtypes;
pub mod memory;
pub mod inst_type;
pub mod inst_info;
pub mod execute_unit;
pub mod ptx_lexer;
pub mod text;
pub mod ptx_ir;
pub mod ptx_output;
pub mod parse_error;
pub mod ptx_parser;
pub mod lowering;
pub mod c_signature;
pub mod frontend;
pub mod thread;
pub mod warp;
pub mod sm;
pub mod basegpu;
pub mod c_abi;
pub mod debug_text;
pub mod special_regs;
