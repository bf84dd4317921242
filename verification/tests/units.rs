use gisor::c_abi::{translate, InstInfo};
use gisor::execute_unit::{execute_unit, Fault, FloatOp, FloatRequest, StepOutcome};
use gisor::inst_info::make_inst;
use gisor::inst_type::InstType;
use gisor::memory::{Memory, MemoryAddress, MemoryElement};
use gisor::nvtypes::{dim3, CUmemcpyKind, CudaError};
use gisor::thread::Thread;
use gisor::utils::{bytes_to_intarr, triple_zip};
use gisor::warp::{Warp, WarpState, WARP_SIZE};

fn unit_with(insts: Vec<(InstType, Vec<usize>)>) -> execute_unit {
    let mut u = execute_unit::new();
    u.import_inst(insts.into_iter().map(|(t, a)| make_inst(t, a)).collect());
    u
}

#[test]
fn bytes_to_intarr_reads_little_endian_words() {
    let v = bytes_to_intarr(vec![1, 0, 0, 0, 0xff, 0xff, 0xff, 0xff, 0x00, 0x01, 0, 0, 7]);
    assert_eq!(v, vec![1, -1, 256]);
    assert!(bytes_to_intarr(vec![1, 2, 3]).is_empty());
}

#[test]
fn triple_zip_varies_last_fastest() {
    let v = triple_zip(0..2, 5..6, 1..3);
    assert_eq!(v, vec![(0, 5, 1), (0, 5, 2), (1, 5, 1), (1, 5, 2)]);
    assert!(triple_zip(0..2, 3..3, 0..4).is_empty());
}

#[test]
fn memory_allocate_copy_release() {
    let mut m = Memory::new();
    m.allocate(100, 4);
    assert_eq!(m.byte(100), Some(0));
    assert_eq!(m.byte(104), None);
    m.copy_from_host(99, &[9, 1, 2, 3, 4, 5]);
    assert_eq!(m.copy_to_host(99, 6), vec![None, Some(1), Some(2), Some(3), Some(4), None]);
    m.set_byte(101, 42);
    m.set_byte(200, 42);
    assert_eq!(m.byte(101), Some(42));
    assert_eq!(m.byte(200), None);
    m.release(100);
    assert_eq!(m.byte(100), None);
    assert!(m.sizes.is_empty());
    assert!(m.data.is_empty());
}

#[test]
fn memory_address_helpers() {
    let a = MemoryAddress::from_address(10);
    assert_eq!(a.plus(6).address, 16);
    assert_eq!(MemoryElement::new().as_byte(), 0);
}

#[test]
fn copy_kind_codes() {
    assert_eq!(CUmemcpyKind::from_code(1), Some(CUmemcpyKind::HostToDevice));
    assert_eq!(CUmemcpyKind::from_code(2), Some(CUmemcpyKind::DeviceToHost));
    assert_eq!(CUmemcpyKind::from_code(4), None);
    assert_eq!(CudaError::Success.code(), 0);
    assert_eq!(CudaError::MemoryAllocation.code(), 2);
    assert_eq!(dim3::zero(), dim3 { x: 0, y: 0, z: 0 });
}

#[test]
fn unit_reads_ids_and_adds() {
    let mut u = unit_with(vec![
        (InstType::MovTidX, vec![1]),
        (InstType::MovNtidX, vec![2]),
        (InstType::MovCtaidX, vec![3]),
        (InstType::MadLoS32, vec![4, 3, 2, 1]),
        (InstType::AddS32Imm, vec![5, 4, 0xffff_ffff]),
        (InstType::Ret, vec![]),
    ]);
    u.set_execute_id(7, 0, 0, 2, 0, 0, 64, 1, 1, 4, 1, 1);
    let mut mem = Memory::new();
    let args = vec![];
    for _ in 0..5 {
        assert_eq!(u.execute_clock(&mut mem, &args), StepOutcome::Executed);
    }
    assert_eq!(u.reg_r(4), 2 * 64 + 7);
    assert_eq!(u.reg_r(5), 2 * 64 + 6);
    assert_eq!(u.execute_clock(&mut mem, &args), StepOutcome::Executed);
    assert!(u.is_done());
    assert_eq!(u.execute_clock(&mut mem, &args), StepOutcome::Finished);
}

#[test]
fn unit_asks_for_float_work() {
    let mut u = unit_with(vec![
        (InstType::MovF32Bits, vec![1, 1.5f32.to_bits() as usize]),
        (InstType::MovF32Bits, vec![2, 2.25f32.to_bits() as usize]),
        (InstType::AddF32, vec![3, 1, 2]),
    ]);
    let mut mem = Memory::new();
    let args = vec![];
    u.execute_clock(&mut mem, &args);
    u.execute_clock(&mut mem, &args);
    let out = u.execute_clock(&mut mem, &args);
    assert_eq!(
        out,
        StepOutcome::Float(FloatRequest {
            op: FloatOp::Add,
            dst: 3,
            a: 1.5f32.to_bits(),
            b: 2.25f32.to_bits(),
            c: 0,
            int_value: 0,
        })
    );
    assert_eq!(u.pc(), 2);
    u.complete_float(3, 3.75f32.to_bits());
    assert_eq!(u.reg_f(3), 3.75f32.to_bits());
    assert!(u.is_done());
}

#[test]
fn unit_loads_params_and_memory() {
    let mut u = unit_with(vec![
        (InstType::LdParamU64, vec![1, 0]),
        (InstType::LdParamU32, vec![2, 1]),
        (InstType::LdGlobalU32, vec![3, 1]),
        (InstType::MovF32FromB32, vec![5, 2]),
        (InstType::StGlobalF32, vec![1, 5]),
        (InstType::LdParamU32, vec![4, 5]),
    ]);
    let mut mem = Memory::new();
    mem.allocate(1000, 4);
    mem.copy_from_host(1000, &[0x78, 0x56, 0x34, 0x12]);
    let args = vec![1000, 0xabcd];
    for _ in 0..3 {
        assert_eq!(u.execute_clock(&mut mem, &args), StepOutcome::Executed);
    }
    assert_eq!(u.reg_rd(1), 1000);
    assert_eq!(u.reg_r(3), 0x1234_5678);
    assert_eq!(u.execute_clock(&mut mem, &args), StepOutcome::Executed);
    assert_eq!(u.execute_clock(&mut mem, &args), StepOutcome::Executed);
    assert_eq!(mem.copy_to_host(1000, 4), vec![Some(0xcd), Some(0xab), Some(0), Some(0)]);
    assert_eq!(u.execute_clock(&mut mem, &args), StepOutcome::Fault(Fault::BadParam));
    assert_eq!(u.pc(), 5);
}

#[test]
fn unit_faults_on_unallocated_load() {
    let mut u = unit_with(vec![(InstType::MovU64Imm, vec![1, 5000]), (InstType::LdGlobalU32, vec![2, 1])]);
    let mut mem = Memory::new();
    let args = vec![];
    u.execute_clock(&mut mem, &args);
    assert_eq!(u.execute_clock(&mut mem, &args), StepOutcome::Fault(Fault::BadAddress));
}

#[test]
fn unit_branches_on_predicate() {
    let mut u = unit_with(vec![
        (InstType::MovU32Imm, vec![1, 3]),
        (InstType::SetpLtS32Imm, vec![1, 1, 5]),
        (InstType::BraIf, vec![1, 4]),
        (InstType::MovU32Imm, vec![2, 99]),
        (InstType::Ret, vec![]),
    ]);
    let mut mem = Memory::new();
    let args = vec![];
    for _ in 0..3 {
        u.execute_clock(&mut mem, &args);
    }
    assert_eq!(u.pc(), 4);
    assert!(u.reg_p(1));
    assert_eq!(u.reg_r(2), 0);
}

#[test]
fn unit_rejects_short_operands() {
    let mut u = unit_with(vec![(InstType::AddS32, vec![1, 2])]);
    let mut mem = Memory::new();
    assert_eq!(u.execute_clock(&mut mem, &vec![]), StepOutcome::Fault(Fault::BadOperand));
    assert_eq!(u.pc(), 0);
}

#[test]
fn fresh_warp_is_inactive_with_full_threads() {
    let w = Warp::new();
    assert_eq!(w.threads.len(), WARP_SIZE);
    assert_eq!(w.state, WarpState::InActive);
    assert!(!w.is_occupied());
    assert!(w.all_threads_done());
    assert_eq!(w.next_execute_unit_class(), None);
    assert_eq!(WarpState::Stalled.code(), 1);
}

#[test]
fn warp_coords_fill_leading_threads() {
    let mut w = Warp::new();
    w.set_coords((1, 2, 3), vec![(4, 0, 0), (5, 0, 0)]);
    assert_eq!(w.threads[0].grid_pos, dim3 { x: 1, y: 2, z: 3 });
    assert_eq!(w.threads[1].threads_pos, dim3 { x: 5, y: 0, z: 0 });
    assert_eq!(w.threads[2].grid_pos, dim3 { x: 0, y: 0, z: 0 });
    w.set_state(WarpState::Active);
    assert!(w.is_occupied());
}

#[test]
fn warp_divergence_counts_threads_off_the_leader() {
    let mut w = Warp::new();
    for t in w.threads.iter_mut() {
        t.execute_unit.import_inst(vec![
            make_inst(InstType::MovU32Imm, vec![1, 1]),
            make_inst(InstType::Ex2ApproxF32, vec![1, 1]),
        ]);
    }
    assert_eq!(w.divergence_score(), 0);
    assert_eq!(w.next_execute_unit_class(), Some(gisor::inst_type::ExecuteUnitClass::Generic));
    let mut mem = Memory::new();
    w.threads[3].execute_unit.execute_clock(&mut mem, &vec![]);
    w.threads[4].execute_unit.execute_clock(&mut mem, &vec![]);
    assert_eq!(w.divergence_score(), 2);
    assert!(!w.all_threads_done());
}

#[test]
fn thread_positions() {
    let mut t = Thread::new();
    t.set_grid_pos(dim3 { x: 1, y: 0, z: 0 });
    t.set_threads_pos(dim3 { x: 2, y: 3, z: 0 });
    assert_eq!(t.grid_pos.x, 1);
    assert_eq!(t.threads_pos, dim3 { x: 2, y: 3, z: 0 });
    assert!(t.execute_unit.is_done());
}

#[test]
fn translate_keeps_used_slots() {
    let recs = [
        InstInfo { opcode: InstType::AddS32, args: [1, 2, 3, 9, 9, 9, 9, 9], arg_count: 3 },
        InstInfo { opcode: InstType::Ret, args: [7; 8], arg_count: 0 },
    ];
    let out = translate(&recs);
    assert_eq!(out.len(), 2);
    assert_eq!(out[0].inst_type, InstType::AddS32);
    assert_eq!(out[0].args, vec![1, 2, 3]);
    assert_eq!(out[1].inst_type, InstType::Ret);
    assert!(out[1].args.is_empty());
}

#[test]
fn unit_faults_on_wide_shift() {
    let mut u = unit_with(vec![(InstType::MovU32Imm, vec![1, 3]), (InstType::ShlB32, vec![2, 1, 32]), (InstType::ShlB32, vec![2, 1, 4])]);
    let mut mem = Memory::new();
    let args = vec![];
    u.execute_clock(&mut mem, &args);
    assert_eq!(u.execute_clock(&mut mem, &args), StepOutcome::Fault(Fault::BadShift));
    assert_eq!(u.pc(), 1);
}

#[test]
fn setp_ge_with_immediate_compares_the_register() {
    let mut u = unit_with(vec![
        (InstType::MovU32Imm, vec![1, 5]),
        (InstType::SetpGeS32Imm, vec![0, 1, 3]),
        (InstType::SetpGeS32Imm, vec![2, 1, 9]),
        (InstType::MovU32Imm, vec![3, 0xffff_fffe]),
        (InstType::SetpGeS32Imm, vec![4, 3, 0]),
    ]);
    let mut mem = Memory::new();
    let args = vec![];
    for _ in 0..5 {
        assert_eq!(u.execute_clock(&mut mem, &args), StepOutcome::Executed);
    }
    assert!(u.reg_p(0));
    assert!(!u.reg_p(2));
    // -2 >= 0 is false: the register is read as a signed 32-bit value.
    assert!(!u.reg_p(4));
}

#[test]
fn store_u32_writes_the_register() {
    let mut u = unit_with(vec![
        (InstType::MovU64Imm, vec![1, 2000]),
        (InstType::MovU32Imm, vec![2, 0x0102_0304]),
        (InstType::StGlobalU32, vec![1, 2]),
    ]);
    let mut mem = Memory::new();
    mem.allocate(2000, 4);
    let args = vec![];
    for _ in 0..3 {
        assert_eq!(u.execute_clock(&mut mem, &args), StepOutcome::Executed);
    }
    assert_eq!(mem.copy_to_host(2000, 4), vec![Some(4), Some(3), Some(2), Some(1)]);
}

#[test]
fn instructions_without_semantics_fault() {
    let mut u = unit_with(vec![(InstType::AndB32, vec![1, 2, 3])]);
    let mut mem = Memory::new();
    assert_eq!(u.execute_clock(&mut mem, &vec![]), StepOutcome::Fault(Fault::Unsupported));
    assert_eq!(u.pc(), 0);
}

#[test]
fn memory_address_plus_usize() {
    let a = MemoryAddress::from_address(100);
    assert_eq!(a.plus_usize(28).address, 128);
    assert_eq!(a.plus_usize(0), a);
}
