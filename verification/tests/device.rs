use gisor::basegpu::{RegisterError, ThreadRecord, GPU};
use gisor::execute_unit::{FloatOp, FloatRequest, StepOutcome};
use gisor::inst_type::{ExecuteUnitClass, InstType};
use gisor::memory::MemoryAddress;
use gisor::nvtypes::dim3;
use gisor::sm::SM;
use gisor::warp::WarpState;

const ADD_KERNEL: &str = r#"
.version 9.1
.target sm_75
.address_size 64

.visible .entry _Z9addKernelPfS_S_i(
    .param .u64 _Z9addKernelPfS_S_i_param_0,
    .param .u64 _Z9addKernelPfS_S_i_param_1,
    .param .u64 _Z9addKernelPfS_S_i_param_2,
    .param .u32 _Z9addKernelPfS_S_i_param_3
)
{
    .reg .pred     %p<2>;
    .reg .f32     %f<4>;
    .reg .b32     %r<6>;
    .reg .b64     %rd<11>;

    ld.param.u64     %rd1, [_Z9addKernelPfS_S_i_param_0];
    ld.param.u64     %rd2, [_Z9addKernelPfS_S_i_param_1];
    ld.param.u64     %rd3, [_Z9addKernelPfS_S_i_param_2];
    ld.param.u32     %r2, [_Z9addKernelPfS_S_i_param_3];
    mov.u32     %r3, %tid.x;
    mov.u32     %r4, %ntid.x;
    mov.u32     %r5, %ctaid.x;
    mad.lo.s32     %r1, %r5, %r4, %r3;
    setp.ge.s32     %p1, %r1, %r2;
    @%p1 bra     $L__BB0_2;

    cvta.to.global.u64     %rd4, %rd1;
    mul.wide.s32     %rd5, %r1, 4;
    add.s64     %rd6, %rd4, %rd5;
    cvta.to.global.u64     %rd7, %rd2;
    add.s64     %rd8, %rd7, %rd5;
    ld.global.f32     %f1, [%rd8];
    ld.global.f32     %f2, [%rd6];
    add.f32     %f3, %f2, %f1;
    cvta.to.global.u64     %rd9, %rd3;
    add.s64     %rd10, %rd9, %rd5;
    st.global.f32     [%rd10], %f3;

$L__BB0_2:
    ret;

}
"#;

fn d3(x: u32, y: u32, z: u32) -> dim3 {
    dim3 { x, y, z }
}

/// The warps that hold work after a launch, as (SM, warp) pairs, SM by SM.
fn active_warps(gpu: &GPU) -> Vec<(usize, usize)> {
    let mut out = Vec::new();
    for (s, sm) in gpu.sms.iter().enumerate() {
        for (w, warp) in sm.warps.iter().enumerate() {
            if warp.state == WarpState::Active {
                out.push((s, w));
            }
        }
    }
    out
}

fn eval_float(req: &FloatRequest) -> u32 {
    let a = f32::from_bits(req.a);
    let b = f32::from_bits(req.b);
    let c = f32::from_bits(req.c);
    let v = match req.op {
        FloatOp::FromInt => req.int_value as f32,
        FloatOp::Add => a + b,
        FloatOp::Sub => a - b,
        FloatOp::Mul => a * b,
        FloatOp::MulAdd => a * b + c,
        FloatOp::Recip => 1.0 / a,
        FloatOp::Saturate => a.clamp(0.0, 1.0),
        FloatOp::Exp2 => a.exp2(),
    };
    v.to_bits()
}

/// Runs the selected kernel to completion; returns the number of rounds.
fn run(gpu: &mut GPU, args: &Vec<usize>) -> usize {
    let mut active = gpu.start_execution(args).expect("kernel and launch are set");
    let mut rounds = 0;
    while !active.is_empty() {
        let clock = match gpu.execute_round(&active, args) {
            Some(c) => c,
            None => break,
        };
        for (t, outcome) in clock.outcomes.iter().enumerate() {
            match outcome {
                StepOutcome::Float(req) => {
                    let bits = eval_float(req);
                    gpu.complete_float(clock.sm, clock.warp, t, req.dst, bits);
                }
                StepOutcome::Fault(f) => panic!("fault {:?}", f),
                _ => {}
            }
        }
        gpu.finish_warp_clock(clock.sm, clock.warp);
        active = gpu.retain_active(&active);
        rounds += 1;
    }
    rounds
}

fn alloc_bytes(gpu: &mut GPU, size: usize) -> MemoryAddress {
    loop {
        if let Some((a, s)) = gpu.malloc(size) {
            assert_eq!(s, size);
            return a;
        }
    }
}

fn floats_to_bytes(v: &[f32]) -> Vec<u8> {
    v.iter().flat_map(|x| x.to_le_bytes()).collect()
}

#[test]
fn reserve_free_warps_returns_available_indices() {
    let mut sm = SM::new(4);

    let first = sm.reserve_free_warps(2).unwrap();
    assert_eq!(first, vec![0, 1]);
    assert!(sm.can_reserve_warps(2));

    let second = sm.reserve_free_warps(2).unwrap();
    assert_eq!(second, vec![2, 3]);
    assert!(sm.is_full());
}

#[test]
fn execute_unit_classifies_ptx_instructions() {
    assert_eq!(InstType::LdGlobalF32.execute_unit_class(), ExecuteUnitClass::Memory);
    assert_eq!(InstType::Ex2ApproxF32.execute_unit_class(), ExecuteUnitClass::Special);
    assert_eq!(InstType::AddS32.execute_unit_class(), ExecuteUnitClass::Generic);
}

#[test]
fn reserving_more_than_free_changes_nothing() {
    let mut sm = SM::new(3);
    assert_eq!(sm.reserve_free_warps(4), None);
    assert!(sm.can_reserve_warps(3));
    assert_eq!(sm.reserve_free_warps(3), Some(vec![0, 1, 2]));
    assert_eq!(sm.reserve_free_warps(1), None);
    assert!(sm.is_full());
}

#[test]
fn launch_places_blocks_round_robin() {
    let mut gpu = GPU::new(2, 4);
    let unplaced = gpu.set_launch_params(d3(3, 1, 1), d3(64, 1, 1));
    assert!(unplaced.is_empty());
    // Two warps per block; blocks go to SM 0, SM 1, then SM 0 again.
    assert_eq!(active_warps(&gpu), vec![(0, 0), (0, 1), (0, 2), (0, 3), (1, 0), (1, 1)]);
    assert_eq!(gpu.sms[0].warps[2].threads[0].grid_pos, d3(2, 0, 0));
    assert_eq!(gpu.sms[1].warps[1].threads[5].grid_pos, d3(1, 0, 0));
    assert_eq!(gpu.sms[1].warps[1].threads[5].threads_pos, d3(37, 0, 0));
    assert!(gpu.sms[0].is_full());
    assert!(gpu.sms[1].can_reserve_warps(2));
}

#[test]
fn launch_reports_blocks_without_room() {
    let mut gpu = GPU::new(2, 4);
    let unplaced = gpu.set_launch_params(d3(5, 1, 1), d3(64, 1, 1));
    assert_eq!(unplaced, vec![(4, 0, 0)]);
    assert_eq!(active_warps(&gpu).len(), 8);
}

#[test]
fn partial_warp_gets_the_remaining_threads() {
    let mut gpu = GPU::new(1, 4);
    let unplaced = gpu.set_launch_params(d3(1, 1, 1), d3(40, 1, 1));
    assert!(unplaced.is_empty());
    assert_eq!(active_warps(&gpu), vec![(0, 0), (0, 1)]);
    assert_eq!(gpu.sms[0].warps[1].threads[7].threads_pos, d3(39, 0, 0));
}

#[test]
fn thread_records_list_every_thread() {
    let mut gpu = GPU::new(1, 2);
    gpu.set_launch_params(d3(1, 1, 1), d3(2, 1, 1));
    let recs = gpu.thread_records();
    assert_eq!(recs.len(), 64);
    assert_eq!(
        recs[1],
        ThreadRecord {
            sm_id: 0,
            warp_id: 0,
            thread_id: 1,
            grid_x: 0,
            grid_y: 0,
            grid_z: 0,
            thread_x: 1,
            thread_y: 0,
            thread_z: 0,
            warp_state: 0,
        }
    );
    assert_eq!(recs[32].warp_id, 1);
    assert_eq!(recs[32].warp_state, 2);
}

#[test]
fn malloc_then_free() {
    let mut gpu = GPU::new(1, 1);
    let a = alloc_bytes(&mut gpu, 8);
    assert_eq!(gpu.memory.byte(a.address), Some(0));
    assert_eq!(gpu.memory.byte(a.address + 7), Some(0));
    gpu.free(a);
    assert_eq!(gpu.memory.byte(a.address), None);
    assert!(gpu.memory.sizes.is_empty());
    assert!(gpu.memory.data.is_empty());
}

#[test]
fn register_reads_argument_count() {
    let mut gpu = GPU::new(1, 1);
    assert!(gpu.register_function("_Z9addKernelPfS_S_i", ADD_KERNEL).is_ok());
    assert_eq!(gpu.num_args, Some(4));
    assert_eq!(gpu.kernel_symbol.as_deref(), Some("_Z9addKernelPfS_S_i"));
    assert_eq!(gpu.kernels.len(), 1);
    assert_eq!(gpu.kernels[0].1.len(), 22);
    // Registering again replaces the entry.
    assert!(gpu.register_function("_Z9addKernelPfS_S_i", ADD_KERNEL).is_ok());
    assert_eq!(gpu.kernels.len(), 1);
}

#[test]
fn register_rejects_bad_ptx() {
    let mut gpu = GPU::new(1, 1);
    let r = gpu.register_function("_Z9addKernelPfS_S_i", ".version 9.1\n");
    assert!(matches!(r, Err(RegisterError::Ptx(_))));
    assert!(gpu.kernels.is_empty());
    assert_eq!(gpu.kernel_symbol, None);
}

#[test]
fn register_rejects_unmangled_symbol() {
    let mut gpu = GPU::new(1, 1);
    let r = gpu.register_function("addKernel", ADD_KERNEL);
    assert!(matches!(r, Err(RegisterError::Demangle)));
    // The kernel is stored and selected before the symbol is read.
    assert_eq!(gpu.kernels.len(), 1);
    assert_eq!(gpu.kernel_symbol.as_deref(), Some("addKernel"));
    assert_eq!(gpu.num_args, None);
}

#[test]
fn start_needs_kernel_and_launch() {
    let mut gpu = GPU::new(1, 2);
    assert!(gpu.start_execution(&vec![]).is_none());
    gpu.register_function("_Z9addKernelPfS_S_i", ADD_KERNEL).unwrap();
    assert!(gpu.start_execution(&vec![]).is_none());
    gpu.select_kernel("_Z5otherv".to_string());
    gpu.set_launch_params(d3(1, 1, 1), d3(32, 1, 1));
    assert!(gpu.start_execution(&vec![]).is_none());
    gpu.select_kernel("_Z9addKernelPfS_S_i".to_string());
    assert_eq!(gpu.start_execution(&vec![1, 2, 3, 4]), Some(vec![(0, 0)]));
    assert_eq!(gpu.num_args, Some(4));
}

#[test]
fn add_kernel_runs_end_to_end() {
    let n: usize = 100;
    let mut gpu = GPU::new(2, 8);
    gpu.register_function("_Z9addKernelPfS_S_i", ADD_KERNEL).unwrap();

    let a: Vec<f32> = (0..n).map(|i| i as f32).collect();
    let b: Vec<f32> = (0..n).map(|i| 0.5 * i as f32).collect();
    let da = alloc_bytes(&mut gpu, 4 * n);
    let db = alloc_bytes(&mut gpu, 4 * n);
    let dc = alloc_bytes(&mut gpu, 4 * n);
    gpu.memory.copy_from_host(da.address, &floats_to_bytes(&a));
    gpu.memory.copy_from_host(db.address, &floats_to_bytes(&b));

    let unplaced = gpu.set_launch_params(d3(2, 1, 1), d3(64, 1, 1));
    assert!(unplaced.is_empty());
    let args = vec![da.address as usize, db.address as usize, dc.address as usize, n];
    let rounds = run(&mut gpu, &args);
    assert!(rounds > 0);
    assert!(active_warps(&gpu).is_empty());

    let out = gpu.memory.copy_to_host(dc.address, 4 * n);
    for i in 0..n {
        let bytes = [
            out[4 * i].unwrap(),
            out[4 * i + 1].unwrap(),
            out[4 * i + 2].unwrap(),
            out[4 * i + 3].unwrap(),
        ];
        assert_eq!(f32::from_le_bytes(bytes), 1.5 * i as f32, "element {}", i);
    }
}

#[test]
fn warps_past_the_bound_do_not_store() {
    let n: usize = 10;
    let mut gpu = GPU::new(1, 4);
    gpu.register_function("_Z9addKernelPfS_S_i", ADD_KERNEL).unwrap();
    let da = alloc_bytes(&mut gpu, 4 * n);
    let db = alloc_bytes(&mut gpu, 4 * n);
    let dc = alloc_bytes(&mut gpu, 4 * n);
    gpu.memory.copy_from_host(da.address, &floats_to_bytes(&vec![1.0; n]));
    gpu.memory.copy_from_host(db.address, &floats_to_bytes(&vec![2.0; n]));
    gpu.set_launch_params(d3(1, 1, 1), d3(32, 1, 1));
    let args = vec![da.address as usize, db.address as usize, dc.address as usize, n];
    run(&mut gpu, &args);
    let out = gpu.memory.copy_to_host(dc.address, 4 * n);
    for i in 0..n {
        let bytes = [out[4 * i].unwrap(), out[4 * i + 1].unwrap(), out[4 * i + 2].unwrap(), out[4 * i + 3].unwrap()];
        assert_eq!(f32::from_le_bytes(bytes), 3.0);
    }
    assert_eq!(gpu.sms[0].warps[0].state, WarpState::InActive);
}

#[test]
fn register_rejects_unreadable_signature() {
    let mut gpu = GPU::new(1, 1);
    // Demangles to `foo(Bar)`; `Bar` is no known C type.
    let r = gpu.register_function("_Z3foo3Bar", ADD_KERNEL);
    assert!(matches!(r, Err(RegisterError::Signature(_))), "{:?}", r);
    assert_eq!(gpu.kernel_symbol.as_deref(), Some("_Z3foo3Bar"));
    assert_eq!(gpu.num_args, None);
}

#[test]
fn register_reads_namespaced_symbol() {
    let mut gpu = GPU::new(1, 1);
    // Demangles to `space::foo(int, bool, char)`; the `::` is skipped.
    assert!(gpu.register_function("_ZN5space3fooEibc", ADD_KERNEL).is_ok());
    assert_eq!(gpu.num_args, Some(3));
}

#[test]
fn free_queue_hands_out_each_index_once() {
    let mut q = gisor::sm::FreeQueue::new(3);
    assert_eq!(q.len(), 3);
    assert_eq!(q.pop_front(), Some(0));
    assert_eq!(q.pop_front(), Some(1));
    assert_eq!(q.pop_front(), Some(2));
    assert_eq!(q.pop_front(), None);
    assert_eq!(q.len(), 0);
    let sm = SM::new(2);
    sm.lemma_free_sound();
    assert_eq!(sm.free_warps.len(), 2);
}

#[test]
fn a_warp_that_finishes_in_its_clock_becomes_inactive() {
    let mut gpu = GPU::new(1, 1);
    gpu.register_function("_Z9addKernelPfS_S_i", ADD_KERNEL).unwrap();
    gpu.set_launch_params(d3(1, 1, 1), d3(32, 1, 1));
    // n = 0: every thread branches straight to `ret`.
    let args = vec![0, 0, 0, 0];
    let active = gpu.start_execution(&args).unwrap();
    let mut rounds = 0;
    while gpu.sms[0].warps[0].state == WarpState::Active {
        let clock = gpu.execute_best_class_warp(&active, gpu_class(&gpu), &args).expect("a warp runs");
        assert_eq!(clock.outcomes.len(), 32);
        rounds += 1;
        assert!(rounds < 20);
    }
    // The round that ran `ret` made the warp inactive, with no further call.
    assert!(gpu.sms[0].warps[0].all_threads_done());
    assert!(gpu.retain_active(&active).is_empty());
}

fn gpu_class(gpu: &GPU) -> ExecuteUnitClass {
    gpu.sms[0].warps[0].next_execute_unit_class().unwrap()
}
