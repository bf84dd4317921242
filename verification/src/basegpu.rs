//! The emulated device: its memory, its streaming multiprocessors, the kernels
//! registered with it, how a launch is spread over warps, and how warps are
//! picked to run.

use crate::memory::{fits, with_zeroed, without_range, Memory, MemoryAddress, MemoryElement};
use crate::inst_info::{copy_insts, inst_info, InstView};
use crate::ptx_output::insts_view;
use crate::sm::{free_ok, lemma_free_split, SM};
use crate::nvtypes::dim3;
use crate::execute_unit::{set_f, step, unit_done, StepOutcome, UnitView, NUM_REGS};
use crate::c_signature::sp_c_sig;
use crate::frontend::{parse, parse_c_signature, sp_ptx};
use crate::parse_error::ParseError;
use crate::inst_type::ExecuteUnitClass;
use crate::warp::{all_done, divergence, next_class};
use crate::warp_scheduler::{lemma_prioritize_sorted_permutation, prioritize, prioritized, Candidate};
use crate::thread::ThreadV;
use crate::utils::{grid_points, lemma_zip_points, range_len, triple_zip};
use crate::warp::{fresh_warp, threads_view, Warp, WarpState, WarpV};
use vstd::prelude::*;

verus! {

/// The shape of a launch: blocks in the grid, threads in a block.
#[derive(Debug, Clone, Copy)]
pub struct LaunchParams {
    pub grid: (u32, u32, u32),
    pub block: (u32, u32, u32),
}

/// The value of an SM: its warps and its queue of free warps.
pub struct SmV {
    pub warps: Seq<WarpV>,
    pub free: Seq<usize>,
}

pub open spec fn warps_view(v: Seq<Warp>) -> Seq<WarpV> {
    Seq::new(v.len(), |i: int| v[i]@)
}

pub open spec fn sm_view(s: SM) -> SmV {
    SmV { warps: warps_view(s.warps@), free: s.free() }
}

pub open spec fn sms_view(v: Seq<SM>) -> Seq<SmV> {
    Seq::new(v.len(), |i: int| sm_view(v[i]))
}

/// The value of the device.
pub struct GpuV {
    pub data: Map<u64, MemoryElement>,
    pub sizes: Map<u64, usize>,
    pub sms: Seq<SmV>,
    /// The warps given work by the last launch, as (SM, warp) pairs.
    pub scheduled: Seq<(usize, usize)>,
    pub kernel_symbol: Option<Seq<char>>,
    pub launch: Option<LaunchParams>,
    pub raw_ptx: Option<Seq<char>>,
    pub num_args: Option<usize>,
    /// Registered kernels: name and instructions.
    pub kernels: Seq<(Seq<char>, Seq<InstView>)>,
    /// Where the search for an SM starts.
    pub hint: usize,
}

/// The emulated device.
pub struct GPU {
    pub memory: Memory,
    pub sms: Vec<SM>,
    scheduled_warps: Vec<(usize, usize)>,
    pub kernel_symbol: Option<String>,
    launch_params: Option<LaunchParams>,
    raw_ptx: Option<String>,
    pub num_args: Option<usize>,
    pub kernels: Vec<(String, Vec<inst_info>)>,
    next_sm_hint: usize,
}

pub open spec fn opt_text(s: Option<String>) -> Option<Seq<char>> {
    match s {
        Some(x) => Some(x@),
        None => None,
    }
}

pub open spec fn kernels_view(v: Seq<(String, Vec<inst_info>)>) -> Seq<(Seq<char>, Seq<InstView>)> {
    Seq::new(v.len(), |i: int| (v[i].0@, insts_view(v[i].1@)))
}

impl View for GPU {
    type V = GpuV;

    closed spec fn view(&self) -> GpuV {
        GpuV {
            data: self.memory.data@,
            sizes: self.memory.sizes@,
            sms: sms_view(self.sms@),
            scheduled: self.scheduled_warps@,
            kernel_symbol: opt_text(self.kernel_symbol),
            launch: self.launch_params,
            raw_ptx: opt_text(self.raw_ptx),
            num_args: self.num_args,
            kernels: kernels_view(self.kernels@),
            hint: self.next_sm_hint,
        }
    }
}

/// The scheduled warps exist, none is listed twice, and none is still free.
pub open spec fn sched_ok(sms: Seq<SmV>, sched: Seq<(usize, usize)>) -> bool {
    &&& sched.no_duplicates()
    &&& forall|k: int|
        0 <= k < sched.len() ==> {
            let (s, w) = #[trigger] sched[k];
            &&& s < sms.len()
            &&& w < sms[s as int].warps.len()
            &&& !sms[s as int].free.contains(w)
        }
}

/// Kernel names are unique.
pub open spec fn names_unique(k: Seq<(Seq<char>, Seq<InstView>)>) -> bool {
    forall|i: int, j: int| 0 <= i < k.len() && 0 <= j < k.len() && i != j ==> k[i].0 != k[j].0
}

/// The device invariant.
pub open spec fn gpu_wf(g: GpuV) -> bool {
    &&& g.sms.len() <= usize::MAX
    &&& forall|a: u64| #[trigger] g.sizes.contains_key(a) ==> fits(a, g.sizes[a] as int)
    &&& forall|s: int|
        0 <= s < g.sms.len() ==> free_ok(#[trigger] g.sms[s].free, g.sms[s].warps.len())
            && g.sms[s].warps.len() <= usize::MAX
    &&& sched_ok(g.sms, g.scheduled)
    &&& (g.sms.len() == 0 || g.hint < g.sms.len())
    &&& names_unique(g.kernels)
}

/// The SM a block of `needed` warps goes to: the first of up to eight SMs,
/// starting at `hint` and wrapping around, with enough free warps; failing
/// that, the first such SM in index order.
pub open spec fn pick_sm(sms: Seq<SmV>, hint: int, needed: nat) -> Option<int> {
    if sms.len() == 0 {
        None
    } else {
        let w = if sms.len() < 8 {
            sms.len() as int
        } else {
            8
        };
        match pick_window(sms, hint, needed, 0, w) {
            Some(i) => Some(i),
            None => pick_scan(sms, needed, 0),
        }
    }
}

pub open spec fn pick_window(sms: Seq<SmV>, hint: int, needed: nat, o: int, w: int) -> Option<int>
    decreases w - o,
{
    if o < 0 || o >= w {
        None
    } else if sms[(hint + o) % (sms.len() as int)].free.len() >= needed {
        Some((hint + o) % (sms.len() as int))
    } else {
        pick_window(sms, hint, needed, o + 1, w)
    }
}

pub open spec fn pick_scan(sms: Seq<SmV>, needed: nat, i: int) -> Option<int>
    decreases sms.len() - i,
{
    if i < 0 || i >= sms.len() {
        None
    } else if sms[i].free.len() >= needed {
        Some(i)
    } else {
        pick_scan(sms, needed, i + 1)
    }
}

proof fn lemma_pick_window(sms: Seq<SmV>, hint: int, needed: nat, o: int, w: int)
    requires
        sms.len() > 0,
        0 <= hint,
        0 <= o,
    ensures
        pick_window(sms, hint, needed, o, w) matches Some(i) ==> 0 <= i < sms.len()
            && sms[i].free.len() >= needed,
    decreases w - o,
{
    if o < w && sms[(hint + o) % (sms.len() as int)].free.len() < needed {
        lemma_pick_window(sms, hint, needed, o + 1, w);
    }
}

proof fn lemma_pick_scan(sms: Seq<SmV>, needed: nat, i: int)
    requires
        0 <= i,
    ensures
        pick_scan(sms, needed, i) matches Some(k) ==> i <= k < sms.len() && sms[k].free.len()
            >= needed,
    decreases sms.len() - i,
{
    if i < sms.len() && sms[i].free.len() < needed {
        lemma_pick_scan(sms, needed, i + 1);
    }
}

/// The SM chosen exists and has room.
pub proof fn lemma_pick_sm(sms: Seq<SmV>, hint: int, needed: nat)
    requires
        0 <= hint,
    ensures
        pick_sm(sms, hint, needed) matches Some(i) ==> 0 <= i < sms.len() && sms[i].free.len()
            >= needed,
{
    if sms.len() > 0 {
        let w = if sms.len() < 8 {
            sms.len() as int
        } else {
            8
        };
        lemma_pick_window(sms, hint, needed, 0, w);
        lemma_pick_scan(sms, needed, 0);
    }
}

impl GPU {
    /// A device with `num_sms` SMs of `warps_per_sm` fresh warps each, empty
    /// memory, and nothing registered or launched.
    pub fn new(num_sms: usize, warps_per_sm: usize) -> (g: GPU)
        ensures
            gpu_wf(g@),
            g@.sms.len() == num_sms,
            forall|s: int|
                0 <= s < num_sms ==> {
                    &&& (#[trigger] g@.sms[s]).warps.len() == warps_per_sm
                    &&& forall|w: int| 0 <= w < warps_per_sm ==> fresh_warp(#[trigger] g@.sms[s].warps[w])
                    &&& g@.sms[s].free == Seq::new(warps_per_sm as nat, |i: int| i as usize)
                },
            g@.data == Map::<u64, MemoryElement>::empty(),
            g@.sizes == Map::<u64, usize>::empty(),
            g@.scheduled == Seq::<(usize, usize)>::empty(),
            g@.kernel_symbol is None,
            g@.launch is None,
            g@.raw_ptx is None,
            g@.num_args is None,
            g@.kernels == Seq::<(Seq<char>, Seq<InstView>)>::empty(),
            g@.hint == 0,
    {
        let mut sms: Vec<SM> = Vec::new();
        let mut i: usize = 0;
        while i < num_sms
            invariant
                i <= num_sms,
                sms@.len() == i,
                forall|s: int|
                    0 <= s < i ==> {
                        &&& (#[trigger] sms@[s]).warps@.len() == warps_per_sm
                        &&& forall|w: int|
                            0 <= w < warps_per_sm ==> fresh_warp(#[trigger] sms@[s].warps@[w]@)
                        &&& sms@[s].free() == Seq::new(warps_per_sm as nat, |k: int| k as usize)
                        &&& sms@[s].wf()
                    },
            decreases num_sms - i,
        {
            sms.push(SM::new(warps_per_sm));
            i = i + 1;
        }
        let g = GPU {
            memory: Memory::new(),
            sms,
            scheduled_warps: Vec::new(),
            kernel_symbol: None,
            launch_params: None,
            raw_ptx: None,
            num_args: None,
            kernels: Vec::new(),
            next_sm_hint: 0,
        };
        assert(g@.kernels =~= Seq::<(Seq<char>, Seq<InstView>)>::empty());
        g
    }

    /// Allocates `size` zeroed bytes at an address drawn at random; always
    /// succeeds. When the drawn address leaves no room for `size` bytes below
    /// the top of the address space, the allocation goes to the highest base
    /// that does (`2^64 - size`).
    pub fn malloc(&mut self, size: usize) -> (r: Option<(MemoryAddress, usize)>)
        requires
            gpu_wf(old(self)@),
        ensures
            gpu_wf(final(self)@),
            r matches Some((a, s)) && {
                &&& s == size
                &&& fits(a.address, size as int)
                &&& final(self)@ == (GpuV {
                    data: with_zeroed(old(self)@.data, a.address, size as int),
                    sizes: old(self)@.sizes.insert(a.address, size),
                    ..old(self)@
                })
            },
    {
        let drawn = MemoryAddress::new();
        let addr = if drawn.address as u128 + size as u128 > 0x1_0000_0000_0000_0000u128 {
            MemoryAddress::from_address((0x1_0000_0000_0000_0000u128 - size as u128) as u64)
        } else {
            drawn
        };
        self.memory.allocate(addr.address, size);
        Some((addr, size))
    }

    /// Frees the allocation based at `addr`, with its bytes.
    pub fn free(&mut self, addr: MemoryAddress)
        requires
            gpu_wf(old(self)@),
            old(self)@.sizes.contains_key(addr.address),
        ensures
            gpu_wf(final(self)@),
            final(self)@ == (GpuV {
                data: without_range(
                    old(self)@.data,
                    addr.address,
                    old(self)@.sizes[addr.address] as int,
                ),
                sizes: old(self)@.sizes.remove(addr.address),
                ..old(self)@
            }),
    {
        self.memory.release(addr.address);
    }

    /// Keeps the PTX text of the program.
    pub fn load_ptx(&mut self, ptx: String)
        ensures
            final(self)@ == (GpuV { raw_ptx: Some(ptx@), ..old(self)@ }),
    {
        self.raw_ptx = Some(ptx);
    }

    /// Chooses the kernel that `execute` runs.
    pub fn select_kernel(&mut self, kernel: String)
        ensures
            final(self)@ == (GpuV { kernel_symbol: Some(kernel@), ..old(self)@ }),
    {
        self.kernel_symbol = Some(kernel);
    }

    /// Reserves `warps_needed` warps on the SM that `pick_sm` names and moves the
    /// search start past it; `None` when no SM has room.
    pub fn reserve_sms_for_block(&mut self, warps_needed: usize) -> (r: Option<(usize, Vec<usize>)>)
        requires
            gpu_wf(old(self)@),
        ensures
            gpu_wf(final(self)@),
            match pick_sm(old(self)@.sms, old(self)@.hint as int, warps_needed as nat) {
                None => r is None && final(self)@ == old(self)@,
                Some(smi) => r matches Some((s, ids)) && s == smi && ids@ == old(self)@.sms[smi].free.take(
                    warps_needed as int,
                ) && final(self)@ == (GpuV {
                    sms: old(self)@.sms.update(
                        smi,
                        SmV {
                            free: old(self)@.sms[smi].free.skip(warps_needed as int),
                            ..old(self)@.sms[smi]
                        },
                    ),
                    hint: ((smi + 1) % (old(self)@.sms.len() as int)) as usize,
                    ..old(self)@
                }),
            },
    {
        proof {
            lemma_pick_sm(self@.sms, self@.hint as int, warps_needed as nat);
        }
        let n = self.sms.len();
        if n == 0 {
            return None;
        }
        let window = if n < 8 {
            n
        } else {
            8
        };
        let mut offset: usize = 0;
        while offset < window
            invariant
                self@ == old(self)@,
                gpu_wf(self@),
                n == self@.sms.len(),
                n > 0,
                window == (if n < 8 { n } else { 8 }),
                offset <= window,
                pick_window(self@.sms, self@.hint as int, warps_needed as nat, 0, window as int)
                    == pick_window(
                    self@.sms,
                    self@.hint as int,
                    warps_needed as nat,
                    offset as int,
                    window as int,
                ),
            decreases window - offset,
        {
            let smi = ((self.next_sm_hint as u128 + offset as u128) % (n as u128)) as usize;
            assert(smi as int == (self@.hint + offset) % (n as int));
            if self.sms[smi].can_reserve_warps(warps_needed) {
                return self.take_warps(smi, warps_needed);
            }
            offset = offset + 1;
        }
        let mut smi: usize = 0;
        while smi < n
            invariant
                self@ == old(self)@,
                gpu_wf(self@),
                n == self@.sms.len(),
                n > 0,
                smi <= n,
                pick_window(self@.sms, self@.hint as int, warps_needed as nat, 0, (if n < 8 { n } else { 8 }) as int) is None,
                pick_scan(self@.sms, warps_needed as nat, 0) == pick_scan(
                    self@.sms,
                    warps_needed as nat,
                    smi as int,
                ),
            decreases n - smi,
        {
            if self.sms[smi].can_reserve_warps(warps_needed) {
                return self.take_warps(smi, warps_needed);
            }
            smi = smi + 1;
        }
        None
    }

    /// Reserves `count` warps on SM `smi`, which has room, and moves the search
    /// start past it.
    fn take_warps(&mut self, smi: usize, count: usize) -> (r: Option<(usize, Vec<usize>)>)
        requires
            gpu_wf(old(self)@),
            smi < old(self)@.sms.len(),
            old(self)@.sms[smi as int].free.len() >= count,
        ensures
            gpu_wf(final(self)@),
            r matches Some((s, ids)) && s == smi && ids@ == old(self)@.sms[smi as int].free.take(
                count as int,
            ) && final(self)@ == (GpuV {
                sms: old(self)@.sms.update(
                    smi as int,
                    SmV {
                        free: old(self)@.sms[smi as int].free.skip(count as int),
                        ..old(self)@.sms[smi as int]
                    },
                ),
                hint: ((smi + 1) % (old(self)@.sms.len() as int)) as usize,
                ..old(self)@
            }),
    {
        let ghost g0 = self@;
        let n = self.sms.len();
        let ids = match self.sms[smi].reserve_free_warps(count) {
            Some(v) => v,
            None => Vec::new(),
        };
        self.next_sm_hint = (smi + 1) % n;
        proof {
            let f = g0.sms[smi as int].free;
            lemma_free_split(f, count as int, g0.sms[smi as int].warps.len());
            assert(self@.sms =~= g0.sms.update(
                smi as int,
                SmV { free: f.skip(count as int), ..g0.sms[smi as int] },
            ));
            assert forall|k: int| 0 <= k < self@.scheduled.len() implies {
                let (s, w) = #[trigger] self@.scheduled[k];
                !self@.sms[s as int].free.contains(w)
            } by {
                let (s, w) = self@.scheduled[k];
                if s == smi {
                    if f.skip(count as int).contains(w) {
                        let j = choose|j: int| 0 <= j < f.skip(count as int).len() && f.skip(count as int)[j] == w;
                        assert(f[j + count] == w);
                    }
                }
            }
        }
        Some((smi, ids))
    }
}

// ---------------------------------------------------------------------------
// Launch: spreading the blocks of a grid over warps.
// ---------------------------------------------------------------------------

/// A point as a `dim3`.
pub open spec fn at(p: (u32, u32, u32)) -> dim3 {
    dim3 { x: p.0, y: p.1, z: p.2 }
}

/// Threads `32j .. 32j + 32` (as far as there are any) of a block's threads.
pub open spec fn chunk(coords: Seq<(u32, u32, u32)>, j: int) -> Seq<(u32, u32, u32)> {
    let lo = if 32 * j < coords.len() {
        32 * j
    } else {
        coords.len() as int
    };
    let hi = if 32 * j + 32 < coords.len() {
        32 * j + 32
    } else {
        coords.len() as int
    };
    coords.subrange(lo, hi)
}

/// A warp given the threads `cs` of block `block`: it becomes active, and each
/// of its first `|cs|` threads takes the block position and its coordinate.
pub open spec fn placed_warp(w: WarpV, block: (u32, u32, u32), cs: Seq<(u32, u32, u32)>) -> WarpV {
    WarpV {
        state: WarpState::Active,
        threads: Seq::new(
            w.threads.len(),
            |i: int|
                if i < cs.len() {
                    ThreadV { grid_pos: at(block), threads_pos: at(cs[i]), unit: w.threads[i].unit }
                } else {
                    w.threads[i]
                },
        ),
    }
}

/// The warps of an SM after warps `ids[0..k]` took chunks `0..k` of the block's threads.
pub open spec fn place_warps(
    warps: Seq<WarpV>,
    ids: Seq<usize>,
    k: int,
    block: (u32, u32, u32),
    coords: Seq<(u32, u32, u32)>,
) -> Seq<WarpV>
    decreases k,
{
    if k <= 0 {
        warps
    } else {
        let prev = place_warps(warps, ids, k - 1, block, coords);
        prev.update(ids[k - 1] as int, placed_warp(prev[ids[k - 1] as int], block, chunk(coords, k - 1)))
    }
}

/// `(smi, w)` for each `w` of `ids`.
pub open spec fn pairs(smi: usize, ids: Seq<usize>) -> Seq<(usize, usize)> {
    ids.map_values(|w: usize| (smi, w))
}

/// The number of warps a block of `n` threads needs.
pub open spec fn warps_for(n: nat) -> nat {
    (n + 31) / 32
}

/// One block: on the SM that `pick_sm` names, the next `needed` free warps take
/// the block's threads in chunks of 32 and are scheduled; the search start moves
/// past that SM. `false` (and nothing changes) when no SM has room.
pub open spec fn launch_block(
    g: GpuV,
    block: (u32, u32, u32),
    needed: nat,
    coords: Seq<(u32, u32, u32)>,
) -> (GpuV, bool) {
    match pick_sm(g.sms, g.hint as int, needed) {
        None => (g, false),
        Some(smi) => {
            let ids = g.sms[smi].free.take(needed as int);
            (
                GpuV {
                    sms: g.sms.update(
                        smi,
                        SmV {
                            warps: place_warps(g.sms[smi].warps, ids, needed as int, block, coords),
                            free: g.sms[smi].free.skip(needed as int),
                        },
                    ),
                    scheduled: g.scheduled + pairs(smi as usize, ids),
                    hint: ((smi + 1) % (g.sms.len() as int)) as usize,
                    ..g
                },
                true,
            )
        },
    }
}

/// Blocks `0..k`, in order: the device afterwards, and the blocks that found no room.
pub open spec fn launch_blocks(
    g: GpuV,
    blocks: Seq<(u32, u32, u32)>,
    k: int,
    needed: nat,
    coords: Seq<(u32, u32, u32)>,
) -> (GpuV, Seq<(u32, u32, u32)>)
    decreases k,
{
    if k <= 0 {
        (g, Seq::empty())
    } else {
        let (g1, un) = launch_blocks(g, blocks, k - 1, needed, coords);
        let (g2, ok) = launch_block(g1, blocks[k - 1], needed, coords);
        (
            g2,
            if ok {
                un
            } else {
                un.push(blocks[k - 1])
            },
        )
    }
}

/// The device as a launch begins: the launch shape recorded, nothing scheduled.
pub open spec fn launch_start(g: GpuV, grid: dim3, threads: dim3) -> GpuV {
    GpuV {
        launch: Some(LaunchParams { grid: (grid.x, grid.y, grid.z), block: (threads.x, threads.y, threads.z) }),
        scheduled: Seq::empty(),
        ..g
    }
}

/// The device after launching `grid` blocks of `threads` threads, and the blocks
/// that found no room: blocks go in `triple_zip` order, each needing
/// `ceil(threads / 32)` warps (see `launch_block`).
pub open spec fn launch(g: GpuV, grid: dim3, threads: dim3) -> (GpuV, Seq<(u32, u32, u32)>) {
    let blocks = grid_points(grid.x as int, grid.y as int, grid.z as int);
    let coords = grid_points(threads.x as int, threads.y as int, threads.z as int);
    launch_blocks(
        launch_start(g, grid, threads),
        blocks,
        blocks.len() as int,
        warps_for(coords.len()),
        coords,
    )
}

proof fn lemma_place_warps_len(
    warps: Seq<WarpV>,
    ids: Seq<usize>,
    k: int,
    block: (u32, u32, u32),
    coords: Seq<(u32, u32, u32)>,
)
    requires
        k <= ids.len(),
        forall|j: int| 0 <= j < ids.len() ==> #[trigger] ids[j] < warps.len(),
    ensures
        place_warps(warps, ids, k, block, coords).len() == warps.len(),
    decreases k,
{
    if k > 0 {
        lemma_place_warps_len(warps, ids, k - 1, block, coords);
    }
}

/// One block keeps the device invariant: in particular the warps it schedules
/// were free, so none of them is scheduled twice.
proof fn lemma_launch_block_wf(
    g: GpuV,
    block: (u32, u32, u32),
    needed: nat,
    coords: Seq<(u32, u32, u32)>,
)
    requires
        gpu_wf(g),
    ensures
        gpu_wf(launch_block(g, block, needed, coords).0),
{
    lemma_pick_sm(g.sms, g.hint as int, needed);
    match pick_sm(g.sms, g.hint as int, needed) {
        None => {},
        Some(smi) => {
            let f = g.sms[smi].free;
            let n = g.sms[smi].warps.len();
            let ids = f.take(needed as int);
            lemma_free_split(f, needed as int, n);
            lemma_place_warps_len(g.sms[smi].warps, ids, needed as int, block, coords);
            let g2 = launch_block(g, block, needed, coords).0;
            assert forall|s: int| 0 <= s < g2.sms.len() implies free_ok(
                #[trigger] g2.sms[s].free,
                g2.sms[s].warps.len(),
            ) && g2.sms[s].warps.len() <= usize::MAX by {}
            let old_s = g.scheduled;
            let new_s = pairs(smi as usize, ids);
            assert((smi as usize) as int == smi);
            assert forall|k: int| 0 <= k < g2.scheduled.len() implies {
                let (s, w) = #[trigger] g2.scheduled[k];
                &&& s < g2.sms.len()
                &&& w < g2.sms[s as int].warps.len()
                &&& !g2.sms[s as int].free.contains(w)
            } by {
                if k < old_s.len() {
                    assert(g2.scheduled[k] == old_s[k]);
                    let (s, w) = old_s[k];
                    assert(s < g.sms.len() && w < g.sms[s as int].warps.len() && !g.sms[s as int].free.contains(w));
                    if s as int == smi {
                        if f.skip(needed as int).contains(w) {
                            let j = choose|j: int|
                                0 <= j < f.skip(needed as int).len() && f.skip(needed as int)[j] == w;
                            assert(f[j + needed] == w);
                            assert(f.contains(w));
                        }
                    }
                } else {
                    let j = k - old_s.len();
                    assert(g2.scheduled[k] == new_s[j]);
                    assert(new_s[j] == (smi as usize, ids[j]));
                    assert(ids[j] == f[j]);
                    assert(ids[j] < n);
                    if f.skip(needed as int).contains(ids[j]) {
                        let m = choose|m: int|
                            0 <= m < f.skip(needed as int).len() && f.skip(needed as int)[m]
                                == ids[j];
                        assert(f.take(needed as int)[j] != f.skip(needed as int)[m]);
                    }
                }
            }
            assert(g2.scheduled.no_duplicates()) by {
                assert forall|a: int, b: int|
                    0 <= a < g2.scheduled.len() && 0 <= b < g2.scheduled.len() && a != b implies g2.scheduled[a]
                    != g2.scheduled[b] by {
                    if a < old_s.len() && b < old_s.len() {
                        assert(g2.scheduled[a] == old_s[a]);
                        assert(g2.scheduled[b] == old_s[b]);
                    } else if a >= old_s.len() && b >= old_s.len() {
                        let ja = a - old_s.len();
                        let jb = b - old_s.len();
                        assert(g2.scheduled[a] == new_s[ja]);
                        assert(g2.scheduled[b] == new_s[jb]);
                        assert(ids[ja] != ids[jb]);
                    } else {
                        let (o, nn) = if a < old_s.len() {
                            (a, b - old_s.len())
                        } else {
                            (b, a - old_s.len())
                        };
                        assert(g2.scheduled[o] == old_s[o]);
                        assert(g2.scheduled[nn + old_s.len()] == new_s[nn]);
                        let (s, w) = old_s[o];
                        assert(!g.sms[s as int].free.contains(w));
                        if s as int == smi && w == ids[nn] {
                            assert(f[nn] == ids[nn]);
                            assert(f.contains(w));
                        }
                    }
                }
            }
        },
    }
}

/// Any number of blocks keeps the device invariant.
proof fn lemma_launch_blocks_wf(
    g: GpuV,
    blocks: Seq<(u32, u32, u32)>,
    k: int,
    needed: nat,
    coords: Seq<(u32, u32, u32)>,
)
    requires
        gpu_wf(g),
    ensures
        gpu_wf(launch_blocks(g, blocks, k, needed, coords).0),
    decreases k,
{
    if k > 0 {
        lemma_launch_blocks_wf(g, blocks, k - 1, needed, coords);
        let g1 = launch_blocks(g, blocks, k - 1, needed, coords).0;
        lemma_launch_block_wf(g1, blocks[k - 1], needed, coords);
    }
}

/// The points `v[lo..hi]`.
fn copy_range(v: &Vec<(u32, u32, u32)>, lo: usize, hi: usize) -> (out: Vec<(u32, u32, u32)>)
    requires
        lo <= hi <= v@.len(),
    ensures
        out@ == v@.subrange(lo as int, hi as int),
{
    let mut out: Vec<(u32, u32, u32)> = Vec::new();
    let mut k: usize = lo;
    while k < hi
        invariant
            lo <= k <= hi <= v@.len(),
            out@ == v@.subrange(lo as int, k as int),
        decreases hi - k,
    {
        out.push(v[k]);
        k = k + 1;
        assert(out@ =~= v@.subrange(lo as int, k as int));
    }
    out
}

proof fn lemma_chunk_start(j: int, n: int)
    requires
        0 <= j,
        0 <= n,
        j < (n + 31) / 32,
    ensures
        32 * j < n,
{
    assert(32 * j < n) by (nonlinear_arith)
        requires
            0 <= j,
            0 <= n,
            j < (n + 31) / 32,
    ;
}

impl GPU {
    /// One block (see `launch_block`).
    fn schedule_block(
        &mut self,
        block: (u32, u32, u32),
        warps_needed: usize,
        coords: &Vec<(u32, u32, u32)>,
    ) -> (ok: bool)
        requires
            gpu_wf(old(self)@),
            warps_needed == warps_for(coords@.len()),
        ensures
            (final(self)@, ok) == launch_block(old(self)@, block, warps_needed as nat, coords@),
    {
        let ghost g = self@;
        proof {
            lemma_pick_sm(g.sms, g.hint as int, warps_needed as nat);
        }
        let (smi, warp_ids) = match self.reserve_sms_for_block(warps_needed) {
            None => {
                return false;
            },
            Some(p) => p,
        };
        let ghost gr = self@;
        let ghost ids = warp_ids@;
        let ghost f = g.sms[smi as int].free;
        let ghost w0 = g.sms[smi as int].warps;
        proof {
            lemma_free_split(f, warps_needed as int, w0.len());
        }
        let n = coords.len();
        let mut j: usize = 0;
        proof {
            assert(gr.sms.update(smi as int, SmV { warps: w0, free: f.skip(warps_needed as int) })
                =~= gr.sms);
            assert(g.scheduled + pairs(smi, ids.take(0)) =~= g.scheduled);
        }
        while j < warp_ids.len()
            invariant
                gpu_wf(g),
                warp_ids@ == ids,
                ids == f.take(warps_needed as int),
                ids.len() == warps_needed,
                warps_needed == warps_for(coords@.len()),
                n == coords@.len(),
                smi < g.sms.len(),
                f == g.sms[smi as int].free,
                w0 == g.sms[smi as int].warps,
                free_ok(ids, w0.len()),
                j <= ids.len(),
                gr.sms == g.sms.update(smi as int, SmV { free: f.skip(warps_needed as int), ..g.sms[smi as int] }),
                gr.scheduled == g.scheduled,
                self@ == (GpuV {
                    sms: gr.sms.update(
                        smi as int,
                        SmV {
                            warps: place_warps(w0, ids, j as int, block, coords@),
                            free: f.skip(warps_needed as int),
                        },
                    ),
                    scheduled: g.scheduled + pairs(smi, ids.take(j as int)),
                    ..gr
                }),
            decreases ids.len() - j,
        {
            proof {
                lemma_chunk_start(j as int, n as int);
                lemma_place_warps_len(w0, ids, j as int, block, coords@);
            }
            let wi = warp_ids[j];
            let lo = 32 * j;
            let hi = if n - lo > 32 {
                lo + 32
            } else {
                n
            };
            let part = copy_range(coords, lo, hi);
            let ghost prev = place_warps(w0, ids, j as int, block, coords@);
            let ghost before = self.sms@;
            assert(sms_view(before) == gr.sms.update(
                smi as int,
                SmV { warps: prev, free: f.skip(warps_needed as int) },
            ));
            assert(ids[j as int] == wi);
            assert(wi < w0.len());
            assert(prev.len() == w0.len());
            assert(self@.sms[smi as int].warps == prev);
            assert(self@.sms.len() == self.sms@.len());
            assert(smi < self.sms@.len());
            assert(self@.sms[smi as int] == sm_view(self.sms@[smi as int]));
            assert(self.sms@[smi as int].warps@.len() == prev.len());
            assert(self.sms@[smi as int].warps@[wi as int]@ == prev[wi as int]);
            self.sms[smi].warps[wi].set_state(WarpState::Active);
            self.sms[smi].warps[wi].set_coords(block, part);
            self.scheduled_warps.push((smi, wi));
            proof {
                let nw = self.sms@[smi as int].warps@[wi as int]@;
                assert(part@ == chunk(coords@, j as int));
                assert(nw.threads =~= placed_warp(prev[wi as int], block, part@).threads);
                assert(nw == placed_warp(prev[wi as int], block, chunk(coords@, j as int)));
                assert(warps_view(self.sms@[smi as int].warps@) =~= place_warps(
                    w0,
                    ids,
                    j + 1,
                    block,
                    coords@,
                ));
                assert(self.sms@.len() == before.len());
                assert(self.sms@[smi as int].free() == before[smi as int].free());
                assert(sms_view(before)[smi as int].free == f.skip(warps_needed as int));
                let xs = SmV {
                    warps: place_warps(w0, ids, j + 1, block, coords@),
                    free: f.skip(warps_needed as int),
                };
                let ps = SmV { warps: prev, free: f.skip(warps_needed as int) };
                assert forall|i: int| 0 <= i < self.sms@.len() && i != smi implies sms_view(
                    self.sms@,
                )[i] == gr.sms.update(smi as int, xs)[i] by {
                    assert(self.sms@[i] == before[i]);
                    assert(sms_view(before)[i] == gr.sms.update(smi as int, ps)[i]);
                    assert(gr.sms.update(smi as int, ps)[i] == gr.sms[i]);
                    assert(gr.sms.update(smi as int, xs)[i] == gr.sms[i]);
                }
                assert(sms_view(self.sms@)[smi as int].warps == place_warps(w0, ids, j + 1, block, coords@));
                assert(sms_view(self.sms@)[smi as int].free == f.skip(warps_needed as int));
                assert(sms_view(self.sms@)[smi as int] == SmV {
                    warps: place_warps(w0, ids, j + 1, block, coords@),
                    free: f.skip(warps_needed as int),
                });
                assert(sms_view(self.sms@) =~= gr.sms.update(
                    smi as int,
                    SmV {
                        warps: place_warps(w0, ids, j + 1, block, coords@),
                        free: f.skip(warps_needed as int),
                    },
                ));
                assert(pairs(smi, ids.take(j + 1)) =~= pairs(smi, ids.take(j as int)).push(
                    (smi, wi),
                ));
                assert(self.scheduled_warps@ =~= g.scheduled + pairs(smi, ids.take(j + 1)));
            }
            j = j + 1;
        }
        proof {
            assert(ids.take(ids.len() as int) =~= ids);
            let xs = SmV {
                warps: place_warps(w0, ids, warps_needed as int, block, coords@),
                free: f.skip(warps_needed as int),
            };
            assert(gr.sms.update(smi as int, xs) =~= g.sms.update(smi as int, xs));
        }
        true
    }

    /// Records a launch of `grid` blocks of `threads` threads and spreads the
    /// blocks over free warps (see `launch`). Returns the blocks that found no
    /// room; the warps they would have needed stay free.
    pub fn set_launch_params(&mut self, grid: dim3, threads: dim3) -> (unplaced: Vec<(u32, u32, u32)>)
        requires
            gpu_wf(old(self)@),
            grid.x * grid.y * grid.z <= usize::MAX,
            threads.x * threads.y * threads.z <= usize::MAX,
        ensures
            gpu_wf(final(self)@),
            final(self)@ == launch(old(self)@, grid, threads).0,
            unplaced@ == launch(old(self)@, grid, threads).1,
    {
        self.launch_params = Some(
            LaunchParams { grid: (grid.x, grid.y, grid.z), block: (threads.x, threads.y, threads.z) },
        );
        self.scheduled_warps = Vec::new();
        let ghost g0 = self@;
        assert(g0 == launch_start(old(self)@, grid, threads));
        let grid_zip = triple_zip(0..grid.x, 0..grid.y, 0..grid.z);
        let threads_zip = triple_zip(0..threads.x, 0..threads.y, 0..threads.z);
        let ghost blocks = grid_points(grid.x as int, grid.y as int, grid.z as int);
        let ghost coords = grid_points(threads.x as int, threads.y as int, threads.z as int);
        proof {
            lemma_zip_points(grid_zip@, 0..grid.x, 0..grid.y, 0..grid.z);
            lemma_zip_points(threads_zip@, 0..threads.x, 0..threads.y, 0..threads.z);
        }
        let n = threads_zip.len();
        let warps_needed: usize = n / 32 + if n % 32 == 0 {
            0
        } else {
            1
        };
        assert(warps_needed == warps_for(n as nat)) by (nonlinear_arith)
            requires
                warps_needed == n / 32 + if n % 32 == 0 {
                    0int
                } else {
                    1int
                },
        ;
        let mut unplaced: Vec<(u32, u32, u32)> = Vec::new();
        let mut bi: usize = 0;
        while bi < grid_zip.len()
            invariant
                gpu_wf(g0),
                grid_zip@ == blocks,
                threads_zip@ == coords,
                n == coords.len(),
                warps_needed == warps_for(coords.len()),
                bi <= blocks.len(),
                self@ == launch_blocks(g0, blocks, bi as int, warps_needed as nat, coords).0,
                unplaced@ == launch_blocks(g0, blocks, bi as int, warps_needed as nat, coords).1,
            decreases blocks.len() - bi,
        {
            proof {
                lemma_launch_blocks_wf(g0, blocks, bi as int, warps_needed as nat, coords);
            }
            let block = grid_zip[bi];
            let ok = self.schedule_block(block, warps_needed, &threads_zip);
            if !ok {
                unplaced.push(block);
            }
            bi = bi + 1;
        }
        proof {
            lemma_launch_blocks_wf(g0, blocks, bi as int, warps_needed as nat, coords);
        }
        unplaced
    }
}

// ---------------------------------------------------------------------------
// Preparing the scheduled warps to run a kernel.
// ---------------------------------------------------------------------------

/// A thread's unit made ready to run `insts`: it learns its position, its
/// block's position, the block shape and the grid shape, and gets the program
/// from its start.
pub open spec fn prepared_unit(t: ThreadV, lp: LaunchParams, insts: Seq<InstView>) -> UnitView {
    UnitView {
        ids: seq![
            t.threads_pos.x,
            t.threads_pos.y,
            t.threads_pos.z,
            t.grid_pos.x,
            t.grid_pos.y,
            t.grid_pos.z,
            lp.block.0,
            lp.block.1,
            lp.block.2,
            lp.grid.0,
            lp.grid.1,
            lp.grid.2,
        ],
        insts,
        total: insts.len() as u32,
        pc: 0,
        ..t.unit
    }
}

/// Every thread of a warp made ready (see `prepared_unit`).
pub open spec fn prepared_warp(w: WarpV, lp: LaunchParams, insts: Seq<InstView>) -> WarpV {
    WarpV {
        threads: Seq::new(
            w.threads.len(),
            |i: int| ThreadV { unit: prepared_unit(w.threads[i], lp, insts), ..w.threads[i] },
        ),
        ..w
    }
}

/// Whether warp `p` of `sms` is active.
pub open spec fn is_active(sms: Seq<SmV>, p: (usize, usize)) -> bool {
    sms[p.0 as int].warps[p.1 as int].state == WarpState::Active
}

/// The device once the active warps among `sched[0..k]` are ready to run `insts`.
pub open spec fn prepare_upto(g: GpuV, lp: LaunchParams, insts: Seq<InstView>, k: int) -> GpuV {
    GpuV {
        sms: Seq::new(
            g.sms.len(),
            |s: int|
                SmV {
                    warps: Seq::new(
                        g.sms[s].warps.len(),
                        |w: int|
                            if g.scheduled.take(k).contains((s as usize, w as usize))
                                && g.sms[s].warps[w].state == WarpState::Active {
                                prepared_warp(g.sms[s].warps[w], lp, insts)
                            } else {
                                g.sms[s].warps[w]
                            },
                    ),
                    ..g.sms[s]
                },
        ),
        ..g
    }
}

/// The entries of `sched[0..k]` whose warp is active, in order.
pub open spec fn active_upto(sms: Seq<SmV>, sched: Seq<(usize, usize)>, k: int) -> Seq<(usize, usize)>
    decreases k,
{
    if k <= 0 {
        Seq::empty()
    } else if is_active(sms, sched[k - 1]) {
        active_upto(sms, sched, k - 1).push(sched[k - 1])
    } else {
        active_upto(sms, sched, k - 1)
    }
}

impl GPU {
    /// Makes every thread of warp `warpi` of SM `smi` ready (see `prepared_warp`).
    fn prepare_warp(&mut self, smi: usize, warpi: usize, insts: &Vec<inst_info>, lp: LaunchParams)
        requires
            smi < old(self)@.sms.len(),
            warpi < old(self)@.sms[smi as int].warps.len(),
        ensures
            final(self)@ == (GpuV {
                sms: old(self)@.sms.update(
                    smi as int,
                    SmV {
                        warps: old(self)@.sms[smi as int].warps.update(
                            warpi as int,
                            prepared_warp(old(self)@.sms[smi as int].warps[warpi as int], lp, insts_view(insts@)),
                        ),
                        ..old(self)@.sms[smi as int]
                    },
                ),
                ..old(self)@
            }),
    {
        let ghost g = self@;
        let ghost w0 = g.sms[smi as int].warps[warpi as int];
        let ghost target = prepared_warp(w0, lp, insts_view(insts@));
        let n = self.sms[smi].warps[warpi].threads.len();
        assert(n == w0.threads.len());
        let mut i: usize = 0;
        proof {
            let w00 = WarpV {
                threads: Seq::new(n as nat, |k: int| if k < 0 { target.threads[k] } else { w0.threads[k] }),
                ..w0
            };
            assert(w00.threads =~= w0.threads);
            assert(g.sms[smi as int].warps.update(warpi as int, w00) =~= g.sms[smi as int].warps);
            let s00 = SmV { warps: g.sms[smi as int].warps.update(warpi as int, w00), ..g.sms[smi as int] };
            assert(g.sms.update(smi as int, s00) =~= g.sms);
        }
        while i < n
            invariant
                n == w0.threads.len(),
                i <= n,
                smi < g.sms.len(),
                warpi < g.sms[smi as int].warps.len(),
                w0 == g.sms[smi as int].warps[warpi as int],
                target == prepared_warp(w0, lp, insts_view(insts@)),
                self@ == (GpuV {
                    sms: g.sms.update(
                        smi as int,
                        SmV {
                            warps: g.sms[smi as int].warps.update(
                                warpi as int,
                                WarpV {
                                    threads: Seq::new(
                                        n as nat,
                                        |k: int|
                                            if k < i {
                                                target.threads[k]
                                            } else {
                                                w0.threads[k]
                                            },
                                    ),
                                    ..w0
                                },
                            ),
                            ..g.sms[smi as int]
                        },
                    ),
                    ..g
                }),
            decreases n - i,
        {
            let ghost before_sms = self.sms@;
            let ghost cur = self@;
            assert(self@.sms.len() == self.sms@.len());
            assert(self@.sms[smi as int] == sm_view(self.sms@[smi as int]));
            assert(self@.sms[smi as int].warps.len() == g.sms[smi as int].warps.len());
            assert(warps_view(self.sms@[smi as int].warps@).len() == self.sms@[smi as int].warps@.len());
            assert(self.sms@[smi as int].warps@.len() == g.sms[smi as int].warps.len());
            assert(self@.sms[smi as int].warps[warpi as int] == self.sms@[smi as int].warps@[warpi as int]@);
            assert(self@.sms[smi as int].warps[warpi as int].threads.len() == n);
            assert(self@.sms[smi as int].warps[warpi as int].threads[i as int] == w0.threads[i as int]);
            assert(self.sms@[smi as int].warps@[warpi as int]@.threads.len() == self.sms@[smi as int].warps@[warpi as int].threads@.len());
            assert(self.sms@[smi as int].warps@[warpi as int].threads@.len() == n);
            let t = &self.sms[smi].warps[warpi].threads[i];
            let (tx, ty, tz) = (t.threads_pos.x, t.threads_pos.y, t.threads_pos.z);
            let (gx, gy, gz) = (t.grid_pos.x, t.grid_pos.y, t.grid_pos.z);
            assert(self.sms@[smi as int].warps@[warpi as int].threads@[i as int]@ == w0.threads[i as int]);
            let ghost before_threads = self.sms@[smi as int].warps@[warpi as int].threads@;
            let ghost before_warps = self.sms@[smi as int].warps@;
            assert forall|k: int| 0 <= k < n implies #[trigger] before_threads[k]@ == (if k < i {
                target.threads[k]
            } else {
                w0.threads[k]
            }) by {
                assert(self@.sms[smi as int].warps[warpi as int].threads[k] == threads_view(
                    before_threads,
                )[k]);
            }
            let ghost wi_cur = WarpV {
                threads: Seq::new(n as nat, |k: int| if k < i { target.threads[k] } else { w0.threads[k] }),
                ..w0
            };
            let ghost si_cur = SmV {
                warps: g.sms[smi as int].warps.update(warpi as int, wi_cur),
                ..g.sms[smi as int]
            };
            assert(sms_view(before_sms) == g.sms.update(smi as int, si_cur));
            assert(warps_view(before_warps) == si_cur.warps);
            let program = copy_insts(insts);
            self.sms[smi].warps[warpi].threads[i].execute_unit.set_execute_id(
                tx,
                ty,
                tz,
                gx,
                gy,
                gz,
                lp.block.0,
                lp.block.1,
                lp.block.2,
                lp.grid.0,
                lp.grid.1,
                lp.grid.2,
            );
            self.sms[smi].warps[warpi].threads[i].execute_unit.import_inst(program);
            proof {
                let nt = self.sms@[smi as int].warps@[warpi as int].threads@[i as int]@;
                assert(program@.map_values(|x: inst_info| x@) =~= insts_view(insts@));
                assert(nt == target.threads[i as int]);
                let nw = WarpV {
                    threads: Seq::new(
                        n as nat,
                        |k: int|
                            if k < i + 1 {
                                target.threads[k]
                            } else {
                                w0.threads[k]
                            },
                    ),
                    ..w0
                };
                let now_threads = self.sms@[smi as int].warps@[warpi as int].threads@;
                assert forall|k: int| 0 <= k < n && k != i implies now_threads[k] == before_threads[k] by {}
                assert(self.sms@[smi as int].warps@[warpi as int]@.threads =~= nw.threads);
                assert forall|k: int| 0 <= k < before_warps.len() && k != warpi implies warps_view(self.sms@[smi as int].warps@)[k] == g.sms[smi as int].warps.update(warpi as int, nw)[k] by {
                    assert(self.sms@[smi as int].warps@[k] == before_warps[k]);
                    assert(warps_view(before_warps)[k] == si_cur.warps[k]);
                }
                assert(warps_view(self.sms@[smi as int].warps@) =~= g.sms[smi as int].warps.update(
                    warpi as int,
                    nw,
                ));
                let xs = SmV {
                    warps: g.sms[smi as int].warps.update(warpi as int, nw),
                    ..g.sms[smi as int]
                };
                assert forall|s: int| 0 <= s < self.sms@.len() && s != smi implies sms_view(
                    self.sms@,
                )[s] == g.sms.update(smi as int, xs)[s] by {
                    assert(self.sms@[s] == before_sms[s]);
                    assert(sms_view(before_sms)[s] == g.sms.update(smi as int, si_cur)[s]);
                }
                assert(sms_view(self.sms@)[smi as int] == xs);
                assert(sms_view(self.sms@) =~= g.sms.update(smi as int, xs));
            }
            i = i + 1;
        }
        proof {
            assert(Seq::new(n as nat, |k: int| if k < n { target.threads[k] } else { w0.threads[k] })
                =~= target.threads);
        }
    }
}

proof fn lemma_prepare_start(g: GpuV, lp: LaunchParams, insts: Seq<InstView>)
    ensures
        prepare_upto(g, lp, insts, 0) == g,
{
    let p = prepare_upto(g, lp, insts, 0);
    assert(g.scheduled.take(0) =~= Seq::<(usize, usize)>::empty());
    assert forall|s: int| 0 <= s < g.sms.len() implies p.sms[s] == g.sms[s] by {
        assert(p.sms[s].warps =~= g.sms[s].warps);
    }
    assert(p.sms =~= g.sms);
}

/// One more scheduled entry: its warp, untouched so far, is made ready if active.
proof fn lemma_prepare_step(g: GpuV, lp: LaunchParams, insts: Seq<InstView>, k: int)
    requires
        gpu_wf(g),
        0 <= k < g.scheduled.len(),
    ensures
        ({
            let (s, w) = g.scheduled[k];
            let p = prepare_upto(g, lp, insts, k);
            &&& p.sms.len() == g.sms.len()
            &&& p.sms[s as int].warps.len() == g.sms[s as int].warps.len()
            &&& p.sms[s as int].warps[w as int] == g.sms[s as int].warps[w as int]
            &&& prepare_upto(g, lp, insts, k + 1) == if is_active(g.sms, (s, w)) {
                GpuV {
                    sms: p.sms.update(
                        s as int,
                        SmV {
                            warps: p.sms[s as int].warps.update(
                                w as int,
                                prepared_warp(g.sms[s as int].warps[w as int], lp, insts),
                            ),
                            ..p.sms[s as int]
                        },
                    ),
                    ..p
                }
            } else {
                p
            }
        }),
{
    let (s, w) = g.scheduled[k];
    let p = prepare_upto(g, lp, insts, k);
    let q = prepare_upto(g, lp, insts, k + 1);
    let tk = g.scheduled.take(k);
    let tk1 = g.scheduled.take(k + 1);
    assert(tk1 =~= tk.push((s, w)));
    assert(!tk.contains((s, w))) by {
        if tk.contains((s, w)) {
            let j = choose|j: int| 0 <= j < tk.len() && tk[j] == (s, w);
            assert(g.scheduled[j] == g.scheduled[k]);
        }
    }
    assert forall|s2: int, w2: int|
        0 <= s2 < g.sms.len() && 0 <= w2 < g.sms[s2].warps.len() && (s2, w2) != (s as int, w as int) implies
        (#[trigger] tk1.contains((s2 as usize, w2 as usize)) == tk.contains((s2 as usize, w2 as usize))) by {
        if tk1.contains((s2 as usize, w2 as usize)) {
            let j = choose|j: int| 0 <= j < tk1.len() && tk1[j] == (s2 as usize, w2 as usize);
            if j < k {
                assert(tk[j] == tk1[j]);
            }
        }
        if tk.contains((s2 as usize, w2 as usize)) {
            let j = choose|j: int| 0 <= j < tk.len() && tk[j] == (s2 as usize, w2 as usize);
            assert(tk1[j] == tk[j]);
        }
    }
    assert(tk1.contains((s, w))) by {
        assert(tk1[k] == (s, w));
    }
    if is_active(g.sms, (s, w)) {
        let r = GpuV {
            sms: p.sms.update(
                s as int,
                SmV {
                    warps: p.sms[s as int].warps.update(
                        w as int,
                        prepared_warp(g.sms[s as int].warps[w as int], lp, insts),
                    ),
                    ..p.sms[s as int]
                },
            ),
            ..p
        };
        assert forall|s2: int| 0 <= s2 < g.sms.len() implies q.sms[s2] == r.sms[s2] by {
            assert(q.sms[s2].warps =~= r.sms[s2].warps);
        }
        assert(q.sms =~= r.sms);
    } else {
        assert forall|s2: int| 0 <= s2 < g.sms.len() implies q.sms[s2] == p.sms[s2] by {
            assert(q.sms[s2].warps =~= p.sms[s2].warps);
        }
        assert(q.sms =~= p.sms);
    }
}

/// Preparing warps keeps the device invariant.
proof fn lemma_prepare_wf(g: GpuV, lp: LaunchParams, insts: Seq<InstView>, k: int)
    requires
        gpu_wf(g),
    ensures
        gpu_wf(prepare_upto(g, lp, insts, k)),
{
    let p = prepare_upto(g, lp, insts, k);
    assert forall|s: int| 0 <= s < p.sms.len() implies free_ok(
        #[trigger] p.sms[s].free,
        p.sms[s].warps.len(),
    ) && p.sms[s].warps.len() <= usize::MAX by {
        assert(p.sms[s].free == g.sms[s].free);
    }
    assert forall|j: int| 0 <= j < p.scheduled.len() implies {
        let (s, w) = #[trigger] p.scheduled[j];
        &&& s < p.sms.len()
        &&& w < p.sms[s as int].warps.len()
        &&& !p.sms[s as int].free.contains(w)
    } by {
        let (s, w) = g.scheduled[j];
        assert(p.sms[s as int].free == g.sms[s as int].free);
    }
}

impl GPU {
    /// Makes the active scheduled warps ready to run `insts` (see
    /// `prepare_upto`), and lists them in schedule order.
    pub fn prepare_active_warps(&mut self, insts: &Vec<inst_info>) -> (active: Vec<(usize, usize)>)
        requires
            gpu_wf(old(self)@),
            old(self)@.launch is Some,
        ensures
            gpu_wf(final(self)@),
            final(self)@ == prepare_upto(
                old(self)@,
                old(self)@.launch->0,
                insts_view(insts@),
                old(self)@.scheduled.len() as int,
            ),
            active@ == active_upto(old(self)@.sms, old(self)@.scheduled, old(self)@.scheduled.len() as int),
    {
        let ghost g = self@;
        let lp = match self.launch_params {
            Some(lp) => lp,
            None => LaunchParams { grid: (0, 0, 0), block: (0, 0, 0) },
        };
        let mut active: Vec<(usize, usize)> = Vec::new();
        let mut k: usize = 0;
        proof {
            lemma_prepare_start(g, lp, insts_view(insts@));
        }
        while k < self.scheduled_warps.len()
            invariant
                gpu_wf(g),
                g.launch == Some(lp),
                k <= g.scheduled.len(),
                self.scheduled_warps@ == g.scheduled,
                self@ == prepare_upto(g, lp, insts_view(insts@), k as int),
                active@ == active_upto(g.sms, g.scheduled, k as int),
            decreases g.scheduled.len() - k,
        {
            let (smi, warpi) = self.scheduled_warps[k];
            proof {
                lemma_prepare_step(g, lp, insts_view(insts@), k as int);
                assert(self@.sms.len() == self.sms@.len());
                assert(self@.sms[smi as int] == sm_view(self.sms@[smi as int]));
                assert(self@.sms[smi as int].warps[warpi as int] == self.sms@[smi as int].warps@[warpi as int]@);
            }
            let act = self.sms[smi].warps[warpi].state == WarpState::Active;
            if act {
                self.prepare_warp(smi, warpi, insts, lp);
                active.push((smi, warpi));
            }
            k = k + 1;
        }
        proof {
            lemma_prepare_wf(g, lp, insts_view(insts@), k as int);
        }
        active
    }
}

// ---------------------------------------------------------------------------
// Picking a warp and running one clock of it.
// ---------------------------------------------------------------------------

/// Classes are tried in this order: special units, then memory, then generic.
pub open spec fn class_priority(c: ExecuteUnitClass) -> usize {
    match c {
        ExecuteUnitClass::Special => 0,
        ExecuteUnitClass::Memory => 1,
        ExecuteUnitClass::Generic => 2,
    }
}

/// The candidates among `active[0..k]`: the warps whose next instruction is of
/// class `c`, each as (SM, warp, class priority, divergence).
pub open spec fn candidates(sms: Seq<SmV>, active: Seq<(usize, usize)>, c: ExecuteUnitClass, k: int) -> Seq<
    Candidate,
>
    decreases k,
{
    if k <= 0 {
        Seq::empty()
    } else {
        let prev = candidates(sms, active, c, k - 1);
        let (s, w) = active[k - 1];
        let wv = sms[s as int].warps[w as int];
        if next_class(wv) == Some(c) {
            prev.push((s, w, class_priority(c), divergence(wv) as usize))
        } else {
            prev
        }
    }
}

/// Threads `0..k` of a warp clocked in order, each seeing the memory the
/// previous one left: the threads afterwards, the memory, and each outcome.
pub open spec fn clock_threads(ts: Seq<ThreadV>, mem: Map<u64, MemoryElement>, args: Seq<usize>, k: int) -> (
    Seq<ThreadV>,
    Map<u64, MemoryElement>,
    Seq<StepOutcome>,
)
    decreases k,
{
    if k <= 0 {
        (ts, mem, Seq::empty())
    } else {
        let (ts1, m1, outs) = clock_threads(ts, mem, args, k - 1);
        let st = step(ts1[k - 1].unit, m1, args);
        (ts1.update(k - 1, ThreadV { unit: st.unit, ..ts1[k - 1] }), st.mem, outs.push(st.outcome))
    }
}

/// For class `c`: the best candidate (first once prioritized: lowest
/// divergence, then lowest SM, then lowest warp) runs one clock on every
/// thread, and becomes inactive if all its threads have then finished. The
/// device afterwards, the warp's SM and index, and the outcomes; `None` when no
/// active warp's next instruction is of class `c`.
pub open spec fn class_clock(g: GpuV, active: Seq<(usize, usize)>, c: ExecuteUnitClass, args: Seq<usize>) -> Option<
    (GpuV, usize, usize, Seq<StepOutcome>),
> {
    let cands = candidates(g.sms, active, c, active.len() as int);
    if cands.len() == 0 {
        None
    } else {
        let best = prioritized(cands)[0];
        let (s, w) = (best.0, best.1);
        let wv = g.sms[s as int].warps[w as int];
        let (ts, mem, outs) = clock_threads(wv.threads, g.data, args, wv.threads.len() as int);
        Some(
            (
                GpuV {
                    data: mem,
                    sms: g.sms.update(
                        s as int,
                        SmV {
                            warps: g.sms[s as int].warps.update(
                                w as int,
                                finish_state(WarpV { threads: ts, ..wv }),
                            ),
                            ..g.sms[s as int]
                        },
                    ),
                    ..g
                },
                s,
                w,
                outs,
            ),
        )
    }
}

/// A warp after a clock: inactive once every thread has finished, as it was
/// otherwise.
pub open spec fn finish_state(wv: WarpV) -> WarpV {
    if all_done(wv) {
        WarpV { state: WarpState::InActive, ..wv }
    } else {
        wv
    }
}

/// Every listed warp exists.
pub open spec fn warps_exist(sms: Seq<SmV>, active: Seq<(usize, usize)>) -> bool {
    forall|k: int|
        0 <= k < active.len() ==> (#[trigger] active[k]).0 < sms.len() && active[k].1
            < sms[active[k].0 as int].warps.len()
}

proof fn lemma_candidates_exist(sms: Seq<SmV>, active: Seq<(usize, usize)>, c: ExecuteUnitClass, k: int)
    requires
        warps_exist(sms, active),
        k <= active.len(),
    ensures
        forall|i: int|
            0 <= i < candidates(sms, active, c, k).len() ==> (#[trigger] candidates(
                sms,
                active,
                c,
                k,
            )[i]).0 < sms.len() && candidates(sms, active, c, k)[i].1 < sms[candidates(
                sms,
                active,
                c,
                k,
            )[i].0 as int].warps.len(),
    decreases k,
{
    if k > 0 {
        lemma_candidates_exist(sms, active, c, k - 1);
        let prev = candidates(sms, active, c, k - 1);
        let x = active[k - 1];
        assert(x.0 < sms.len() && x.1 < sms[x.0 as int].warps.len());
        let cur = candidates(sms, active, c, k);
        assert forall|i: int| 0 <= i < cur.len() implies (#[trigger] cur[i]).0 < sms.len() && cur[i].1
            < sms[cur[i].0 as int].warps.len() by {
            if i < prev.len() {
                assert(cur[i] == prev[i]);
            }
        }
    }
}

proof fn lemma_clock_len(ts: Seq<ThreadV>, mem: Map<u64, MemoryElement>, args: Seq<usize>, k: int)
    requires
        k <= ts.len(),
    ensures
        clock_threads(ts, mem, args, k).0.len() == ts.len(),
        clock_threads(ts, mem, args, k).2.len() == if k > 0 { k } else { 0 },
        forall|i: int| k <= i < ts.len() ==> #[trigger] clock_threads(ts, mem, args, k).0[i] == ts[i],
    decreases k,
{
    if k > 0 {
        lemma_clock_len(ts, mem, args, k - 1);
    }
}

/// What one clock of a warp did.
pub struct WarpClock {
    pub sm: usize,
    pub warp: usize,
    /// One outcome per thread, in thread order.
    pub outcomes: Vec<StepOutcome>,
}

impl GPU {
    /// Runs one clock of thread `i` of warp `warpi` of SM `smi`.
    fn clock_thread(&mut self, smi: usize, warpi: usize, i: usize, args: &Vec<usize>) -> (out: StepOutcome)
        requires
            gpu_wf(old(self)@),
            smi < old(self)@.sms.len(),
            warpi < old(self)@.sms[smi as int].warps.len(),
            i < old(self)@.sms[smi as int].warps[warpi as int].threads.len(),
        ensures
            ({
                let g = old(self)@;
                let wv = g.sms[smi as int].warps[warpi as int];
                let st = step(wv.threads[i as int].unit, g.data, args@);
                &&& out == st.outcome
                &&& final(self)@ == (GpuV {
                    data: st.mem,
                    sms: g.sms.update(
                        smi as int,
                        SmV {
                            warps: g.sms[smi as int].warps.update(
                                warpi as int,
                                WarpV {
                                    threads: wv.threads.update(
                                        i as int,
                                        ThreadV { unit: st.unit, ..wv.threads[i as int] },
                                    ),
                                    ..wv
                                },
                            ),
                            ..g.sms[smi as int]
                        },
                    ),
                    ..g
                })
            }),
    {
        let ghost g = self@;
        let ghost before_sms = self.sms@;
        proof {
            assert(self@.sms[smi as int] == sm_view(self.sms@[smi as int]));
            assert(self@.sms[smi as int].warps[warpi as int] == self.sms@[smi as int].warps@[warpi as int]@);
            assert(self.sms@[smi as int].warps@[warpi as int].threads@[i as int]@ == g.sms[smi as int].warps[warpi as int].threads[i as int]);
        }
        let ghost before_warps = self.sms@[smi as int].warps@;
        let ghost before_threads = self.sms@[smi as int].warps@[warpi as int].threads@;
        let out = self.sms[smi].warps[warpi].threads[i].execute_unit.execute_clock(&mut self.memory, args);
        proof {
            let wv = g.sms[smi as int].warps[warpi as int];
            let st = step(wv.threads[i as int].unit, g.data, args@);
            let nw = WarpV {
                threads: wv.threads.update(i as int, ThreadV { unit: st.unit, ..wv.threads[i as int] }),
                ..wv
            };
            let now_threads = self.sms@[smi as int].warps@[warpi as int].threads@;
            assert forall|k: int| 0 <= k < now_threads.len() && k != i implies now_threads[k] == before_threads[k] by {}
            assert(self.sms@[smi as int].warps@[warpi as int]@.threads =~= nw.threads);
            assert forall|k: int| 0 <= k < before_warps.len() && k != warpi implies warps_view(
                self.sms@[smi as int].warps@,
            )[k] == g.sms[smi as int].warps.update(warpi as int, nw)[k] by {
                assert(self.sms@[smi as int].warps@[k] == before_warps[k]);
            }
            assert(warps_view(self.sms@[smi as int].warps@) =~= g.sms[smi as int].warps.update(
                warpi as int,
                nw,
            ));
            let xs = SmV { warps: g.sms[smi as int].warps.update(warpi as int, nw), ..g.sms[smi as int] };
            assert forall|s: int| 0 <= s < self.sms@.len() && s != smi implies sms_view(self.sms@)[s]
                == g.sms.update(smi as int, xs)[s] by {
                assert(self.sms@[s] == before_sms[s]);
            }
            assert(sms_view(self.sms@) =~= g.sms.update(smi as int, xs));
        }
        out
    }

    /// For class `unit_class`, picks the best candidate among `active_warps`,
    /// runs one clock on each of its threads, and marks the warp inactive when
    /// all of them have finished (see `class_clock`).
    pub fn execute_best_class_warp(
        &mut self,
        active_warps: &Vec<(usize, usize)>,
        unit_class: ExecuteUnitClass,
        args: &Vec<usize>,
    ) -> (r: Option<WarpClock>)
        requires
            gpu_wf(old(self)@),
            warps_exist(old(self)@.sms, active_warps@),
        ensures
            gpu_wf(final(self)@),
            match class_clock(old(self)@, active_warps@, unit_class, args@) {
                None => r is None && final(self)@ == old(self)@,
                Some((g2, s, w, outs)) => r matches Some(c) && c.sm == s && c.warp == w && c.outcomes@ == outs
                    && final(self)@ == g2,
            },
    {
        let ghost g = self@;
        let class_pri: usize = match unit_class {
            ExecuteUnitClass::Special => 0,
            ExecuteUnitClass::Memory => 1,
            ExecuteUnitClass::Generic => 2,
        };
        let mut scored: Vec<Candidate> = Vec::new();
        let mut k: usize = 0;
        while k < active_warps.len()
            invariant
                self@ == g,
                gpu_wf(g),
                warps_exist(g.sms, active_warps@),
                class_pri == class_priority(unit_class),
                k <= active_warps@.len(),
                scored@ == candidates(g.sms, active_warps@, unit_class, k as int),
            decreases active_warps@.len() - k,
        {
            let (smi, warpi) = active_warps[k];
            proof {
                assert(active_warps@[k as int] == (smi, warpi));
                assert(self@.sms[smi as int] == sm_view(self.sms@[smi as int]));
                assert(self@.sms[smi as int].warps[warpi as int] == self.sms@[smi as int].warps@[warpi as int]@);
            }
            let warp = &self.sms[smi].warps[warpi];
            let hit = match warp.next_execute_unit_class() {
                Some(c) => c == unit_class,
                None => false,
            };
            if hit {
                scored.push((smi, warpi, class_pri, warp.divergence_score()));
            }
            k = k + 1;
        }
        if scored.len() == 0 {
            return None;
        }
        let ghost cands = scored@;
        proof {
            lemma_prioritize_sorted_permutation(cands);
            lemma_candidates_exist(g.sms, active_warps@, unit_class, active_warps@.len() as int);
            cands.to_multiset_ensures();
            prioritized(cands).to_multiset_ensures();
            assert(prioritized(cands).contains(prioritized(cands)[0]));
            assert(cands.to_multiset().count(prioritized(cands)[0]) > 0);
            assert(cands.contains(prioritized(cands)[0]));
        }
        prioritize(&mut scored);
        let (smi, warpi, _, _) = scored[0];
        let ghost wv = g.sms[smi as int].warps[warpi as int];
        proof {
            let j = choose|j: int| 0 <= j < cands.len() && cands[j] == prioritized(cands)[0];
            assert(cands[j].0 < g.sms.len());
        }
        let n = self.sms[smi].warps[warpi].threads.len();
        proof {
            assert(self@.sms[smi as int] == sm_view(self.sms@[smi as int]));
            assert(self@.sms[smi as int].warps[warpi as int] == self.sms@[smi as int].warps@[warpi as int]@);
            assert(n == wv.threads.len());
        }
        let mut outcomes: Vec<StepOutcome> = Vec::new();
        let mut i: usize = 0;
        proof {
            assert(g.sms[smi as int].warps.update(warpi as int, WarpV { threads: wv.threads, ..wv })
                =~= g.sms[smi as int].warps);
            let s0 = SmV {
                warps: g.sms[smi as int].warps.update(warpi as int, WarpV { threads: wv.threads, ..wv }),
                ..g.sms[smi as int]
            };
            assert(g.sms.update(smi as int, s0) =~= g.sms);
            assert(outcomes@ =~= Seq::<StepOutcome>::empty());
        }
        while i < n
            invariant
                gpu_wf(g),
                smi < g.sms.len(),
                warpi < g.sms[smi as int].warps.len(),
                wv == g.sms[smi as int].warps[warpi as int],
                n == wv.threads.len(),
                i <= n,
                ({
                    let (ts, mem, outs) = clock_threads(wv.threads, g.data, args@, i as int);
                    &&& outcomes@ == outs
                    &&& self@ == (GpuV {
                        data: mem,
                        sms: g.sms.update(
                            smi as int,
                            SmV {
                                warps: g.sms[smi as int].warps.update(
                                    warpi as int,
                                    WarpV { threads: ts, ..wv },
                                ),
                                ..g.sms[smi as int]
                            },
                        ),
                        ..g
                    })
                }),
                gpu_wf(self@),
            decreases n - i,
        {
            proof {
                lemma_clock_len(wv.threads, g.data, args@, i as int);
            }
            let ghost cur = self@;
            let out = self.clock_thread(smi, warpi, i, args);
            outcomes.push(out);
            proof {
                let (ts, mem, outs) = clock_threads(wv.threads, g.data, args@, i as int);
                let st = step(ts[i as int].unit, mem, args@);
                assert(ts[i as int] == wv.threads[i as int]);
                assert(cur.sms[smi as int].warps[warpi as int].threads == ts);
                let ts2 = ts.update(i as int, ThreadV { unit: st.unit, ..ts[i as int] });
                assert(g.sms[smi as int].warps.update(warpi as int, WarpV { threads: ts, ..wv }).update(
                    warpi as int,
                    WarpV { threads: ts2, ..wv },
                ) =~= g.sms[smi as int].warps.update(warpi as int, WarpV { threads: ts2, ..wv }));
                let sa = SmV {
                    warps: g.sms[smi as int].warps.update(warpi as int, WarpV { threads: ts, ..wv }),
                    ..g.sms[smi as int]
                };
                let sb = SmV {
                    warps: g.sms[smi as int].warps.update(warpi as int, WarpV { threads: ts2, ..wv }),
                    ..g.sms[smi as int]
                };
                assert(g.sms.update(smi as int, sa).update(smi as int, sb) =~= g.sms.update(
                    smi as int,
                    sb,
                ));
                assert forall|s: int| 0 <= s < self@.sms.len() implies free_ok(
                    #[trigger] self@.sms[s].free,
                    self@.sms[s].warps.len(),
                ) && self@.sms[s].warps.len() <= usize::MAX by {
                    assert(self@.sms[s].free == g.sms[s].free);
                    assert(self@.sms[s].warps.len() == g.sms[s].warps.len());
                }
                assert forall|j: int| 0 <= j < self@.scheduled.len() implies {
                    let (s, w) = #[trigger] self@.scheduled[j];
                    &&& s < self@.sms.len()
                    &&& w < self@.sms[s as int].warps.len()
                    &&& !self@.sms[s as int].free.contains(w)
                } by {
                    let (s, w) = g.scheduled[j];
                    assert(self@.sms[s as int].free == g.sms[s as int].free);
                    assert(self@.sms[s as int].warps.len() == g.sms[s as int].warps.len());
                }
            }
            i = i + 1;
        }
        let ghost before = self@;
        proof {
            let (ts, mem, outs) = clock_threads(wv.threads, g.data, args@, n as int);
            assert(before.sms[smi as int].warps[warpi as int] == WarpV { threads: ts, ..wv });
        }
        self.finish_warp_clock(smi, warpi);
        proof {
            let (ts, mem, outs) = clock_threads(wv.threads, g.data, args@, n as int);
            let w1 = WarpV { threads: ts, ..wv };
            let sa = SmV { warps: g.sms[smi as int].warps.update(warpi as int, w1), ..g.sms[smi as int] };
            let sb = SmV {
                warps: g.sms[smi as int].warps.update(warpi as int, finish_state(w1)),
                ..g.sms[smi as int]
            };
            if all_done(w1) {
                assert(with_warp(before.sms, smi as int, warpi as int, WarpV { state: WarpState::InActive, ..w1 })
                    =~= g.sms.update(smi as int, sb)) by {
                    assert(sa.warps.update(warpi as int, finish_state(w1)) =~= sb.warps);
                }
            } else {
                assert(before.sms =~= g.sms.update(smi as int, sb));
            }
        }
        Some(WarpClock { sm: smi, warp: warpi, outcomes })
    }
}

// ---------------------------------------------------------------------------
// Single-warp updates, rounds, kernels, registration, dumps.
// ---------------------------------------------------------------------------

/// The SMs after warp `warpi` of SM `smi` became `nw`.
pub open spec fn with_warp(sms: Seq<SmV>, smi: int, warpi: int, nw: WarpV) -> Seq<SmV> {
    sms.update(smi, SmV { warps: sms[smi].warps.update(warpi, nw), ..sms[smi] })
}

proof fn lemma_with_warp(before: Seq<SM>, after: Seq<SM>, smi: int, warpi: int, nw: WarpV)
    requires
        0 <= smi < before.len(),
        after.len() == before.len(),
        forall|s: int| 0 <= s < before.len() && s != smi ==> after[s] == before[s],
        after[smi].free() == before[smi].free(),
        0 <= warpi < before[smi].warps@.len(),
        after[smi].warps@.len() == before[smi].warps@.len(),
        forall|w: int|
            0 <= w < before[smi].warps@.len() && w != warpi ==> after[smi].warps@[w]
                == before[smi].warps@[w],
        after[smi].warps@[warpi]@ == nw,
    ensures
        sms_view(after) == with_warp(sms_view(before), smi, warpi, nw),
{
    let v = sms_view(before);
    assert(warps_view(after[smi].warps@) =~= v[smi].warps.update(warpi, nw));
    assert forall|s: int| 0 <= s < before.len() implies sms_view(after)[s] == with_warp(
        v,
        smi,
        warpi,
        nw,
    )[s] by {
        if s != smi {
            assert(after[s] == before[s]);
        }
    }
    assert(sms_view(after) =~= with_warp(v, smi, warpi, nw));
}

/// Changing one warp's contents (not the number of threads of anything, nor the
/// free queues) keeps the device invariant.
proof fn lemma_with_warp_wf(g: GpuV, smi: int, warpi: int, nw: WarpV)
    requires
        gpu_wf(g),
        0 <= smi < g.sms.len(),
        0 <= warpi < g.sms[smi].warps.len(),
    ensures
        gpu_wf(GpuV { sms: with_warp(g.sms, smi, warpi, nw), ..g }),
{
    let g2 = GpuV { sms: with_warp(g.sms, smi, warpi, nw), ..g };
    assert forall|s: int| 0 <= s < g2.sms.len() implies free_ok(
        #[trigger] g2.sms[s].free,
        g2.sms[s].warps.len(),
    ) && g2.sms[s].warps.len() <= usize::MAX by {
        assert(g2.sms[s].free == g.sms[s].free);
        assert(g2.sms[s].warps.len() == g.sms[s].warps.len());
    }
    assert forall|j: int| 0 <= j < g2.scheduled.len() implies {
        let (s, w) = #[trigger] g2.scheduled[j];
        &&& s < g2.sms.len()
        &&& w < g2.sms[s as int].warps.len()
        &&& !g2.sms[s as int].free.contains(w)
    } by {
        let (s, w) = g.scheduled[j];
        assert(g2.sms[s as int].free == g.sms[s as int].free);
        assert(g2.sms[s as int].warps.len() == g.sms[s as int].warps.len());
    }
}

/// One round: the first of the special, memory and generic classes for which a
/// warp is ready runs (see `class_clock`); `None` when no warp is ready.
pub open spec fn round_clock(g: GpuV, active: Seq<(usize, usize)>, args: Seq<usize>) -> Option<
    (GpuV, usize, usize, Seq<StepOutcome>),
> {
    match class_clock(g, active, ExecuteUnitClass::Special, args) {
        Some(x) => Some(x),
        None => match class_clock(g, active, ExecuteUnitClass::Memory, args) {
            Some(x) => Some(x),
            None => class_clock(g, active, ExecuteUnitClass::Generic, args),
        },
    }
}

/// The first index at or after `i` of a kernel named `name`.
pub open spec fn kernel_index(ks: Seq<(Seq<char>, Seq<InstView>)>, name: Seq<char>, i: int) -> Option<int>
    decreases ks.len() - i,
{
    if i < 0 || i >= ks.len() {
        None
    } else if ks[i].0 == name {
        Some(i)
    } else {
        kernel_index(ks, name, i + 1)
    }
}

/// The instructions registered under `name`.
pub open spec fn find_kernel(ks: Seq<(Seq<char>, Seq<InstView>)>, name: Seq<char>) -> Option<Seq<InstView>> {
    match kernel_index(ks, name, 0) {
        Some(i) => Some(ks[i].1),
        None => None,
    }
}

/// The kernel list with `name` registered to `insts` (replacing an earlier
/// registration of the same name).
pub open spec fn with_kernel(ks: Seq<(Seq<char>, Seq<InstView>)>, name: Seq<char>, insts: Seq<InstView>) -> Seq<
    (Seq<char>, Seq<InstView>),
> {
    match kernel_index(ks, name, 0) {
        Some(i) => ks.update(i, (name, insts)),
        None => ks.push((name, insts)),
    }
}

proof fn lemma_kernel_index(ks: Seq<(Seq<char>, Seq<InstView>)>, name: Seq<char>, i: int)
    requires
        0 <= i,
    ensures
        kernel_index(ks, name, i) matches Some(k) ==> i <= k < ks.len() && ks[k].0 == name,
        kernel_index(ks, name, i) is None ==> forall|j: int| i <= j < ks.len() ==> ks[j].0 != name,
    decreases ks.len() - i,
{
    if i < ks.len() && ks[i].0 != name {
        lemma_kernel_index(ks, name, i + 1);
    }
}

/// Why a kernel could not be registered.
#[derive(Debug, Clone)]
pub enum RegisterError {
    /// The PTX text does not parse or lower.
    Ptx(ParseError),
    /// The symbol does not demangle (or its demangled form is too long to read).
    Demangle,
    /// The demangled signature does not parse.
    Signature(ParseError),
}

/// The readable form of a mangled C++ symbol, as `cpp_demangle` gives it.
pub uninterp spec fn demangled(mangled: Seq<char>) -> Option<Seq<char>>;

/// `cpp_demangle::Symbol::new` then `Symbol::demangle` with default options:
/// the demangled text, `None` where either step fails. The text is named
/// (`demangled`); demangling depends on the symbol alone.
#[verifier::external_body]
fn demangle_symbol(mangled: &str) -> (r: Option<String>)
    ensures
        match r {
            Some(s) => demangled(mangled@) == Some(s@),
            None => demangled(mangled@) is None,
        },
{
    match cpp_demangle::Symbol::new(mangled) {
        Ok(sym) => match sym.demangle() {
            Ok(s) => Some(s),
            Err(_) => None,
        },
        Err(_) => None,
    }
}

/// A line of a device dump: where a thread sits and the state of its warp.
#[derive(Debug, Clone, Copy, PartialEq, Eq, Structural)]
pub struct ThreadRecord {
    pub sm_id: usize,
    pub warp_id: usize,
    pub thread_id: usize,
    pub grid_x: u32,
    pub grid_y: u32,
    pub grid_z: u32,
    pub thread_x: u32,
    pub thread_y: u32,
    pub thread_z: u32,
    pub warp_state: u8,
}

pub open spec fn state_code(s: WarpState) -> u8 {
    match s {
        WarpState::Active => 0,
        WarpState::Stalled => 1,
        WarpState::InActive => 2,
    }
}

pub open spec fn record_of(s: int, w: int, t: int, wv: WarpV) -> ThreadRecord {
    ThreadRecord {
        sm_id: s as usize,
        warp_id: w as usize,
        thread_id: t as usize,
        grid_x: wv.threads[t].grid_pos.x,
        grid_y: wv.threads[t].grid_pos.y,
        grid_z: wv.threads[t].grid_pos.z,
        thread_x: wv.threads[t].threads_pos.x,
        thread_y: wv.threads[t].threads_pos.y,
        thread_z: wv.threads[t].threads_pos.z,
        warp_state: state_code(wv.state),
    }
}

pub open spec fn warp_records(s: int, w: int, wv: WarpV) -> Seq<ThreadRecord> {
    Seq::new(wv.threads.len(), |t: int| record_of(s, w, t, wv))
}

pub open spec fn sm_records(s: int, warps: Seq<WarpV>, k: int) -> Seq<ThreadRecord>
    decreases k,
{
    if k <= 0 {
        Seq::empty()
    } else {
        sm_records(s, warps, k - 1) + warp_records(s, k - 1, warps[k - 1])
    }
}

/// One record per thread: SM by SM, warp by warp, thread by thread.
pub open spec fn all_records(sms: Seq<SmV>, k: int) -> Seq<ThreadRecord>
    decreases k,
{
    if k <= 0 {
        Seq::empty()
    } else {
        all_records(sms, k - 1) + sm_records(k - 1, sms[k - 1].warps, sms[k - 1].warps.len() as int)
    }
}

impl GPU {
    /// Marks the warp inactive once all of its threads have finished (for a
    /// caller that has just completed threads' floating-point work).
    pub fn finish_warp_clock(&mut self, smi: usize, warpi: usize)
        requires
            gpu_wf(old(self)@),
            smi < old(self)@.sms.len(),
            warpi < old(self)@.sms[smi as int].warps.len(),
        ensures
            gpu_wf(final(self)@),
            final(self)@ == if all_done(old(self)@.sms[smi as int].warps[warpi as int]) {
                GpuV {
                    sms: with_warp(
                        old(self)@.sms,
                        smi as int,
                        warpi as int,
                        WarpV { state: WarpState::InActive, ..old(self)@.sms[smi as int].warps[warpi as int] },
                    ),
                    ..old(self)@
                }
            } else {
                old(self)@
            },
    {
        let ghost g = self@;
        proof {
            assert(self@.sms[smi as int] == sm_view(self.sms@[smi as int]));
            assert(self@.sms[smi as int].warps[warpi as int] == self.sms@[smi as int].warps@[warpi as int]@);
        }
        if self.sms[smi].warps[warpi].all_threads_done() {
            let ghost before = self.sms@;
            self.sms[smi].warps[warpi].set_state(WarpState::InActive);
            proof {
                let nw = WarpV { state: WarpState::InActive, ..g.sms[smi as int].warps[warpi as int] };
                lemma_with_warp(before, self.sms@, smi as int, warpi as int, nw);
                lemma_with_warp_wf(g, smi as int, warpi as int, nw);
            }
        }
    }

    /// Hands a thread the result bits of the floating-point operation it was
    /// waiting for (see `execute_unit::complete_float`).
    pub fn complete_float(&mut self, smi: usize, warpi: usize, t: usize, dst: usize, bits: u32)
        requires
            gpu_wf(old(self)@),
            smi < old(self)@.sms.len(),
            warpi < old(self)@.sms[smi as int].warps.len(),
            t < old(self)@.sms[smi as int].warps[warpi as int].threads.len(),
            dst < NUM_REGS,
            !unit_done(old(self)@.sms[smi as int].warps[warpi as int].threads[t as int].unit),
        ensures
            gpu_wf(final(self)@),
            ({
                let wv = old(self)@.sms[smi as int].warps[warpi as int];
                final(self)@ == GpuV {
                    sms: with_warp(
                        old(self)@.sms,
                        smi as int,
                        warpi as int,
                        WarpV {
                            threads: wv.threads.update(
                                t as int,
                                ThreadV {
                                    unit: set_f(wv.threads[t as int].unit, dst as int, bits),
                                    ..wv.threads[t as int]
                                },
                            ),
                            ..wv
                        },
                    ),
                    ..old(self)@
                }
            }),
    {
        let ghost g = self@;
        let ghost before = self.sms@;
        proof {
            assert(self@.sms[smi as int] == sm_view(self.sms@[smi as int]));
            assert(self@.sms[smi as int].warps[warpi as int] == self.sms@[smi as int].warps@[warpi as int]@);
            assert(self.sms@[smi as int].warps@[warpi as int].threads@[t as int]@ == g.sms[smi as int].warps[warpi as int].threads[t as int]);
        }
        let ghost before_threads = self.sms@[smi as int].warps@[warpi as int].threads@;
        self.sms[smi].warps[warpi].threads[t].execute_unit.complete_float(dst, bits);
        proof {
            let wv = g.sms[smi as int].warps[warpi as int];
            let nw = WarpV {
                threads: wv.threads.update(
                    t as int,
                    ThreadV { unit: set_f(wv.threads[t as int].unit, dst as int, bits), ..wv.threads[t as int] },
                ),
                ..wv
            };
            let now_threads = self.sms@[smi as int].warps@[warpi as int].threads@;
            assert forall|k: int| 0 <= k < now_threads.len() && k != t implies now_threads[k] == before_threads[k] by {}
            assert(self.sms@[smi as int].warps@[warpi as int]@.threads =~= nw.threads);
            lemma_with_warp(before, self.sms@, smi as int, warpi as int, nw);
            lemma_with_warp_wf(g, smi as int, warpi as int, nw);
        }
    }

    /// One round (see `round_clock`).
    pub fn execute_round(&mut self, active_warps: &Vec<(usize, usize)>, args: &Vec<usize>) -> (r: Option<WarpClock>)
        requires
            gpu_wf(old(self)@),
            warps_exist(old(self)@.sms, active_warps@),
        ensures
            gpu_wf(final(self)@),
            match round_clock(old(self)@, active_warps@, args@) {
                None => r is None && final(self)@ == old(self)@,
                Some((g2, s, w, outs)) => r matches Some(c) && c.sm == s && c.warp == w && c.outcomes@ == outs
                    && final(self)@ == g2,
            },
    {
        match self.execute_best_class_warp(active_warps, ExecuteUnitClass::Special, args) {
            Some(c) => {
                return Some(c);
            },
            None => {},
        }
        match self.execute_best_class_warp(active_warps, ExecuteUnitClass::Memory, args) {
            Some(c) => {
                return Some(c);
            },
            None => {},
        }
        self.execute_best_class_warp(active_warps, ExecuteUnitClass::Generic, args)
    }

    /// The listed warps that are still active, in order.
    pub fn retain_active(&self, active_warps: &Vec<(usize, usize)>) -> (r: Vec<(usize, usize)>)
        requires
            warps_exist(self@.sms, active_warps@),
        ensures
            r@ == active_upto(self@.sms, active_warps@, active_warps@.len() as int),
    {
        let mut out: Vec<(usize, usize)> = Vec::new();
        let mut k: usize = 0;
        while k < active_warps.len()
            invariant
                warps_exist(self@.sms, active_warps@),
                k <= active_warps@.len(),
                out@ == active_upto(self@.sms, active_warps@, k as int),
            decreases active_warps@.len() - k,
        {
            let (smi, warpi) = active_warps[k];
            proof {
                assert(active_warps@[k as int] == (smi, warpi));
                assert(self@.sms[smi as int] == sm_view(self.sms@[smi as int]));
                assert(self@.sms[smi as int].warps[warpi as int] == self.sms@[smi as int].warps@[warpi as int]@);
            }
            if self.sms[smi].warps[warpi].state == WarpState::Active {
                out.push((smi, warpi));
            }
            k = k + 1;
        }
        out
    }

    /// The index of the kernel registered under `name`, if any.
    fn kernel_index_exec(&self, name: &str) -> (r: Option<usize>)
        ensures
            match kernel_index(self@.kernels, name@, 0) {
                Some(i) => r matches Some(x) && x as int == i,
                None => r is None,
            },
    {
        let mut i: usize = 0;
        while i < self.kernels.len()
            invariant
                i <= self@.kernels.len(),
                self@.kernels.len() == self.kernels@.len(),
                kernel_index(self@.kernels, name@, 0) == kernel_index(self@.kernels, name@, i as int),
            decreases self.kernels@.len() - i,
        {
            assert(self@.kernels[i as int].0 == self.kernels@[i as int].0@);
            if crate::text::str_eq(self.kernels[i].0.as_str(), name) {
                return Some(i);
            }
            i = i + 1;
        }
        None
    }

    /// Registers `insts` under `name`, replacing an earlier registration.
    pub fn insert_kernel(&mut self, name: String, insts: Vec<inst_info>)
        requires
            gpu_wf(old(self)@),
        ensures
            gpu_wf(final(self)@),
            final(self)@ == (GpuV {
                kernels: with_kernel(old(self)@.kernels, name@, insts_view(insts@)),
                ..old(self)@
            }),
    {
        let ghost g = self@;
        proof {
            lemma_kernel_index(g.kernels, name@, 0);
        }
        match self.kernel_index_exec(name.as_str()) {
            Some(i) => {
                self.kernels.set(i, (name, insts));
                proof {
                    assert(self@.kernels =~= g.kernels.update(i as int, (name@, insts_view(insts@))));
                }
            },
            None => {
                self.kernels.push((name, insts));
                proof {
                    assert(self@.kernels =~= g.kernels.push((name@, insts_view(insts@))));
                }
            },
        }
        proof {
            let ks = self@.kernels;
            assert forall|i: int, j: int| 0 <= i < ks.len() && 0 <= j < ks.len() && i != j implies ks[i].0
                != ks[j].0 by {
                if i < g.kernels.len() && j < g.kernels.len() {
                } else {
                }
            }
        }
    }

    /// Looks up the selected kernel and, when there is one and a launch shape
    /// too, records the number of arguments and prepares the scheduled warps
    /// (see `prepare_active_warps`); returns the active warps. `None`, with
    /// nothing changed, when no kernel is selected, it is not registered, or no
    /// launch shape is set.
    pub fn start_execution(&mut self, args: &Vec<usize>) -> (r: Option<Vec<(usize, usize)>>)
        requires
            gpu_wf(old(self)@),
        ensures
            gpu_wf(final(self)@),
            match (old(self)@.kernel_symbol, old(self)@.launch) {
                (Some(name), Some(lp)) => match find_kernel(old(self)@.kernels, name) {
                    Some(insts) => r matches Some(a) && final(self)@ == prepare_upto(
                        GpuV { num_args: Some(args@.len() as usize), ..old(self)@ },
                        lp,
                        insts,
                        old(self)@.scheduled.len() as int,
                    ) && a@ == active_upto(
                        old(self)@.sms,
                        old(self)@.scheduled,
                        old(self)@.scheduled.len() as int,
                    ),
                    None => r is None && final(self)@ == old(self)@,
                },
                _ => r is None && final(self)@ == old(self)@,
            },
    {
        let ghost g = self@;
        let idx = match &self.kernel_symbol {
            Some(name) => self.kernel_index_exec(name.as_str()),
            None => None,
        };
        let i = match idx {
            Some(i) => i,
            None => {
                return None;
            },
        };
        if self.launch_params.is_none() {
            return None;
        }
        proof {
            lemma_kernel_index(g.kernels, g.kernel_symbol->0, 0);
        }
        let insts = copy_insts(&self.kernels[i].1);
        assert(insts_view(insts@) =~= g.kernels[i as int].1);
        self.num_args = Some(args.len());
        Some(self.prepare_active_warps(&insts))
    }

    /// Registers a kernel: its PTX is parsed and lowered and stored under
    /// `device_fun`, which becomes the selected kernel; then the symbol is
    /// demangled and its signature read, and its parameter count becomes the
    /// number of arguments.
    pub fn register_function(&mut self, device_fun: &str, ptx: &str) -> (r: Result<(), RegisterError>)
        requires
            gpu_wf(old(self)@),
            ptx@.len() < usize::MAX,
        ensures
            gpu_wf(final(self)@),
            match sp_ptx(ptx@) {
                Err(e) => r matches Err(RegisterError::Ptx(x)) && x@ == e && final(self)@ == old(self)@,
                Ok(k) => {
                    let g1 = GpuV {
                        kernels: with_kernel(old(self)@.kernels, device_fun@, k.insts),
                        kernel_symbol: Some(device_fun@),
                        ..old(self)@
                    };
                    match demangled(device_fun@) {
                        None => r matches Err(RegisterError::Demangle) && final(self)@ == g1,
                        Some(d) => if d.len() > usize::MAX / 2 {
                            r matches Err(RegisterError::Demangle) && final(self)@ == g1
                        } else {
                            match sp_c_sig(d) {
                                Err(e) => r matches Err(RegisterError::Signature(x)) && x@ == e
                                    && final(self)@ == g1,
                                Ok(sig) => r is Ok && final(self)@ == GpuV {
                                    num_args: Some(sig.params.len() as usize),
                                    ..g1
                                },
                            }
                        },
                    }
                },
            },
    {
        let kernel = match parse(ptx) {
            Ok(k) => k,
            Err(e) => {
                return Err(RegisterError::Ptx(e));
            },
        };
        let name = String::from_str(device_fun);
        self.insert_kernel(name, kernel.instructions);
        self.select_kernel(String::from_str(device_fun));
        let text = match demangle_symbol(device_fun) {
            Some(t) => t,
            None => {
                return Err(RegisterError::Demangle);
            },
        };
        let n = text.as_str().unicode_len();
        if n > usize::MAX / 2 {
            return Err(RegisterError::Demangle);
        }
        match parse_c_signature(text.as_str()) {
            Ok(sig) => {
                self.num_args = Some(sig.params.len());
                Ok(())
            },
            Err(e) => Err(RegisterError::Signature(e)),
        }
    }

    /// One record per thread, SM by SM, warp by warp, thread by thread (see
    /// `all_records`).
    pub fn thread_records(&self) -> (out: Vec<ThreadRecord>)
        ensures
            out@ == all_records(self@.sms, self@.sms.len() as int),
    {
        let mut out: Vec<ThreadRecord> = Vec::new();
        let ghost sms = self@.sms;
        let mut s: usize = 0;
        while s < self.sms.len()
            invariant
                sms == self@.sms,
                sms.len() == self.sms@.len(),
                s <= sms.len(),
                out@ == all_records(sms, s as int),
            decreases sms.len() - s,
        {
            proof {
                assert(sms[s as int] == sm_view(self.sms@[s as int]));
            }
            let ghost warps = sms[s as int].warps;
            let mut w: usize = 0;
            while w < self.sms[s].warps.len()
                invariant
                    sms == self@.sms,
                    sms.len() == self.sms@.len(),
                    s < sms.len(),
                    warps == sms[s as int].warps,
                    warps.len() == self.sms@[s as int].warps@.len(),
                    w <= warps.len(),
                    out@ == all_records(sms, s as int) + sm_records(s as int, warps, w as int),
                decreases warps.len() - w,
            {
                let warp = &self.sms[s].warps[w];
                proof {
                    assert(warps[w as int] == warp@);
                }
                let code = warp.state.code();
                let mut t: usize = 0;
                while t < warp.threads.len()
                    invariant
                        warps[w as int] == warp@,
                        warp@.threads.len() == warp.threads@.len(),
                        code == state_code(warp.state),
                        t <= warp@.threads.len(),
                        out@ == all_records(sms, s as int) + sm_records(s as int, warps, w as int)
                            + warp_records(s as int, w as int, warp@).take(t as int),
                    decreases warp@.threads.len() - t,
                {
                    let th = &warp.threads[t];
                    let ghost before = out@;
                    out.push(
                        ThreadRecord {
                            sm_id: s,
                            warp_id: w,
                            thread_id: t,
                            grid_x: th.grid_pos.x,
                            grid_y: th.grid_pos.y,
                            grid_z: th.grid_pos.z,
                            thread_x: th.threads_pos.x,
                            thread_y: th.threads_pos.y,
                            thread_z: th.threads_pos.z,
                            warp_state: code,
                        },
                    );
                    proof {
                        let wr = warp_records(s as int, w as int, warp@);
                        assert(wr.take(t + 1) =~= wr.take(t as int).push(wr[t as int]));
                        assert(out@ =~= all_records(sms, s as int) + sm_records(s as int, warps, w as int)
                            + wr.take(t + 1));
                    }
                    t = t + 1;
                }
                proof {
                    let wr = warp_records(s as int, w as int, warp@);
                    assert(wr.take(wr.len() as int) =~= wr);
                    assert(out@ =~= all_records(sms, s as int) + sm_records(s as int, warps, w + 1));
                }
                w = w + 1;
            }
            proof {
                assert(out@ =~= all_records(sms, s + 1));
            }
            s = s + 1;
        }
        out
    }
}

// ---------------------------------------------------------------------------
// Laws of a launch.
// ---------------------------------------------------------------------------

/// Freeing what was just allocated gives the device back as it was: when no
/// allocation started at the base and no byte of the range existed, `free` after
/// `malloc` (at that base, of that size) restores memory exactly.
pub proof fn lemma_free_undoes_malloc(g: GpuV, a: u64, size: usize)
    requires
        !g.sizes.contains_key(a),
        forall|k: u64| a <= k < a + size ==> !#[trigger] g.data.contains_key(k),
    ensures
        ({
            let g1 = GpuV {
                data: with_zeroed(g.data, a, size as int),
                sizes: g.sizes.insert(a, size),
                ..g
            };
            GpuV {
                data: without_range(g1.data, a, g1.sizes[a] as int),
                sizes: g1.sizes.remove(a),
                ..g1
            } == g
        }),
{
    let d1 = with_zeroed(g.data, a, size as int);
    assert(without_range(d1, a, size as int) =~= g.data);
    assert(g.sizes.insert(a, size).remove(a) =~= g.sizes);
}

/// A launch never hands out a warp twice: the scheduled warps are distinct,
/// exist, and are no longer free.
pub proof fn lemma_launch_distinct(g: GpuV, grid: dim3, threads: dim3)
    requires
        gpu_wf(g),
    ensures
        launch(g, grid, threads).0.scheduled.no_duplicates(),
        sched_ok(launch(g, grid, threads).0.sms, launch(g, grid, threads).0.scheduled),
{
    let g0 = launch_start(g, grid, threads);
    assert(gpu_wf(g0)) by {
        assert(g0.scheduled =~= Seq::<(usize, usize)>::empty());
    }
    let blocks = grid_points(grid.x as int, grid.y as int, grid.z as int);
    let coords = grid_points(threads.x as int, threads.y as int, threads.z as int);
    lemma_launch_blocks_wf(g0, blocks, blocks.len() as int, warps_for(coords.len()), coords);
}

proof fn lemma_launch_blocks_count(
    g: GpuV,
    blocks: Seq<(u32, u32, u32)>,
    k: int,
    needed: nat,
    coords: Seq<(u32, u32, u32)>,
)
    requires
        gpu_wf(g),
        0 <= k <= blocks.len(),
    ensures
        launch_blocks(g, blocks, k, needed, coords).0.scheduled.len() == g.scheduled.len() + needed
            * (k - launch_blocks(g, blocks, k, needed, coords).1.len()),
        launch_blocks(g, blocks, k, needed, coords).1.len() <= k,
    decreases k,
{
    if k == 0 {
        assert(needed * (k - launch_blocks(g, blocks, k, needed, coords).1.len()) == 0) by (nonlinear_arith)
            requires
                k == 0,
                launch_blocks(g, blocks, k, needed, coords).1.len() == 0,
        ;
    }
    if k > 0 {
        lemma_launch_blocks_count(g, blocks, k - 1, needed, coords);
        lemma_launch_blocks_wf(g, blocks, k - 1, needed, coords);
        let (g1, un) = launch_blocks(g, blocks, k - 1, needed, coords);
        lemma_pick_sm(g1.sms, g1.hint as int, needed);
        let (g2, ok) = launch_block(g1, blocks[k - 1], needed, coords);
        match pick_sm(g1.sms, g1.hint as int, needed) {
            Some(smi) => {
                let ids = g1.sms[smi].free.take(needed as int);
                assert(ids.len() == needed);
                assert(pairs(smi as usize, ids).len() == needed);
                assert(g2.scheduled.len() == g1.scheduled.len() + needed);
                assert(needed * (k - un.len()) == needed * (k - 1 - un.len()) + needed) by (nonlinear_arith);
                assert(ok);
                assert(launch_blocks(g, blocks, k, needed, coords) == (g2, un));
            },
            None => {
                assert(needed * (k - (un.len() + 1)) == needed * (k - 1 - un.len())) by (nonlinear_arith);
                assert(!ok);
                assert(launch_blocks(g, blocks, k, needed, coords) == (g2, un.push(blocks[k - 1])));
            },
        }
    }
}

/// Each block that finds room takes exactly `ceil(threads / 32)` warps: the
/// launch schedules that many warps per placed block.
pub proof fn lemma_launch_count(g: GpuV, grid: dim3, threads: dim3)
    requires
        gpu_wf(g),
    ensures
        ({
            let blocks = grid_points(grid.x as int, grid.y as int, grid.z as int);
            let needed = warps_for((threads.x * threads.y * threads.z) as nat);
            let (g2, unplaced) = launch(g, grid, threads);
            g2.scheduled.len() == needed * (blocks.len() - unplaced.len())
        }),
{
    let g0 = launch_start(g, grid, threads);
    assert(gpu_wf(g0)) by {
        assert(g0.scheduled =~= Seq::<(usize, usize)>::empty());
    }
    let blocks = grid_points(grid.x as int, grid.y as int, grid.z as int);
    let coords = grid_points(threads.x as int, threads.y as int, threads.z as int);
    lemma_launch_blocks_count(g0, blocks, blocks.len() as int, warps_for(coords.len()), coords);
}

proof fn lemma_place_warps_effect(
    warps: Seq<WarpV>,
    ids: Seq<usize>,
    k: int,
    block: (u32, u32, u32),
    coords: Seq<(u32, u32, u32)>,
)
    requires
        0 <= k <= ids.len(),
        warps.len() <= usize::MAX,
        forall|j: int| 0 <= j < ids.len() ==> #[trigger] ids[j] < warps.len(),
    ensures
        forall|w: int|
            0 <= w < warps.len() ==> (#[trigger] place_warps(warps, ids, k, block, coords)[w]
                == warps[w] || (ids.take(k).contains(w as usize) && place_warps(
                warps,
                ids,
                k,
                block,
                coords,
            )[w].state == WarpState::Active)),
        forall|w: int|
            0 <= w < warps.len() && ids.take(k).contains(w as usize) ==> (#[trigger] place_warps(
                warps,
                ids,
                k,
                block,
                coords,
            )[w]).state == WarpState::Active,
        forall|w: int|
            0 <= w < warps.len() && !ids.take(k).contains(w as usize) ==> #[trigger] place_warps(
                warps,
                ids,
                k,
                block,
                coords,
            )[w] == warps[w],
    decreases k,
{
    if k > 0 {
        lemma_place_warps_effect(warps, ids, k - 1, block, coords);
        lemma_place_warps_len(warps, ids, k - 1, block, coords);
        let prev = place_warps(warps, ids, k - 1, block, coords);
        let cur = place_warps(warps, ids, k, block, coords);
        let x = ids[k - 1];
        assert(ids.take(k) =~= ids.take(k - 1).push(x));
        assert forall|w: int| 0 <= w < warps.len() implies (#[trigger] ids.take(k).contains(w as usize)
            <==> (ids.take(k - 1).contains(w as usize) || w == x)) by {
            if ids.take(k).contains(w as usize) {
                let j = choose|j: int| 0 <= j < ids.take(k).len() && #[trigger] ids.take(k)[j] == w as usize;
                if j < k - 1 {
                    assert(ids.take(k - 1)[j] == w as usize);
                }
            }
            if ids.take(k - 1).contains(w as usize) {
                let j = choose|j: int| 0 <= j < ids.take(k - 1).len() && #[trigger] ids.take(k - 1)[j] == w as usize;
                assert(ids.take(k)[j] == w as usize);
            }
            if w == x {
                assert(ids.take(k)[k - 1] == w as usize);
            }
        }
    }
}

proof fn lemma_launch_blocks_active(
    g: GpuV,
    blocks: Seq<(u32, u32, u32)>,
    k: int,
    needed: nat,
    coords: Seq<(u32, u32, u32)>,
)
    requires
        gpu_wf(g),
        forall|j: int| 0 <= j < g.scheduled.len() ==> is_active(g.sms, #[trigger] g.scheduled[j]),
    ensures
        ({
            let g2 = launch_blocks(g, blocks, k, needed, coords).0;
            forall|j: int| 0 <= j < g2.scheduled.len() ==> is_active(g2.sms, #[trigger] g2.scheduled[j])
        }),
    decreases k,
{
    if k > 0 {
        lemma_launch_blocks_active(g, blocks, k - 1, needed, coords);
        lemma_launch_blocks_wf(g, blocks, k - 1, needed, coords);
        let g1 = launch_blocks(g, blocks, k - 1, needed, coords).0;
        lemma_pick_sm(g1.sms, g1.hint as int, needed);
        match pick_sm(g1.sms, g1.hint as int, needed) {
            None => {},
            Some(smi) => {
                let f = g1.sms[smi].free;
                let ids = f.take(needed as int);
                let w0 = g1.sms[smi].warps;
                lemma_free_split(f, needed as int, w0.len());
                lemma_place_warps_effect(w0, ids, needed as int, blocks[k - 1], coords);
                lemma_place_warps_len(w0, ids, needed as int, blocks[k - 1], coords);
                assert(ids.take(needed as int) =~= ids);
                let g2 = launch_block(g1, blocks[k - 1], needed, coords).0;
                let old_s = g1.scheduled;
                assert forall|j: int| 0 <= j < g2.scheduled.len() implies is_active(
                    g2.sms,
                    #[trigger] g2.scheduled[j],
                ) by {
                    if j < old_s.len() {
                        let (s, w) = old_s[j];
                        assert(g2.scheduled[j] == old_s[j]);
                        assert(is_active(g1.sms, old_s[j]));
                        if s as int == smi {
                            assert(!f.contains(w));
                            if ids.contains(w) {
                                let m = choose|m: int| 0 <= m < ids.len() && ids[m] == w;
                                assert(f[m] == w);
                            }
                        }
                    } else {
                        let m = j - old_s.len();
                        assert(g2.scheduled[j] == pairs(smi as usize, ids)[m]);
                        assert(ids.contains(ids[m]));
                    }
                }
            },
        }
    }
}

/// After a launch every scheduled warp is active.
pub proof fn lemma_launch_active(g: GpuV, grid: dim3, threads: dim3)
    requires
        gpu_wf(g),
    ensures
        ({
            let g2 = launch(g, grid, threads).0;
            forall|j: int| 0 <= j < g2.scheduled.len() ==> is_active(g2.sms, #[trigger] g2.scheduled[j])
        }),
{
    let g0 = launch_start(g, grid, threads);
    assert(gpu_wf(g0)) by {
        assert(g0.scheduled =~= Seq::<(usize, usize)>::empty());
    }
    let blocks = grid_points(grid.x as int, grid.y as int, grid.z as int);
    let coords = grid_points(threads.x as int, threads.y as int, threads.z as int);
    lemma_launch_blocks_active(g0, blocks, blocks.len() as int, warps_for(coords.len()), coords);
}

} // verus!
