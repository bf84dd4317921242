//! Device memory: a byte-addressed store whose cells exist only where something
//! was allocated.

use rand::RngExt;
use std::collections::HashMap;
use vstd::prelude::*;
use vstd::std_specs::hash::*;

verus! {

broadcast use group_hash_axioms;

/// One byte of device memory.
#[derive(Debug, Clone, Copy, PartialEq, Eq, Structural)]
pub struct MemoryElement {
    pub value: u8,
}

impl MemoryElement {
    /// A zeroed byte.
    pub fn new() -> (e: MemoryElement)
        ensures
            e.value == 0,
    {
        MemoryElement { value: 0u8 }
    }

    /// The byte held.
    pub fn as_byte(&self) -> (b: u8)
        ensures
            b == self.value,
    {
        self.value
    }
}

/// A device address.
#[derive(Debug, Clone, Copy, PartialEq, Eq, Hash, Structural)]
pub struct MemoryAddress {
    pub address: u64,
}

/// Draws a uniformly random `u64` from the thread-local generator of `rand`
/// (`rand::rng()`, then `RngExt::random`). Nothing is promised of the value: it
/// depends on chance. (`rand` panics here only when the operating system's
/// random source fails while seeding the generator.)
#[verifier::external_body]
fn random_u64() -> u64 {
    rand::rng().random::<u64>()
}

impl MemoryAddress {
    /// A fresh address chosen at random (any `u64` may come out).
    pub fn new() -> (a: MemoryAddress) {
        let x = random_u64();
        MemoryAddress { address: x }
    }

    /// The address with the given numeric value.
    pub fn from_address(address: u64) -> (a: MemoryAddress)
        ensures
            a.address == address,
    {
        MemoryAddress { address }
    }

    /// The address `offset` bytes further on.
    pub fn plus(self, offset: u64) -> (a: MemoryAddress)
        requires
            self.address + offset <= u64::MAX,
        ensures
            a.address == self.address + offset,
    {
        MemoryAddress { address: self.address + offset }
    }

    /// The address `offset` bytes further on, for an offset given as a `usize`.
    pub fn plus_usize(self, offset: usize) -> (a: MemoryAddress)
        requires
            self.address + offset <= u64::MAX,
        ensures
            a.address == self.address + offset,
    {
        MemoryAddress { address: self.address + offset as u64 }
    }
}

/// The device store: `data` holds the bytes that exist, keyed by address;
/// `sizes` holds the length of each live allocation, keyed by its base address.
pub struct Memory {
    pub data: HashMap<u64, MemoryElement>,
    pub sizes: HashMap<u64, usize>,
}

/// `a + size` addresses fit in the 64-bit space.
pub open spec fn fits(a: u64, size: int) -> bool {
    a + size <= u64::MAX + 1
}

/// The byte map after allocating `size` zeroed bytes at `base`.
pub open spec fn with_zeroed(data: Map<u64, MemoryElement>, base: u64, size: int) -> Map<
    u64,
    MemoryElement,
> {
    Map::new(
        |k: u64| data.contains_key(k) || (base <= k && k < base + size),
        |k: u64|
            if base <= k && k < base + size {
                MemoryElement { value: 0 }
            } else {
                data[k]
            },
    )
}

/// The byte map after removing the `size` bytes at `base`.
pub open spec fn without_range(data: Map<u64, MemoryElement>, base: u64, size: int) -> Map<
    u64,
    MemoryElement,
> {
    data.restrict(data.dom().filter(|k: u64| !(base <= k && k < base + size)))
}

/// The byte map after a copy of `bytes` to `dst`: a byte lands only where a cell exists.
pub open spec fn with_written(data: Map<u64, MemoryElement>, dst: u64, bytes: Seq<u8>) -> Map<
    u64,
    MemoryElement,
> {
    Map::new(
        |k: u64| data.contains_key(k),
        |k: u64|
            if dst <= k && k < dst + bytes.len() {
                MemoryElement { value: bytes[k - dst] }
            } else {
                data[k]
            },
    )
}

/// The bytes at `src..src + count`, each `None` where no cell exists.
pub open spec fn read_range(data: Map<u64, MemoryElement>, src: u64, count: int) -> Seq<Option<u8>> {
    Seq::new(
        count as nat,
        |i: int|
            if data.contains_key((src + i) as u64) {
                Some(data[(src + i) as u64].value)
            } else {
                None
            },
    )
}

impl Memory {
    /// Every live allocation lies inside the address space.
    pub open spec fn wf(&self) -> bool {
        forall|a: u64| #[trigger] self.sizes@.contains_key(a) ==> fits(a, self.sizes@[a] as int)
    }

    /// An empty store.
    pub fn new() -> (m: Memory)
        ensures
            m.data@ == Map::<u64, MemoryElement>::empty(),
            m.sizes@ == Map::<u64, usize>::empty(),
            m.wf(),
    {
        Memory { data: HashMap::new(), sizes: HashMap::new() }
    }

    /// Creates `size` zeroed bytes at `base` and records the allocation.
    pub fn allocate(&mut self, base: u64, size: usize)
        requires
            old(self).wf(),
            fits(base, size as int),
        ensures
            final(self).wf(),
            final(self).data@ == with_zeroed(old(self).data@, base, size as int),
            final(self).sizes@ == old(self).sizes@.insert(base, size),
    {
        let mut offset: usize = 0;
        while offset < size
            invariant
                offset <= size,
                fits(base, size as int),
                self.sizes@ == old(self).sizes@,
                self.data@ == with_zeroed(old(self).data@, base, offset as int),
            decreases size - offset,
        {
            let k: u64 = base + offset as u64;
            self.data.insert(k, MemoryElement::new());
            offset = offset + 1;
            assert(self.data@ =~= with_zeroed(old(self).data@, base, offset as int));
        }
        self.sizes.insert(base, size);
    }

    /// Removes the allocation based at `base` and its bytes.
    pub fn release(&mut self, base: u64)
        requires
            old(self).wf(),
            old(self).sizes@.contains_key(base),
        ensures
            final(self).wf(),
            final(self).sizes@ == old(self).sizes@.remove(base),
            final(self).data@ == without_range(
                old(self).data@,
                base,
                old(self).sizes@[base] as int,
            ),
    {
        let size = match self.sizes.remove(&base) {
            Some(s) => s,
            None => 0,
        };
        assert(size == old(self).sizes@[base]);
        let mut offset: usize = 0;
        while offset < size
            invariant
                offset <= size,
                fits(base, size as int),
                self.sizes@ == old(self).sizes@.remove(base),
                self.data@ == without_range(old(self).data@, base, offset as int),
            decreases size - offset,
        {
            let k: u64 = base + offset as u64;
            self.data.remove(&k);
            offset = offset + 1;
            assert(self.data@ =~= without_range(old(self).data@, base, offset as int));
        }
    }

    /// Copies `bytes` to `dst..`: each byte is stored where a cell exists and
    /// dropped where none does.
    pub fn copy_from_host(&mut self, dst: u64, bytes: &[u8])
        requires
            fits(dst, bytes@.len() as int),
        ensures
            final(self).sizes@ == old(self).sizes@,
            final(self).data@ == with_written(old(self).data@, dst, bytes@),
    {
        let n = bytes.len();
        let mut i: usize = 0;
        while i < n
            invariant
                i <= n,
                n == bytes@.len(),
                fits(dst, n as int),
                self.sizes@ == old(self).sizes@,
                self.data@ == with_written(old(self).data@, dst, bytes@.take(i as int)),
            decreases n - i,
        {
            let k: u64 = dst + i as u64;
            if self.data.contains_key(&k) {
                self.data.insert(k, MemoryElement { value: bytes[i] });
            }
            i = i + 1;
            assert(self.data@ =~= with_written(old(self).data@, dst, bytes@.take(i as int)));
        }
        assert(bytes@.take(n as int) =~= bytes@);
    }

    /// The `count` bytes at `src..`, each `None` where no cell exists.
    pub fn copy_to_host(&self, src: u64, count: usize) -> (out: Vec<Option<u8>>)
        requires
            fits(src, count as int),
        ensures
            out@ == read_range(self.data@, src, count as int),
    {
        let mut out: Vec<Option<u8>> = Vec::new();
        let mut i: usize = 0;
        while i < count
            invariant
                i <= count,
                fits(src, count as int),
                out@ == read_range(self.data@, src, i as int),
            decreases count - i,
        {
            let k: u64 = src + i as u64;
            let b = match self.data.get(&k) {
                Some(e) => Some(e.value),
                None => None,
            };
            out.push(b);
            i = i + 1;
            assert(out@ =~= read_range(self.data@, src, i as int));
        }
        out
    }

    /// The byte at `addr`, if a cell exists there.
    pub fn byte(&self, addr: u64) -> (b: Option<u8>)
        ensures
            b == (if self.data@.contains_key(addr) {
                Some(self.data@[addr].value)
            } else {
                None
            }),
    {
        match self.data.get(&addr) {
            Some(e) => Some(e.value),
            None => None,
        }
    }

    /// Stores `value` at `addr` if a cell exists there; otherwise nothing changes.
    pub fn set_byte(&mut self, addr: u64, value: u8)
        ensures
            final(self).sizes@ == old(self).sizes@,
            final(self).data@ == (if old(self).data@.contains_key(addr) {
                old(self).data@.insert(addr, MemoryElement { value })
            } else {
                old(self).data@
            }),
    {
        if self.data.contains_key(&addr) {
            self.data.insert(addr, MemoryElement { value });
        }
    }
}

/// Reading back what was copied in: after copying `bytes` to an allocated range,
/// reading that range gives the bytes back.
pub proof fn lemma_copy_roundtrip(data: Map<u64, MemoryElement>, dst: u64, bytes: Seq<u8>)
    requires
        fits(dst, bytes.len() as int),
        forall|k: u64| dst <= k < dst + bytes.len() ==> #[trigger] data.contains_key(k),
    ensures
        read_range(with_written(data, dst, bytes), dst, bytes.len() as int) =~= bytes.map_values(
            |b: u8| Some(b),
        ),
{
    assert forall|i: int| 0 <= i < bytes.len() implies #[trigger] read_range(
        with_written(data, dst, bytes),
        dst,
        bytes.len() as int,
    )[i] == Some(bytes[i]) by {
        assert(data.contains_key((dst + i) as u64));
    }
}

/// A fresh allocation reads back as zeros.
pub proof fn lemma_allocate_zeroed(data: Map<u64, MemoryElement>, base: u64, size: int)
    requires
        fits(base, size),
        0 <= size,
    ensures
        read_range(with_zeroed(data, base, size), base, size) =~= Seq::new(
            size as nat,
            |i: int| Some(0u8),
        ),
{
}

/// Releasing an allocation removes every byte it covered.
pub proof fn lemma_release_clears(data: Map<u64, MemoryElement>, base: u64, size: int)
    requires
        fits(base, size),
        0 <= size,
    ensures
        read_range(without_range(data, base, size), base, size) =~= Seq::new(
            size as nat,
            |i: int| None::<u8>,
        ),
{
}

} // verus!
