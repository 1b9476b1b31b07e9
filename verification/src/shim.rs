//! NVMe controller memory model: JIT buffer limits, memory region
//! descriptors, the helper function table, and the firmware executable
//! buffer.
use vstd::prelude::*;

pub mod exec_buffer;

verus! {

/// Maximum JIT buffer size (64 KiB).
pub const MAX_JIT_BUFFER_SIZE: usize = 64 * 1024;

/// Guard page size (4 KiB).
pub const GUARD_PAGE_SIZE: usize = 4096;

/// Number of helper IDs the table maps.
pub const NUM_HELPERS: usize = 256;

/// Memory region descriptor for the NVMe controller.
#[derive(Debug, Clone)]
pub struct MemoryRegion {
    pub base: usize,
    pub size: usize,
    pub executable: bool,
    pub writable: bool,
}

/// Helper function table: maps eBPF helper IDs (0-255) to helper addresses.
#[derive(Debug, Clone)]
pub struct HelperTable {
    entries: [Option<usize>; 256],
}

impl View for HelperTable {
    type V = Seq<Option<usize>>;

    closed spec fn view(&self) -> Seq<Option<usize>> {
        self.entries@
    }
}

/// The address registered for `id` in table `t`, if any.
pub open spec fn lookup(t: Seq<Option<usize>>, id: u32) -> Option<usize> {
    if (id as int) < t.len() {
        t[id as int]
    } else {
        None
    }
}

impl HelperTable {
    /// An empty table.
    pub fn new() -> (r: Self)
        ensures
            r@.len() == NUM_HELPERS,
            forall|i: int| 0 <= i < NUM_HELPERS ==> r@[i] is None,
    {
        HelperTable { entries: [None; 256] }
    }

    /// Register `addr` for helper `id`; IDs outside the table are ignored.
    pub fn register(&mut self, id: u32, addr: usize)
        requires
            old(self)@.len() == NUM_HELPERS,
        ensures
            final(self)@ == if (id as int) < NUM_HELPERS {
                old(self)@.update(id as int, Some(addr))
            } else {
                old(self)@
            },
    {
        if (id as usize) < self.entries.len() {
            self.entries.set(id as usize, Some(addr));
        }
    }

    /// The address registered for helper `id`.
    pub fn resolve(&self, id: u32) -> (r: Option<usize>)
        ensures
            r == lookup(self@, id),
    {
        if (id as usize) < self.entries.len() {
            self.entries[id as usize]
        } else {
            None
        }
    }
}

/// Registering a helper and resolving it gives back its address, and
/// leaves every other ID as it was.
pub proof fn lemma_register_resolve(t: Seq<Option<usize>>, id: u32, addr: usize, other: u32)
    requires
        t.len() == NUM_HELPERS,
        (id as int) < NUM_HELPERS,
        other != id,
    ensures
        lookup(t.update(id as int, Some(addr)), id) == Some(addr),
        lookup(t.update(id as int, Some(addr)), other) == lookup(t, other),
{
}

/// Bytes to map for a userspace executable buffer holding `size` bytes:
/// whole pages; sizes above `MAX_JIT_BUFFER_SIZE` are refused.
pub fn mapping_size(size: usize) -> (r: Result<usize, &'static str>)
    ensures
        size > MAX_JIT_BUFFER_SIZE <==> r is Err,
        r matches Ok(m) ==> m == (size + GUARD_PAGE_SIZE - 1) - (size + GUARD_PAGE_SIZE - 1)
            % GUARD_PAGE_SIZE as int,
{
    if size > MAX_JIT_BUFFER_SIZE {
        return Err("JIT buffer exceeds maximum size");
    }
    // Round up to a page boundary.
    let x = size + GUARD_PAGE_SIZE - 1;
    let m = x & !(GUARD_PAGE_SIZE - 1);
    assert(m == x - x % 4096) by (bit_vector)
        requires
            m == x & !4095usize,
            x <= 0x20000,
    ;
    Ok(m)
}

} // verus!
