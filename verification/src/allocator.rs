//! Allocation with memory and allocation-count limits and statistics.
//!
//! The bookkeeping (limits, counts, sizes, peak size) is the logic here; the
//! memory itself comes from the standard allocator as vectors with room
//! reserved for the requested bytes.
use vstd::prelude::*;
use crate::error_info::{Error, ErrorType};
use crate::memory::{align_gap, size_alignment};
use crate::text::{cleaned, decimal, push_decimal, push_str, string_of};
use crate::error::ERROR_INFO_LENGTH;

verus! {

/// Largest alignment of allocations.
pub const MAXIMUM_ALIGNMENT: usize = 16;

/// Size from which allocations are made individually (1 MiB).
pub const DEFAULT_HUGE_THRESHOLD: usize = 1048576;

/// Largest chunk holding several allocations (16 MiB).
pub const DEFAULT_MAX_CHUNK_SIZE: usize = 16777216;

/// Interface of allocators. Blocks are vectors whose capacity holds the
/// requested bytes.
pub trait Allocator {
    /// A block of `size` bytes, or `None` when none can be had.
    fn alloc_block(&mut self, size: usize) -> Option<Vec<u8>>;

    /// The old and new sizes of each resize asked of the allocator, in order.
    spec fn resize_calls(&self) -> Seq<(usize, usize)>;

    /// A block of `new_size` bytes replacing `old_block` of `old_size` bytes:
    /// a new block when there was none, nothing when `new_size` is zero. The
    /// old block is taken when the call succeeds or frees it, and stays
    /// where it is when the call fails, unless it was a release of a block.
    fn realloc_block(&mut self, old_block: &mut Option<Vec<u8>>, old_size: usize, new_size: usize) -> (r: Option<
        Vec<u8>,
    >)
        ensures
            final(self).resize_calls() == old(self).resize_calls().push((old_size, new_size)),
            (old_size == 0 || new_size != 0) && r is None ==> *final(old_block) == *old(old_block),
    ;

    /// Gives a block of `size` bytes back.
    fn free_block(&mut self, block: Vec<u8>, size: usize);

    /// Releases what the allocator holds.
    fn cleanup(&mut self) {
    }
}

/// Limits and thresholds of an allocator.
#[derive(Debug, Clone)]
pub struct AllocatorOpts {
    /// Bytes that may be allocated at once.
    pub memory_limit: usize,
    /// Number of allocations that may be made.
    pub allocation_limit: usize,
    /// Size from which allocations are made individually; 0 for the default.
    pub huge_threshold: usize,
    /// Largest chunk holding several allocations; 0 for the default.
    pub max_chunk_size: usize,
}

impl Default for AllocatorOpts {
    fn default() -> (r: Self)
        ensures
            r.memory_limit == usize::MAX,
            r.allocation_limit == usize::MAX,
            r.huge_threshold == DEFAULT_HUGE_THRESHOLD,
            r.max_chunk_size == DEFAULT_MAX_CHUNK_SIZE,
    {
        AllocatorOpts {
            memory_limit: usize::MAX,
            allocation_limit: usize::MAX,
            huge_threshold: DEFAULT_HUGE_THRESHOLD,
            max_chunk_size: DEFAULT_MAX_CHUNK_SIZE,
        }
    }
}

/// Statistics kept by an allocator.
#[derive(Debug, Clone)]
pub struct AllocatorStats {
    /// Bytes allocated now.
    pub current_size: usize,
    /// Most bytes allocated at once.
    pub peak_size: usize,
    /// Allocations made.
    pub num_allocs: usize,
    /// Blocks given back.
    pub num_frees: usize,
}

impl Default for AllocatorStats {
    fn default() -> (r: Self)
        ensures
            r.current_size == 0,
            r.peak_size == 0,
            r.num_allocs == 0,
            r.num_frees == 0,
    {
        AllocatorStats { current_size: 0, peak_size: 0, num_allocs: 0, num_frees: 0 }
    }
}

/// Limits, counts and statistics of an allocator.
pub struct AllocatorState {
    /// Bytes allocated now.
    pub current_size: usize,
    /// Bytes that may be allocated at once.
    pub max_size: usize,
    /// Allocations made.
    pub num_allocs: usize,
    /// Number of allocations that may be made.
    pub max_allocs: usize,
    /// Size from which allocations are made individually.
    pub huge_size: usize,
    /// Largest chunk holding several allocations.
    pub chunk_max: usize,
    /// Name used in error information.
    pub name: String,
    /// Statistics.
    pub stats: AllocatorStats,
}

/// The error information for a failed check: `prefix` followed by `tail`.
pub open spec fn info_of(text: Seq<char>) -> Seq<char> {
    cleaned(text, ERROR_INFO_LENGTH as nat)
}

/// An error of the given kind whose information is `text`, cleaned up.
fn error_with(kind: ErrorType, text: String) -> (r: Error)
    ensures
        r.error_type == kind,
        r.stack@.len() == 0,
        r.info@ == info_of(text@),
{
    Error::new(kind).with_info(text.as_str())
}

/// Bytes that may still be allocated under the memory limit.
pub open spec fn room(s: AllocatorState) -> int {
    if s.max_size >= s.current_size {
        s.max_size - s.current_size
    } else {
        0
    }
}

/// Whether an error is of the given kind with the given information text
/// (before cleaning).
pub open spec fn error_is(e: Error, kind: ErrorType, text: Seq<char>) -> bool {
    e.error_type == kind && e.stack@.len() == 0 && e.info@ == info_of(text)
}

impl AllocatorState {
    /// A state with nothing allocated, the limits of `opts` (zero thresholds
    /// taking their defaults) and the name `name`.
    pub fn new(opts: &AllocatorOpts, name: &str) -> (r: Self)
        ensures
            r.current_size == 0,
            r.max_size == opts.memory_limit,
            r.num_allocs == 0,
            r.max_allocs == opts.allocation_limit,
            r.huge_size == (if opts.huge_threshold == 0 {
                DEFAULT_HUGE_THRESHOLD
            } else {
                opts.huge_threshold
            }),
            r.chunk_max == (if opts.max_chunk_size == 0 {
                DEFAULT_MAX_CHUNK_SIZE
            } else {
                opts.max_chunk_size
            }),
            r.name@ == name@,
            r.stats == (AllocatorStats { current_size: 0, peak_size: 0, num_allocs: 0, num_frees: 0 }),
    {
        AllocatorState {
            current_size: 0,
            max_size: opts.memory_limit,
            num_allocs: 0,
            max_allocs: opts.allocation_limit,
            huge_size: if opts.huge_threshold == 0 {
                DEFAULT_HUGE_THRESHOLD
            } else {
                opts.huge_threshold
            },
            chunk_max: if opts.max_chunk_size == 0 {
                DEFAULT_MAX_CHUNK_SIZE
            } else {
                opts.max_chunk_size
            },
            name: string_of(name),
            stats: AllocatorStats::default(),
        }
    }

    /// Whether `total` fails to be `a * b`, checked only when `a` or `b` has
    /// a bit in the upper half of the word (below that the product fits).
    fn does_overflow(total: usize, a: usize, b: usize) -> (r: bool)
        ensures
            r == (((a | b) >> (usize::BITS / 2) as usize) != 0 && a != 0 && total / a != b),
    {
        if ((a | b) >> (usize::BITS / 2) as usize) != 0 {
            if a != 0 && total / a != b {
                return true;
            }
        }
        false
    }

    /// Checks that `total` more bytes may be allocated: not more than half
    /// the address space, within the memory limit, and within the allocation
    /// count limit, checked in that order.
    pub fn check_allocation(&mut self, total: usize) -> (r: Result<(), Error>)
        ensures
            *final(self) == *old(self),
            total > usize::MAX / 2 ==> (r matches Err(e) && error_is(
                e,
                ErrorType::OutOfMemory,
                "Allocation too large: "@ + decimal(total as nat),
            )),
            total <= usize::MAX / 2 && total > room(*old(self)) ==> (r matches Err(e)
                && error_is(e, ErrorType::MemoryLimit, "Memory limit exceeded in "@ + old(self).name@)),
            total <= usize::MAX / 2 && total <= room(*old(self))
                && old(self).num_allocs >= old(self).max_allocs ==> (r matches Err(e) && error_is(
                e,
                ErrorType::AllocationLimit,
                "Allocation limit exceeded in "@ + old(self).name@,
            )),
            r is Ok <==> (total <= usize::MAX / 2 && total <= room(*old(self))
                && old(self).num_allocs < old(self).max_allocs),
    {
        if total > usize::MAX / 2 {
            let mut text = string_of("Allocation too large: ");
            push_decimal(&mut text, total as u64);
            return Err(error_with(ErrorType::OutOfMemory, text));
        }
        let room = if self.max_size >= self.current_size {
            self.max_size - self.current_size
        } else {
            0
        };
        if total > room {
            let mut text = string_of("Memory limit exceeded in ");
            push_str(&mut text, self.name.as_str());
            return Err(error_with(ErrorType::MemoryLimit, text));
        }
        if self.num_allocs >= self.max_allocs {
            let mut text = string_of("Allocation limit exceeded in ");
            push_str(&mut text, self.name.as_str());
            return Err(error_with(ErrorType::AllocationLimit, text));
        }
        Ok(())
    }

    /// Records an allocation of `size` bytes.
    pub fn record_alloc(&mut self, size: usize)
        requires
            old(self).current_size + size <= usize::MAX,
            old(self).num_allocs < usize::MAX,
            old(self).stats.num_allocs < usize::MAX,
        ensures
            final(self).current_size == old(self).current_size + size,
            final(self).num_allocs == old(self).num_allocs + 1,
            final(self).stats.num_allocs == old(self).stats.num_allocs + 1,
            final(self).stats.peak_size == (if final(self).current_size > old(self).stats.peak_size {
                final(self).current_size
            } else {
                old(self).stats.peak_size
            }),
            final(self).stats.current_size == final(self).current_size,
            final(self).stats.num_frees == old(self).stats.num_frees,
            final(self).max_size == old(self).max_size,
            final(self).max_allocs == old(self).max_allocs,
            final(self).huge_size == old(self).huge_size,
            final(self).chunk_max == old(self).chunk_max,
            final(self).name == old(self).name,
    {
        self.current_size = self.current_size + size;
        self.num_allocs = self.num_allocs + 1;
        self.stats.num_allocs = self.stats.num_allocs + 1;
        if self.current_size > self.stats.peak_size {
            self.stats.peak_size = self.current_size;
        }
        self.stats.current_size = self.current_size;
    }

    /// Records that `size` bytes were given back.
    pub fn record_free(&mut self, size: usize)
        requires
            old(self).stats.num_frees < usize::MAX,
        ensures
            final(self).current_size == (if old(self).current_size >= size {
                old(self).current_size - size
            } else {
                0
            }),
            final(self).stats.num_frees == old(self).stats.num_frees + 1,
            final(self).stats.current_size == final(self).current_size,
            final(self).stats.num_allocs == old(self).stats.num_allocs,
            final(self).stats.peak_size == old(self).stats.peak_size,
            final(self).num_allocs == old(self).num_allocs,
            final(self).max_size == old(self).max_size,
            final(self).max_allocs == old(self).max_allocs,
            final(self).huge_size == old(self).huge_size,
            final(self).chunk_max == old(self).chunk_max,
            final(self).name == old(self).name,
    {
        self.current_size = if self.current_size >= size {
            self.current_size - size
        } else {
            0
        };
        self.stats.num_frees = self.stats.num_frees + 1;
        self.stats.current_size = self.current_size;
    }
}

/// The alignment mask for a size: all bits below its lowest set bit, up to
/// the maximum alignment.
pub fn size_align_mask(size: usize) -> (r: usize)
    ensures
        r == size_alignment(size) - 1,
{
    crate::memory::size_align_mask(size)
}

/// `value` moved up to the next boundary given by `align_mask`.
pub fn align_to_mask(value: usize, align_mask: usize) -> (r: usize)
    requires
        value + align_gap(value, align_mask) <= usize::MAX,
    ensures
        r == value + align_gap(value, align_mask),
        crate::memory::is_low_mask(align_mask) ==> r & align_mask == 0,
        align_gap(value, align_mask) <= align_mask,
{
    crate::memory::align_to_mask(value, align_mask)
}

/// Whether the address `addr` lies on the boundary given by `align_mask`.
pub fn is_aligned_mask(addr: usize, align_mask: usize) -> (r: bool)
    ensures
        r == (addr & align_mask == 0),
{
    (addr & align_mask) == 0
}

/// `Vec::try_reserve_exact` on a new vector: a block with room for `size`
/// bytes and no contents, or `None` when the allocation fails.
#[verifier::external_body]
fn reserve_block(size: usize) -> (r: Option<Vec<u8>>)
    ensures
        r matches Some(v) ==> v@.len() == 0,
{
    let mut v: Vec<u8> = Vec::new();
    match v.try_reserve_exact(size) {
        Ok(()) => Some(v),
        Err(_) => None,
    }
}

/// Allocator backed by the standard allocator, with limits and statistics.
pub struct GlobalAllocator {
    /// Limits, counts and statistics.
    pub state: AllocatorState,
    /// The sizes of each resize asked of it.
    pub resize_log: Ghost<Seq<(usize, usize)>>,
}

/// Whether the counters of a state can take one more allocation and free.
pub open spec fn counters_ok(s: AllocatorState) -> bool {
    s.stats.num_allocs <= s.num_allocs && s.stats.num_frees < usize::MAX
}

/// Whether the limits and name of two states agree.
pub open spec fn same_settings(o: AllocatorState, f: AllocatorState) -> bool {
    &&& f.max_size == o.max_size
    &&& f.max_allocs == o.max_allocs
    &&& f.huge_size == o.huge_size
    &&& f.chunk_max == o.chunk_max
    &&& f.name == o.name
}

/// `a - b`, or zero when `b` is larger.
pub open spec fn sat_sub(a: int, b: int) -> int {
    if a >= b {
        a - b
    } else {
        0
    }
}

/// The larger of the old peak and the new size.
pub open spec fn new_peak(o: AllocatorState, size: int) -> int {
    if size > o.stats.peak_size {
        size
    } else {
        o.stats.peak_size as int
    }
}

/// `f` is `o` after recording an allocation of `total` bytes.
pub open spec fn allocated(o: AllocatorState, f: AllocatorState, total: int) -> bool {
    &&& f.current_size == o.current_size + total
    &&& f.num_allocs == o.num_allocs + 1
    &&& f.stats.num_allocs == o.stats.num_allocs + 1
    &&& f.stats.num_frees == o.stats.num_frees
    &&& f.stats.current_size == f.current_size
    &&& f.stats.peak_size == new_peak(o, f.current_size as int)
    &&& same_settings(o, f)
}

/// `f` is `o` after recording that `total` bytes were given back.
pub open spec fn freed(o: AllocatorState, f: AllocatorState, total: int) -> bool {
    &&& f.current_size == sat_sub(o.current_size as int, total)
    &&& f.num_allocs == o.num_allocs
    &&& f.stats.num_allocs == o.stats.num_allocs
    &&& f.stats.num_frees == o.stats.num_frees + 1
    &&& f.stats.current_size == f.current_size
    &&& f.stats.peak_size == o.stats.peak_size
    &&& same_settings(o, f)
}

/// `f` is `o` after a block of `old_total` bytes was resized to `new_total`:
/// a free of the old size, then an allocation of the new.
pub open spec fn resized(o: AllocatorState, f: AllocatorState, old_total: int, new_total: int) -> bool {
    &&& f.current_size == sat_sub(o.current_size as int, old_total) + new_total
    &&& f.num_allocs == o.num_allocs + 1
    &&& f.stats.num_allocs == o.stats.num_allocs + 1
    &&& f.stats.num_frees == o.stats.num_frees + 1
    &&& f.stats.current_size == f.current_size
    &&& f.stats.peak_size == new_peak(o, f.current_size as int)
    &&& same_settings(o, f)
}

/// Whether `total` more bytes pass the checks of `check_allocation`.
pub open spec fn passes(o: AllocatorState, total: int) -> bool {
    total <= usize::MAX / 2 && total <= room(o) && o.num_allocs < o.max_allocs
}

/// The error `check_allocation` gives for `total` bytes that do not pass.
pub open spec fn limit_error(o: AllocatorState, total: int, e: Error) -> bool {
    if total > usize::MAX / 2 {
        error_is(e, ErrorType::OutOfMemory, "Allocation too large: "@ + decimal(total as nat))
    } else if total > room(o) {
        error_is(e, ErrorType::MemoryLimit, "Memory limit exceeded in "@ + o.name@)
    } else {
        error_is(e, ErrorType::AllocationLimit, "Allocation limit exceeded in "@ + o.name@)
    }
}

/// What an allocation of `count` elements of `size` bytes does from state
/// `o`: no elements give an empty block and change nothing; a size that
/// overflows, or that fails the checks, gives its error and changes
/// nothing; a block comes only after the checks pass, empty, with the
/// allocation recorded; any other failure changes nothing.
pub open spec fn alloc_post(o: AllocatorState, f: AllocatorState, size: usize, count: usize, r: Result<Vec<u8>, Error>) -> bool {
    if count == 0 {
        r matches Ok(b) && b@.len() == 0 && f == o
    } else if size * count > usize::MAX {
        r matches Err(e) && error_is(e, ErrorType::OutOfMemory, "Allocation size overflow"@) && f == o
    } else {
        let total = size * count;
        &&& (!passes(o, total) ==> (r matches Err(e) && limit_error(o, total, e)))
        &&& (r matches Ok(b) ==> passes(o, total) && b@.len() == 0 && allocated(o, f, total))
        &&& (r is Err ==> f == o)
    }
}

impl GlobalAllocator {
    /// An allocator with the given options, named `GlobalAllocator`.
    pub fn new(opts: AllocatorOpts) -> (r: Self)
        ensures
            r.state.current_size == 0,
            r.state.max_size == opts.memory_limit,
            r.state.num_allocs == 0,
            r.state.max_allocs == opts.allocation_limit,
            r.state.name@ == "GlobalAllocator"@,
            r.state.stats == (AllocatorStats { current_size: 0, peak_size: 0, num_allocs: 0, num_frees: 0 }),
            r.state.huge_size == (if opts.huge_threshold == 0 {
                DEFAULT_HUGE_THRESHOLD
            } else {
                opts.huge_threshold
            }),
            r.state.chunk_max == (if opts.max_chunk_size == 0 {
                DEFAULT_MAX_CHUNK_SIZE
            } else {
                opts.max_chunk_size
            }),
    {
        GlobalAllocator { state: AllocatorState::new(&opts, "GlobalAllocator"), resize_log: Ghost(Seq::empty()) }
    }

    /// An allocator with the default options.
    pub fn new_default() -> (r: Self)
        ensures
            r.state.current_size == 0,
            r.state.max_size == usize::MAX,
            r.state.num_allocs == 0,
            r.state.max_allocs == usize::MAX,
            r.state.name@ == "GlobalAllocator"@,
            r.state.stats == (AllocatorStats { current_size: 0, peak_size: 0, num_allocs: 0, num_frees: 0 }),
            r.state.huge_size == DEFAULT_HUGE_THRESHOLD,
            r.state.chunk_max == DEFAULT_MAX_CHUNK_SIZE,
    {
        GlobalAllocator::new(AllocatorOpts::default())
    }

    /// The allocator's statistics.
    pub fn stats(&self) -> (r: &AllocatorStats)
        ensures
            *r == self.state.stats,
    {
        &self.state.stats
    }

    /// Allocates `count` elements of `size` bytes, within the limits. No
    /// elements always succeed with an empty block and record nothing.
    pub fn alloc_checked(&mut self, size: usize, count: usize) -> (r: Result<Vec<u8>, Error>)
        requires
            counters_ok(old(self).state),
        ensures
            counters_ok(final(self).state),
            alloc_post(old(self).state, final(self).state, size, count, r),
    {
        if count == 0 {
            return Ok(Vec::new());
        }
        let total = match size.checked_mul(count) {
            Some(t) => t,
            None => {
                return Err(error_with(ErrorType::OutOfMemory, string_of("Allocation size overflow")));
            },
        };
        match self.state.check_allocation(total) {
            Err(e) => {
                return Err(e);
            },
            Ok(()) => {},
        }
        let block = match self.alloc_block(total) {
            Some(b) => b,
            None => {
                let mut text = string_of("Failed to allocate ");
                push_decimal(&mut text, total as u64);
                push_str(&mut text, " bytes in ");
                push_str(&mut text, self.state.name.as_str());
                return Err(error_with(ErrorType::OutOfMemory, text));
            },
        };
        self.state.record_alloc(total);
        Ok(block)
    }

    /// Resizes a block of `old_count` elements of `old_size` bytes to
    /// `new_count` elements of `size` bytes, within the limits: a new
    /// allocation when there were no elements, a release when there are none.
    pub fn realloc_checked(
        &mut self,
        old_block: &mut Option<Vec<u8>>,
        old_size: usize,
        old_count: usize,
        new_count: usize,
        size: usize,
    ) -> (r: Result<Option<Vec<u8>>, Error>)
        requires
            counters_ok(old(self).state),
            old_count != 0 ==> old_size * old_count <= usize::MAX,
        ensures
            counters_ok(final(self).state) || (r is Ok && old_count != 0),
            old_count == 0 ==> *final(old_block) == *old(old_block) && match r {
                Ok(Some(b)) => alloc_post(old(self).state, final(self).state, size, new_count, Ok(b)),
                Ok(None) => false,
                Err(e) => alloc_post(old(self).state, final(self).state, size, new_count, Err(e)),
            },
            old_count != 0 && new_count == 0 ==> r == Ok::<Option<Vec<u8>>, Error>(None) && *final(old_block) is None
                && (*old(old_block) is Some ==> freed(old(self).state, final(self).state, old_size * old_count))
                && (*old(old_block) is None ==> final(self).state == old(self).state),
            old_count != 0 && new_count != 0 && size * new_count > usize::MAX ==> (r matches Err(e)
                && error_is(e, ErrorType::OutOfMemory, "Reallocation size overflow"@)),
            old_count != 0 && new_count != 0 && size * new_count <= usize::MAX ==> ({
                let old_total = old_size * old_count;
                let new_total = size * new_count;
                let growth = sat_sub(new_total, old_total);
                &&& (!passes(old(self).state, growth) ==> (r matches Err(e) && limit_error(old(self).state, growth, e)))
                &&& (r is Ok ==> passes(old(self).state, growth) && (r matches Ok(Some(b)) && b@.len() == 0)
                    && resized(old(self).state, final(self).state, old_total, new_total)
                    && (old_total != 0 ==> *final(old_block) is None))
            }),
            r is Err ==> final(self).state == old(self).state,
            r is Err && size != 0 ==> *final(old_block) == *old(old_block),
    {
        if old_count == 0 {
            return match self.alloc_checked(size, new_count) {
                Ok(b) => Ok(Some(b)),
                Err(e) => Err(e),
            };
        }
        if new_count == 0 {
            match old_block.take() {
                Some(b) => {
                    let old_total = old_size * old_count;
                    self.free_block(b, old_total);
                    self.state.record_free(old_total);
                },
                None => {},
            }
            return Ok(None);
        }
        let old_total = old_size * old_count;
        let new_total = match size.checked_mul(new_count) {
            Some(t) => t,
            None => {
                return Err(
                    error_with(ErrorType::OutOfMemory, string_of("Reallocation size overflow")),
                );
            },
        };
        let growth = if new_total >= old_total {
            new_total - old_total
        } else {
            0
        };
        match self.state.check_allocation(growth) {
            Err(e) => {
                return Err(e);
            },
            Ok(()) => {},
        }
        assert(size != 0 ==> new_total != 0) by (nonlinear_arith)
            requires
                new_total == size * new_count,
                new_count != 0,
        ;
        let new_block = match self.realloc_block(old_block, old_total, new_total) {
            Some(b) => b,
            None => {
                let mut text = string_of("Failed to reallocate ");
                push_decimal(&mut text, new_total as u64);
                push_str(&mut text, " bytes in ");
                push_str(&mut text, self.state.name.as_str());
                return Err(error_with(ErrorType::OutOfMemory, text));
            },
        };
        self.state.record_free(old_total);
        self.state.record_alloc(new_total);
        Ok(Some(new_block))
    }
}

impl Allocator for GlobalAllocator {
    open spec fn resize_calls(&self) -> Seq<(usize, usize)> {
        self.resize_log@
    }

    fn alloc_block(&mut self, size: usize) -> (r: Option<Vec<u8>>)
        ensures
            *final(self) == *old(self),
            size == 0 ==> r is Some,
            r matches Some(v) ==> v@.len() == 0,
    {
        if size == 0 {
            return Some(Vec::new());
        }
        reserve_block(size)
    }

    fn realloc_block(&mut self, old_block: &mut Option<Vec<u8>>, old_size: usize, new_size: usize) -> (r:
        Option<Vec<u8>>)
        ensures
            final(self).state == old(self).state,
            r matches Some(v) ==> v@.len() == 0,
            old_size == 0 ==> *final(old_block) == *old(old_block) && (new_size == 0 ==> r is Some),
            old_size != 0 && new_size == 0 ==> r is None && *final(old_block) is None,
            old_size != 0 && new_size != 0 && *old(old_block) is None ==> *final(old_block) is None,
            old_size != 0 && new_size != 0 && r is Some ==> *final(old_block) is None,
            new_size != 0 && r is None ==> *final(old_block) == *old(old_block),
    {
        self.resize_log = Ghost(self.resize_log@.push((old_size, new_size)));
        if old_size == 0 {
            return self.alloc_block(new_size);
        }
        if new_size == 0 {
            match old_block.take() {
                Some(b) => self.free_block(b, old_size),
                None => {},
            }
            return None;
        }
        if old_block.is_none() {
            return self.alloc_block(new_size);
        }
        match reserve_block(new_size) {
            Some(nb) => {
                match old_block.take() {
                    Some(b) => self.free_block(b, old_size),
                    None => {},
                }
                Some(nb)
            },
            None => None,
        }
    }

    fn free_block(&mut self, block: Vec<u8>, size: usize)
        ensures
            *final(self) == *old(self),
    {
    }
}

/// An array's capacity, grown through an allocator.
pub struct GrowableArray<T> {
    block: Option<Vec<u8>>,
    capacity: usize,
    len: usize,
    marker: core::marker::PhantomData<T>,
}

impl<T> GrowableArray<T> {
    /// An empty array with no capacity.
    pub fn new() -> (r: Self)
        ensures
            r.capacity_spec() == 0,
            r.len_spec() == 0,
    {
        GrowableArray { block: None, capacity: 0, len: 0, marker: core::marker::PhantomData }
    }

    /// Number of elements that fit.
    pub closed spec fn capacity_spec(&self) -> usize {
        self.capacity
    }

    /// Number of elements held.
    pub closed spec fn len_spec(&self) -> usize {
        self.len
    }

    /// Whether the array holds a block.
    pub closed spec fn has_block(&self) -> bool {
        self.block is Some
    }

    /// Makes room for at least `required` elements: when there is not enough,
    /// the capacity becomes twice the largest of the old capacity, `required`
    /// and 4.
    pub fn grow<A: Allocator>(&mut self, allocator: &mut A, required: usize) -> (r: Result<(), Error>)
        requires
            required <= usize::MAX / 2,
            vstd::layout::size_of::<T>() * (2 * (if required > 4 {
                required
            } else {
                4
            })) <= usize::MAX,
        ensures
            required <= old(self).capacity_spec() ==> r is Ok && final(self).capacity_spec()
                == old(self).capacity_spec(),
            r is Ok && required > old(self).capacity_spec() ==> final(self).capacity_spec() == 2 * (
            if required > 4 {
                required
            } else {
                4
            }),
            required <= old(self).capacity_spec() ==> *final(self) == *old(self),
            r is Ok && required > old(self).capacity_spec() ==> final(self).has_block(),
            r matches Err(e) ==> e.error_type == ErrorType::OutOfMemory && final(self).capacity_spec()
                == old(self).capacity_spec(),
            r is Err ==> *final(self) == *old(self),
            required <= old(self).capacity_spec() ==> *final(allocator) == *old(allocator),
            required > old(self).capacity_spec() ==> final(allocator).resize_calls() == old(
                allocator,
            ).resize_calls().push(
                (
                    (vstd::layout::size_of::<T>() * old(self).capacity_spec()) as usize,
                    (vstd::layout::size_of::<T>() * (2 * (if required > 4 {
                        required
                    } else {
                        4
                    }))) as usize,
                ),
            ),
            final(self).len_spec() == old(self).len_spec(),
    {
        if required <= self.capacity {
            return Ok(());
        }
        let base = if required > 4 {
            required
        } else {
            4
        };
        let new_capacity = base * 2;
        let elem = core::mem::size_of::<T>();
        assert(elem * self.capacity <= usize::MAX) by (nonlinear_arith)
            requires
                elem * new_capacity <= usize::MAX,
                self.capacity <= new_capacity,
        ;
        let old_size = elem * self.capacity;
        let new_size = elem * new_capacity;
        proof {
            assert(old_size == 0 || new_size > 0) by (nonlinear_arith)
                requires
                    new_size == elem * new_capacity,
                    old_size == elem * self.capacity,
                    new_capacity >= 8,
            ;
        }
        match allocator.realloc_block(&mut self.block, old_size, new_size) {
            Some(b) => {
                self.block = Some(b);
                self.capacity = new_capacity;
                Ok(())
            },
            None => Err(Error::new(ErrorType::OutOfMemory)),
        }
    }

    /// Number of elements that fit.
    pub fn capacity(&self) -> (r: usize)
        ensures
            r == self.capacity_spec(),
    {
        self.capacity
    }

    /// Number of elements held.
    pub fn len(&self) -> (r: usize)
        ensures
            r == self.len_spec(),
    {
        self.len
    }

    /// Whether the array holds no elements.
    pub fn is_empty(&self) -> (r: bool)
        ensures
            r == (self.len_spec() == 0),
    {
        self.len == 0
    }
}

} // verus!
