//! The bounded allocator: every guest memory request is checked against the
//! quota that the host reports at call time. Usage always equals the sum of
//! the sizes of the outstanding blocks; a request whose grant would push
//! usage past the quota is denied, and a denied resize leaves the original
//! block unchanged.
//!
//! The guest runtime hands the allocator combined alloc/realloc/free
//! requests `(pointer_or_null, old_size, new_size)`; they map onto the three
//! methods here: `new_size == 0` is [`BoundedAllocator::free`], a null
//! pointer is [`BoundedAllocator::allocate`], and the rest is
//! [`BoundedAllocator::resize`].

use vstd::prelude::*;

verus! {

/// Sum of a sequence of block sizes.
pub open spec fn size_sum(s: Seq<nat>) -> int
    decreases s.len(),
{
    if s.len() == 0 {
        0
    } else {
        s[0] + size_sum(s.skip(1))
    }
}

pub proof fn lemma_size_sum_nonneg(s: Seq<nat>)
    ensures
        size_sum(s) >= 0,
    decreases s.len(),
{
    if s.len() > 0 {
        lemma_size_sum_nonneg(s.skip(1));
    }
}

pub proof fn lemma_size_sum_push(s: Seq<nat>, x: nat)
    ensures
        size_sum(s.push(x)) == size_sum(s) + x,
    decreases s.len(),
{
    if s.len() == 0 {
        assert(s.push(x).skip(1) =~= Seq::<nat>::empty());
        assert(size_sum(s.push(x)) == x + size_sum(Seq::<nat>::empty()));
    } else {
        assert(s.push(x).skip(1) =~= s.skip(1).push(x));
        lemma_size_sum_push(s.skip(1), x);
        assert(size_sum(s.push(x)) == s[0] + size_sum(s.skip(1).push(x)));
    }
}

pub proof fn lemma_size_sum_remove(s: Seq<nat>, i: int)
    requires
        0 <= i < s.len(),
    ensures
        size_sum(s.remove(i)) == size_sum(s) - s[i],
    decreases s.len(),
{
    if i == 0 {
        assert(s.remove(0) =~= s.skip(1));
    } else {
        assert(s.remove(i).skip(1) =~= s.skip(1).remove(i - 1));
        lemma_size_sum_remove(s.skip(1), i - 1);
    }
}

pub proof fn lemma_size_sum_update(s: Seq<nat>, i: int, x: nat)
    requires
        0 <= i < s.len(),
    ensures
        size_sum(s.update(i, x)) == size_sum(s) - s[i] + x,
    decreases s.len(),
{
    if i == 0 {
        assert(s.update(0, x).skip(1) =~= s.skip(1));
    } else {
        assert(s.update(i, x).skip(1) =~= s.skip(1).update(i - 1, x));
        lemma_size_sum_update(s.skip(1), i - 1, x);
    }
}

/// A single size in a sequence never exceeds the whole sum.
pub proof fn lemma_size_sum_element_bound(s: Seq<nat>, i: int)
    requires
        0 <= i < s.len(),
    ensures
        s[i] <= size_sum(s),
{
    lemma_size_sum_remove(s, i);
    lemma_size_sum_nonneg(s.remove(i));
}

/// The quota rule applied to every grant: live usage, minus what the request
/// releases, plus what it asks for, must stay within the quota in effect at
/// call time.
pub open spec fn grant_allowed(usage: int, freed: int, requested: int, quota: int) -> bool {
    usage - freed + requested <= quota
}

/// Tracks the guest's live memory. The ghost sequence `live` holds the size
/// of every outstanding block; the invariant ties the byte counter to it.
pub struct BoundedAllocator {
    usage: usize,
    live: Ghost<Seq<nat>>,
}

impl BoundedAllocator {
    /// Current live usage in bytes.
    pub closed spec fn usage_int(&self) -> int {
        self.usage as int
    }

    /// Sizes of all outstanding blocks, in grant order.
    pub closed spec fn blocks(&self) -> Seq<nat> {
        self.live@
    }

    /// Usage always equals the sum of all outstanding allocation sizes.
    pub open spec fn wf(&self) -> bool {
        self.usage_int() == size_sum(self.blocks())
    }

    pub fn new() -> (a: Self)
        ensures
            a.wf(),
            a.usage_int() == 0,
            a.blocks() =~= Seq::<nat>::empty(),
    {
        BoundedAllocator { usage: 0, live: Ghost(Seq::empty()) }
    }

    /// Live usage as reported to the host once per tick.
    pub fn memory_usage(&self) -> (u: usize)
        ensures
            u == self.usage_int(),
    {
        self.usage
    }

    /// A fresh allocation of `size` bytes. Denied exactly when the grant
    /// would push usage past `quota`; a denial changes nothing and surfaces
    /// to the guest as an ordinary out-of-memory condition, never a crash.
    pub fn allocate(&mut self, quota: usize, size: usize) -> (r: Option<Vec<u8>>)
        requires
            old(self).wf(),
        ensures
            final(self).wf(),
            r is Some <==> grant_allowed(old(self).usage_int(), 0, size as int, quota as int),
            r is None ==> *final(self) == *old(self),
            r matches Some(b) ==> {
                &&& b@ =~= Seq::new(size as nat, |i: int| 0u8)
                &&& final(self).usage_int() == old(self).usage_int() + size
                &&& final(self).usage_int() <= quota
                &&& final(self).blocks() =~= old(self).blocks().push(size as nat)
            },
    {
        if size > quota || self.usage > quota - size {
            return None;
        }
        let mut data: Vec<u8> = Vec::new();
        let mut j: usize = 0;
        while j < size
            invariant
                j <= size,
                data@ =~= Seq::new(j as nat, |i: int| 0u8),
            decreases size - j,
        {
            data.push(0);
            j = j + 1;
        }
        proof {
            lemma_size_sum_push(self.live@, size as nat);
        }
        self.usage = self.usage + size;
        self.live = Ghost(self.live@.push(size as nat));
        Some(data)
    }

    /// Releases a granted block. Never fails; usage drops by the block size.
    pub fn free(&mut self, block: Vec<u8>)
        requires
            old(self).wf(),
            old(self).blocks().contains(block@.len() as nat),
        ensures
            final(self).wf(),
            final(self).usage_int() == old(self).usage_int() - block@.len(),
            exists|i: int|
                0 <= i < old(self).blocks().len() && old(self).blocks()[i] == block@.len()
                    && final(self).blocks() =~= old(self).blocks().remove(i),
    {
        let len = block.len();
        proof {
            let i = choose|i: int|
                0 <= i < self.live@.len() && self.live@[i] == block@.len() as nat;
            lemma_size_sum_remove(self.live@, i);
            lemma_size_sum_nonneg(self.live@.remove(i));
            self.live@ = self.live@.remove(i);
        }
        self.usage = self.usage - len;
    }

    /// Resizes a granted block, all or nothing: when the net growth would
    /// push usage past `quota` the request is denied and the original block
    /// comes back with its contents and size untouched. The quota check
    /// subtracts the old size before adding the new one, so a shrink can
    /// never be denied and a grow is held against the net increase only.
    pub fn resize(&mut self, quota: usize, block: Vec<u8>, new_size: usize) -> (r: Result<
        Vec<u8>,
        Vec<u8>,
    >)
        requires
            old(self).wf(),
            old(self).blocks().contains(block@.len() as nat),
        ensures
            final(self).wf(),
            r is Ok <==> grant_allowed(
                old(self).usage_int(),
                block@.len() as int,
                new_size as int,
                quota as int,
            ),
            r matches Err(b) ==> b@ =~= block@ && *final(self) == *old(self),
            r matches Ok(b) ==> {
                &&& b@.len() == new_size
                &&& forall|i: int|
                    0 <= i < block@.len() && i < new_size ==> b@[i] == block@[i]
                &&& forall|i: int| block@.len() <= i < new_size ==> b@[i] == 0u8
                &&& final(self).usage_int() == old(self).usage_int() - block@.len() + new_size
                &&& final(self).usage_int() <= quota
                &&& exists|i: int|
                    0 <= i < old(self).blocks().len() && old(self).blocks()[i] == block@.len()
                        && final(self).blocks() =~= old(self).blocks().update(i, new_size as nat)
            },
    {
        let old_len = block.len();
        proof {
            let i = choose|i: int|
                0 <= i < self.live@.len() && self.live@[i] == block@.len() as nat;
            lemma_size_sum_element_bound(self.live@, i);
        }
        let base = self.usage - old_len;
        if new_size > quota || base > quota - new_size {
            return Err(block);
        }
        let mut data: Vec<u8> = Vec::new();
        let mut j: usize = 0;
        while j < new_size
            invariant
                j <= new_size,
                data@.len() == j,
                forall|i: int| 0 <= i < j && i < block@.len() ==> data@[i] == block@[i],
                forall|i: int| block@.len() <= i < j ==> data@[i] == 0u8,
            decreases new_size - j,
        {
            if j < block.len() {
                data.push(block[j]);
            } else {
                data.push(0);
            }
            j = j + 1;
        }
        proof {
            let i = choose|i: int|
                0 <= i < self.live@.len() && self.live@[i] == block@.len() as nat;
            lemma_size_sum_update(self.live@, i, new_size as nat);
            self.live@ = self.live@.update(i, new_size as nat);
        }
        self.usage = base + new_size;
        Ok(data)
    }
}

/// The old size a request actually releases: a request without a pointer
/// is a fresh allocation whatever old size rides along.
pub open spec fn effective_old(ptr_present: bool, old_size: usize) -> int {
    if ptr_present {
        old_size as int
    } else {
        0
    }
}

/// The decision on one combined alloc/realloc/free request
/// `(pointer_or_null, old_size, new_size)` as the guest runtime poses it:
/// the new usage to record on a grant, or nothing on a denial. A release
/// (`new_size == 0`) never fails; a fresh allocation or resize is granted
/// exactly when the net result stays within the quota in effect at call
/// time.
pub fn request_decision(
    usage: usize,
    ptr_present: bool,
    old_size: usize,
    new_size: usize,
    quota: usize,
) -> (r: Option<usize>)
    requires
        new_size == 0 ==> old_size <= usage,
        new_size > 0 && ptr_present ==> old_size <= usage,
    ensures
        new_size == 0 ==> (r matches Some(u) && u == usage - old_size),
        new_size > 0 ==> ((r is Some) <==> grant_allowed(
            usage as int,
            effective_old(ptr_present, old_size),
            new_size as int,
            quota as int,
        )),
        new_size > 0 ==> (r matches Some(u) ==> u == usage - effective_old(
            ptr_present,
            old_size,
        ) + new_size && u <= quota),
{
    if new_size == 0 {
        Some(usage - old_size)
    } else {
        let actual_old = if ptr_present {
            old_size
        } else {
            0
        };
        let base = usage - actual_old;
        if new_size > quota || base > quota - new_size {
            None
        } else {
            Some(base + new_size)
        }
    }
}

/// The quota check subtracts what a resize releases before adding what it
/// asks for, so as long as usage is within the quota an in-place shrink
/// can never be denied, and a grow is held only against the net increase.
pub proof fn lemma_shrink_never_denied(usage: int, old_size: int, new_size: int, quota: int)
    requires
        0 <= new_size <= old_size <= usage,
        usage <= quota,
    ensures
        grant_allowed(usage, old_size, new_size, quota),
{
}

/// Accounting view of one completed allocator call: a granted request adds
/// its size to usage, a release subtracts it. [`BoundedAllocator::allocate`]
/// and [`BoundedAllocator::resize`] ensure exactly these moves on success,
/// and [`BoundedAllocator::free`] the release.
pub enum AllocEvent {
    Granted(nat),
    Released(nat),
}

/// Usage at the end of a sequence of completed calls.
pub open spec fn usage_after(u: int, events: Seq<AllocEvent>) -> int
    decreases events.len(),
{
    if events.len() == 0 {
        u
    } else {
        let d = match events[0] {
            AllocEvent::Granted(n) => n as int,
            AllocEvent::Released(n) => -(n as int),
        };
        usage_after(u + d, events.skip(1))
    }
}

pub open spec fn granted_total(events: Seq<AllocEvent>) -> int
    decreases events.len(),
{
    if events.len() == 0 {
        0
    } else {
        let d = match events[0] {
            AllocEvent::Granted(n) => n as int,
            AllocEvent::Released(_) => 0,
        };
        d + granted_total(events.skip(1))
    }
}

pub open spec fn released_total(events: Seq<AllocEvent>) -> int
    decreases events.len(),
{
    if events.len() == 0 {
        0
    } else {
        let d = match events[0] {
            AllocEvent::Granted(_) => 0,
            AllocEvent::Released(n) => n as int,
        };
        d + released_total(events.skip(1))
    }
}

pub proof fn lemma_usage_after_totals(u: int, events: Seq<AllocEvent>)
    ensures
        usage_after(u, events) == u + granted_total(events) - released_total(events),
    decreases events.len(),
{
    if events.len() > 0 {
        let d = match events[0] {
            AllocEvent::Granted(n) => n as int,
            AllocEvent::Released(n) => -(n as int),
        };
        lemma_usage_after_totals(u + d, events.skip(1));
    }
}

/// After any sequence of completed calls in which every granted size is
/// matched by a release of the same total — in particular after any number
/// of matched allocate/free pairs — usage returns to its starting value.
pub proof fn lemma_balanced_calls_restore_usage(u: int, events: Seq<AllocEvent>)
    requires
        granted_total(events) == released_total(events),
    ensures
        usage_after(u, events) == u,
{
    lemma_usage_after_totals(u, events);
}

/// The conservative margin applied before a helper materializes a
/// guest-visible string of `len` bytes: twice the length plus a fixed
/// overhead must still fit in the free space, since the guest runtime's own
/// per-string bookkeeping is not observable from outside. When the margin is
/// not available the creation fails cleanly as an out-of-memory condition.
pub fn string_reserve_ok(usage: usize, quota: usize, len: usize) -> (r: bool)
    requires
        usage <= quota,
        2 * len + 64 <= usize::MAX,
    ensures
        r <==> 2 * len + 64 <= quota - usage,
{
    let free_space = quota - usage;
    !(len * 2 + 64 > free_space)
}

} // verus!
