//! Command pools and the submission timeline. Submitting a pool stamps it
//! with the next value of a monotonically increasing counter; resources
//! retired while a pool is executing are parked in that pool's shrine and
//! are destroyed only once a wait has confirmed the timeline has reached the
//! pool's stamp.

use vstd::prelude::*;

verus! {

/// A monotonically increasing submission counter value.
pub type Timestamp = u64;

/// An opaque device handle (a buffer, image, view, or allocation id).
pub type Handle = u64;

/// A caller-facing reference to an acquired command pool.
#[derive(Debug, Clone, Copy, PartialEq, Eq, Structural)]
pub struct Pool {
    pub cmd_buffer: Handle,
    pub id: usize,
}

impl Pool {
    /// The placeholder pool used before any real pool is acquired.
    pub fn null() -> (r: Self)
        ensures
            r.cmd_buffer == 0,
            r.id == 0,
    {
        Pool { cmd_buffer: 0, id: 0 }
    }
}

/// Where a pool stands in its lifecycle.
#[derive(Debug, Clone, Copy, PartialEq, Eq, Structural)]
pub enum PoolState {
    /// Available to be acquired.
    Free,
    /// Acquired; commands are being recorded.
    Recording,
    /// Submitted at the carried timeline value.
    Executing(Timestamp),
}

/// Resources parked until the device has finished with them.
pub struct Shrine {
    pub buffers: Vec<Handle>,
    pub images: Vec<Handle>,
    pub image_views: Vec<Handle>,
    pub allocations: Vec<Handle>,
}

impl Shrine {
    /// An empty shrine.
    pub fn new() -> (r: Self)
        ensures
            r.buffers@ =~= Seq::<Handle>::empty(),
            r.images@ =~= Seq::<Handle>::empty(),
            r.image_views@ =~= Seq::<Handle>::empty(),
            r.allocations@ =~= Seq::<Handle>::empty(),
    {
        Shrine { buffers: Vec::new(), images: Vec::new(), image_views: Vec::new(), allocations: Vec::new() }
    }

    /// Whether nothing is parked here.
    pub open spec fn is_empty(self) -> bool {
        self.buffers@.len() == 0 && self.images@.len() == 0 && self.image_views@.len() == 0
            && self.allocations@.len() == 0
    }
}

/// One pool as the timeline tracks it.
pub struct PoolData {
    pub state: PoolState,
    pub cmd_buffer: Handle,
    pub shrine: Shrine,
}

/// The pools and the submission counter.
pub struct Timeline {
    pub pools: Vec<PoolData>,
    pub timeline_value: Timestamp,
}

/// Whether a sweep at `t` reaps a pool in the given state.
pub open spec fn swept(state: PoolState, t: Timestamp) -> bool {
    match state {
        PoolState::Executing(tp) => tp <= t,
        _ => false,
    }
}

/// The buffer handles a sweep at `t` frees, in pool order.
pub open spec fn swept_buffers(s: Seq<PoolData>, t: Timestamp) -> Seq<Handle>
    decreases s.len(),
{
    if s.len() == 0 {
        Seq::empty()
    } else {
        (if swept(s[0].state, t) {
            s[0].shrine.buffers@
        } else {
            Seq::empty()
        }) + swept_buffers(s.drop_first(), t)
    }
}

/// The image handles a sweep at `t` frees, in pool order.
pub open spec fn swept_images(s: Seq<PoolData>, t: Timestamp) -> Seq<Handle>
    decreases s.len(),
{
    if s.len() == 0 {
        Seq::empty()
    } else {
        (if swept(s[0].state, t) {
            s[0].shrine.images@
        } else {
            Seq::empty()
        }) + swept_images(s.drop_first(), t)
    }
}

/// The image-view handles a sweep at `t` frees, in pool order.
pub open spec fn swept_image_views(s: Seq<PoolData>, t: Timestamp) -> Seq<Handle>
    decreases s.len(),
{
    if s.len() == 0 {
        Seq::empty()
    } else {
        (if swept(s[0].state, t) {
            s[0].shrine.image_views@
        } else {
            Seq::empty()
        }) + swept_image_views(s.drop_first(), t)
    }
}

/// The allocation handles a sweep at `t` frees, in pool order.
pub open spec fn swept_allocations(s: Seq<PoolData>, t: Timestamp) -> Seq<Handle>
    decreases s.len(),
{
    if s.len() == 0 {
        Seq::empty()
    } else {
        (if swept(s[0].state, t) {
            s[0].shrine.allocations@
        } else {
            Seq::empty()
        }) + swept_allocations(s.drop_first(), t)
    }
}

/// The index of the first free pool, or the length when none is free.
pub open spec fn first_free(s: Seq<PoolData>) -> int
    decreases s.len(),
{
    if s.len() == 0 {
        0
    } else if s[0].state == PoolState::Free {
        0
    } else {
        1 + first_free(s.drop_first())
    }
}

impl Timeline {
    /// A timeline with no pools, at counter zero.
    pub fn new() -> (r: Self)
        ensures
            r.pools@.len() == 0,
            r.timeline_value == 0,
    {
        Timeline { pools: Vec::new(), timeline_value: 0 }
    }

    /// Acquires the first free pool, or registers a new one with the given
    /// command-buffer handle; the acquired pool starts recording.
    pub fn acquire_pool(&mut self, new_cmd_buffer: Handle) -> (r: Pool)
        requires
            old(self).pools@.len() < usize::MAX,
        ensures
            final(self).timeline_value == old(self).timeline_value,
            r.id as int == first_free(old(self).pools@),
            first_free(old(self).pools@) < old(self).pools@.len() ==> {
                &&& r.cmd_buffer == old(self).pools@[r.id as int].cmd_buffer
                &&& final(self).pools@ == old(self).pools@.update(
                    r.id as int,
                    PoolData {
                        state: PoolState::Recording,
                        cmd_buffer: old(self).pools@[r.id as int].cmd_buffer,
                        shrine: old(self).pools@[r.id as int].shrine,
                    },
                )
            },
            first_free(old(self).pools@) == old(self).pools@.len() ==> {
                &&& r.cmd_buffer == new_cmd_buffer
                &&& final(self).pools@.len() == old(self).pools@.len() + 1
                &&& final(self).pools@.subrange(0, old(self).pools@.len() as int) == old(
                    self,
                ).pools@
                &&& final(self).pools@.last().state == PoolState::Recording
                &&& final(self).pools@.last().cmd_buffer == new_cmd_buffer
                &&& final(self).pools@.last().shrine.is_empty()
            },
    {
        let n = self.pools.len();
        let mut i: usize = 0;
        while i < n && self.pools[i].state != PoolState::Free
            invariant
                i <= n,
                n == self.pools@.len(),
                forall|j: int| 0 <= j < i ==> (#[trigger] self.pools@[j]).state != PoolState::Free,
            decreases n - i,
        {
            i += 1;
        }
        proof {
            lemma_first_free_at(self.pools@, i as int);
        }
        if i < n {
            let cmd_buffer = self.pools[i].cmd_buffer;
            let mut pd = self.pools.remove(i);
            pd.state = PoolState::Recording;
            self.pools.insert(i, pd);
            proof {
                assert(self.pools@ =~= old(self).pools@.update(
                    i as int,
                    PoolData {
                        state: PoolState::Recording,
                        cmd_buffer: old(self).pools@[i as int].cmd_buffer,
                        shrine: old(self).pools@[i as int].shrine,
                    },
                ));
            }
            Pool { cmd_buffer, id: i }
        } else {
            self.pools.push(
                PoolData {
                    state: PoolState::Recording,
                    cmd_buffer: new_cmd_buffer,
                    shrine: Shrine::new(),
                },
            );
            proof {
                assert(self.pools@.subrange(0, old(self).pools@.len() as int) =~= old(
                    self,
                ).pools@);
            }
            Pool { cmd_buffer: new_cmd_buffer, id: n }
        }
    }

    /// Marks the pool as submitted under the next timeline value and
    /// returns that value.
    pub fn submit_pool(&mut self, pool: Pool) -> (t: Timestamp)
        requires
            pool.id < old(self).pools@.len(),
            old(self).timeline_value < Timestamp::MAX,
        ensures
            t == old(self).timeline_value + 1,
            final(self).timeline_value == t,
            final(self).pools@ == old(self).pools@.update(
                pool.id as int,
                PoolData {
                    state: PoolState::Executing(t),
                    cmd_buffer: old(self).pools@[pool.id as int].cmd_buffer,
                    shrine: old(self).pools@[pool.id as int].shrine,
                },
            ),
    {
        self.timeline_value = self.timeline_value + 1;
        let t = self.timeline_value;
        let mut pd = self.pools.remove(pool.id);
        pd.state = PoolState::Executing(t);
        self.pools.insert(pool.id, pd);
        proof {
            assert(self.pools@ =~= old(self).pools@.update(
                pool.id as int,
                PoolData {
                    state: PoolState::Executing(t),
                    cmd_buffer: old(self).pools@[pool.id as int].cmd_buffer,
                    shrine: old(self).pools@[pool.id as int].shrine,
                },
            ));
        }
        t
    }

    /// Parks a buffer handle in the shrine of the pool acquired as `pool`.
    pub fn cmd_retire_buffer(&mut self, pool: Pool, handle: Handle)
        requires
            pool.id < old(self).pools@.len(),
        ensures
            final(self).timeline_value == old(self).timeline_value,
            final(self).pools@.len() == old(self).pools@.len(),
            final(self).pools@[pool.id as int].shrine.buffers@ == old(self).pools@[pool.id as int]
                .shrine.buffers@.push(handle),
            final(self).pools@[pool.id as int].state == old(self).pools@[pool.id as int].state,
            final(self).pools@[pool.id as int].cmd_buffer == old(self).pools@[pool.id as int]
                .cmd_buffer,
            final(self).pools@[pool.id as int].shrine.images@ == old(self).pools@[pool.id as int]
                .shrine.images@,
            final(self).pools@[pool.id as int].shrine.image_views@ == old(self).pools@[pool.id
                as int].shrine.image_views@,
            final(self).pools@[pool.id as int].shrine.allocations@ == old(self).pools@[pool.id
                as int].shrine.allocations@,
            forall|j: int|
                0 <= j < old(self).pools@.len() && j != pool.id ==> final(self).pools@[j] == old(
                    self,
                ).pools@[j],
    {
        let mut pd = self.pools.remove(pool.id);
        pd.shrine.buffers.push(handle);
        self.pools.insert(pool.id, pd);
    }

    /// Retires a buffer handle: parked in the shrine of the first pool still
    /// executing at the current timeline value, else reported back as safe
    /// to destroy at once.
    pub fn retire_buffer(&mut self, handle: Handle) -> (destroy_now: bool)
        ensures
            final(self).timeline_value == old(self).timeline_value,
            destroy_now == (forall|j: int|
                0 <= j < old(self).pools@.len() ==> (#[trigger] old(self).pools@[j]).state
                    != PoolState::Executing(old(self).timeline_value)),
            destroy_now ==> final(self).pools@ == old(self).pools@,
            !destroy_now ==> final(self).pools@.len() == old(self).pools@.len(),
            !destroy_now ==> exists|i: int|
                {
                    &&& 0 <= i < old(self).pools@.len()
                    &&& (#[trigger] old(self).pools@[i]).state == PoolState::Executing(
                        old(self).timeline_value,
                    )
                    &&& final(self).pools@[i].state == old(self).pools@[i].state
                    &&& final(self).pools@[i].cmd_buffer == old(self).pools@[i].cmd_buffer
                    &&& final(self).pools@[i].shrine.buffers@ == old(self).pools@[i]
                        .shrine.buffers@.push(handle)
                    &&& final(self).pools@[i].shrine.images@ == old(self).pools@[i].shrine.images@
                    &&& final(self).pools@[i].shrine.image_views@ == old(self).pools@[i]
                        .shrine.image_views@
                    &&& final(self).pools@[i].shrine.allocations@ == old(self).pools@[i]
                        .shrine.allocations@
                    &&& forall|j: int|
                        0 <= j < old(self).pools@.len() && j != i ==> final(self).pools@[j] == old(
                            self,
                        ).pools@[j]
                },
    {
        let n = self.pools.len();
        let mut i: usize = 0;
        while i < n
            invariant
                i <= n,
                n == self.pools@.len(),
                self.pools@ == old(self).pools@,
                self.timeline_value == old(self).timeline_value,
                forall|j: int|
                    0 <= j < i ==> (#[trigger] self.pools@[j]).state != PoolState::Executing(
                        self.timeline_value,
                    ),
            decreases n - i,
        {
            if self.pools[i].state == PoolState::Executing(self.timeline_value) {
                let mut pd = self.pools.remove(i);
                pd.shrine.buffers.push(handle);
                self.pools.insert(i, pd);
                return false;
            }
            i += 1;
        }
        true
    }

    /// Sweeps every pool submitted at or before `t`: their parked handles
    /// are returned for destruction, in pool order, and their shrines are
    /// emptied. Pools past `t`, and everything else, stay untouched. A wait
    /// for timestamp zero precedes any submission and sweeps nothing.
    pub fn wait(&mut self, t: Timestamp) -> (freed: Shrine)
        ensures
            final(self).timeline_value == old(self).timeline_value,
            final(self).pools@.len() == old(self).pools@.len(),
            t == 0 ==> final(self).pools@ == old(self).pools@ && freed.is_empty(),
            t > 0 ==> {
                &&& freed.buffers@ == swept_buffers(old(self).pools@, t)
                &&& freed.images@ == swept_images(old(self).pools@, t)
                &&& freed.image_views@ == swept_image_views(old(self).pools@, t)
                &&& freed.allocations@ == swept_allocations(old(self).pools@, t)
                &&& forall|j: int|
                    0 <= j < old(self).pools@.len() ==> {
                        let p0 = (#[trigger] old(self).pools@[j]);
                        let p1 = final(self).pools@[j];
                        &&& p1.state == p0.state
                        &&& p1.cmd_buffer == p0.cmd_buffer
                        &&& (swept(p0.state, t) ==> p1.shrine.is_empty())
                        &&& (!swept(p0.state, t) ==> p1.shrine.buffers@ == p0.shrine.buffers@
                            && p1.shrine.images@ == p0.shrine.images@ && p1.shrine.image_views@
                            == p0.shrine.image_views@ && p1.shrine.allocations@
                            == p0.shrine.allocations@)
                    }
            },
    {
        let mut freed = Shrine::new();
        if t == 0 {
            return freed;
        }
        let ghost orig = self.pools@;
        let mut remaining: Vec<PoolData> = Vec::new();
        core::mem::swap(&mut remaining, &mut self.pools);
        let n = remaining.len();
        proof {
            assert(orig.subrange(0, n as int) =~= orig);
            assert(freed.buffers@ + swept_buffers(orig, t) =~= swept_buffers(orig, t));
            assert(freed.images@ + swept_images(orig, t) =~= swept_images(orig, t));
            assert(freed.image_views@ + swept_image_views(orig, t) =~= swept_image_views(orig, t));
            assert(freed.allocations@ + swept_allocations(orig, t) =~= swept_allocations(orig, t));
        }
        let mut i: usize = 0;
        while i < n
            invariant
                i <= n,
                n == orig.len(),
                self.pools@.len() == i,
                remaining@ == orig.subrange(i as int, n as int),
                self.timeline_value == old(self).timeline_value,
                freed.buffers@ + swept_buffers(orig.subrange(i as int, n as int), t)
                    == swept_buffers(orig, t),
                freed.images@ + swept_images(orig.subrange(i as int, n as int), t) == swept_images(
                    orig,
                    t,
                ),
                freed.image_views@ + swept_image_views(orig.subrange(i as int, n as int), t)
                    == swept_image_views(orig, t),
                freed.allocations@ + swept_allocations(orig.subrange(i as int, n as int), t)
                    == swept_allocations(orig, t),
                forall|j: int|
                    0 <= j < i ==> {
                        let p0 = (#[trigger] orig[j]);
                        let p1 = self.pools@[j];
                        &&& p1.state == p0.state
                        &&& p1.cmd_buffer == p0.cmd_buffer
                        &&& (swept(p0.state, t) ==> p1.shrine.is_empty())
                        &&& (!swept(p0.state, t) ==> p1.shrine.buffers@ == p0.shrine.buffers@
                            && p1.shrine.images@ == p0.shrine.images@ && p1.shrine.image_views@
                            == p0.shrine.image_views@ && p1.shrine.allocations@
                            == p0.shrine.allocations@)
                    },
                t > 0,
            decreases n - i,
        {
            proof {
                assert(orig.subrange(i as int, n as int).drop_first() =~= orig.subrange(
                    i as int + 1,
                    n as int,
                ));
            }
            let mut pd = remaining.remove(0);
            let mut reap = false;
            if let PoolState::Executing(tp) = pd.state {
                if tp <= t {
                    reap = true;
                }
            }
            if reap {
                freed.buffers.append(&mut pd.shrine.buffers);
                freed.images.append(&mut pd.shrine.images);
                freed.image_views.append(&mut pd.shrine.image_views);
                freed.allocations.append(&mut pd.shrine.allocations);
            }
            self.pools.push(pd);
            i += 1;
        }
        proof {
            assert(orig.subrange(n as int, n as int) =~= Seq::<PoolData>::empty());
            assert(freed.buffers@ =~= swept_buffers(orig, t));
            assert(freed.images@ =~= swept_images(orig, t));
            assert(freed.image_views@ =~= swept_image_views(orig, t));
            assert(freed.allocations@ =~= swept_allocations(orig, t));
        }
        freed
    }
}

/// If no pool before `i` is free and pool `i` is free (or `i` is the pool
/// count), then `i` is the first free index.
proof fn lemma_first_free_at(s: Seq<PoolData>, i: int)
    requires
        0 <= i <= s.len(),
        forall|j: int| 0 <= j < i ==> (#[trigger] s[j]).state != PoolState::Free,
        i < s.len() ==> s[i].state == PoolState::Free,
    ensures
        first_free(s) == i,
    decreases s.len(),
{
    if s.len() > 0 {
        if i == 0 {
            if s.len() > 0 && s[0].state != PoolState::Free {
                lemma_first_free_at(s.drop_first(), i);
            }
        } else {
            assert(s[0].state != PoolState::Free);
            assert(forall|j: int|
                0 <= j < i - 1 ==> (#[trigger] s.drop_first()[j]).state != PoolState::Free);
            lemma_first_free_at(s.drop_first(), i - 1);
        }
    }
}

/// A handle parked in a pool executing at `tp` is freed by a sweep at
/// `t >= tp`; a sweep at `t < tp` does not reap that pool, and does not free
/// the handle at all if no other pool parks it.
pub proof fn lemma_deferred_retirement(s: Seq<PoolData>, t: Timestamp, tp: Timestamp, i: int, h: Handle)
    requires
        0 <= i < s.len(),
        s[i].state == PoolState::Executing(tp),
        s[i].shrine.buffers@.contains(h),
    ensures
        tp <= t ==> swept_buffers(s, t).contains(h),
        t < tp ==> !swept(s[i].state, t),
        t < tp && (forall|j: int|
            0 <= j < s.len() && j != i ==> !(#[trigger] s[j]).shrine.buffers@.contains(h))
            ==> !swept_buffers(s, t).contains(h),
    decreases s.len(),
{
    if tp <= t {
        lemma_swept_buffers_contains(s, t, i, h);
    }
    if t < tp && (forall|j: int|
        0 <= j < s.len() && j != i ==> !(#[trigger] s[j]).shrine.buffers@.contains(h)) {
        lemma_swept_buffers_not_contains(s, t, h);
    }
}

/// Concatenated sweep output contains what any swept pool's shrine holds.
proof fn lemma_swept_buffers_contains(s: Seq<PoolData>, t: Timestamp, i: int, h: Handle)
    requires
        0 <= i < s.len(),
        swept(s[i].state, t),
        s[i].shrine.buffers@.contains(h),
    ensures
        swept_buffers(s, t).contains(h),
    decreases s.len(),
{
    if i == 0 {
        let k = choose|k: int| 0 <= k < s[0].shrine.buffers@.len() && s[0].shrine.buffers@[k] == h;
        assert(swept_buffers(s, t)[k] == h);
    } else {
        lemma_swept_buffers_contains(s.drop_first(), t, i - 1, h);
        let rest = swept_buffers(s.drop_first(), t);
        let k = choose|k: int| 0 <= k < rest.len() && rest[k] == h;
        let head = if swept(s[0].state, t) {
            s[0].shrine.buffers@
        } else {
            Seq::<Handle>::empty()
        };
        assert(swept_buffers(s, t)[head.len() + k] == h);
    }
}

/// The sweep frees no handle that no pool's shrine holds for sweeping.
proof fn lemma_swept_buffers_not_contains(s: Seq<PoolData>, t: Timestamp, h: Handle)
    requires
        forall|j: int|
            0 <= j < s.len() && swept((#[trigger] s[j]).state, t) ==> !s[j].shrine.buffers@.contains(
                h,
            ),
    ensures
        !swept_buffers(s, t).contains(h),
    decreases s.len(),
{
    if s.len() > 0 {
        assert(forall|j: int|
            0 <= j < s.drop_first().len() && swept((#[trigger] s.drop_first()[j]).state, t)
                ==> !s.drop_first()[j].shrine.buffers@.contains(h)) by {
            assert(forall|j: int|
                0 <= j < s.drop_first().len() ==> #[trigger] s.drop_first()[j] == s[j + 1]);
        }
        lemma_swept_buffers_not_contains(s.drop_first(), t, h);
        if swept_buffers(s, t).contains(h) {
            let k = choose|k: int|
                0 <= k < swept_buffers(s, t).len() && swept_buffers(s, t)[k] == h;
            let head = if swept(s[0].state, t) {
                s[0].shrine.buffers@
            } else {
                Seq::<Handle>::empty()
            };
            if k < head.len() {
                assert(s[0].shrine.buffers@.contains(h));
            } else {
                assert(swept_buffers(s.drop_first(), t)[k - head.len()] == h);
                assert(swept_buffers(s.drop_first(), t).contains(h));
            }
        }
    }
}

} // verus!
