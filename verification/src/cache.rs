//! A fixed-capacity pool of fixed-size byte buffers, each tagged with the
//! file offset it currently caches, evicted strictly in least-recently-used
//! order.
//!
//! The mathematical model of the cache is [`CacheDB::recency`]: the slots as
//! a sequence ordered from least recently accessed to most recently
//! accessed, where an access is an `insert` or a `get`. `insert` always
//! overwrites the head of that sequence and places the overwritten slot at
//! its back; `get` moves the touched slot to its back. Eviction order is
//! total and deterministic given the access history: no clock is involved,
//! the recency sequence itself is the ordering.

use vstd::prelude::*;

verus! {

/// The tag a slot carries while it caches nothing. `insert` never accepts
/// this value as an offset, so an occupied slot is always distinguishable
/// from an empty one.
pub const EMPTY_OFFSET: u64 = u64::MAX;

/// The chunk cache. `bufs[s]` and `offs[s]` are slot `s`'s buffer and tag;
/// `order` holds every slot index exactly once, least recently accessed
/// first.
pub struct CacheDB {
    bufs: Vec<Vec<u8>>,
    offs: Vec<u64>,
    order: Vec<usize>,
    chunk_size: usize,
}

impl CacheDB {
    /// One slot as the model sees it: its tagged offset (`None` while the
    /// slot is empty) and its buffer contents.
    spec fn slot_model(self, s: int) -> (Option<u64>, Seq<u8>) {
        (
            if self.offs@[s] == EMPTY_OFFSET {
                None
            } else {
                Some(self.offs@[s])
            },
            self.bufs@[s]@,
        )
    }

    /// The cache in recency order: the least recently accessed slot first,
    /// the most recently accessed slot last.
    pub closed spec fn recency(self) -> Seq<(Option<u64>, Seq<u8>)> {
        Seq::new(self.order@.len() as nat, |i: int| self.slot_model(self.order@[i] as int))
    }

    /// The number of slots, fixed at construction.
    pub open spec fn count(self) -> nat {
        self.recency().len()
    }

    /// The capacity of every slot's buffer, fixed at construction.
    pub closed spec fn slot_size(self) -> nat {
        self.chunk_size as nat
    }

    /// Whether some slot currently caches `offset`.
    pub open spec fn spec_contains(self, offset: u64) -> bool {
        exists|i: int| 0 <= i < self.recency().len() && self.recency()[i].0 == Some(offset)
    }

    /// The recency position of the slot that caches `offset`; meaningful
    /// only when `spec_contains(offset)` holds, and then unique.
    pub open spec fn index_of(self, offset: u64) -> int {
        choose|i: int| 0 <= i < self.recency().len() && self.recency()[i].0 == Some(offset)
    }

    /// The bytes cached for `offset`; meaningful only when
    /// `spec_contains(offset)` holds.
    pub open spec fn data_of(self, offset: u64) -> Seq<u8> {
        self.recency()[self.index_of(offset)].1
    }

    /// Whether slot `s` appears somewhere in the recency order.
    spec fn order_has(self, s: int) -> bool {
        exists|i: int| 0 <= i < self.order@.len() && (#[trigger] self.order@[i]) as int == s
    }

    /// The internal invariant: the three columns agree in length, `order`
    /// is a permutation of the slot indices, every buffer has the
    /// configured size, and no two slots carry the same non-empty tag.
    pub closed spec fn wf(self) -> bool {
        &&& self.offs@.len() == self.bufs@.len()
        &&& self.order@.len() == self.bufs@.len()
        &&& self.bufs@.len() >= 1
        &&& self.chunk_size >= 1
        &&& (forall|i: int|
            0 <= i < self.order@.len() ==> (#[trigger] self.order@[i]) < self.bufs@.len())
        &&& (forall|i: int, j: int|
            0 <= i < j < self.order@.len() ==> self.order@[i] != self.order@[j])
        &&& (forall|s: int| 0 <= s < self.bufs@.len() ==> #[trigger] self.order_has(s))
        &&& (forall|s: int|
            0 <= s < self.bufs@.len() ==> (#[trigger] self.bufs@[s])@.len() == self.chunk_size)
        &&& (forall|s1: int, s2: int|
            #![trigger self.offs@[s1], self.offs@[s2]]
            0 <= s1 < self.offs@.len() && 0 <= s2 < self.offs@.len() && s1 != s2
                && self.offs@[s1] != EMPTY_OFFSET ==> self.offs@[s1] != self.offs@[s2])
    }
}

/// A buffer of `chunk_size` zero bytes.
pub(crate) fn zero_chunk(chunk_size: usize) -> (r: Vec<u8>)
    ensures
        r@.len() == chunk_size,
        forall|j: int| 0 <= j < r@.len() ==> r@[j] == 0u8,
{
    let mut v: Vec<u8> = Vec::new();
    let mut k: usize = 0;
    while k < chunk_size
        invariant
            v@.len() == k,
            k <= chunk_size,
            forall|j: int| 0 <= j < k ==> v@[j] == 0u8,
        decreases chunk_size - k,
    {
        v.push(0u8);
        k += 1;
    }
    v
}

/// An owned copy of `src`.
fn copy_bytes(src: &Vec<u8>) -> (r: Vec<u8>)
    ensures
        r@ == src@,
{
    let mut v: Vec<u8> = Vec::new();
    let mut k: usize = 0;
    while k < src.len()
        invariant
            v@.len() == k,
            k <= src@.len(),
            forall|j: int| 0 <= j < k ==> v@[j] == src@[j],
        decreases src@.len() - k,
    {
        v.push(src[k]);
        k += 1;
    }
    proof {
        assert(v@ =~= src@);
    }
    v
}

impl CacheDB {
    /// Allocates `chunk_count` zero-filled buffers of `chunk_size` bytes,
    /// all empty, with slot 0 the least recently used. A zero chunk count
    /// or chunk size is a caller error and is excluded here; the owning
    /// stream rejects such a configuration with an invalid-parameter error
    /// before it reaches the cache.
    pub fn new(chunk_count: usize, chunk_size: usize) -> (r: CacheDB)
        requires
            chunk_count >= 1,
            chunk_size >= 1,
        ensures
            r.wf(),
            r.count() == chunk_count,
            r.slot_size() == chunk_size,
            forall|i: int| 0 <= i < r.count() ==> r.recency()[i].0 is None,
            forall|i: int|
                0 <= i < r.count() ==> r.recency()[i].1 == Seq::new(
                    chunk_size as nat,
                    |j: int| 0u8,
                ),
    {
        let mut bufs: Vec<Vec<u8>> = Vec::new();
        let mut offs: Vec<u64> = Vec::new();
        let mut order: Vec<usize> = Vec::new();
        let mut i: usize = 0;
        while i < chunk_count
            invariant
                bufs@.len() == i,
                offs@.len() == i,
                order@.len() == i,
                i <= chunk_count,
                chunk_size >= 1,
                forall|s: int| 0 <= s < i ==> offs@[s] == EMPTY_OFFSET,
                forall|s: int| 0 <= s < i ==> (#[trigger] order@[s]) == s,
                forall|s: int|
                    0 <= s < i ==> (#[trigger] bufs@[s])@ == Seq::new(
                        chunk_size as nat,
                        |j: int| 0u8,
                    ),
            decreases chunk_count - i,
        {
            let chunk = zero_chunk(chunk_size);
            proof {
                assert(chunk@ =~= Seq::new(chunk_size as nat, |j: int| 0u8));
            }
            bufs.push(chunk);
            offs.push(EMPTY_OFFSET);
            order.push(i);
            i += 1;
        }
        let r = CacheDB { bufs, offs, order, chunk_size };
        proof {
            assert forall|s: int| 0 <= s < r.bufs@.len() implies r.order_has(s) by {
                assert(r.order@[s] as int == s);
            }
        }
        r
    }

    /// True iff some slot's tag equals `offset`.
    pub fn contains(&self, offset: u64) -> (r: bool)
        requires
            self.wf(),
        ensures
            r == self.spec_contains(offset),
    {
        let mut i: usize = 0;
        while i < self.order.len()
            invariant
                self.wf(),
                i <= self.order@.len(),
                forall|k: int| 0 <= k < i ==> self.recency()[k].0 != Some(offset),
            decreases self.order@.len() - i,
        {
            let s = self.order[i];
            if self.offs[s] != EMPTY_OFFSET && self.offs[s] == offset {
                proof {
                    assert(self.recency()[i as int].0 == Some(offset));
                }
                return true;
            }
            proof {
                assert(self.recency()[i as int].0 != Some(offset));
            }
            i += 1;
        }
        false
    }

    /// The recency position of the slot that caches `offset`.
    fn find_pos(&self, offset: u64) -> (r: usize)
        requires
            self.wf(),
            self.spec_contains(offset),
        ensures
            0 <= r < self.count(),
            self.recency()[r as int].0 == Some(offset),
    {
        proof {
            let w = choose|i: int|
                0 <= i < self.recency().len() && self.recency()[i].0 == Some(offset);
            assert(offset != EMPTY_OFFSET);
        }
        let n = self.order.len();
        let mut i: usize = 0;
        loop
            invariant
                self.wf(),
                self.spec_contains(offset),
                offset != EMPTY_OFFSET,
                n == self.order@.len(),
                i <= n,
                forall|k: int| 0 <= k < i ==> self.recency()[k].0 != Some(offset),
            decreases self.order@.len() - i,
        {
            proof {
                let w = choose|k: int|
                    0 <= k < self.recency().len() && self.recency()[k].0 == Some(offset);
                assert(w >= i);
                assert(i < self.order@.len());
            }
            let s = self.order[i];
            if self.offs[s] == offset {
                proof {
                    assert(self.recency()[i as int].0 == Some(offset));
                }
                return i;
            }
            proof {
                assert(self.recency()[i as int].0 != Some(offset));
            }
            i += 1;
        }
    }

    /// Two recency positions never cache the same offset.
    pub proof fn lemma_position_unique(self, i: int, j: int, offset: u64)
        requires
            self.wf(),
            0 <= i < self.count(),
            0 <= j < self.count(),
            self.recency()[i].0 == Some(offset),
            self.recency()[j].0 == Some(offset),
        ensures
            i == j,
    {
        if i != j {
            assert(self.order@[i] != self.order@[j]);
            assert(self.offs@[self.order@[i] as int] == offset);
            assert(self.offs@[self.order@[j] as int] == offset);
            assert(offset != EMPTY_OFFSET);
            assert(false);
        }
    }

    /// Counts and sizes a well-formed cache always has.
    pub proof fn lemma_wf_facts(self)
        requires
            self.wf(),
        ensures
            self.count() >= 1,
            self.slot_size() >= 1,
            forall|i: int| 0 <= i < self.count() ==> self.recency()[i].1.len() == self.slot_size(),
    {
    }

    /// Returns a copy of the bytes cached for `offset` and marks that slot
    /// the most recently used: its entry moves to the back of the recency
    /// order, everything else keeps its relative order. Calling this
    /// without a prior successful `contains` check is a caller error,
    /// excluded by precondition.
    pub fn get(&mut self, offset: u64) -> (r: Vec<u8>)
        requires
            old(self).wf(),
            old(self).spec_contains(offset),
        ensures
            final(self).wf(),
            final(self).count() == old(self).count(),
            final(self).slot_size() == old(self).slot_size(),
            r@ == old(self).data_of(offset),
            r@.len() == old(self).slot_size(),
            final(self).recency() == old(self).recency().remove(old(self).index_of(offset)).push(
                old(self).recency()[old(self).index_of(offset)],
            ),
    {
        let i = self.find_pos(offset);
        proof {
            old(self).lemma_position_unique(i as int, old(self).index_of(offset), offset);
        }
        let s: usize = self.order.remove(i);
        self.order.push(s);
        let r = copy_bytes(&self.bufs[s]);
        proof {
            let pre = *old(self);
            let post = *self;
            assert(post.order@ =~= pre.order@.remove(i as int).push(pre.order@[i as int]));
            // the permutation facts survive the rotation
            assert forall|t: int| 0 <= t < post.bufs@.len() implies post.order_has(t) by {
                assert(pre.order_has(t));
                let k0 = choose|k: int|
                    0 <= k < pre.order@.len() && (#[trigger] pre.order@[k]) as int == t;
                if k0 == i {
                    assert(post.order@[post.order@.len() - 1] as int == t);
                } else if k0 < i {
                    assert(post.order@[k0] as int == t);
                } else {
                    assert(post.order@[k0 - 1] as int == t);
                }
            }
            assert(post.recency() =~= pre.recency().remove(i as int).push(
                pre.recency()[i as int],
            ));
        }
        r
    }

    /// Copies `data` over the front of the least recently used slot's
    /// buffer (the rest of that buffer keeps its previous bytes), tags the
    /// slot with `offset`, and marks it the most recently used. The head of
    /// the recency order — always the least recently accessed slot — is the
    /// one evicted. Re-inserting an offset that is still cached is a caller
    /// error, excluded by precondition; callers test `contains` first.
    pub fn insert(&mut self, data: &[u8], offset: u64)
        requires
            old(self).wf(),
            data@.len() <= old(self).slot_size(),
            offset != EMPTY_OFFSET,
            !old(self).spec_contains(offset),
        ensures
            final(self).wf(),
            final(self).count() == old(self).count(),
            final(self).slot_size() == old(self).slot_size(),
            final(self).spec_contains(offset),
            final(self).recency() == old(self).recency().subrange(
                1,
                old(self).count() as int,
            ).push(
                (
                    Some(offset),
                    data@ + old(self).recency()[0].1.skip(data@.len() as int),
                ),
            ),
    {
        let s: usize = self.order.remove(0);
        self.order.push(s);
        let ghost pre = *old(self);
        // rebuild the victim's buffer: the new bytes, then the old tail
        let mut nb: Vec<u8> = Vec::new();
        let mut k: usize = 0;
        while k < data.len()
            invariant
                nb@.len() == k,
                k <= data@.len(),
                forall|j: int| 0 <= j < k ==> nb@[j] == data@[j],
            decreases data@.len() - k,
        {
            nb.push(data[k]);
            k += 1;
        }
        while k < self.chunk_size
            invariant
                nb@.len() == k,
                data@.len() <= k <= self.chunk_size,
                s < self.bufs@.len(),
                self.bufs@[s as int]@.len() == self.chunk_size,
                forall|j: int| 0 <= j < data@.len() ==> nb@[j] == data@[j],
                forall|j: int| data@.len() <= j < k ==> nb@[j] == self.bufs@[s as int]@[j],
            decreases self.chunk_size - k,
        {
            let b = self.bufs[s][k];
            nb.push(b);
            k += 1;
        }
        self.bufs[s] = nb;
        self.offs[s] = offset;
        proof {
            let post = *self;
            assert(post.order@ =~= pre.order@.remove(0).push(pre.order@[0]));
            assert(s as int == pre.order@[0] as int);
            // no other slot carried this offset: otherwise some recency
            // position of the old cache would have contained it
            assert forall|t: int|
                0 <= t < pre.offs@.len() && t != s as int implies pre.offs@[t]
                != offset by {
                assert(pre.order_has(t));
                let k0 = choose|k: int|
                    0 <= k < pre.order@.len() && (#[trigger] pre.order@[k]) as int == t;
                if pre.offs@[t] == offset {
                    assert(pre.recency()[k0].0 == Some(offset));
                }
            }
            // permutation facts survive the rotation
            assert forall|t: int| 0 <= t < post.bufs@.len() implies post.order_has(t) by {
                assert(pre.order_has(t));
                let k0 = choose|k: int|
                    0 <= k < pre.order@.len() && (#[trigger] pre.order@[k]) as int == t;
                if k0 == 0 {
                    assert(post.order@[post.order@.len() - 1] as int == t);
                } else {
                    assert(post.order@[k0 - 1] as int == t);
                }
            }
            assert(post.wf());
            let pushed = (
                Some(offset),
                data@ + pre.recency()[0].1.skip(data@.len() as int),
            );
            assert(post.bufs@[s as int]@ =~= data@ + pre.bufs@[s as int]@.skip(
                data@.len() as int,
            ));
            assert forall|j: int| 0 <= j < post.recency().len() implies post.recency()[j]
                == pre.recency().subrange(1, pre.count() as int).push(pushed)[j] by {
                if j < post.recency().len() - 1 {
                    assert(post.order@[j] == pre.order@[j + 1]);
                    assert(pre.order@[j + 1] != pre.order@[0]);
                }
            }
            assert(post.recency() =~= pre.recency().subrange(1, pre.count() as int).push(
                pushed,
            ));
            assert(post.recency()[post.recency().len() - 1].0 == Some(offset));
        }
    }
}

/// One insert step adds the inserted offset, keeps every other contained
/// offset whose slot was not the least recently used one, and adds
/// nothing else: an offset is contained immediately after its insertion
/// and stays contained exactly until its slot is evicted by a later insert
/// of a different offset.
pub proof fn lemma_insert_retention(
    pre: CacheDB,
    post: CacheDB,
    offset: u64,
    pushed: (Option<u64>, Seq<u8>),
)
    requires
        pre.count() >= 1,
        pushed.0 == Some(offset),
        post.recency() == pre.recency().subrange(1, pre.count() as int).push(pushed),
    ensures
        post.spec_contains(offset),
        forall|off2: u64|
            pre.spec_contains(off2) && Some(off2) != pre.recency()[0].0
                ==> post.spec_contains(off2),
        forall|off2: u64| post.spec_contains(off2) ==> off2 == offset || pre.spec_contains(off2),
{
    assert(post.recency()[post.recency().len() - 1].0 == Some(offset));
    assert forall|off2: u64|
        pre.spec_contains(off2) && Some(off2) != pre.recency()[0].0 implies post.spec_contains(
        off2,
    ) by {
        let i = choose|i: int|
            0 <= i < pre.recency().len() && pre.recency()[i].0 == Some(off2);
        assert(i >= 1);
        assert(post.recency()[i - 1].0 == Some(off2));
    }
    assert forall|off2: u64| post.spec_contains(off2) implies off2 == offset
        || pre.spec_contains(off2) by {
        let i = choose|i: int|
            0 <= i < post.recency().len() && post.recency()[i].0 == Some(off2);
        if i < post.recency().len() - 1 {
            assert(pre.recency()[i + 1].0 == Some(off2));
        }
    }
}

/// A `get` reorders the recency sequence but never adds or removes a
/// cached offset.
pub proof fn lemma_get_preserves_contains(pre: CacheDB, post: CacheDB, j: int)
    requires
        0 <= j < pre.count(),
        post.recency() == pre.recency().remove(j).push(pre.recency()[j]),
    ensures
        forall|off: u64| pre.spec_contains(off) <==> post.spec_contains(off),
{
    assert forall|off: u64| pre.spec_contains(off) implies post.spec_contains(off) by {
        let i = choose|i: int|
            0 <= i < pre.recency().len() && pre.recency()[i].0 == Some(off);
        if i == j {
            assert(post.recency()[post.recency().len() - 1].0 == Some(off));
        } else if i < j {
            assert(post.recency()[i].0 == Some(off));
        } else {
            assert(post.recency()[i - 1].0 == Some(off));
        }
    }
    assert forall|off: u64| post.spec_contains(off) implies pre.spec_contains(off) by {
        let i = choose|i: int|
            0 <= i < post.recency().len() && post.recency()[i].0 == Some(off);
        if i == post.recency().len() - 1 {
            assert(pre.recency()[j].0 == Some(off));
        } else if i < j {
            assert(pre.recency()[i].0 == Some(off));
        } else {
            assert(pre.recency()[i + 1].0 == Some(off));
        }
    }
}

/// The cache never holds two slots tagged with the same offset, and the
/// set of offsets it reports as contained never has more members than it
/// has slots.
pub proof fn lemma_distinct_offsets(c: CacheDB)
    requires
        c.wf(),
    ensures
        forall|i: int, j: int|
            0 <= i < j < c.count() && c.recency()[i].0 is Some ==> c.recency()[i].0
                != c.recency()[j].0,
        Set::new(|off: u64| c.spec_contains(off)).finite(),
        Set::new(|off: u64| c.spec_contains(off)).len() <= c.count(),
{
    assert forall|i: int, j: int|
        0 <= i < j < c.count() && c.recency()[i].0 is Some implies c.recency()[i].0
        != c.recency()[j].0 by {
        if c.recency()[i].0 == c.recency()[j].0 {
            c.lemma_position_unique(i, j, c.recency()[i].0->Some_0);
        }
    }
    let contained = Set::new(|off: u64| c.spec_contains(off));
    let idxs = Set::new(|i: int| 0 <= i < c.count() && c.recency()[i].0 is Some);
    let rng = vstd::set_lib::set_int_range(0, c.count() as int);
    vstd::set_lib::lemma_int_range(0, c.count() as int);
    assert(idxs.subset_of(rng));
    vstd::set_lib::lemma_len_subset(idxs, rng);
    let f = |i: int| c.recency()[i].0->Some_0;
    vstd::set_lib::lemma_map_size_bound(idxs, idxs.map(f), f);
    assert forall|off: u64| contained.contains(off) implies idxs.map(f).contains(off) by {
        let i = choose|i: int|
            0 <= i < c.recency().len() && c.recency()[i].0 == Some(off);
        assert(idxs.contains(i) && f(i) == off);
    }
    assert forall|off: u64| idxs.map(f).contains(off) implies contained.contains(off) by {
        let i = choose|i: int| idxs.contains(i) && off == f(i);
        assert(c.recency()[i].0 == Some(off));
    }
    assert(idxs.map(f) =~= contained);
}

} // verus!
