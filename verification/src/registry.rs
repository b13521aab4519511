//! The extension registry: the in-memory map from source id to the live
//! plugin instance, keys unique, iteration order irrelevant.
//!
//! A given id maps to at most one live instance at any time; replacing goes
//! through an explicit unload-then-load, except for [`Registry::put`], whose
//! silent overwrite is intentional and used for built-in sources.

use crate::source_info::{EntryV, SourceEntry, SourceInfo};
use vstd::prelude::*;

verus! {

/// The first entry of `s` whose id is `id`, scanning from the front.
pub open spec fn reg_get(s: Seq<SourceEntry>, id: int) -> Option<SourceEntry>
    decreases s.len(),
{
    if s.len() == 0 {
        None
    } else if s[0].info.id == id {
        Some(s[0])
    } else {
        reg_get(s.subrange(1, s.len() as int), id)
    }
}

/// Whether some entry of `s` carries id `id`.
pub open spec fn reg_has(s: Seq<SourceEntry>, id: int) -> bool {
    exists|i: int| 0 <= i < s.len() && (#[trigger] s[i]).info.id == id
}

/// Pairwise-distinct ids.
pub open spec fn distinct_ids(s: Seq<SourceEntry>) -> bool {
    forall|i: int, j: int|
        0 <= i < j < s.len() ==> (#[trigger] s[i]).info.id != (#[trigger] s[j]).info.id
}

/// `reg_get` answers `Some` exactly on the ids that occur in `s`.
pub proof fn lemma_reg_get_has(s: Seq<SourceEntry>, id: int)
    ensures
        reg_get(s, id) is Some <==> reg_has(s, id),
    decreases s.len(),
{
    if s.len() == 0 {
    } else if s[0].info.id == id {
        assert(reg_has(s, id));
    } else {
        let t = s.subrange(1, s.len() as int);
        lemma_reg_get_has(t, id);
        if reg_has(t, id) {
            let i = choose|i: int| 0 <= i < t.len() && (#[trigger] t[i]).info.id == id;
            assert(s[i + 1].info.id == id);
        }
        if reg_has(s, id) {
            let i = choose|i: int| 0 <= i < s.len() && (#[trigger] s[i]).info.id == id;
            assert(i != 0);
            assert(t[i - 1].info.id == id);
        }
    }
}

/// With distinct ids, any entry that carries `id` is the one `reg_get` finds.
pub proof fn lemma_reg_get_at(s: Seq<SourceEntry>, id: int, i: int)
    requires
        distinct_ids(s),
        0 <= i < s.len(),
        s[i].info.id == id,
    ensures
        reg_get(s, id) == Some(s[i]),
    decreases s.len(),
{
    if i == 0 {
    } else {
        assert(s[0].info.id != id);
        let t = s.subrange(1, s.len() as int);
        assert forall|a: int, b: int| 0 <= a < b < t.len() implies (#[trigger] t[a]).info.id != (
        #[trigger] t[b]).info.id by {
            assert(t[a] == s[a + 1]);
            assert(t[b] == s[b + 1]);
        }
        assert(t[i - 1] == s[i]);
        lemma_reg_get_at(t, id, i - 1);
    }
}

/// Removing the one entry carrying `id` keeps the ids distinct, keeps every
/// other id's entry, and leaves no entry carrying `id`.
proof fn lemma_reg_remove(pre: Seq<SourceEntry>, mid: Seq<SourceEntry>, i: int, id: int)
    requires
        distinct_ids(pre),
        0 <= i < pre.len(),
        pre[i].info.id == id,
        mid == pre.remove(i),
    ensures
        distinct_ids(mid),
        !reg_has(mid, id),
        forall|k: int| k != id ==> reg_get(mid, k) == reg_get(pre, k),
{
    assert forall|a: int, b: int| 0 <= a < b < mid.len() implies (#[trigger] mid[a]).info.id != (
    #[trigger] mid[b]).info.id by {
        let pa = if a < i { a } else { a + 1 };
        let pb = if b < i { b } else { b + 1 };
        assert(mid[a] == pre[pa]);
        assert(mid[b] == pre[pb]);
    }
    assert(!reg_has(mid, id)) by {
        if reg_has(mid, id) {
            let j = choose|j: int| 0 <= j < mid.len() && (#[trigger] mid[j]).info.id == id;
            let pj = if j < i { j } else { j + 1 };
            assert(mid[j] == pre[pj]);
        }
    }
    assert forall|k: int| k != id implies reg_get(mid, k) == reg_get(pre, k) by {
        lemma_reg_get_has(pre, k);
        lemma_reg_get_has(mid, k);
        if reg_has(pre, k) {
            let j = choose|j: int| 0 <= j < pre.len() && (#[trigger] pre[j]).info.id == k;
            lemma_reg_get_at(pre, k, j);
            let mj = if j < i { j } else { j - 1 };
            assert(mid[mj] == pre[j]);
            lemma_reg_get_at(mid, k, mj);
        } else {
            if reg_has(mid, k) {
                let j = choose|j: int| 0 <= j < mid.len() && (#[trigger] mid[j]).info.id == k;
                let pj = if j < i { j } else { j + 1 };
                assert(mid[j] == pre[pj]);
            }
        }
    }
}

/// The id-to-instance map.
pub struct Registry {
    entries: Vec<SourceEntry>,
}

impl View for Registry {
    type V = Map<int, EntryV>;

    closed spec fn view(&self) -> Map<int, EntryV> {
        Map::new(
            |id: int| reg_get(self.entries@, id) is Some,
            |id: int| reg_get(self.entries@, id)->Some_0@,
        )
    }
}

impl Registry {
    pub closed spec fn wf(&self) -> bool {
        distinct_ids(self.entries@)
    }

    pub fn empty() -> (r: Registry)
        ensures
            r.wf(),
            r@ == Map::<int, EntryV>::empty(),
    {
        let r = Registry { entries: Vec::new() };
        proof {
            assert(r@ =~= Map::<int, EntryV>::empty());
        }
        r
    }

    /// Index of the entry carrying `id`, if any.
    fn position(&self, id: i64) -> (r: Option<usize>)
        requires
            self.wf(),
        ensures
            match r {
                Some(i) => i < self.entries@.len() && self.entries@[i as int].info.id == id,
                None => !self@.dom().contains(id as int),
            },
    {
        let n = self.entries.len();
        let mut i: usize = 0;
        while i < n
            invariant
                self.wf(),
                i <= n,
                n == self.entries@.len(),
                forall|j: int| 0 <= j < i ==> (#[trigger] self.entries@[j]).info.id != id,
            decreases n - i,
        {
            if self.entries[i].info.id == id {
                return Some(i);
            }
            i += 1;
        }
        proof {
            lemma_reg_get_has(self.entries@, id as int);
        }
        None
    }

    pub fn contains(&self, id: i64) -> (r: bool)
        requires
            self.wf(),
        ensures
            r == self@.dom().contains(id as int),
    {
        let r = self.position(id);
        proof {
            if r is Some {
                lemma_reg_get_at(self.entries@, id as int, r->Some_0 as int);
            }
        }
        r.is_some()
    }

    /// A shared reference to the live instance registered under `id`.
    pub fn lookup(&self, id: i64) -> (r: Option<&SourceEntry>)
        requires
            self.wf(),
        ensures
            match r {
                Some(e) => self@.dom().contains(id as int) && e@ == self@[id as int]
                    && e.info.id == id,
                None => !self@.dom().contains(id as int),
            },
    {
        match self.position(id) {
            Some(i) => {
                proof {
                    lemma_reg_get_at(self.entries@, id as int, i as int);
                }
                Some(&self.entries[i])
            },
            None => None,
        }
    }

    /// Registers `e` under its own id, silently overwriting any instance
    /// already registered there.
    pub fn put(&mut self, e: SourceEntry)
        requires
            old(self).wf(),
        ensures
            final(self).wf(),
            final(self)@ == old(self)@.insert(e.info.id as int, e@),
    {
        let ghost pre = self.entries@;
        let ghost id = e.info.id as int;
        match self.position(e.info.id) {
            Some(i) => {
                let _ = self.entries.remove(i);
                proof {
                    lemma_reg_remove(pre, self.entries@, i as int, id);
                }
                self.push_absent(e, Ghost(pre));
            },
            None => {
                proof {
                    lemma_reg_get_has(pre, id);
                }
                self.push_absent(e, Ghost(pre));
            },
        }
    }

    /// Push an entry whose id is known absent from the backing vector; the
    /// map view is the one over `pre` plus the new binding.
    fn push_absent(&mut self, e: SourceEntry, Ghost(pre): Ghost<Seq<SourceEntry>>)
        requires
            old(self).wf(),
            !reg_has(old(self).entries@, e.info.id as int),
            forall|k: int|
                k != e.info.id as int ==> reg_get(old(self).entries@, k) == reg_get(pre, k),
        ensures
            final(self).wf(),
            final(self)@ == Map::new(
                |id: int| reg_get(pre, id) is Some,
                |id: int| reg_get(pre, id)->Some_0@,
            ).insert(e.info.id as int, e@),
    {
        let ghost base = self.entries@;
        let ghost id = e.info.id as int;
        self.entries.push(e);
        proof {
            let post = self.entries@;
            assert forall|a: int, b: int| 0 <= a < b < post.len() implies (
            #[trigger] post[a]).info.id != (#[trigger] post[b]).info.id by {
                if b < base.len() as int {
                    assert(post[a] == base[a]);
                    assert(post[b] == base[b]);
                } else {
                    assert(post[a] == base[a]);
                    assert(reg_has(base, base[a].info.id as int));
                }
            }
            assert(post[post.len() - 1].info.id == id);
            lemma_reg_get_at(post, id, post.len() - 1);
            assert forall|k: int| k != id implies reg_get(post, k) == reg_get(base, k) by {
                lemma_reg_get_has(base, k);
                lemma_reg_get_has(post, k);
                if reg_has(base, k) {
                    let j = choose|j: int| 0 <= j < base.len() && (#[trigger] base[j]).info.id == k;
                    lemma_reg_get_at(base, k, j);
                    assert(post[j] == base[j]);
                    lemma_reg_get_at(post, k, j);
                } else {
                    if reg_has(post, k) {
                        let j = choose|j: int|
                            0 <= j < post.len() && (#[trigger] post[j]).info.id == k;
                        assert(j < base.len() as int);
                        assert(base[j] == post[j]);
                    }
                }
            }
            let expected = Map::new(
                |k: int| reg_get(pre, k) is Some,
                |k: int| reg_get(pre, k)->Some_0@,
            ).insert(id, e@);
            assert(self@ =~= expected);
        }
    }

    /// Removes and returns the instance registered under `id`.
    pub fn take(&mut self, id: i64) -> (r: Option<SourceEntry>)
        requires
            old(self).wf(),
        ensures
            final(self).wf(),
            match r {
                Some(e) => old(self)@.dom().contains(id as int) && e@ == old(self)@[id as int]
                    && e.info.id == id && final(self)@ == old(self)@.remove(id as int),
                None => !old(self)@.dom().contains(id as int) && final(self)@ == old(self)@,
            },
    {
        let ghost pre = self.entries@;
        match self.position(id) {
            Some(i) => {
                proof {
                    lemma_reg_get_at(pre, id as int, i as int);
                }
                let e = self.entries.remove(i);
                proof {
                    lemma_reg_remove(pre, self.entries@, i as int, id as int);
                    lemma_reg_get_has(self.entries@, id as int);
                    assert(self@ =~= old(self)@.remove(id as int));
                }
                Some(e)
            },
            None => {
                proof {
                    assert(self@ =~= old(self)@);
                }
                None
            },
        }
    }

    /// An unordered snapshot of all registered sources' metadata: one
    /// `SourceInfo` per registered id, each equal to that id's entry.
    pub fn list(&self) -> (r: Vec<SourceInfo>)
        requires
            self.wf(),
        ensures
            r@.len() == self.spec_count(),
            forall|i: int|
                0 <= i < r@.len() ==> self@.dom().contains((#[trigger] r@[i])@.id) && r@[i]@
                    == self@[r@[i]@.id].info,
            forall|i: int, j: int| 0 <= i < j < r@.len() ==> r@[i]@.id != r@[j]@.id,
            forall|id: int|
                self@.dom().contains(id) ==> exists|i: int|
                    0 <= i < r@.len() && (#[trigger] r@[i])@.id == id,
    {
        let n = self.entries.len();
        let mut r: Vec<SourceInfo> = Vec::new();
        let mut i: usize = 0;
        while i < n
            invariant
                self.wf(),
                i <= n,
                n == self.entries@.len(),
                r@.len() == i,
                forall|j: int| 0 <= j < i ==> (#[trigger] r@[j])@ == self.entries@[j].info@,
            decreases n - i,
        {
            r.push(self.entries[i].info.snapshot());
            i += 1;
        }
        proof {
            assert forall|i: int| 0 <= i < r@.len() implies self@.dom().contains(
                (#[trigger] r@[i])@.id,
            ) && r@[i]@ == self@[r@[i]@.id].info by {
                lemma_reg_get_at(self.entries@, self.entries@[i].info.id as int, i);
                assert(r@[i]@.id == self.entries@[i].info.id as int);
            }
            assert forall|i: int, j: int| 0 <= i < j < r@.len() implies r@[i]@.id != r@[j]@.id by {
                assert(self.entries@[i].info.id != self.entries@[j].info.id);
            }
            assert forall|id: int| self@.dom().contains(id) implies exists|i: int|
                0 <= i < r@.len() && (#[trigger] r@[i])@.id == id by {
                lemma_reg_get_has(self.entries@, id);
                let j = choose|j: int|
                    0 <= j < self.entries@.len() && (#[trigger] self.entries@[j]).info.id == id;
                assert(r@[j]@.id == id);
            }
        }
        r
    }

    /// How many sources are registered.
    pub fn count(&self) -> (r: usize)
        requires
            self.wf(),
        ensures
            r == self.spec_count(),
    {
        self.entries.len()
    }

    /// The number of registered sources (the backing vector's length; equal
    /// to the cardinality of the view's domain since ids are distinct).
    pub closed spec fn spec_count(&self) -> nat {
        self.entries@.len()
    }
}

} // verus!
