//! A model of the plugin directory: a finite map from file stem to file
//! contents, one instance for script files (bytes) and one for preference
//! files (text).
//!
//! The map is backed by a vector of pairs with pairwise-distinct names; its
//! view is a `Map`, so that every contract above it can speak the language of
//! maps.

use vstd::prelude::*;

verus! {

/// The first value stored under key `k`, scanning from the front.
pub open spec fn assoc_get<V>(s: Seq<(String, V)>, k: Seq<char>) -> Option<V>
    decreases s.len(),
{
    if s.len() == 0 {
        None
    } else if s[0].0@ == k {
        Some(s[0].1)
    } else {
        assoc_get(s.subrange(1, s.len() as int), k)
    }
}

/// Whether some pair of `s` carries key `k`.
pub open spec fn assoc_has<V>(s: Seq<(String, V)>, k: Seq<char>) -> bool {
    exists|i: int| 0 <= i < s.len() && (#[trigger] s[i]).0@ == k
}

/// Pairwise-distinct keys.
pub open spec fn distinct_keys<V>(s: Seq<(String, V)>) -> bool {
    forall|i: int, j: int| 0 <= i < j < s.len() ==> (#[trigger] s[i]).0@ != (#[trigger] s[j]).0@
}

/// `assoc_get` answers `Some` exactly on the keys that occur in `s`.
pub proof fn lemma_assoc_get_has<V>(s: Seq<(String, V)>, k: Seq<char>)
    ensures
        assoc_get(s, k) is Some <==> assoc_has(s, k),
    decreases s.len(),
{
    if s.len() == 0 {
    } else if s[0].0@ == k {
        assert(assoc_has(s, k));
    } else {
        let t = s.subrange(1, s.len() as int);
        lemma_assoc_get_has(t, k);
        if assoc_has(t, k) {
            let i = choose|i: int| 0 <= i < t.len() && (#[trigger] t[i]).0@ == k;
            assert(s[i + 1].0@ == k);
        }
        if assoc_has(s, k) {
            let i = choose|i: int| 0 <= i < s.len() && (#[trigger] s[i]).0@ == k;
            assert(i != 0);
            assert(t[i - 1].0@ == k);
        }
    }
}

/// With distinct keys, any pair that carries `k` is the one `assoc_get` finds.
pub proof fn lemma_assoc_get_at<V>(s: Seq<(String, V)>, k: Seq<char>, i: int)
    requires
        distinct_keys(s),
        0 <= i < s.len(),
        s[i].0@ == k,
    ensures
        assoc_get(s, k) == Some(s[i].1),
    decreases s.len(),
{
    if i == 0 {
    } else {
        assert(s[0].0@ != k);
        let t = s.subrange(1, s.len() as int);
        assert forall|a: int, b: int| 0 <= a < b < t.len() implies (#[trigger] t[a]).0@ != (
        #[trigger] t[b]).0@ by {
            assert(t[a] == s[a + 1]);
            assert(t[b] == s[b + 1]);
        }
        assert(t[i - 1] == s[i]);
        lemma_assoc_get_at(t, k, i - 1);
    }
}

/// A named collection of files of contents `V`, a model of one kind of file
/// in the plugin directory.
pub struct FileStore<V> {
    files: Vec<(String, V)>,
}

impl<V: View> View for FileStore<V> {
    type V = Map<Seq<char>, <V as View>::V>;

    closed spec fn view(&self) -> Map<Seq<char>, <V as View>::V> {
        Map::new(
            |k: Seq<char>| assoc_get(self.files@, k) is Some,
            |k: Seq<char>| assoc_get(self.files@, k)->Some_0@,
        )
    }
}

impl<V: View> FileStore<V> {
    pub closed spec fn wf(&self) -> bool {
        distinct_keys(self.files@)
    }

    pub fn empty() -> (r: FileStore<V>)
        ensures
            r.wf(),
            r@ == Map::<Seq<char>, <V as View>::V>::empty(),
    {
        let r = FileStore { files: Vec::new() };
        proof {
            assert(r@ =~= Map::<Seq<char>, <V as View>::V>::empty());
        }
        r
    }

    /// Index of the pair named `name`, if any.
    fn position(&self, name: &str) -> (r: Option<usize>)
        requires
            self.wf(),
        ensures
            match r {
                Some(i) => i < self.files@.len() && self.files@[i as int].0@ == name@,
                None => !self@.dom().contains(name@),
            },
    {
        let n = self.files.len();
        let mut i: usize = 0;
        while i < n
            invariant
                self.wf(),
                i <= n,
                n == self.files@.len(),
                forall|j: int| 0 <= j < i ==> (#[trigger] self.files@[j]).0@ != name@,
            decreases n - i,
        {
            if crate::strutil::str_eq(self.files[i].0.as_str(), name) {
                return Some(i);
            }
            i += 1;
        }
        proof {
            lemma_assoc_get_has(self.files@, name@);
        }
        None
    }

    pub fn contains(&self, name: &str) -> (r: bool)
        requires
            self.wf(),
        ensures
            r == self@.dom().contains(name@),
    {
        let r = self.position(name);
        proof {
            if r is Some {
                lemma_assoc_get_at(self.files@, name@, r->Some_0 as int);
            }
        }
        r.is_some()
    }

    /// The contents filed under `name`, if any.
    pub fn get(&self, name: &str) -> (r: Option<&V>)
        requires
            self.wf(),
        ensures
            match r {
                Some(v) => self@.dom().contains(name@) && v@ == self@[name@],
                None => !self@.dom().contains(name@),
            },
    {
        match self.position(name) {
            Some(i) => {
                proof {
                    lemma_assoc_get_at(self.files@, name@, i as int);
                }
                Some(&self.files[i].1)
            },
            None => None,
        }
    }

    /// Records that the directory now holds `data` under `name`, overwriting
    /// any previous contents.
    pub fn put(&mut self, name: String, data: V)
        requires
            old(self).wf(),
        ensures
            final(self).wf(),
            final(self)@ == old(self)@.insert(name@, data@),
    {
        let ghost pre = self.files@;
        match self.position(name.as_str()) {
            Some(i) => {
                let _ = self.files.remove(i);
                proof {
                    lemma_remove_key(pre, self.files@, i as int, name@);
                }
                self.push_absent(name, data, Ghost(pre));
            },
            None => {
                proof {
                    lemma_assoc_get_has(pre, name@);
                }
                self.push_absent(name, data, Ghost(pre));
            },
        }
    }

    /// Push a pair whose key is known absent from the backing vector; the map
    /// view is the one over `pre` plus the new binding.
    fn push_absent(&mut self, name: String, data: V, Ghost(pre): Ghost<Seq<(String, V)>>)
        requires
            old(self).wf(),
            !assoc_has(old(self).files@, name@),
            forall|k: Seq<char>| k != name@ ==> assoc_get(old(self).files@, k) == assoc_get(pre, k),
        ensures
            final(self).wf(),
            final(self)@ == Map::new(
                |k: Seq<char>| assoc_get(pre, k) is Some,
                |k: Seq<char>| assoc_get(pre, k)->Some_0@,
            ).insert(name@, data@),
    {
        let ghost base = self.files@;
        self.files.push((name, data));
        proof {
            let post = self.files@;
            assert forall|a: int, b: int| 0 <= a < b < post.len() implies (#[trigger] post[a]).0@
                != (#[trigger] post[b]).0@ by {
                if b < base.len() as int {
                    assert(post[a] == base[a]);
                    assert(post[b] == base[b]);
                } else {
                    assert(post[a] == base[a]);
                    assert(assoc_has(base, base[a].0@));
                }
            }
            assert(post[post.len() - 1].0@ == name@);
            lemma_assoc_get_at(post, name@, post.len() - 1);
            assert forall|k: Seq<char>| k != name@ implies assoc_get(post, k) == assoc_get(
                base,
                k,
            ) by {
                lemma_assoc_get_has(base, k);
                lemma_assoc_get_has(post, k);
                if assoc_has(base, k) {
                    let j = choose|j: int| 0 <= j < base.len() && (#[trigger] base[j]).0@ == k;
                    lemma_assoc_get_at(base, k, j);
                    assert(post[j] == base[j]);
                    lemma_assoc_get_at(post, k, j);
                } else {
                    if assoc_has(post, k) {
                        let j = choose|j: int| 0 <= j < post.len() && (#[trigger] post[j]).0@ == k;
                        assert(j < base.len() as int);
                        assert(base[j] == post[j]);
                    }
                }
            }
            let expected = Map::new(
                |k: Seq<char>| assoc_get(pre, k) is Some,
                |k: Seq<char>| assoc_get(pre, k)->Some_0@,
            ).insert(name@, data@);
            assert(self@ =~= expected);
        }
    }

    /// Forgets the file named `name`; reports whether it was there.
    pub fn delete(&mut self, name: &str) -> (r: bool)
        requires
            old(self).wf(),
        ensures
            final(self).wf(),
            r == old(self)@.dom().contains(name@),
            final(self)@ == old(self)@.remove(name@),
    {
        let ghost pre = self.files@;
        match self.position(name) {
            Some(i) => {
                proof {
                    lemma_assoc_get_at(pre, name@, i as int);
                }
                let _ = self.files.remove(i);
                proof {
                    lemma_remove_key(pre, self.files@, i as int, name@);
                    lemma_assoc_get_has(self.files@, name@);
                    assert(self@ =~= old(self)@.remove(name@));
                }
                true
            },
            None => {
                proof {
                    assert(self@ =~= old(self)@.remove(name@));
                }
                false
            },
        }
    }
}

/// Removing the one pair keyed `name` keeps the keys distinct, keeps every
/// other key's contents, and leaves no pair keyed `name`.
proof fn lemma_remove_key<V>(pre: Seq<(String, V)>, mid: Seq<(String, V)>, i: int, name: Seq<char>)
    requires
        distinct_keys(pre),
        0 <= i < pre.len(),
        pre[i].0@ == name,
        mid == pre.remove(i),
    ensures
        distinct_keys(mid),
        !assoc_has(mid, name),
        forall|k: Seq<char>| k != name ==> assoc_get(mid, k) == assoc_get(pre, k),
{
    assert forall|a: int, b: int| 0 <= a < b < mid.len() implies (#[trigger] mid[a]).0@ != (
    #[trigger] mid[b]).0@ by {
        let pa = if a < i { a } else { a + 1 };
        let pb = if b < i { b } else { b + 1 };
        assert(mid[a] == pre[pa]);
        assert(mid[b] == pre[pb]);
    }
    assert(!assoc_has(mid, name)) by {
        if assoc_has(mid, name) {
            let j = choose|j: int| 0 <= j < mid.len() && (#[trigger] mid[j]).0@ == name;
            let pj = if j < i { j } else { j + 1 };
            assert(mid[j] == pre[pj]);
        }
    }
    assert forall|k: Seq<char>| k != name implies assoc_get(mid, k) == assoc_get(pre, k) by {
        lemma_assoc_get_has(pre, k);
        lemma_assoc_get_has(mid, k);
        if assoc_has(pre, k) {
            let j = choose|j: int| 0 <= j < pre.len() && (#[trigger] pre[j]).0@ == k;
            lemma_assoc_get_at(pre, k, j);
            let mj = if j < i { j } else { j - 1 };
            assert(mid[mj] == pre[j]);
            lemma_assoc_get_at(mid, k, mj);
        } else {
            if assoc_has(mid, k) {
                let j = choose|j: int| 0 <= j < mid.len() && (#[trigger] mid[j]).0@ == k;
                let pj = if j < i { j } else { j + 1 };
                assert(mid[j] == pre[pj]);
            }
        }
    }
}

} // verus!
