//! The merge-on-write lookup store: membership lists kept per composite key
//! in a key-value shape, grown by unioning in new members and written back
//! only when the union is actually larger. Repeating a merge with the same
//! members therefore never writes again, and a list never shrinks.

use crate::text::{
    insert_sorted, lemma_strict_sorted_no_dup, lemma_strict_sorted_unique, str_eq, strict_sorted,
};
use vstd::prelude::*;
use vstd::set_lib::lemma_subset_equality;

verus! {

/// An in-memory key-value store of membership lists, one strictly sorted
/// list of members per composite key.
pub struct LookupStore {
    keys: Vec<String>,
    values: Vec<Vec<String>>,
}

impl LookupStore {
    /// Well-formed: one value list per key, no key twice, every list
    /// strictly sorted.
    pub closed spec fn wf(self) -> bool {
        &&& self.keys@.len() == self.values@.len()
        &&& forall|i: int, j: int|
            #![trigger self.keys.deep_view()[i], self.keys.deep_view()[j]]
            0 <= i < j < self.keys@.len() ==> self.keys.deep_view()[i] != self.keys.deep_view()[j]
        &&& forall|i: int|
            0 <= i < self.values@.len() ==> strict_sorted(#[trigger] self.values@[i].deep_view())
    }

    /// Whether some list is stored under this key.
    pub closed spec fn has_key(self, k: Seq<char>) -> bool {
        exists|i: int| 0 <= i < self.keys@.len() && self.keys.deep_view()[i] == k
    }

    /// The members stored under a key; a key never written has the empty
    /// list.
    pub closed spec fn spec_get(self, k: Seq<char>) -> Seq<Seq<char>> {
        if self.has_key(k) {
            let i = choose|i: int| 0 <= i < self.keys@.len() && self.keys.deep_view()[i] == k;
            self.values@[i].deep_view()
        } else {
            Seq::<Seq<char>>::empty()
        }
    }

    /// Every stored list of a well-formed store is strictly sorted.
    pub proof fn lemma_stored_sorted(self, k: Seq<char>)
        requires
            self.wf(),
        ensures
            strict_sorted(self.spec_get(k)),
    {
    }

    /// An empty store: no key holds any member.
    pub fn new() -> (r: Self)
        ensures
            r.wf(),
            forall|k: Seq<char>| r.spec_get(k) == Seq::<Seq<char>>::empty(),
    {
        let r = LookupStore { keys: Vec::new(), values: Vec::new() };
        proof {
            assert(forall|k: Seq<char>| !r.has_key(k));
        }
        r
    }

    /// The position of a key, if present.
    fn find_key(&self, key: &str) -> (r: Option<usize>)
        requires
            self.wf(),
        ensures
            match r {
                Some(i) => {
                    &&& i < self.keys@.len()
                    &&& self.keys.deep_view()[i as int] == key@
                    &&& self.has_key(key@)
                    &&& self.spec_get(key@) == self.values@[i as int].deep_view()
                },
                None => !self.has_key(key@),
            },
    {
        let mut i: usize = 0;
        while i < self.keys.len()
            invariant
                self.wf(),
                0 <= i <= self.keys@.len(),
                forall|j: int| 0 <= j < i ==> self.keys.deep_view()[j] != key@,
            decreases self.keys@.len() - i,
        {
            proof {
                assert(self.keys@[i as int]@ == self.keys.deep_view()[i as int]);
            }
            if str_eq(self.keys[i].as_str(), key) {
                proof {
                    assert(self.keys.deep_view()[i as int] == key@);
                    assert(self.has_key(key@));
                    let w = choose|w: int|
                        0 <= w < self.keys@.len() && self.keys.deep_view()[w] == key@;
                    if w < i as int {
                        assert(self.keys.deep_view()[w] != key@);
                    } else if w > i as int {
                        assert(self.wf());
                        assert((i as int) < w && w < self.keys@.len());
                        assert(self.keys.deep_view()[i as int] != self.keys.deep_view()[w]);
                    }
                    assert(w == i as int);
                }
                return Some(i);
            }
            i = i + 1;
        }
        None
    }

    /// The members currently stored under a key, the empty list when the
    /// key was never written.
    pub fn get_list(&self, key: &str) -> (r: Vec<String>)
        requires
            self.wf(),
        ensures
            r.deep_view() == self.spec_get(key@),
    {
        match self.find_key(key) {
            Some(i) => clone_members(&self.values[i]),
            None => {
                let r: Vec<String> = Vec::new();
                proof {
                    assert(r.deep_view() =~= Seq::<Seq<char>>::empty());
                }
                r
            },
        }
    }

    /// Merge new members into the list stored under `key`; write the merged
    /// list back only when it grew, and report whether a write happened.
    ///
    /// The stored list afterwards holds exactly the old and the new members;
    /// a list never shrinks (its length is non-decreasing under any sequence
    /// of merges); lists under other keys are untouched; and when nothing
    /// was new, the store is exactly what it was.
    pub fn merge_and_maybe_write(&mut self, key: &str, fresh: &Vec<String>) -> (wrote: bool)
        requires
            old(self).wf(),
        ensures
            final(self).wf(),
            forall|m: Seq<char>|
                #![trigger final(self).spec_get(key@).contains(m)]
                final(self).spec_get(key@).contains(m) <==> (old(self).spec_get(key@).contains(m)
                    || fresh.deep_view().contains(m)),
            forall|k2: Seq<char>| k2 != key@ ==> final(self).spec_get(k2) == old(self).spec_get(k2),
            wrote == (final(self).spec_get(key@).len() != old(self).spec_get(key@).len()),
            final(self).spec_get(key@).len() >= old(self).spec_get(key@).len(),
            !wrote ==> *final(self) == *old(self),
    {
        let ghost cur0 = old(self).spec_get(key@);
        let current = self.get_list(key);
        let (merged, grew) = merge_members(&current, fresh);
        let ghost mdv = merged.deep_view();
        proof {
            self.lemma_stored_sorted(key@);
            lemma_strict_sorted_no_dup(cur0);
            lemma_strict_sorted_no_dup(mdv);
            cur0.unique_seq_to_set();
            mdv.unique_seq_to_set();
            assert(cur0.to_set().subset_of(mdv.to_set()));
            lemma_no_dup_superset_len(cur0, mdv);
        }
        if !grew {
            proof {
                // same length and a superset of members: the merge added
                // nothing, so the members are the same
                lemma_subset_equality(cur0.to_set(), mdv.to_set());
                assert forall|m: Seq<char>| fresh.deep_view().contains(m) implies cur0.contains(
                    m,
                ) by {
                    assert(mdv.contains(m));
                    assert(mdv.to_set().contains(m));
                    assert(cur0.to_set().contains(m));
                }
            }
            return false;
        }
        match self.find_key(key) {
            Some(i) => {
                self.values[i] = merged;
                proof {
                    let keys = self.keys;
                    assert(self.values@[i as int].deep_view() == mdv);
                    assert(self.wf());
                    assert(self.has_key(key@));
                    let w = choose|w: int|
                        0 <= w < keys@.len() && keys.deep_view()[w] == key@;
                    assert(w == i as int);
                    assert(self.spec_get(key@) == mdv);
                    assert forall|k2: Seq<char>| k2 != key@ implies self.spec_get(k2) == old(
                        self,
                    ).spec_get(k2) by {
                        lemma_get_other(*old(self), *self, k2);
                    }
                }
            },
            None => {
                let ghost pre = *self;
                self.keys.push(key.to_owned());
                self.values.push(merged);
                proof {
                    assert forall|i: int, j: int|
                        0 <= i < j < self.keys@.len() implies self.keys.deep_view()[i]
                        != self.keys.deep_view()[j] by {
                        assert(self.keys.deep_view()[i] == pre.keys.deep_view()[i]);
                        if j < self.keys@.len() - 1 {
                            assert(self.keys.deep_view()[j] == pre.keys.deep_view()[j]);
                        } else {
                            assert(self.keys.deep_view()[j] == key@);
                            assert(!pre.has_key(key@));
                        }
                    }
                    assert forall|i: int|
                        0 <= i < self.values@.len() implies strict_sorted(
                        #[trigger] self.values@[i].deep_view(),
                    ) by {
                        if i < self.values@.len() - 1 {
                            assert(self.values@[i] == pre.values@[i]);
                        } else {
                            assert(self.values@[i].deep_view() == mdv);
                        }
                    }
                    assert(self.wf());
                    let n = self.keys@.len() - 1;
                    assert(self.keys.deep_view()[n] == key@);
                    assert(self.has_key(key@));
                    let w = choose|w: int|
                        0 <= w < self.keys@.len() && self.keys.deep_view()[w] == key@;
                    if w < n {
                        assert(pre.keys.deep_view()[w] == key@);
                        assert(pre.has_key(key@));
                    }
                    assert(self.spec_get(key@) == mdv);
                    assert(cur0 =~= Seq::<Seq<char>>::empty());
                    assert forall|k2: Seq<char>| k2 != key@ implies self.spec_get(k2) == pre.spec_get(
                        k2,
                    ) by {
                        lemma_get_other_after_push(pre, *self, k2, key@);
                    }
                }
            },
        }
        true
    }
}

/// After an update under one key, lookups under any other key are unchanged
/// (the keys themselves are the same).
proof fn lemma_get_other(a: LookupStore, b: LookupStore, k2: Seq<char>)
    requires
        a.wf(),
        b.wf(),
        a.keys == b.keys,
        a.values@.len() == b.values@.len(),
        forall|i: int|
            0 <= i < a.values@.len() && a.keys.deep_view()[i] == k2 ==> a.values@[i].deep_view()
                == b.values@[i].deep_view(),
    ensures
        a.spec_get(k2) == b.spec_get(k2),
{
    assert(a.has_key(k2) == b.has_key(k2));
    if a.has_key(k2) {
        let wa = choose|w: int| 0 <= w < a.keys@.len() && a.keys.deep_view()[w] == k2;
        let wb = choose|w: int| 0 <= w < b.keys@.len() && b.keys.deep_view()[w] == k2;
        assert(wa == wb);
    }
}

/// After a new key is pushed, lookups under any other key are unchanged.
proof fn lemma_get_other_after_push(a: LookupStore, b: LookupStore, k2: Seq<char>, knew: Seq<char>)
    requires
        a.wf(),
        b.wf(),
        k2 != knew,
        b.keys@.len() == a.keys@.len() + 1,
        b.values@.len() == a.values@.len() + 1,
        forall|i: int| 0 <= i < a.keys@.len() ==> a.keys.deep_view()[i] == b.keys.deep_view()[i],
        forall|i: int| 0 <= i < a.values@.len() ==> a.values@[i] == b.values@[i],
        b.keys.deep_view()[a.keys@.len() as int] == knew,
    ensures
        a.spec_get(k2) == b.spec_get(k2),
{
    if b.has_key(k2) {
        let wb = choose|w: int| 0 <= w < b.keys@.len() && b.keys.deep_view()[w] == k2;
        assert(wb < a.keys@.len());
        assert(a.keys.deep_view()[wb] == k2);
        assert(a.has_key(k2));
    }
    if a.has_key(k2) {
        let wa = choose|w: int| 0 <= w < a.keys@.len() && a.keys.deep_view()[w] == k2;
        assert(b.keys.deep_view()[wa] == k2);
        assert(b.has_key(k2));
    }
    if a.has_key(k2) {
        let wa = choose|w: int| 0 <= w < a.keys@.len() && a.keys.deep_view()[w] == k2;
        let wb = choose|w: int| 0 <= w < b.keys@.len() && b.keys.deep_view()[w] == k2;
        assert(b.keys.deep_view()[wa] == k2);
        assert(wa == wb);
        assert(a.values@[wa] == b.values@[wb]);
    }
}

/// A duplicate-free list holding every member of another duplicate-free
/// list is at least as long.
proof fn lemma_no_dup_superset_len(cur: Seq<Seq<char>>, merged: Seq<Seq<char>>)
    requires
        cur.no_duplicates(),
        merged.no_duplicates(),
        cur.to_set().subset_of(merged.to_set()),
    ensures
        merged.len() >= cur.len(),
{
    cur.unique_seq_to_set();
    merged.unique_seq_to_set();
    vstd::set_lib::lemma_len_subset(cur.to_set(), merged.to_set());
}

/// A copy of a member list with the same contents.
pub(crate) fn clone_members(v: &Vec<String>) -> (r: Vec<String>)
    ensures
        r.deep_view() == v.deep_view(),
{
    let mut r: Vec<String> = Vec::new();
    let mut i: usize = 0;
    while i < v.len()
        invariant
            0 <= i <= v@.len(),
            r.deep_view() == v.deep_view().take(i as int),
        decreases v@.len() - i,
    {
        let s = v[i].clone();
        proof {
            assert(s@ == v.deep_view()[i as int]);
        }
        let ghost before = r.deep_view();
        r.push(s);
        proof {
            assert(r.deep_view().len() == before.len() + 1);
            assert(v.deep_view().take(i + 1).len() == i + 1);
            assert forall|j: int| 0 <= j < r.deep_view().len() implies r.deep_view()[j]
                == v.deep_view().take(i + 1)[j] by {
                if j < before.len() {
                    assert(r.deep_view()[j] == before[j]);
                }
            }
            assert(r.deep_view() =~= v.deep_view().take(i + 1));
        }
        i = i + 1;
    }
    proof {
        assert(v.deep_view().take(v@.len() as int) =~= v.deep_view());
    }
    r
}

/// Union the current members with newly observed ones: the result is
/// strictly sorted, holds exactly the members of both lists, and is longer
/// than the current list exactly when some new member was not yet present
/// (the second component reports that).
pub fn merge_members(current: &Vec<String>, fresh: &Vec<String>) -> (r: (Vec<String>, bool))
    ensures
        strict_sorted(r.0.deep_view()),
        forall|m: Seq<char>|
            r.0.deep_view().contains(m) <==> (current.deep_view().contains(m)
                || fresh.deep_view().contains(m)),
        r.1 == (r.0.deep_view().len() != current.deep_view().len()),
{
    let mut out: Vec<String> = Vec::new();
    let mut i: usize = 0;
    while i < current.len()
        invariant
            0 <= i <= current@.len(),
            strict_sorted(out.deep_view()),
            forall|m: Seq<char>|
                out.deep_view().contains(m) <==> current.deep_view().take(i as int).contains(m),
        decreases current@.len() - i,
    {
        let x = current[i].clone();
        proof {
            assert(x@ == current.deep_view()[i as int]);
        }
        insert_sorted(&mut out, x);
        proof {
            lemma_take_one_more(current.deep_view(), i as int);
        }
        i = i + 1;
    }
    proof {
        assert(current.deep_view().take(current@.len() as int) =~= current.deep_view());
    }
    let mut j: usize = 0;
    while j < fresh.len()
        invariant
            0 <= j <= fresh@.len(),
            strict_sorted(out.deep_view()),
            forall|m: Seq<char>|
                out.deep_view().contains(m) <==> (current.deep_view().contains(m)
                    || fresh.deep_view().take(j as int).contains(m)),
        decreases fresh@.len() - j,
    {
        let x = fresh[j].clone();
        proof {
            assert(x@ == fresh.deep_view()[j as int]);
        }
        insert_sorted(&mut out, x);
        proof {
            lemma_take_one_more(fresh.deep_view(), j as int);
        }
        j = j + 1;
    }
    proof {
        assert(fresh.deep_view().take(fresh@.len() as int) =~= fresh.deep_view());
    }
    let grew = out.len() != current.len();
    (out, grew)
}

/// Membership in one more element of a prefix.
proof fn lemma_take_one_more(s: Seq<Seq<char>>, i: int)
    requires
        0 <= i < s.len(),
    ensures
        forall|m: Seq<char>|
            s.take(i + 1).contains(m) <==> (s.take(i).contains(m) || m == s[i]),
{
    assert forall|m: Seq<char>|
        s.take(i + 1).contains(m) <==> (s.take(i).contains(m) || m == s[i]) by {
        if s.take(i + 1).contains(m) {
            let p = choose|p: int| 0 <= p < i + 1 && #[trigger] s.take(i + 1)[p] == m;
            if p < i {
                assert(s.take(i)[p] == m);
            }
        }
        if s.take(i).contains(m) {
            let p = choose|p: int| 0 <= p < i && #[trigger] s.take(i)[p] == m;
            assert(s.take(i + 1)[p] == m);
        }
        if m == s[i] {
            assert(s.take(i + 1)[i] == m);
        }
    }
}

/// The merge is idempotent: merging the same members a second time leaves
/// the stored list exactly as it was, so the length comparison reports no
/// growth and the second call performs no write.
///
/// `s0`, `s1` and `s2` are the store before the first merge of `fresh` at
/// `k`, between the calls, and after the second; the hypotheses are what
/// `merge_and_maybe_write` guarantees of each call.
pub proof fn lemma_merge_idempotent(
    s0: LookupStore,
    s1: LookupStore,
    s2: LookupStore,
    k: Seq<char>,
    fresh: Seq<Seq<char>>,
    wrote_again: bool,
)
    requires
        s1.wf(),
        s2.wf(),
        forall|m: Seq<char>|
            #![trigger s1.spec_get(k).contains(m)]
            s1.spec_get(k).contains(m) <==> (s0.spec_get(k).contains(m) || fresh.contains(m)),
        forall|m: Seq<char>|
            #![trigger s2.spec_get(k).contains(m)]
            s2.spec_get(k).contains(m) <==> (s1.spec_get(k).contains(m) || fresh.contains(m)),
        wrote_again == (s2.spec_get(k).len() != s1.spec_get(k).len()),
    ensures
        s2.spec_get(k) == s1.spec_get(k),
        !wrote_again,
{
    s1.lemma_stored_sorted(k);
    s2.lemma_stored_sorted(k);
    assert forall|m: Seq<char>|
        s2.spec_get(k).contains(m) <==> s1.spec_get(k).contains(m) by {
        assert(fresh.contains(m) ==> s1.spec_get(k).contains(m));
    }
    lemma_strict_sorted_unique(s2.spec_get(k), s1.spec_get(k));
}

} // verus!
