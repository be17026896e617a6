//! Character-level string operations the codec and the index are built on:
//! splitting on a separator, lexicographic comparison, and the facts about
//! them that the other modules rely on.

use vstd::prelude::*;

verus! {

/// Index of the first occurrence of `sep` in `s`, or -1 when absent.
pub open spec fn first_sep(s: Seq<char>, sep: char) -> int
    decreases s.len(),
{
    if s.len() == 0 {
        -1
    } else if s[0] == sep {
        0
    } else {
        let r = first_sep(s.skip(1), sep);
        if r < 0 {
            -1
        } else {
            r + 1
        }
    }
}

/// What `first_sep` finds: either no separator at all, or the position of
/// the first one.
pub proof fn lemma_first_sep(s: Seq<char>, sep: char)
    ensures
        first_sep(s, sep) < 0 ==> forall|i: int| 0 <= i < s.len() ==> s[i] != sep,
        first_sep(s, sep) >= 0 ==> {
            &&& first_sep(s, sep) < s.len()
            &&& s[first_sep(s, sep)] == sep
            &&& forall|i: int| 0 <= i < first_sep(s, sep) ==> s[i] != sep
        },
    decreases s.len(),
{
    if s.len() == 0 {
    } else if s[0] == sep {
    } else {
        lemma_first_sep(s.skip(1), sep);
        let r = first_sep(s.skip(1), sep);
        if r < 0 {
            assert forall|i: int| 0 <= i < s.len() implies s[i] != sep by {
                if i > 0 {
                    assert(s.skip(1)[i - 1] != sep);
                }
            }
        } else {
            assert(s[r + 1] == s.skip(1)[r]);
            assert forall|i: int| 0 <= i < r + 1 implies s[i] != sep by {
                if i > 0 {
                    assert(s.skip(1)[i - 1] != sep);
                }
            }
        }
    }
}

/// The pieces of `s` between occurrences of `sep`; an empty string has one
/// (empty) piece, and a trailing separator yields a trailing empty piece.
pub open spec fn split_spec(s: Seq<char>, sep: char) -> Seq<Seq<char>>
    decreases s.len(),
{
    let i = first_sep(s, sep);
    if 0 <= i < s.len() {
        seq![s.take(i)] + split_spec(s.skip(i + 1), sep)
    } else {
        seq![s]
    }
}

/// A sequence without the separator splits into itself alone.
pub proof fn lemma_split_whole(s: Seq<char>, sep: char)
    requires
        forall|i: int| 0 <= i < s.len() ==> s[i] != sep,
    ensures
        split_spec(s, sep) == seq![s],
{
    lemma_first_sep(s, sep);
    if 0 <= first_sep(s, sep) < s.len() {
        assert(s[first_sep(s, sep)] == sep);
    }
}

/// Splitting `a + [sep] + b` where `a` is separator-free peels off `a`.
pub proof fn lemma_split_peel(a: Seq<char>, sep: char, b: Seq<char>)
    requires
        forall|i: int| 0 <= i < a.len() ==> a[i] != sep,
    ensures
        split_spec(a + seq![sep] + b, sep) == seq![a] + split_spec(b, sep),
    decreases a.len(),
{
    let s = a + seq![sep] + b;
    lemma_first_sep(s, sep);
    assert(s[a.len() as int] == sep);
    let i = first_sep(s, sep);
    assert(0 <= i < s.len());
    assert(i <= a.len());
    if i < a.len() {
        assert(s[i] == a[i]);
        assert(false);
    }
    assert(i == a.len());
    assert(s.take(i) =~= a);
    assert(s.skip(i + 1) =~= b);
}

/// Lexicographic strict order on character sequences.
pub open spec fn seq_lt(a: Seq<char>, b: Seq<char>) -> bool
    decreases a.len(),
{
    if b.len() == 0 {
        false
    } else if a.len() == 0 {
        true
    } else if a[0] != b[0] {
        (a[0] as int) < (b[0] as int)
    } else {
        seq_lt(a.skip(1), b.skip(1))
    }
}

/// Non-strict companion of `seq_lt`.
pub open spec fn seq_le(a: Seq<char>, b: Seq<char>) -> bool {
    seq_lt(a, b) || a == b
}

/// `seq_lt` is a strict total order: irreflexive, asymmetric, and any two
/// distinct sequences are ordered one way.
pub proof fn lemma_seq_lt_total(a: Seq<char>, b: Seq<char>)
    ensures
        a == b <==> (!seq_lt(a, b) && !seq_lt(b, a)),
        !(seq_lt(a, b) && seq_lt(b, a)),
    decreases a.len(),
{
    if b.len() == 0 || a.len() == 0 {
        if a.len() == 0 && b.len() == 0 {
            assert(a =~= b);
        }
    } else if a[0] != b[0] {
    } else {
        lemma_seq_lt_total(a.skip(1), b.skip(1));
        if a.skip(1) == b.skip(1) {
            assert forall|i: int| 0 <= i < a.len() implies a[i] == b[i] by {
                if i > 0 {
                    assert(a[i] == a.skip(1)[i - 1]);
                    assert(b[i] == b.skip(1)[i - 1]);
                }
            }
            assert(a =~= b);
        }
        if a == b {
            assert(a.skip(1) =~= b.skip(1));
        }
    }
}

/// `seq_lt` is transitive.
pub proof fn lemma_seq_lt_trans(a: Seq<char>, b: Seq<char>, c: Seq<char>)
    requires
        seq_lt(a, b),
        seq_lt(b, c),
    ensures
        seq_lt(a, c),
    decreases a.len(),
{
    if c.len() == 0 {
        assert(false);
    } else if b.len() == 0 {
        assert(false);
    } else if a.len() == 0 {
    } else if a[0] != b[0] {
        if b[0] != c[0] {
        } else {
        }
    } else {
        if b[0] != c[0] {
        } else {
            lemma_seq_lt_trans(a.skip(1), b.skip(1), c.skip(1));
        }
    }
}

/// Strictly ascending in `seq_lt`: sorted with no duplicates.
pub open spec fn strict_sorted(s: Seq<Seq<char>>) -> bool {
    forall|i: int, j: int| 0 <= i < j < s.len() ==> seq_lt(#[trigger] s[i], #[trigger] s[j])
}

/// Two strictly sorted sequences with the same members are equal.
pub proof fn lemma_strict_sorted_unique(a: Seq<Seq<char>>, b: Seq<Seq<char>>)
    requires
        strict_sorted(a),
        strict_sorted(b),
        forall|x: Seq<char>| a.contains(x) <==> b.contains(x),
    ensures
        a == b,
    decreases a.len(),
{
    if a.len() == 0 {
        if b.len() > 0 {
            assert(b.contains(b[0]));
            assert(false);
        }
        assert(a =~= b);
    } else {
        assert(a.contains(a[0]));
        assert(b.contains(a[0]));
        assert(b.contains(b[0]));
        assert(a.contains(b[0]));
        let ia = choose|i: int| 0 <= i < a.len() && a[i] == b[0];
        let ib = choose|i: int| 0 <= i < b.len() && b[i] == a[0];
        lemma_seq_lt_total(a[0], b[0]);
        if a[0] != b[0] {
            if ia > 0 {
                assert(seq_lt(a[0], a[ia]));
            }
            if ib > 0 {
                assert(seq_lt(b[0], b[ib]));
            }
            assert(ia == 0 || ib == 0);
            assert(false);
        }
        assert forall|x: Seq<char>| a.skip(1).contains(x) <==> b.skip(1).contains(x) by {
            lemma_tail_contains(a, x);
            lemma_tail_contains(b, x);
        }
        lemma_strict_sorted_unique(a.skip(1), b.skip(1));
        assert forall|i: int| 0 <= i < a.len() implies a[i] == b[i] by {
            if i > 0 {
                assert(a[i] == a.skip(1)[i - 1]);
                assert(b[i] == b.skip(1)[i - 1]);
            }
        }
        assert(a =~= b);
    }
}

/// In a strictly sorted sequence, membership in the tail is membership in
/// the whole minus the head.
proof fn lemma_tail_contains(s: Seq<Seq<char>>, x: Seq<char>)
    requires
        strict_sorted(s),
        s.len() >= 1,
    ensures
        s.skip(1).contains(x) <==> (s.contains(x) && x != s[0]),
{
    if s.skip(1).contains(x) {
        let i = choose|i: int| 0 <= i < s.skip(1).len() && s.skip(1)[i] == x;
        assert(s[i + 1] == x);
        assert(seq_lt(s[0], s[i + 1]));
        lemma_seq_lt_total(s[0], x);
    }
    if s.contains(x) && x != s[0] {
        let i = choose|i: int| 0 <= i < s.len() && s[i] == x;
        assert(i >= 1);
        assert(s.skip(1)[i - 1] == x);
    }
}

/// Strict sortedness forbids duplicates.
pub proof fn lemma_strict_sorted_no_dup(s: Seq<Seq<char>>)
    requires
        strict_sorted(s),
    ensures
        s.no_duplicates(),
{
    assert forall|i: int, j: int|
        0 <= i < s.len() && 0 <= j < s.len() && i != j implies s[i] != s[j] by {
        if i < j {
            lemma_seq_lt_total(s[i], s[j]);
        } else {
            lemma_seq_lt_total(s[j], s[i]);
        }
    }
}

/// Whether two strings have the same characters.
pub fn str_eq(a: &str, b: &str) -> (r: bool)
    ensures
        r == (a@ == b@),
{
    let ab = str_lt(a, b);
    let ba = str_lt(b, a);
    proof {
        lemma_seq_lt_total(a@, b@);
    }
    !ab && !ba
}

/// Find the first occurrence of `sep`, if any.
pub fn find_char(s: &str, sep: char) -> (r: Option<usize>)
    ensures
        r is None <==> first_sep(s@, sep) < 0,
        r matches Some(i) ==> i == first_sep(s@, sep),
{
    proof {
        lemma_first_sep(s@, sep);
    }
    let len = s.unicode_len();
    let mut i: usize = 0;
    while i < len
        invariant
            0 <= i <= len,
            len == s@.len(),
            forall|j: int| 0 <= j < i ==> s@[j] != sep,
            first_sep(s@, sep) < 0 || first_sep(s@, sep) >= i,
        decreases len - i,
    {
        if s.get_char(i) == sep {
            proof {
                lemma_first_sep(s@, sep);
            }
            return Some(i);
        }
        i = i + 1;
        proof {
            lemma_first_sep(s@, sep);
            if 0 <= first_sep(s@, sep) < i {
                assert(s@[first_sep(s@, sep)] == sep);
            }
        }
    }
    None
}

/// Split a string on a separator character; mirrors `split_spec`.
pub fn split_char(s: &str, sep: char) -> (r: Vec<String>)
    ensures
        r.deep_view() == split_spec(s@, sep),
    decreases s@.len(),
{
    let len = s.unicode_len();
    match find_char(s, sep) {
        None => {
            let mut v: Vec<String> = Vec::new();
            v.push(s.to_owned());
            proof {
                assert(v.deep_view() =~= seq![s@]);
            }
            v
        },
        Some(i) => {
            proof {
                lemma_first_sep(s@, sep);
            }
            let head = s.substring_char(0, i);
            let tail = s.substring_char(i + 1, len);
            proof {
                assert(tail@ =~= s@.skip(i + 1));
                assert(head@ =~= s@.take(i as int));
            }
            let rest = split_char(tail, sep);
            let mut v: Vec<String> = Vec::new();
            v.push(head.to_owned());
            let ghost pre = v.deep_view();
            let mut k: usize = 0;
            while k < rest.len()
                invariant
                    0 <= k <= rest.len(),
                    pre == seq![s@.take(i as int)],
                    rest.deep_view() == split_spec(s@.skip(i + 1), sep),
                    v.deep_view() == pre + rest.deep_view().take(k as int),
                decreases rest.len() - k,
            {
                let piece = rest[k].clone();
                proof {
                    assert(piece@ == rest.deep_view()[k as int]);
                }
                let ghost dv_before = v.deep_view();
                v.push(piece);
                proof {
                    assert forall|j: int| 0 <= j < v.deep_view().len() implies v.deep_view()[j]
                        == (pre + rest.deep_view().take(k + 1))[j] by {
                        if j < dv_before.len() {
                            assert(v.deep_view()[j] == dv_before[j]);
                        }
                    }
                    assert(v.deep_view().len() == dv_before.len() + 1);
                    assert(rest.deep_view().take(k + 1).len() == k + 1);
                    assert(v.deep_view() =~= pre + rest.deep_view().take(k + 1));
                }
                k = k + 1;
            }
            proof {
                assert(rest.deep_view().take(rest.len() as int) =~= rest.deep_view());
                assert(v.deep_view() =~= seq![s@.take(i as int)] + split_spec(s@.skip(i + 1), sep));
            }
            v
        },
    }
}

/// Lexicographic "less than" on strings; mirrors `seq_lt`.
pub fn str_lt(a: &str, b: &str) -> (r: bool)
    ensures
        r == seq_lt(a@, b@),
    decreases a@.len(),
{
    let alen = a.unicode_len();
    let blen = b.unicode_len();
    if blen == 0 {
        false
    } else if alen == 0 {
        true
    } else {
        let ca = a.get_char(0);
        let cb = b.get_char(0);
        if ca != cb {
            (ca as u32) < (cb as u32)
        } else {
            let ra = a.substring_char(1, alen);
            let rb = b.substring_char(1, blen);
            proof {
                assert(ra@ =~= a@.skip(1));
                assert(rb@ =~= b@.skip(1));
            }
            str_lt(ra, rb)
        }
    }
}

/// Insert a member into a strictly sorted list unless it is already there.
/// The result is strictly sorted and holds exactly the old members plus the
/// new one; the length grows exactly when the member was new.
pub fn insert_sorted(v: &mut Vec<String>, x: String)
    requires
        strict_sorted(old(v).deep_view()),
    ensures
        strict_sorted(final(v).deep_view()),
        forall|m: Seq<char>|
            final(v).deep_view().contains(m) <==> (old(v).deep_view().contains(m) || m == x@),
        old(v).deep_view().contains(x@) ==> final(v).deep_view() == old(v).deep_view(),
        !old(v).deep_view().contains(x@) ==> final(v).deep_view().len() == old(v).deep_view().len()
            + 1,
{
    let ghost dv0 = old(v).deep_view();
    let mut i: usize = 0;
    loop
        invariant_except_break
            0 <= i <= v.len(),
            v.deep_view() == dv0,
            forall|j: int| 0 <= j < i ==> seq_lt(#[trigger] dv0[j], x@),
        ensures
            0 <= i <= v.len(),
            v.deep_view() == dv0,
            forall|j: int| 0 <= j < i ==> seq_lt(#[trigger] dv0[j], x@),
            i < v.len() ==> !seq_lt(dv0[i as int], x@),
        decreases v.len() - i,
    {
        if i == v.len() {
            break;
        }
        let cur = &v[i];
        proof {
            assert(cur@ == dv0[i as int]);
        }
        if !str_lt(cur.as_str(), x.as_str()) {
            break;
        }
        i = i + 1;
    }
    if i < v.len() {
        let cur = &v[i];
        proof {
            assert(cur@ == dv0[i as int]);
        }
        if !str_lt(x.as_str(), cur.as_str()) {
            // the member the scan stopped at is not below x, and x is not
            // below it either: it is x itself, already present
            proof {
                lemma_seq_lt_total(dv0[i as int], x@);
                assert(dv0[i as int] == x@);
                assert(dv0.contains(x@));
            }
            return;
        }
    }
    proof {
        // x is not yet a member: everything before i is below it, everything
        // from i on is above it.
        assert forall|j: int| i <= j < dv0.len() implies seq_lt(x@, #[trigger] dv0[j]) by {
            if j > i {
                lemma_seq_lt_trans(x@, dv0[i as int], dv0[j]);
            }
        }
        assert forall|j: int| 0 <= j < dv0.len() implies dv0[j] != x@ by {
            lemma_seq_lt_total(dv0[j], x@);
            if j < i {
            } else {
                assert(seq_lt(x@, dv0[j]));
            }
        }
        assert(!dv0.contains(x@));
    }
    let ghost xv = x@;
    v.insert(i, x);
    proof {
        let dv1 = v.deep_view();
        assert(dv1 =~= dv0.take(i as int) + seq![xv] + dv0.skip(i as int));
        assert forall|p: int, q: int| 0 <= p < q < dv1.len() implies seq_lt(
            #[trigger] dv1[p],
            #[trigger] dv1[q],
        ) by {
            if p < i && q < i {
            } else if p < i && q == i {
            } else if p < i && q > i {
            } else if p == i {
            } else {
            }
        }
        assert forall|m: Seq<char>| dv1.contains(m) implies (dv0.contains(m) || m == xv) by {
            let p = choose|p: int| 0 <= p < dv1.len() && dv1[p] == m;
            if p < i {
                assert(dv0[p] == m);
            } else if p > i {
                assert(dv0[p - 1] == m);
            }
        }
        assert forall|m: Seq<char>| (dv0.contains(m) || m == xv) implies dv1.contains(m) by {
            if m == xv {
                assert(dv1[i as int] == m);
            } else {
                let p = choose|p: int| 0 <= p < dv0.len() && dv0[p] == m;
                if p < i {
                    assert(dv1[p] == m);
                } else {
                    assert(dv1[p + 1] == m);
                }
            }
        }
    }
}

} // verus!
