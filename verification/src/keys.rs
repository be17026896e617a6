//! Derivation of the composite lookup keys: `root` for the years list,
//! `{year}` for months, `{year}-{month}` for days and
//! `{year}-{month}-{day}` for objects, with the facts that keep the four
//! levels apart.

use crate::digits::{dec_spec, is_digit, lemma_dec_digits, lemma_dec_val, u64_to_string};
use crate::text::{lemma_split_peel, lemma_split_whole, split_spec};
use vstd::prelude::*;

verus! {

/// The key of the years list.
pub open spec fn root_key() -> Seq<char> {
    seq!['r', 'o', 'o', 't']
}

/// The composite key of a year's month list.
pub open spec fn year_key(y: int) -> Seq<char> {
    dec_spec(y)
}

/// The composite key of a year-month's day list.
pub open spec fn ym_key(y: int, mo: int) -> Seq<char> {
    dec_spec(y) + seq!['-'] + dec_spec(mo)
}

/// The composite key of a year-month-day's object list.
pub open spec fn ymd_key(y: int, mo: int, d: int) -> Seq<char> {
    dec_spec(y) + seq!['-'] + dec_spec(mo) + seq!['-'] + dec_spec(d)
}

/// Whether a key is some year's key.
pub open spec fn is_year_key(k: Seq<char>) -> bool {
    exists|y: int| 0 <= y && k == year_key(y)
}

/// Whether a key is some year-month's key.
pub open spec fn is_ym_key(k: Seq<char>) -> bool {
    exists|y: int, mo: int| 0 <= y && 0 <= mo && k == ym_key(y, mo)
}

/// Whether a key is some year-month-day's key.
pub open spec fn is_ymd_key(k: Seq<char>) -> bool {
    exists|y: int, mo: int, d: int| 0 <= y && 0 <= mo && 0 <= d && k == ymd_key(y, mo, d)
}

/// How each key splits on dashes: one, two or three decimal segments.
pub proof fn lemma_key_segments(y: int, mo: int, d: int)
    requires
        y >= 0,
        mo >= 0,
        d >= 0,
    ensures
        split_spec(year_key(y), '-') == seq![dec_spec(y)],
        split_spec(ym_key(y, mo), '-') == seq![dec_spec(y), dec_spec(mo)],
        split_spec(ymd_key(y, mo, d), '-') == seq![dec_spec(y), dec_spec(mo), dec_spec(d)],
{
    lemma_dec_digits(y);
    lemma_dec_digits(mo);
    lemma_dec_digits(d);
    assert forall|i: int| 0 <= i < dec_spec(y).len() implies dec_spec(y)[i] != '-' by {
        assert(is_digit(dec_spec(y)[i]));
    }
    assert forall|i: int| 0 <= i < dec_spec(mo).len() implies dec_spec(mo)[i] != '-' by {
        assert(is_digit(dec_spec(mo)[i]));
    }
    assert forall|i: int| 0 <= i < dec_spec(d).len() implies dec_spec(d)[i] != '-' by {
        assert(is_digit(dec_spec(d)[i]));
    }
    lemma_split_whole(dec_spec(y), '-');
    lemma_split_whole(dec_spec(mo), '-');
    lemma_split_peel(dec_spec(y), '-', dec_spec(mo));
    let tail = dec_spec(mo) + seq!['-'] + dec_spec(d);
    assert(ymd_key(y, mo, d) =~= dec_spec(y) + seq!['-'] + tail);
    lemma_split_peel(dec_spec(y), '-', tail);
    lemma_split_peel(dec_spec(mo), '-', dec_spec(d));
    lemma_split_whole(dec_spec(d), '-');
    assert(split_spec(ym_key(y, mo), '-') =~= seq![dec_spec(y), dec_spec(mo)]);
    assert(split_spec(ymd_key(y, mo, d), '-') =~= seq![dec_spec(y), dec_spec(mo), dec_spec(d)]);
}

/// Keys of different levels never coincide, and `root` is no level key.
pub proof fn lemma_key_levels(y: int, mo: int, d: int)
    requires
        y >= 0,
        mo >= 0,
        d >= 0,
    ensures
        year_key(y) != root_key(),
        ym_key(y, mo) != root_key(),
        ymd_key(y, mo, d) != root_key(),
        !is_year_key(ym_key(y, mo)),
        !is_year_key(ymd_key(y, mo, d)),
        !is_ym_key(year_key(y)),
        !is_ym_key(ymd_key(y, mo, d)),
        !is_ymd_key(year_key(y)),
        !is_ymd_key(ym_key(y, mo)),
        !is_year_key(root_key()),
        !is_ym_key(root_key()),
        !is_ymd_key(root_key()),
{
    lemma_dec_digits(y);
    lemma_key_segments(y, mo, d);
    assert(root_key().len() == 4 && root_key()[0] == 'r');
    assert forall|i: int| 0 <= i < root_key().len() implies root_key()[i] != '-' by {
        assert(root_key()[i] == 'r' || root_key()[i] == 'o' || root_key()[i] == 't');
    }
    lemma_split_whole(root_key(), '-');
    // `root` starts with a letter, a year key with a digit
    assert(year_key(y) != root_key()) by {
        if year_key(y) == root_key() {
            assert(is_digit(dec_spec(y)[0]));
            assert(dec_spec(y)[0] == 'r');
        }
    }
    assert forall|y2: int| 0 <= y2 implies year_key(y2) != ym_key(y, mo) && year_key(y2) != ymd_key(
        y,
        mo,
        d,
    ) && year_key(y2) != root_key() by {
        lemma_key_segments(y2, 0, 0);
        if year_key(y2) == ym_key(y, mo) {
            assert(split_spec(year_key(y2), '-').len() == 1);
            assert(split_spec(ym_key(y, mo), '-').len() == 2);
        }
        if year_key(y2) == ymd_key(y, mo, d) {
            assert(split_spec(year_key(y2), '-').len() == 1);
            assert(split_spec(ymd_key(y, mo, d), '-').len() == 3);
        }
        if year_key(y2) == root_key() {
            lemma_dec_digits(y2);
            assert(is_digit(dec_spec(y2)[0]));
            assert(dec_spec(y2)[0] == 'r');
        }
    }
    assert forall|y2: int, mo2: int| 0 <= y2 && 0 <= mo2 implies ym_key(y2, mo2) != year_key(y)
        && ym_key(y2, mo2) != ymd_key(y, mo, d) && ym_key(y2, mo2) != root_key() by {
        lemma_key_segments(y2, mo2, 0);
        if ym_key(y2, mo2) == year_key(y) {
            assert(split_spec(ym_key(y2, mo2), '-').len() == 2);
            assert(split_spec(year_key(y), '-').len() == 1);
        }
        if ym_key(y2, mo2) == ymd_key(y, mo, d) {
            assert(split_spec(ym_key(y2, mo2), '-').len() == 2);
            assert(split_spec(ymd_key(y, mo, d), '-').len() == 3);
        }
        if ym_key(y2, mo2) == root_key() {
            assert(split_spec(ym_key(y2, mo2), '-').len() == 2);
            assert(split_spec(root_key(), '-').len() == 1);
        }
    }
    assert forall|y2: int, mo2: int, d2: int| 0 <= y2 && 0 <= mo2 && 0 <= d2 implies ymd_key(
        y2,
        mo2,
        d2,
    ) != year_key(y) && ymd_key(y2, mo2, d2) != ym_key(y, mo) && ymd_key(y2, mo2, d2)
        != root_key() by {
        lemma_key_segments(y2, mo2, d2);
        if ymd_key(y2, mo2, d2) == year_key(y) {
            assert(split_spec(ymd_key(y2, mo2, d2), '-').len() == 3);
            assert(split_spec(year_key(y), '-').len() == 1);
        }
        if ymd_key(y2, mo2, d2) == ym_key(y, mo) {
            assert(split_spec(ymd_key(y2, mo2, d2), '-').len() == 3);
            assert(split_spec(ym_key(y, mo), '-').len() == 2);
        }
        if ymd_key(y2, mo2, d2) == root_key() {
            assert(split_spec(ymd_key(y2, mo2, d2), '-').len() == 3);
            assert(split_spec(root_key(), '-').len() == 1);
        }
    }
}

/// Keys of one level coincide only for the same date parts.
pub proof fn lemma_key_injective(y: int, mo: int, d: int, y2: int, mo2: int, d2: int)
    requires
        y >= 0,
        mo >= 0,
        d >= 0,
        y2 >= 0,
        mo2 >= 0,
        d2 >= 0,
    ensures
        year_key(y) == year_key(y2) ==> y == y2,
        ym_key(y, mo) == ym_key(y2, mo2) ==> y == y2 && mo == mo2,
        ymd_key(y, mo, d) == ymd_key(y2, mo2, d2) ==> y == y2 && mo == mo2 && d == d2,
{
    lemma_key_segments(y, mo, d);
    lemma_key_segments(y2, mo2, d2);
    if year_key(y) == year_key(y2) {
        lemma_dec_val(y);
        lemma_dec_val(y2);
    }
    if ym_key(y, mo) == ym_key(y2, mo2) {
        assert(split_spec(ym_key(y, mo), '-') == split_spec(ym_key(y2, mo2), '-'));
        assert(dec_spec(y) == dec_spec(y2) && dec_spec(mo) == dec_spec(mo2));
        lemma_dec_val(y);
        lemma_dec_val(y2);
        lemma_dec_val(mo);
        lemma_dec_val(mo2);
    }
    if ymd_key(y, mo, d) == ymd_key(y2, mo2, d2) {
        assert(split_spec(ymd_key(y, mo, d), '-') == split_spec(ymd_key(y2, mo2, d2), '-'));
        assert(dec_spec(y) == dec_spec(y2) && dec_spec(mo) == dec_spec(mo2) && dec_spec(d)
            == dec_spec(d2));
        lemma_dec_val(y);
        lemma_dec_val(y2);
        lemma_dec_val(mo);
        lemma_dec_val(mo2);
        lemma_dec_val(d);
        lemma_dec_val(d2);
    }
}

/// Render a year's composite key.
pub fn year_key_of(y: u64) -> (r: String)
    ensures
        r@ == year_key(y as int),
{
    u64_to_string(y)
}

/// Render a year-month composite key.
pub fn ym_key_of(y: u64, mo: u64) -> (r: String)
    ensures
        r@ == ym_key(y as int, mo as int),
{
    proof {
        reveal_strlit("-");
    }
    let mut r = u64_to_string(y);
    r.append("-");
    r.append(u64_to_string(mo).as_str());
    proof {
        assert(r@ =~= ym_key(y as int, mo as int));
    }
    r
}

/// Render a year-month-day composite key.
pub fn ymd_key_of(y: u64, mo: u64, d: u64) -> (r: String)
    ensures
        r@ == ymd_key(y as int, mo as int, d as int),
{
    proof {
        reveal_strlit("-");
    }
    let mut r = u64_to_string(y);
    r.append("-");
    r.append(u64_to_string(mo).as_str());
    r.append("-");
    r.append(u64_to_string(d).as_str());
    proof {
        assert(r@ =~= ymd_key(y as int, mo as int, d as int));
    }
    r
}

} // verus!
