//! The pure half of the prefix-listing backend: building the two-digit
//! prefixes an object store is scanned with, and turning the listing's
//! common prefixes and keys back into level members.

use crate::file_datetime::pad2;
use crate::digits::{dec_spec, u64_to_string};
use crate::text::{split_char, split_spec};
use vstd::prelude::*;

verus! {

/// Add "0" if the number has a single digit: the month and day prefix
/// segments of the bucket are two digits wide.
pub fn zero_adder(num: usize) -> (r: String)
    ensures
        r@ == pad2(num as int),
{
    proof {
        reveal_strlit("0");
    }
    if num < 10 {
        let mut r = String::from_str("0");
        r.append(u64_to_string(num as u64).as_str());
        proof {
            assert(r@ =~= pad2(num as int));
        }
        r
    } else {
        u64_to_string(num as u64)
    }
}

/// A common prefix with its trailing delimiter removed.
pub open spec fn strip_trailing_slash(s: Seq<char>) -> Seq<char> {
    if s.len() >= 1 && s.last() == '/' {
        s.drop_last()
    } else {
        s
    }
}

/// Remove a trailing "/" from a common-prefix string.
pub fn remove_delimiter(prefix: &str) -> (r: String)
    ensures
        r@ == strip_trailing_slash(prefix@),
{
    let len = prefix.unicode_len();
    if len >= 1 && prefix.get_char(len - 1) == '/' {
        let r = prefix.substring_char(0, len - 1).to_owned();
        proof {
            assert(r@ =~= prefix@.drop_last());
        }
        r
    } else {
        prefix.to_owned()
    }
}

/// The common prefixes of a listing, each with its delimiter removed.
pub fn retrieve_prefixes(prefixes: &Vec<String>) -> (r: Vec<String>)
    ensures
        r.deep_view().len() == prefixes.deep_view().len(),
        forall|i: int|
            0 <= i < r.deep_view().len() ==> #[trigger] r.deep_view()[i] == strip_trailing_slash(
                prefixes.deep_view()[i],
            ),
{
    let mut r: Vec<String> = Vec::new();
    let mut i: usize = 0;
    while i < prefixes.len()
        invariant
            0 <= i <= prefixes@.len(),
            r.deep_view().len() == i,
            forall|j: int|
                0 <= j < i ==> #[trigger] r.deep_view()[j] == strip_trailing_slash(
                    prefixes.deep_view()[j],
                ),
        decreases prefixes@.len() - i,
    {
        let p = remove_delimiter(prefixes[i].as_str());
        let ghost before = r.deep_view();
        r.push(p);
        proof {
            assert(prefixes@[i as int]@ == prefixes.deep_view()[i as int]);
            assert(forall|j: int| 0 <= j < before.len() ==> #[trigger] r.deep_view()[j] == before[j]);
        }
        i = i + 1;
    }
    r
}

/// The segment of a slash-separated string at an index, when it has one.
pub fn segment_of(s: &str, idx: usize) -> (r: Option<String>)
    ensures
        r is Some <==> idx < split_spec(s@, '/').len(),
        r matches Some(v) ==> v@ == split_spec(s@, '/')[idx as int],
{
    let segs = split_char(s, '/');
    if idx < segs.len() {
        let v = segs[idx].clone();
        proof {
            assert(v@ == segs.deep_view()[idx as int]);
        }
        Some(v)
    } else {
        None
    }
}

/// The object names a listing of keys yields: the bare file name of every
/// key with exactly four segments.
pub open spec fn object_names_spec(keys: Seq<Seq<char>>) -> Seq<Seq<char>>
    decreases keys.len(),
{
    if keys.len() == 0 {
        Seq::<Seq<char>>::empty()
    } else {
        let prev = object_names_spec(keys.drop_last());
        if split_spec(keys.last(), '/').len() == 4 {
            prev.push(split_spec(keys.last(), '/')[3])
        } else {
            prev
        }
    }
}

/// Keep, of each listed key with exactly four slash-separated segments,
/// its last segment: the bare object name.
pub fn object_keys_from_listing(keys: &Vec<String>) -> (r: Vec<String>)
    ensures
        r.deep_view() == object_names_spec(keys.deep_view()),
{
    let mut r: Vec<String> = Vec::new();
    let mut i: usize = 0;
    proof {
        assert(keys.deep_view().take(0) =~= Seq::<Seq<char>>::empty());
    }
    while i < keys.len()
        invariant
            0 <= i <= keys@.len(),
            r.deep_view() == object_names_spec(keys.deep_view().take(i as int)),
        decreases keys@.len() - i,
    {
        let segs = split_char(keys[i].as_str(), '/');
        proof {
            assert(keys@[i as int]@ == keys.deep_view()[i as int]);
            assert(keys.deep_view().take(i + 1).drop_last() =~= keys.deep_view().take(i as int));
            assert(keys.deep_view().take(i + 1).last() == keys.deep_view()[i as int]);
        }
        if segs.len() == 4 {
            let v = segs[3].clone();
            proof {
                assert(v@ == segs.deep_view()[3]);
            }
            let ghost before = r.deep_view();
            r.push(v);
            proof {
                assert(r.deep_view() =~= before.push(
                    split_spec(keys.deep_view()[i as int], '/')[3],
                ));
            }
        }
        i = i + 1;
    }
    proof {
        assert(keys.deep_view().take(keys@.len() as int) =~= keys.deep_view());
    }
    r
}

} // verus!
