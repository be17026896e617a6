//! The pure half of local-file handling: reading an extension out of a
//! file path. Copying files and reading their metadata is the surrounding
//! application's concern.

use crate::errors::ExogenesisEnsembleLocalFileErrors;
use crate::text::split_spec;
use vstd::prelude::*;

verus! {

/// Index of the last dot in a sequence, or -1 when there is none.
pub open spec fn last_dot(s: Seq<char>) -> int
    decreases s.len(),
{
    if s.len() == 0 {
        -1
    } else if s.last() == '.' {
        s.len() - 1
    } else {
        last_dot(s.drop_last())
    }
}

/// What `last_dot` finds: the position of the last dot, with no dot after
/// it, or no dot at all.
pub proof fn lemma_last_dot(s: Seq<char>)
    ensures
        last_dot(s) < 0 ==> forall|i: int| 0 <= i < s.len() ==> s[i] != '.',
        last_dot(s) >= 0 ==> {
            &&& last_dot(s) < s.len()
            &&& s[last_dot(s)] == '.'
            &&& forall|i: int| last_dot(s) < i < s.len() ==> s[i] != '.'
        },
    decreases s.len(),
{
    if s.len() == 0 {
    } else if s.last() == '.' {
    } else {
        lemma_last_dot(s.drop_last());
        assert forall|i: int| 0 <= i < s.len() - 1 implies s[i] == s.drop_last()[i] by {}
    }
}

/// The extension a file name carries: what follows its last dot, provided
/// the dot is neither its first nor its last character.
pub open spec fn extension_spec(name: Seq<char>) -> Option<Seq<char>> {
    let d = last_dot(name);
    if 0 < d < name.len() - 1 {
        Some(name.skip(d + 1))
    } else {
        None
    }
}

/// Read the extension of the file a path points to: the part of the last
/// path segment after its final dot. A name without a usable extension is
/// rejected.
pub fn get_extension(path: &str) -> (r: Result<String, ExogenesisEnsembleLocalFileErrors>)
    ensures
        ({
            let segs = split_spec(path@, '/');
            match extension_spec(segs.last()) {
                Some(e) => r matches Ok(v) && v@ == e,
                None => r == Err::<String, _>(
                    ExogenesisEnsembleLocalFileErrors::ExtensionParseFailed,
                ),
            }
        }),
{
    let segs = crate::text::split_char(path, '/');
    proof {
        assert(split_spec(path@, '/').len() >= 1);
        assert(segs.deep_view().len() == segs@.len());
    }
    let name = &segs[segs.len() - 1];
    proof {
        assert(name@ == segs.deep_view().last());
        lemma_last_dot(name@);
    }
    let len = name.as_str().unicode_len();
    let mut i: usize = len;
    while i > 0
        invariant
            name@ == split_spec(path@, '/').last(),
            0 <= i <= len,
            len == name@.len(),
            forall|j: int| i <= j < len ==> name@[j] != '.',
        decreases i,
    {
        if name.as_str().get_char(i - 1) == '.' {
            proof {
                lemma_last_dot(name@);
                assert(last_dot(name@) == i - 1);
            }
            if i - 1 > 0 && i < len {
                let ext = name.as_str().substring_char(i, len).to_owned();
                proof {
                    assert(ext@ =~= name@.skip(i as int));
                }
                return Ok(ext);
            } else {
                return Err(ExogenesisEnsembleLocalFileErrors::ExtensionParseFailed);
            }
        }
        i = i - 1;
    }
    proof {
        lemma_last_dot(name@);
        if last_dot(name@) >= 0 {
            assert(name@[last_dot(name@)] == '.');
        }
    }
    Err(ExogenesisEnsembleLocalFileErrors::ExtensionParseFailed)
}

} // verus!
