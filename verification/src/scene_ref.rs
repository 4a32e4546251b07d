//! References to scenes: `scene` or `file:scene`.
use vstd::prelude::*;
use crate::error::YamamvaError;
use crate::text::{chars_of, concat3, owned, string_from_chars};

verus! {

/// Position of the first `:` in `s`, if any.
pub open spec fn first_colon(s: Seq<char>) -> Option<int> {
    if exists|i: int| 0 <= i < s.len() && s[i] == ':' {
        Some(choose|i: int| 0 <= i < s.len() && s[i] == ':' && forall|j: int| 0 <= j < i ==> s[j] != ':')
    } else {
        None
    }
}

/// What a scene reference reads as: `Ok((file, scene))`, or `None` where the scene part
/// after a colon is empty.
pub open spec fn scene_ref_parts(s: Seq<char>) -> Option<(Option<Seq<char>>, Seq<char>)> {
    match first_colon(s) {
        Some(p) => if p + 1 == s.len() {
            None
        } else {
            Some((Some(s.subrange(0, p)), s.subrange(p + 1, s.len() as int)))
        },
        None => Some((None, s)),
    }
}

/// Splits a scene reference at its first colon into the file stem and the scene id.
/// Without a colon the whole reference is the scene id. A colon at the end, with no
/// scene id after it, is an error.
pub fn parse_file_scene_ref(reference: &str) -> (r: Result<(Option<String>, String), YamamvaError>)
    ensures
        match (r, scene_ref_parts(reference@)) {
            (Ok((file, scene)), Some((sfile, sscene))) => scene@ == sscene && match (file, sfile) {
                (Some(f), Some(sf)) => f@ == sf,
                (None, None) => true,
                _ => false,
            },
            (Err(e), None) => e == YamamvaError::Parse(e->Parse_0) && e->Parse_0@
                == "empty scene_id in reference '"@ + reference@ + "'"@,
            _ => false,
        },
{
    let cs = chars_of(reference);
    let mut i: usize = 0;
    while i < cs.len()
        invariant
            i <= cs@.len(),
            cs@ == reference@,
            forall|j: int| 0 <= j < i ==> cs@[j] != ':',
        decreases cs@.len() - i,
    {
        if cs[i] == ':' {
            proof {
                let s = reference@;
                assert(exists|k: int| 0 <= k < s.len() && s[k] == ':');
                let c = choose|k: int| 0 <= k < s.len() && s[k] == ':' && forall|j: int| 0 <= j < k ==> s[j] != ':';
                assert(0 <= i < s.len() && s[i as int] == ':' && forall|j: int| 0 <= j < i ==> s[j] != ':');
                if c < i {
                } else if c > i {
                    assert(s[i as int] != ':');
                }
                assert(c == i);
            }
            let file = string_from_chars(&cs.as_slice()[0..i]);
            if i + 1 == cs.len() {
                let msg = concat3("empty scene_id in reference '", reference, "'");
                return Err(YamamvaError::Parse(msg));
            }
            let scene = string_from_chars(&cs.as_slice()[i + 1..cs.len()]);
            return Ok((Some(file), scene));
        }
        i = i + 1;
    }
    Ok((None, owned(reference)))
}

/// Where a string has a colon, it has a first one.
proof fn lemma_first_colon_exists(s: Seq<char>, k: int)
    requires
        0 <= k < s.len(),
        s[k] == ':',
    ensures
        exists|i: int| 0 <= i < s.len() && s[i] == ':' && forall|j: int| 0 <= j < i ==> s[j] != ':',
    decreases k,
{
    if exists|j: int| 0 <= j < k && s[j] == ':' {
        let j = choose|j: int| 0 <= j < k && s[j] == ':';
        lemma_first_colon_exists(s, j);
    } else {
        assert(forall|j: int| 0 <= j < k ==> s[j] != ':');
    }
}

/// A scene reference splits at its first colon and joins back: the file and the
/// scene with a colon between them are the reference again, and the file part
/// holds no colon.
pub proof fn law_split_rejoins(s: Seq<char>)
    ensures
        scene_ref_parts(s) matches Some((Some(f), sid)) ==> s == f + seq![':'] + sid && !f.contains(
            ':',
        ),
        scene_ref_parts(s) matches Some((None, sid)) ==> s == sid && !s.contains(':'),
{
    if exists|i: int| 0 <= i < s.len() && s[i] == ':' {
        let k = choose|i: int| 0 <= i < s.len() && s[i] == ':';
        lemma_first_colon_exists(s, k);
        let p = first_colon(s)->0;
        assert(0 <= p < s.len() && s[p] == ':' && forall|j: int| 0 <= j < p ==> s[j] != ':');
        if p + 1 != s.len() {
            assert(s =~= s.subrange(0, p) + seq![':'] + s.subrange(p + 1, s.len() as int));
            assert forall|j: int| 0 <= j < p implies s.subrange(0, p)[j] != ':' by {
                assert(s.subrange(0, p)[j] == s[j]);
            }
        }
    } else {
        assert(!s.contains(':'));
    }
}

/// A file without a colon and a non-empty scene, joined by a colon, split back into
/// that file and that scene; a reference without a colon is a scene of the current
/// file.
pub proof fn law_join_splits(f: Seq<char>, sid: Seq<char>)
    requires
        !f.contains(':'),
    ensures
        sid.len() > 0 ==> scene_ref_parts(f + seq![':'] + sid) == Some((Some(f), sid)),
        sid.len() == 0 ==> scene_ref_parts(f + seq![':'] + sid).is_none(),
        !sid.contains(':') ==> scene_ref_parts(sid) == Some((None::<Seq<char>>, sid)),
{
    let s = f + seq![':'] + sid;
    let p = f.len() as int;
    assert(s[p] == ':');
    assert(forall|j: int| 0 <= j < p ==> s[j] == f[j]);
    assert(forall|j: int| 0 <= j < p ==> f[j] != ':') by {
        assert forall|j: int| 0 <= j < p implies f[j] != ':' by {
            if f[j] == ':' {
                assert(f.contains(':'));
            }
        }
    }
    let q = choose|i: int| 0 <= i < s.len() && s[i] == ':' && forall|j: int| 0 <= j < i ==> s[j] != ':';
    assert(q == p) by {
        if q < p {
            assert(s[q] == f[q]);
        } else if q > p {
            assert(s[p] != ':');
        }
    }
    assert(s.subrange(0, p) =~= f);
    assert(s.subrange(p + 1, s.len() as int) =~= sid);
    if !sid.contains(':') {
        assert(!(exists|i: int| 0 <= i < sid.len() && sid[i] == ':')) by {
            if exists|i: int| 0 <= i < sid.len() && sid[i] == ':' {
                let i = choose|i: int| 0 <= i < sid.len() && sid[i] == ':';
                assert(sid.contains(':'));
            }
        }
    }
}

} // verus!
