//! Conventions of the target corpus: the segmentation annotation the merge
//! aligns against, the annotation namespace of the checked values, and the
//! sanitization a stored value needs before comparison.

use vstd::prelude::*;

use crate::text::{chars_to_string, spec_replace, spec_trim, str_to_chars, trim_chars};

verus! {

/// The segmentation annotation whose nodes carry the token stream.
pub fn tok_anno() -> (r: &'static str)
    ensures
        r@ == "tok_anno"@,
{
    "tok_anno"
}

/// The namespace of the annotation values shared by the two sources.
pub fn annotation_ns() -> (r: &'static str)
    ensures
        r@ == "annotation"@,
{
    "annotation"
}

/// What sanitizing a stored annotation value yields: the placeholder that
/// means "absent" becomes absence itself; otherwise the value is trimmed and
/// every reserved `#` becomes `-`.
pub open spec fn spec_sanitize(anno: Option<Seq<char>>) -> Option<Seq<char>> {
    match anno {
        None => None,
        Some(s) => if s == seq!['-', '-'] {
            None
        } else {
            Some(spec_replace(spec_trim(s), seq!['#'], seq!['-']))
        },
    }
}

/// Sanitizes a stored annotation value: discards the placeholder meaning
/// "absent", trims white space, and replaces `#`, which is reserved as a
/// structural separator in merged names, by `-`.
pub fn sanitize_anno(anno: Option<&str>) -> (r: Option<String>)
    ensures
        ({
            let expected = spec_sanitize(
                match anno {
                    Some(s) => Some(s@),
                    None => None,
                },
            );
            match r {
                Some(v) => expected == Some(v@),
                None => expected is None,
            }
        }),
{
    match anno {
        None => None,
        Some(s) => {
            let cs = str_to_chars(s);
            if cs.len() == 2 && cs[0] == '-' && cs[1] == '-' {
                proof {
                    assert(cs@ =~= seq!['-', '-']);
                }
                None
            } else {
                proof {
                    if s@ == seq!['-', '-'] {
                        assert(cs@.len() == 2 && cs@[0] == '-' && cs@[1] == '-');
                    }
                }
                let trimmed = trim_chars(&cs);
                let mut pat: Vec<char> = Vec::new();
                pat.push('#');
                let mut rep: Vec<char> = Vec::new();
                rep.push('-');
                proof {
                    assert(pat@ =~= seq!['#']);
                    assert(rep@ =~= seq!['-']);
                }
                let out = crate::text::replace_chars(&trimmed, &pat, &rep);
                Some(chars_to_string(&out))
            }
        },
    }
}

} // verus!
