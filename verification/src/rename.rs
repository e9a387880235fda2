//! Corpus rename patterns and the URL encoding their application needs.

use vstd::prelude::*;

use crate::error::MergeError;
use crate::text::{chars_to_string, find_from, replace_chars, spec_find, spec_replace, str_to_chars};

verus! {

/// What `urlencoding::encode` returns for a string: a function of the
/// characters alone.
pub uninterp spec fn url_encoded(s: Seq<char>) -> Seq<char>;

/// Relies on `urlencoding::encode`: percent-encodes every byte except ASCII
/// alphanumerics and `-`, `_`, `.`, `~`; the result depends on the input
/// characters alone.
#[verifier::external_body]
pub(crate) fn url_encode(s: &str) -> (r: String)
    ensures
        r@ == url_encoded(s@),
{
    urlencoding::encode(s).into_owned()
}

/// The placeholder that stands for the corpus name in a rename pattern.
pub open spec fn placeholder() -> Seq<char> {
    seq!['%', 'c']
}

/// What applying a pattern to a corpus name yields: every occurrence of the
/// placeholder replaced by the name.
pub open spec fn spec_apply(pattern: Seq<char>, name: Seq<char>) -> Seq<char> {
    spec_replace(pattern, placeholder(), name)
}

/// A corpus rename pattern; it holds the placeholder at least once.
#[derive(Debug)]
pub struct RenamePattern {
    pattern: Vec<char>,
}

impl View for RenamePattern {
    type V = Seq<char>;

    closed spec fn view(&self) -> Seq<char> {
        self.pattern@
    }
}

impl RenamePattern {
    /// Accepts a pattern that holds the placeholder, and nothing else.
    pub fn new(s: &str) -> (r: Result<RenamePattern, MergeError>)
        ensures
            match r {
                Ok(p) => p@ == s@ && spec_find(s@, placeholder(), 0) is Some,
                Err(e) => e@ == crate::error::ErrView::PatternWithoutPlaceholder(s@)
                    && spec_find(s@, placeholder(), 0) is None,
            },
    {
        let chars = str_to_chars(s);
        let mut pat: Vec<char> = Vec::new();
        pat.push('%');
        pat.push('c');
        proof {
            assert(pat@ =~= placeholder());
        }
        match find_from(&chars, &pat, 0) {
            Some(_) => Ok(RenamePattern { pattern: chars }),
            None => Err(
                MergeError::PatternWithoutPlaceholder { pattern: chars_to_string(&chars) },
            ),
        }
    }

    /// Replaces every placeholder by the given corpus name.
    pub fn apply(&self, name: &str) -> (r: String)
        ensures
            r@ == spec_apply(self@, name@),
    {
        let name_chars = str_to_chars(name);
        let mut pat: Vec<char> = Vec::new();
        pat.push('%');
        pat.push('c');
        proof {
            assert(pat@ =~= placeholder());
        }
        let out = replace_chars(&self.pattern, &pat, &name_chars);
        chars_to_string(&out)
    }
}

} // verus!
