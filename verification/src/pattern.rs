//! The capability this core assumes from the outside world: "compile a
//! pattern, find the leftmost match in a haystack". The `regex` crate
//! provides it; everything the rest of the library knows about it is stated
//! here, over two named results.

use vstd::prelude::*;

verus! {

#[verifier::external_type_specification]
#[verifier::external_body]
pub struct ExRegex(regex::Regex);

/// Whether `regex::Regex::new` accepts a pattern. Compilation is a function
/// of the pattern text alone.
pub uninterp spec fn regex_valid(pattern: Seq<char>) -> bool;

/// The character range `[start, end)` of the leftmost match that the
/// compiled form of `pattern` finds in `text`, if any. Matching is a
/// function of the pattern and the haystack alone.
pub uninterp spec fn regex_find(pattern: Seq<char>, text: Seq<char>) -> Option<(int, int)>;

/// A compiled pattern together with the text it was compiled from. The
/// compiled form is opaque; contracts speak only of the source text.
pub struct CompiledPattern {
    source: String,
    regex: regex::Regex,
}

impl CompiledPattern {
    /// The pattern text this value was compiled from.
    pub closed spec fn pat(&self) -> Seq<char> {
        self.source@
    }

    /// Relies on `regex::Regex::new`: it returns `Ok` exactly on valid
    /// patterns, and the compiled value searches for that pattern.
    #[verifier::external_body]
    pub fn compile(pattern: &str) -> (r: Option<CompiledPattern>)
        ensures
            r is Some <==> regex_valid(pattern@),
            r matches Some(p) ==> p.pat() == pattern@,
    {
        match regex::Regex::new(pattern) {
            Ok(regex) => Some(CompiledPattern { source: pattern.to_owned(), regex }),
            Err(_) => None,
        }
    }

    /// Relies on `regex::Regex::find`: it reports the leftmost match as a
    /// byte range that lies within the haystack on character boundaries, and
    /// `Match::as_str` is the matched substring. The match is returned here
    /// as the haystack text before the match and the matched text itself.
    #[verifier::external_body]
    pub fn find(&self, hay: &str) -> (r: Option<(String, String)>)
        ensures
            (match r {
                None => regex_find(self.pat(), hay@) is None,
                Some((pre, mat)) => {
                    &&& regex_find(self.pat(), hay@) == Some(
                        (pre@.len() as int, pre@.len() as int + mat@.len() as int),
                    )
                    &&& pre@.len() + mat@.len() <= hay@.len()
                    &&& pre@ == hay@.subrange(0, pre@.len() as int)
                    &&& mat@ == hay@.subrange(
                        pre@.len() as int,
                        pre@.len() as int + mat@.len() as int,
                    )
                },
            }),
    {
        match self.regex.find(hay) {
            None => None,
            Some(m) => Some((hay[..m.start()].to_owned(), m.as_str().to_owned())),
        }
    }
}

} // verus!
