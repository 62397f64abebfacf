use vstd::prelude::*;
use bstr::ByteSlice;

verus! {

/// Whether the regex crate accepts `p` as a pattern.
pub uninterp spec fn regex_accepts(p: Seq<char>) -> bool;

/// Whether pattern `p` matches somewhere in text `t`.
pub uninterp spec fn regex_finds(p: Seq<char>, t: Seq<char>) -> bool;

/// Whether the byte-oriented regex crate accepts `p` as a pattern.
pub uninterp spec fn bytes_regex_accepts(p: Seq<char>) -> bool;

/// The successive non-overlapping matches of pattern `p` in `hay`, as
/// `(start, end)` offsets.
pub uninterp spec fn bytes_regex_matches(p: Seq<char>, hay: Seq<u8>) -> Seq<(usize, usize)>;

/// The demangled form of a symbol name, or the name itself where no
/// demangler recognises it.
pub uninterp spec fn demangled(name: Seq<char>) -> Seq<char>;

/// Bytes shown as text, with invalid UTF-8 replaced.
pub uninterp spec fn lossy_text(b: Seq<u8>) -> Seq<char>;

#[verifier::external_type_specification]
#[verifier::external_body]
pub struct ExRegex(regex::Regex);

#[verifier::external_type_specification]
#[verifier::external_body]
pub struct ExBytesRegex(regex::bytes::Regex);

#[verifier::external_type_specification]
#[verifier::external_body]
pub struct ExRegexError(regex::Error);

/// A compiled text pattern together with its source.
pub struct Pattern {
    source: String,
    re: regex::Regex,
}

/// A compiled byte pattern together with its source.
pub struct BytesPattern {
    source: String,
    re: regex::bytes::Regex,
}

/// Relies on `regex::Regex::new`: it accepts or refuses the pattern.
#[verifier::external_body]
fn compile(p: &str) -> (r: Result<regex::Regex, regex::Error>)
    ensures
        r is Ok <==> regex_accepts(p@),
{
    regex::Regex::new(p)
}

/// Relies on `regex::bytes::Regex::new`: it accepts or refuses the pattern.
#[verifier::external_body]
fn compile_bytes(p: &str) -> (r: Result<regex::bytes::Regex, regex::Error>)
    ensures
        r is Ok <==> bytes_regex_accepts(p@),
{
    regex::bytes::Regex::new(p)
}

impl Pattern {
    pub closed spec fn source(&self) -> Seq<char> {
        self.source@
    }

    /// Compiles `p`; `None` where the pattern is refused.
    pub fn new(p: &str) -> (r: Option<Pattern>)
        ensures
            r is Some <==> regex_accepts(p@),
            r matches Some(q) ==> q.source() == p@,
    {
        match compile(p) {
            Ok(re) => Some(Pattern { source: p.to_owned(), re }),
            Err(_) => None,
        }
    }

    /// Relies on `regex::Regex::is_match`, on the pattern this value was
    /// compiled from.
    #[verifier::external_body]
    pub fn is_match(&self, t: &str) -> (r: bool)
        ensures
            r == regex_finds(self.source(), t@),
    {
        self.re.is_match(t)
    }
}

impl BytesPattern {
    pub closed spec fn source(&self) -> Seq<char> {
        self.source@
    }

    /// Compiles `p`; `None` where the pattern is refused.
    pub fn new(p: &str) -> (r: Option<BytesPattern>)
        ensures
            r is Some <==> bytes_regex_accepts(p@),
            r matches Some(q) ==> q.source() == p@,
    {
        match compile_bytes(p) {
            Ok(re) => Some(BytesPattern { source: p.to_owned(), re }),
            Err(_) => None,
        }
    }

    /// Relies on `regex::bytes::Regex::find_iter`: successive
    /// non-overlapping matches, each a range inside `hay`.
    #[verifier::external_body]
    pub fn find_all(&self, hay: &[u8]) -> (r: Vec<(usize, usize)>)
        ensures
            r@ == bytes_regex_matches(self.source(), hay@),
            forall|i: int| 0 <= i < r@.len() ==> #[trigger] r@[i].0 <= r@[i].1 <= hay@.len(),
    {
        self.re.find_iter(hay).map(|m| (m.start(), m.end())).collect()
    }
}

/// Relies on `symbolic_demangle::demangle`: the demangled name, or the name
/// unchanged.
#[verifier::external_body]
pub fn demangle(name: &str) -> (r: String)
    ensures
        r@ == demangled(name@),
{
    symbolic_demangle::demangle(name).into_owned()
}

/// Relies on bstr's `Display` for byte strings: the bytes as text, invalid
/// UTF-8 replaced.
#[verifier::external_body]
pub fn bytes_as_text(b: &[u8]) -> (r: String)
    ensures
        r@ == lossy_text(b@),
{
    format!("{}", b.as_bstr())
}

} // verus!
