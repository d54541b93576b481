use regex::Regex;
use vstd::prelude::*;

verus! {

/// `regex::Regex`, a compiled regular expression. Opaque: what is known of a
/// value is what `regex_language` says of it.
#[verifier::external_type_specification]
#[verifier::external_body]
pub struct ExRegex(regex::Regex);

/// `regex::Error`, the reason why a pattern was refused. Opaque.
#[verifier::external_type_specification]
#[verifier::external_body]
pub struct ExRegexError(regex::Error);

/// The texts in which a compiled expression finds a match.
pub uninterp spec fn regex_language(re: Regex) -> Set<Seq<char>>;

/// The texts in which the expression that a pattern compiles to finds a
/// match.
pub uninterp spec fn pattern_language(pattern: Seq<char>) -> Set<Seq<char>>;

/// Whether the pattern compiler accepts the pattern: it is well formed and
/// the program it compiles to stays within the compiler's default size
/// limit. That limit is a bound on resources, counted in bytes of the
/// machine at hand; short patterns such as the built-in ones are far from it.
pub uninterp spec fn pattern_accepted(pattern: Seq<char>) -> bool;

/// Calls `regex::Regex::new`. Trusted: whether a pattern is accepted, and
/// what an accepted pattern matches, are functions of the pattern text
/// alone.
#[verifier::external_body]
pub(crate) fn compile(pattern: &str) -> (r: Result<Regex, regex::Error>)
    ensures
        r is Ok <==> pattern_accepted(pattern@),
        r matches Ok(re) ==> regex_language(re) == pattern_language(pattern@),
{
    Regex::new(pattern)
}

/// Calls `regex::Regex::is_match`. Trusted: the answer is a function of the
/// compiled expression and the text alone.
#[verifier::external_body]
pub(crate) fn is_match(re: &Regex, text: &str) -> (b: bool)
    ensures
        b == regex_language(*re).contains(text@),
{
    re.is_match(text)
}

/// Whether any expression of `regs` finds a match in `text`.
pub open spec fn matches_any(regs: Seq<Regex>, text: Seq<char>) -> bool {
    exists|i: int| 0 <= i < regs.len() && #[trigger] regex_language(regs[i]).contains(text)
}

/// Tests `text` against each expression in turn.
pub fn any_match(regs: &Vec<Regex>, text: &str) -> (b: bool)
    ensures
        b == matches_any(regs@, text@),
{
    let mut i: usize = 0;
    while i < regs.len()
        invariant
            i <= regs.len(),
            forall|j: int| 0 <= j < i ==> !(#[trigger] regex_language(regs@[j])).contains(text@),
        decreases regs.len() - i,
    {
        if is_match(&regs[i], text) {
            return true;
        }
        i += 1;
    }
    false
}

} // verus!
