//! Scoping of the class selectors inside a CSS selector.
//!
//! Every class reference of a selector (a dot followed by an identifier) is
//! rewritten so that the class name carries the prefix of its component. The
//! search and the substitution are done by the `regex` crate.

use regex::Regex;
use vstd::prelude::*;
use vstd::string::StringExecFns;

verus! {

/// The pattern of a class reference: a dot, a letter, then letters, digits,
/// hyphens and underscores. The identifier is the pattern's first group.
pub open spec fn class_pattern() -> Seq<char> {
    r"\.([a-zA-Z][a-zA-Z0-9\-_]*)"@
}

/// The text that takes the place of a class reference under `prefix`. In it
/// `$1` stands for the identifier that was found.
pub open spec fn class_replacement(prefix: Seq<char>) -> Seq<char> {
    "._"@ + prefix + "__$1"@
}

/// What `regex::Regex::replace_all` returns for the regular expression compiled
/// from `pattern`, applied to `haystack` with the replacement text
/// `replacement`.
pub uninterp spec fn replaced_all(
    pattern: Seq<char>,
    haystack: Seq<char>,
    replacement: Seq<char>,
) -> Seq<char>;

/// A selector with each of its class references scoped by `prefix`.
pub open spec fn scoped_selector(selector: Seq<char>, prefix: Seq<char>) -> Seq<char> {
    replaced_all(class_pattern(), selector, class_replacement(prefix))
}

/// Replaces all non-overlapping matches of `pattern` in `haystack`.
///
/// Trusted: compiles `pattern` with `regex::Regex::new` and calls
/// `regex::Regex::replace_all` on the result. `None` means that the pattern
/// was not accepted. The pattern of class references is accepted: it is a
/// well-formed expression of a few states, far below the engine's size limit.
/// Of other patterns nothing is claimed. The text returned is the one that
/// `replace_all` gives, which depends on the three arguments alone.
#[verifier::external_body]
fn replace_all(pattern: &str, haystack: &str, replacement: &str) -> (out: Option<String>)
    ensures
        pattern@ == class_pattern() ==> out is Some,
        out matches Some(text) ==> text@ == replaced_all(pattern@, haystack@, replacement@),
{
    match Regex::new(pattern) {
        Ok(re) => Some(re.replace_all(haystack, replacement).into_owned()),
        Err(_) => None,
    }
}

/// The pattern by which class references are found.
pub fn class_selecter() -> (pattern: &'static str)
    ensures
        pattern@ == class_pattern(),
{
    r"\.([a-zA-Z][a-zA-Z0-9\-_]*)"
}

/// Scopes the class references of `selector` by `prefix`: each of them is
/// replaced as the class pattern and the replacement for `prefix` say, and the
/// rest of the selector stays as it is.
pub fn scope_selector(selector: &str, prefix: &str) -> (scoped: String)
    ensures
        scoped@ == scoped_selector(selector@, prefix@),
{
    let mut replacement = String::from_str("._");
    replacement.append(prefix);
    replacement.append("__$1");
    replace_all(class_selecter(), selector, replacement.as_str()).unwrap()
}

} // verus!
