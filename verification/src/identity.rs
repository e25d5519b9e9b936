//! The identity of a component kind and the class names derived from it.
//!
//! A kind is known by its name. Its identity is a hash of that name, its prefix
//! is the identity in upper-case hexadecimal, and a class of the kind is written
//! `_<prefix>__<class>`.

use crate::text::lemma_first_index_is;
use std::collections::hash_map::DefaultHasher;
use std::hash::Hasher;
use vstd::prelude::*;
use vstd::std_specs::hash::DefaultHasherAdditionalSpecFns;
use vstd::string::StrSliceExecFns;
use vstd::string::StringExecFns;
use vstd::utf8::encode_utf8;

verus! {

/// The identity of the kind named `kind_name`: what the standard library's
/// default hasher makes of the name's bytes, written to it in one piece.
pub open spec fn identity(kind_name: Seq<char>) -> u64 {
    DefaultHasher::spec_finish(seq![encode_utf8(kind_name)])
}

/// The hexadecimal digit of a value below sixteen, in upper case.
pub open spec fn hex_digit(value: int) -> char {
    "0123456789ABCDEF"@[value]
}

/// A number in upper-case hexadecimal, without leading zeros; zero is `0`.
pub open spec fn upper_hex(n: nat) -> Seq<char>
    decreases n,
{
    if n < 16 {
        seq![hex_digit(n as int)]
    } else {
        upper_hex(n / 16).push(hex_digit((n % 16) as int))
    }
}

/// The prefix of the kind named `kind_name`: its identity in hexadecimal.
pub open spec fn scope_prefix(kind_name: Seq<char>) -> Seq<char> {
    upper_hex(identity(kind_name) as nat)
}

/// The class `class_name` under `prefix`, as it is written in the sheet.
pub open spec fn prefixed_class(prefix: Seq<char>, class_name: Seq<char>) -> Seq<char> {
    "_"@ + prefix + "__"@ + class_name
}

/// The class `class_name` of the kind named `kind_name`.
pub open spec fn scoped_class(kind_name: Seq<char>, class_name: Seq<char>) -> Seq<char> {
    prefixed_class(scope_prefix(kind_name), class_name)
}

/// The identity of a component kind, from its name. The same name gives the same
/// identity at every call.
pub fn hash_of_type(kind_name: &str) -> (id: u64)
    ensures
        id == identity(kind_name@),
{
    let mut hasher = DefaultHasher::new();
    hasher.write(kind_name.as_bytes());
    hasher.finish()
}

/// Appends `n` in upper-case hexadecimal to `out`.
fn write_upper_hex(out: &mut String, n: u64)
    ensures
        final(out)@ == old(out)@ + upper_hex(n as nat),
    decreases n,
{
    if n >= 16 {
        write_upper_hex(out, n / 16);
    }
    proof {
        reveal_strlit("0123456789ABCDEF");
    }
    let at = (n % 16) as usize;
    let digit = "0123456789ABCDEF".substring_char(at, at + 1);
    assert(digit@ =~= seq![hex_digit(at as int)]);
    out.append(digit);
    assert(out@ =~= old(out)@ + upper_hex(n as nat));
}

/// `n` in upper-case hexadecimal.
pub fn to_upper_hex(n: u64) -> (out: String)
    ensures
        out@ == upper_hex(n as nat),
{
    let mut out = String::new();
    write_upper_hex(&mut out, n);
    assert(out@ =~= upper_hex(n as nat));
    out
}

/// The prefix that scopes the classes of a component kind, from the kind's
/// name. The same name gives the same prefix at every call.
pub fn styled_class_prefix(kind_name: &str) -> (prefix: String)
    ensures
        prefix@ == scope_prefix(kind_name@),
{
    to_upper_hex(hash_of_type(kind_name))
}

/// The class `class_name` of a component kind, as it is written in the sheet.
pub fn styled_class(kind_name: &str, class_name: &str) -> (class: String)
    ensures
        class@ == scoped_class(kind_name@, class_name@),
{
    let prefix = styled_class_prefix(kind_name);
    let mut class = String::from_str("_");
    class.append(prefix.as_str());
    class.append("__");
    class.append(class_name);
    class
}

/// Whether `c` is a hexadecimal digit in upper case.
pub open spec fn is_hex_digit(c: char) -> bool {
    "0123456789ABCDEF"@.contains(c)
}

/// A number in hexadecimal has at least one digit, more than one from sixteen
/// on, and hexadecimal digits only.
pub proof fn lemma_upper_hex_digits(n: nat)
    ensures
        upper_hex(n).len() >= 1,
        n >= 16 ==> upper_hex(n).len() >= 2,
        forall|i: int| 0 <= i < upper_hex(n).len() ==> is_hex_digit(#[trigger] upper_hex(n)[i]),
    decreases n,
{
    reveal_strlit("0123456789ABCDEF");
    if n >= 16 {
        lemma_upper_hex_digits(n / 16);
    }
}

/// Different numbers are written differently in hexadecimal.
pub proof fn lemma_upper_hex_injective(a: nat, b: nat)
    requires
        upper_hex(a) == upper_hex(b),
    ensures
        a == b,
    decreases a,
{
    reveal_strlit("0123456789ABCDEF");
    lemma_upper_hex_digits(a);
    lemma_upper_hex_digits(b);
    if a >= 16 {
        assert(b >= 16);
        assert(upper_hex(a).last() == hex_digit((a % 16) as int));
        assert(upper_hex(b).last() == hex_digit((b % 16) as int));
        assert(upper_hex(a).drop_last() =~= upper_hex(a / 16));
        assert(upper_hex(b).drop_last() =~= upper_hex(b / 16));
        lemma_upper_hex_injective(a / 16, b / 16);
    } else {
        assert(upper_hex(a)[0] == hex_digit(a as int));
        assert(upper_hex(b)[0] == hex_digit(b as int));
    }
}

/// Two hexadecimal prefixes that differ never give the same class, whatever the
/// class names are.
pub proof fn lemma_prefixes_keep_classes_apart(
    first: Seq<char>,
    second: Seq<char>,
    a: Seq<char>,
    b: Seq<char>,
)
    requires
        forall|i: int| 0 <= i < first.len() ==> is_hex_digit(#[trigger] first[i]),
        forall|i: int| 0 <= i < second.len() ==> is_hex_digit(#[trigger] second[i]),
        first != second,
    ensures
        prefixed_class(first, a) != prefixed_class(second, b),
{
    reveal_strlit("0123456789ABCDEF");
    reveal_strlit("_");
    reveal_strlit("__");
    let one = prefixed_class(first, a);
    let two = prefixed_class(second, b);
    if one == two {
        let tail = one.skip(1);
        assert forall|j: int| 0 <= j < first.len() implies tail[j] != '_' by {
            assert(tail[j] == first[j]);
            assert(is_hex_digit(first[j]));
        }
        assert(tail[first.len() as int] == '_');
        lemma_first_index_is(tail, '_', first.len() as int);
        assert forall|j: int| 0 <= j < second.len() implies tail[j] != '_' by {
            assert(tail[j] == second[j]);
            assert(is_hex_digit(second[j]));
        }
        assert(tail[second.len() as int] == '_');
        lemma_first_index_is(tail, '_', second.len() as int);
        assert(first =~= tail.take(first.len() as int));
        assert(second =~= tail.take(second.len() as int));
    }
}

/// Two kinds with different identities never share a class: whatever class
/// names their styles use, even the same one, the scoped names differ.
pub proof fn lemma_kinds_never_share_a_class(
    kind: Seq<char>,
    other_kind: Seq<char>,
    class_name: Seq<char>,
    other_class_name: Seq<char>,
)
    requires
        identity(kind) != identity(other_kind),
    ensures
        scope_prefix(kind) != scope_prefix(other_kind),
        scoped_class(kind, class_name) != scoped_class(other_kind, other_class_name),
{
    if scope_prefix(kind) == scope_prefix(other_kind) {
        lemma_upper_hex_injective(identity(kind) as nat, identity(other_kind) as nat);
    }
    lemma_upper_hex_digits(identity(kind) as nat);
    lemma_upper_hex_digits(identity(other_kind) as nat);
    lemma_prefixes_keep_classes_apart(
        scope_prefix(kind),
        scope_prefix(other_kind),
        class_name,
        other_class_name,
    );
}

} // verus!
