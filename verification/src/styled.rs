//! What a component implements to be styled.

use crate::identity::{identity, scoped_class, styled_class};
use crate::registry::{calls_for, injection_of, lemma_rules_handed_out_once, Injection, Registry};
use crate::style::{Style, StyleModel};
use vstd::prelude::*;

verus! {

/// A component kind that has a style of its own.
///
/// An implementor names the kind and gives its style; the classes and the
/// one-time injection come with it.
pub trait Styled: Sized {
    /// The name by which this kind is known. No two kinds share a name.
    spec fn kind_name() -> Seq<char>;

    /// What the style of this kind holds.
    spec fn kind_style() -> StyleModel;

    /// The name of this kind: the same at every call.
    fn kind() -> (name: &'static str)
        ensures
            name@ == Self::kind_name(),
    ;

    /// The style of this kind: the same at every call. Its class selectors are
    /// written without prefix.
    fn style() -> (style: Style)
        ensures
            style@ == Self::kind_style(),
    ;

    /// Styles this kind in `registry` unless it has been styled before, and
    /// hands `node` back as it came.
    ///
    /// The style is built on the first call only. What is returned beside the
    /// node says which rules, if any, are to be inserted into the sheet: on the
    /// first call those of the kind's style under the kind's prefix, and the
    /// kind is recorded; on every later call none, and nothing changes.
    fn styled<T>(registry: &mut Registry, node: T) -> (out: (T, Injection))
        ensures
            out.0 == node,
            injection_of(
                old(registry)@,
                Self::kind_name(),
                Self::kind_style(),
                out.1,
                final(registry)@,
            ),
    {
        let kind = Self::kind();
        let injection = if registry.is_styled(kind) {
            Injection::AlreadyStyled
        } else {
            let style = Self::style();
            registry.ensure_injected(kind, &style)
        };
        (node, injection)
    }

    /// The class `class_name` of this kind, as it is written in the sheet. It
    /// goes by the kind's name alone: nothing is styled and nothing recorded.
    fn class(class_name: &str) -> (class: String)
        ensures
            class@ == scoped_class(Self::kind_name(), class_name@),
    {
        styled_class(Self::kind(), class_name)
    }
}

/// However often a kind is styled, its rules are handed out once: by the first
/// call, where the kind was not recorded before. Every later call finds the
/// kind styled, and the kind stays recorded.
///
/// `states` are the identities recorded before the first call, between the
/// calls and after the last; `outcomes` are what the calls returned.
pub proof fn lemma_kind_styled_once<C: Styled>(states: Seq<Set<u64>>, outcomes: Seq<Injection>)
    requires
        outcomes.len() > 0,
        states.len() == outcomes.len() + 1,
        !states[0].contains(identity(C::kind_name())),
        forall|n: int|
            0 <= n < outcomes.len() ==> injection_of(
                states[n],
                C::kind_name(),
                C::kind_style(),
                #[trigger] outcomes[n],
                states[n + 1],
            ),
    ensures
        outcomes[0] is Rules,
        forall|n: int| 0 < n < outcomes.len() ==> #[trigger] outcomes[n] is AlreadyStyled,
        forall|n: int|
            0 < n < states.len() ==> (#[trigger] states[n]) == states[0].insert(
                identity(C::kind_name()),
            ),
{
    let styles = Seq::new(outcomes.len(), |n: int| C::kind_style());
    assert(calls_for(C::kind_name(), states, styles, outcomes));
    lemma_rules_handed_out_once(C::kind_name(), states, styles, outcomes);
    assert forall|n: int| 0 < n < states.len() implies (#[trigger] states[n]) == states[0].insert(
        identity(C::kind_name()),
    ) by {
        lemma_states_after_first::<C>(states, outcomes, n);
    }
}

/// After the first call of a run that began with the kind not recorded, the
/// registry holds what it held before and the kind.
proof fn lemma_states_after_first<C: Styled>(
    states: Seq<Set<u64>>,
    outcomes: Seq<Injection>,
    n: int,
)
    requires
        outcomes.len() > 0,
        states.len() == outcomes.len() + 1,
        !states[0].contains(identity(C::kind_name())),
        forall|n: int|
            0 <= n < outcomes.len() ==> injection_of(
                states[n],
                C::kind_name(),
                C::kind_style(),
                #[trigger] outcomes[n],
                states[n + 1],
            ),
        0 < n < states.len(),
    ensures
        states[n] == states[0].insert(identity(C::kind_name())),
    decreases n,
{
    assert(injection_of(
        states[n - 1],
        C::kind_name(),
        C::kind_style(),
        outcomes[n - 1],
        states[n],
    ));
    if n > 1 {
        lemma_states_after_first::<C>(states, outcomes, n - 1);
    }
}

} // verus!
