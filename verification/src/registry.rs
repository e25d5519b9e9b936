//! The registry of the component kinds whose rules have been handed out.

use crate::identity::{hash_of_type, identity, scope_prefix, styled_class_prefix};
use crate::render::rule_texts;
use crate::style::{Style, StyleModel};
use std::collections::HashSet;
use vstd::prelude::*;

verus! {

/// What a call for a component kind asks of the sheet.
pub enum Injection {
    /// The kind has been styled before: nothing is to be inserted.
    AlreadyStyled,
    /// The kind is styled now: these rules are to be inserted at the end of the
    /// sheet, in this order.
    Rules(Vec<String>),
}

/// The identities of the kinds that have been styled. It only grows.
pub struct Registry {
    styled: HashSet<u64>,
}

impl View for Registry {
    type V = Set<u64>;

    closed spec fn view(&self) -> Set<u64> {
        self.styled@
    }
}

/// What one call for the kind named `kind` with the style `style` does: `before`
/// and `after` are the identities recorded before and after it, `out` is what it
/// returns.
///
/// A kind that is recorded is left alone. One that is not is recorded together
/// with the handing out of its rules, which are those of `style` under the
/// kind's prefix.
pub open spec fn injection_of(
    before: Set<u64>,
    kind: Seq<char>,
    style: StyleModel,
    out: Injection,
    after: Set<u64>,
) -> bool {
    match out {
        Injection::AlreadyStyled => before.contains(identity(kind)) && after == before,
        Injection::Rules(rules) => {
            &&& !before.contains(identity(kind))
            &&& after == before.insert(identity(kind))
            &&& rules.deep_view() == rule_texts(style, scope_prefix(kind))
        },
    }
}

impl Registry {
    /// A registry in which no kind is recorded.
    pub fn new() -> (registry: Registry)
        ensures
            registry@ == Set::<u64>::empty(),
    {
        Registry { styled: HashSet::new() }
    }

    /// Whether the kind named `kind_name` has been styled.
    pub fn is_styled(&self, kind_name: &str) -> (styled: bool)
        ensures
            styled == self@.contains(identity(kind_name@)),
    {
        let component_id = hash_of_type(kind_name);
        self.styled.contains(&component_id)
    }

    /// Styles the kind named `kind_name` unless it has been styled before.
    ///
    /// On the first call for a kind the rules of `style` are rendered under the
    /// kind's prefix and handed out, and the kind is recorded. Every later call
    /// for it changes nothing and hands out nothing.
    pub fn ensure_injected(&mut self, kind_name: &str, style: &Style) -> (out: Injection)
        ensures
            injection_of(old(self)@, kind_name@, style@, out, final(self)@),
    {
        let component_id = hash_of_type(kind_name);
        if self.styled.contains(&component_id) {
            return Injection::AlreadyStyled;
        }
        let prefix = styled_class_prefix(kind_name);
        let rules = style.rules(prefix.as_str());
        self.styled.insert(component_id);
        Injection::Rules(rules)
    }
}

/// A run of calls for the kind named `kind`: `states` are the identities
/// recorded before the first call, between the calls and after the last;
/// `styles` and `outcomes` are what each call was given and what it returned.
pub open spec fn calls_for(
    kind: Seq<char>,
    states: Seq<Set<u64>>,
    styles: Seq<StyleModel>,
    outcomes: Seq<Injection>,
) -> bool {
    &&& states.len() == outcomes.len() + 1
    &&& styles.len() == outcomes.len()
    &&& forall|n: int|
        0 <= n < outcomes.len() ==> injection_of(
            states[n],
            kind,
            styles[n],
            #[trigger] outcomes[n],
            states[n + 1],
        )
}

/// What is recorded at one point of a run of calls is recorded at every later
/// point.
proof fn lemma_registry_grows(
    kind: Seq<char>,
    states: Seq<Set<u64>>,
    styles: Seq<StyleModel>,
    outcomes: Seq<Injection>,
    i: int,
    j: int,
)
    requires
        calls_for(kind, states, styles, outcomes),
        0 <= i <= j < states.len(),
    ensures
        states[i].subset_of(states[j]),
    decreases j - i,
{
    if i < j {
        lemma_registry_grows(kind, states, styles, outcomes, i, j - 1);
        assert(injection_of(states[j - 1], kind, styles[j - 1], outcomes[j - 1], states[j]));
    }
}

/// However often a kind is asked to be styled, its rules are handed out once.
///
/// After a call that handed out rules every later call finds the kind styled;
/// the first call for a kind that is not recorded hands out its rules; and
/// nothing that was recorded is ever lost.
pub proof fn lemma_rules_handed_out_once(
    kind: Seq<char>,
    states: Seq<Set<u64>>,
    styles: Seq<StyleModel>,
    outcomes: Seq<Injection>,
)
    requires
        calls_for(kind, states, styles, outcomes),
    ensures
        forall|i: int, j: int|
            0 <= i < j < outcomes.len() && #[trigger] outcomes[i] is Rules ==> #[trigger] outcomes[j]
                is AlreadyStyled,
        forall|i: int, j: int|
            0 <= i <= j < states.len() ==> (#[trigger] states[i]).subset_of(#[trigger] states[j]),
        outcomes.len() > 0 && !states[0].contains(identity(kind)) ==> outcomes[0] is Rules,
{
    assert forall|i: int, j: int| 0 <= i <= j < states.len() implies (#[trigger] states[i]).subset_of(
        #[trigger] states[j],
    ) by {
        lemma_registry_grows(kind, states, styles, outcomes, i, j);
    }
    assert forall|i: int, j: int|
        0 <= i < j < outcomes.len() && #[trigger] outcomes[i] is Rules implies #[trigger] outcomes[j]
            is AlreadyStyled by {
        assert(injection_of(states[i], kind, styles[i], outcomes[i], states[i + 1]));
        assert(injection_of(states[j], kind, styles[j], outcomes[j], states[j + 1]));
        lemma_registry_grows(kind, states, styles, outcomes, i + 1, j);
        assert(states[i + 1].contains(identity(kind)));
        assert(states[j].contains(identity(kind)));
    }
    if outcomes.len() > 0 {
        assert(injection_of(states[0], kind, styles[0], outcomes[0], states[1]));
    }
}

/// A call for one kind leaves every other identity as it was: recorded or not.
pub proof fn lemma_injection_leaves_other_kinds(
    before: Set<u64>,
    kind: Seq<char>,
    style: StyleModel,
    out: Injection,
    after: Set<u64>,
    other: u64,
)
    requires
        injection_of(before, kind, style, out, after),
        other != identity(kind),
    ensures
        after.contains(other) == before.contains(other),
{
}

} // verus!
