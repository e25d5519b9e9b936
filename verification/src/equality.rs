//! Structural equality of styles.

use crate::style::{media_models, Style};
use vstd::prelude::*;
use vstd::std_specs::cmp::PartialEqSpecImpl;

verus! {

/// Whether two lists of declarations hold the same properties and values in the
/// same order.
fn same_declarations(a: &Vec<(String, String)>, b: &Vec<(String, String)>) -> (same: bool)
    ensures
        same == (a.deep_view() == b.deep_view()),
{
    if a.len() != b.len() {
        assert(a.deep_view().len() != b.deep_view().len());
        return false;
    }
    let mut i: usize = 0;
    while i < a.len()
        invariant
            i <= a.len(),
            a.len() == b.len(),
            forall|j: int| 0 <= j < i ==> a.deep_view()[j] == b.deep_view()[j],
        decreases a.len() - i,
    {
        if !(a[i].0 == b[i].0 && a[i].1 == b[i].1) {
            assert(a.deep_view()[i as int] != b.deep_view()[i as int]);
            return false;
        }
        i += 1;
    }
    assert(a.deep_view() =~= b.deep_view());
    true
}

/// Whether two lists of blocks hold the same selectors and declarations in the
/// same order.
fn same_blocks(
    a: &Vec<(String, Vec<(String, String)>)>,
    b: &Vec<(String, Vec<(String, String)>)>,
) -> (same: bool)
    ensures
        same == (a.deep_view() == b.deep_view()),
{
    if a.len() != b.len() {
        assert(a.deep_view().len() != b.deep_view().len());
        return false;
    }
    let mut i: usize = 0;
    while i < a.len()
        invariant
            i <= a.len(),
            a.len() == b.len(),
            forall|j: int| 0 <= j < i ==> a.deep_view()[j] == b.deep_view()[j],
        decreases a.len() - i,
    {
        if !(a[i].0 == b[i].0 && same_declarations(&a[i].1, &b[i].1)) {
            assert(a.deep_view()[i as int] != b.deep_view()[i as int]);
            return false;
        }
        i += 1;
    }
    assert(a.deep_view() =~= b.deep_view());
    true
}

/// Whether two styles hold the same blocks and the same media blocks, nested
/// styles included, in the same order.
fn same_style(a: &Style, b: &Style) -> (same: bool)
    ensures
        same == (a@ == b@),
    decreases a@,
{
    if !same_blocks(a.blocks(), b.blocks()) {
        return false;
    }
    let ours = a.media();
    let theirs = b.media();
    if ours.len() != theirs.len() {
        assert(a@.media.len() != b@.media.len());
        return false;
    }
    let mut k: usize = 0;
    while k < ours.len()
        invariant
            k <= ours.len(),
            ours.len() == theirs.len(),
            media_models(ours@) == a@.media,
            media_models(theirs@) == b@.media,
            forall|j: int| 0 <= j < k ==> a@.media[j] == b@.media[j],
        decreases ours.len() - k,
    {
        assert(a@.media[k as int] == (ours[k as int].0@, ours[k as int].1@));
        assert(b@.media[k as int] == (theirs[k as int].0@, theirs[k as int].1@));
        assert(decreases_to!(a@ => a@.media[k as int].1));
        if !(ours[k].0 == theirs[k].0 && same_style(&ours[k].1, &theirs[k].1)) {
            assert(a@.media[k as int] != b@.media[k as int]);
            return false;
        }
        k += 1;
    }
    assert(a@.media =~= b@.media);
    true
}

impl PartialEq for Style {
    /// Two styles are equal where they hold the same blocks and the same media
    /// blocks in the same order.
    fn eq(&self, other: &Style) -> (same: bool) {
        same_style(self, other)
    }
}

impl PartialEqSpecImpl for Style {
    open spec fn obeys_eq_spec() -> bool {
        true
    }

    open spec fn eq_spec(&self, other: &Style) -> bool {
        self@ == other@
    }
}

} // verus!
