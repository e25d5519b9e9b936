//! Laws of the style tree: what building, merging and rendering guarantee.

use crate::debug::{debug_sections, debug_text};
use crate::render::{media_rule_text, rendered, rule_texts};
use crate::style::{
    blocks_well_formed, declared_value, properties, selectors, upsert_block, upsert_blocks,
    upsert_declaration, upsert_declarations, Block, Declaration, Style, StyleModel,
};
use crate::text::{first_index, lemma_first_index, lemma_first_index_is};
use vstd::prelude::*;
use vstd::seq_lib::lemma_flatten_concat;
use vstd::std_specs::cmp::PartialEqSpec;

verus! {

/// Setting a property among declarations that hold no property twice leaves
/// them so.
pub proof fn lemma_upsert_declaration_distinct(
    declarations: Seq<Declaration>,
    property: Seq<char>,
    value: Seq<char>,
)
    requires
        properties(declarations).no_duplicates(),
    ensures
        properties(upsert_declaration(declarations, property, value)).no_duplicates(),
{
    let keys = properties(declarations);
    let at = first_index(keys, property);
    lemma_first_index(keys, property);
    let after = properties(upsert_declaration(declarations, property, value));
    if at < declarations.len() {
        assert(after =~= keys);
    } else {
        assert(after =~= keys.push(property));
    }
}

/// Setting a declaration in well-formed blocks leaves them well formed.
pub proof fn lemma_upsert_block_well_formed(
    blocks: Seq<Block>,
    selector: Seq<char>,
    property: Seq<char>,
    value: Seq<char>,
)
    requires
        blocks_well_formed(blocks),
    ensures
        blocks_well_formed(upsert_block(blocks, selector, property, value)),
{
    let keys = selectors(blocks);
    let at = first_index(keys, selector);
    lemma_first_index(keys, selector);
    let after = upsert_block(blocks, selector, property, value);
    if at < blocks.len() {
        assert(selectors(after) =~= keys);
        lemma_upsert_declaration_distinct(blocks[at].1, property, value);
        assert forall|i: int| 0 <= i < after.len() implies properties(
            (#[trigger] after[i]).1,
        ).no_duplicates() by {
            if i != at {
                assert(after[i] == blocks[i]);
            }
        }
    } else {
        assert(selectors(after) =~= keys.push(selector));
        assert(properties(seq![(property, value)]) =~= seq![property]);
        assert forall|i: int| 0 <= i < after.len() implies properties(
            (#[trigger] after[i]).1,
        ).no_duplicates() by {
            if i < blocks.len() {
                assert(after[i] == blocks[i]);
            }
        }
    }
}

/// Setting declarations one after the other in well-formed blocks leaves them
/// well formed.
pub proof fn lemma_upsert_declarations_well_formed(
    blocks: Seq<Block>,
    selector: Seq<char>,
    declarations: Seq<Declaration>,
)
    requires
        blocks_well_formed(blocks),
    ensures
        blocks_well_formed(upsert_declarations(blocks, selector, declarations)),
    decreases declarations.len(),
{
    if declarations.len() > 0 {
        lemma_upsert_declarations_well_formed(blocks, selector, declarations.drop_last());
        lemma_upsert_block_well_formed(
            upsert_declarations(blocks, selector, declarations.drop_last()),
            selector,
            declarations.last().0,
            declarations.last().1,
        );
    }
}

/// Merging any blocks into well-formed blocks leaves them well formed.
pub proof fn lemma_upsert_blocks_well_formed(blocks: Seq<Block>, others: Seq<Block>)
    requires
        blocks_well_formed(blocks),
    ensures
        blocks_well_formed(upsert_blocks(blocks, others)),
    decreases others.len(),
{
    if others.len() > 0 {
        lemma_upsert_blocks_well_formed(blocks, others.drop_last());
        lemma_upsert_declarations_well_formed(
            upsert_blocks(blocks, others.drop_last()),
            others.last().0,
            others.last().1,
        );
    }
}

/// The empty style is well formed, and setting a declaration, adding a
/// well-formed media block and merging a well-formed style each keep a
/// well-formed style well formed.
pub proof fn lemma_building_keeps_well_formed(
    style: StyleModel,
    selector: Seq<char>,
    property: Seq<char>,
    value: Seq<char>,
    query: Seq<char>,
    other: StyleModel,
)
    requires
        style.well_formed(),
    ensures
        StyleModel::empty().well_formed(),
        style.with_declaration(selector, property, value).well_formed(),
        other.well_formed() ==> style.with_media(query, other).well_formed(),
        other.well_formed() ==> style.merged(other).well_formed(),
{
    lemma_upsert_block_well_formed(style.blocks, selector, property, value);
    lemma_upsert_blocks_well_formed(style.blocks, other.blocks);
    assert(selectors(Seq::<Block>::empty()) =~= Seq::<Seq<char>>::empty());
    let added = style.with_declaration(selector, property, value);
    assert forall|k: int| 0 <= k < added.media.len() implies (
        #[trigger] added.media[k]).1.well_formed() by {
        assert(added.media[k] == style.media[k]);
    }
    if other.well_formed() {
        let nested = style.with_media(query, other);
        assert forall|k: int| 0 <= k < nested.media.len() implies (
        #[trigger] nested.media[k]).1.well_formed() by {
            if k < style.media.len() {
                assert(nested.media[k] == style.media[k]);
            }
        }
        let merged = style.merged(other);
        assert forall|k: int| 0 <= k < merged.media.len() implies (
        #[trigger] merged.media[k]).1.well_formed() by {
            if k < style.media.len() {
                assert(merged.media[k] == style.media[k]);
            } else {
                assert(merged.media[k] == other.media[k - style.media.len()]);
            }
        }
    }
}

/// After a property has been set it has the value that was set, and every other
/// property under every selector has the value that it had.
pub proof fn lemma_upsert_block_sets_value(
    blocks: Seq<Block>,
    selector: Seq<char>,
    property: Seq<char>,
    value: Seq<char>,
    other_selector: Seq<char>,
    other_property: Seq<char>,
)
    ensures
        declared_value(
            upsert_block(blocks, selector, property, value),
            other_selector,
            other_property,
        ) == if other_selector == selector && other_property == property {
            Some(value)
        } else {
            declared_value(blocks, other_selector, other_property)
        },
{
    let keys = selectors(blocks);
    let at = first_index(keys, selector);
    let after = upsert_block(blocks, selector, property, value);
    let found = first_index(keys, other_selector);
    lemma_first_index(keys, selector);
    lemma_first_index(keys, other_selector);
    if at < blocks.len() {
        assert(selectors(after) =~= keys);
        let declarations = blocks[at].1;
        let names = properties(declarations);
        let slot = first_index(names, property);
        let set = upsert_declaration(declarations, property, value);
        lemma_first_index(names, property);
        lemma_first_index(names, other_property);
        if found == at {
            assert(other_selector == selector);
            if slot < declarations.len() {
                assert(properties(set) =~= names);
            } else {
                assert(properties(set) =~= names.push(property));
                let other_slot = first_index(names, other_property);
                if other_property == property {
                    lemma_first_index_is(properties(set), other_property, names.len() as int);
                } else if other_slot < names.len() {
                    lemma_first_index_is(properties(set), other_property, other_slot);
                } else {
                    lemma_first_index_is(properties(set), other_property, names.len() as int + 1);
                }
            }
        }
    } else {
        let n = blocks.len() as int;
        assert(selectors(after) =~= keys.push(selector));
        if other_selector == selector {
            lemma_first_index_is(selectors(after), other_selector, n);
            assert(properties(seq![(property, value)]) =~= seq![property]);
            if other_property == property {
                lemma_first_index_is(seq![property], other_property, 0);
            } else {
                lemma_first_index_is(seq![property], other_property, 1);
            }
        } else if found < n {
            lemma_first_index_is(selectors(after), other_selector, found);
        } else {
            lemma_first_index_is(selectors(after), other_selector, n + 1);
        }
    }
}

/// After declarations have been set under a selector, each of their properties
/// has the value of its last declaration among them, and every other property
/// under every selector has the value that it had.
pub proof fn lemma_upsert_declarations_set_values(
    blocks: Seq<Block>,
    selector: Seq<char>,
    declarations: Seq<Declaration>,
    other_selector: Seq<char>,
    other_property: Seq<char>,
)
    requires
        properties(declarations).no_duplicates(),
    ensures
        declared_value(
            upsert_declarations(blocks, selector, declarations),
            other_selector,
            other_property,
        ) == if other_selector == selector && properties(declarations).contains(other_property) {
            Some(declarations[first_index(properties(declarations), other_property)].1)
        } else {
            declared_value(blocks, other_selector, other_property)
        },
    decreases declarations.len(),
{
    let names = properties(declarations);
    lemma_first_index(names, other_property);
    if declarations.len() == 0 {
    } else {
        let earlier = declarations.drop_last();
        let last = declarations.last();
        let n = earlier.len() as int;
        assert(properties(earlier) =~= names.drop_last());
        assert(names[n] == last.0);
        lemma_first_index(properties(earlier), other_property);
        lemma_upsert_declarations_set_values(
            blocks,
            selector,
            earlier,
            other_selector,
            other_property,
        );
        lemma_upsert_block_sets_value(
            upsert_declarations(blocks, selector, earlier),
            selector,
            last.0,
            last.1,
            other_selector,
            other_property,
        );
        if other_selector == selector {
            if other_property == last.0 {
                assert(names.contains(other_property));
                assert forall|j: int| 0 <= j < n implies names[j] != other_property by {}
                lemma_first_index_is(names, other_property, n);
            } else if properties(earlier).contains(other_property) {
                let at = first_index(properties(earlier), other_property);
                assert(names[at] == other_property);
                assert(names.contains(other_property));
                assert forall|j: int| 0 <= j < at implies names[j] != other_property by {
                    assert(properties(earlier)[j] != other_property);
                }
                lemma_first_index_is(names, other_property, at);
            } else {
                if names.contains(other_property) {
                    let j = choose|j: int| 0 <= j < names.len() && names[j] == other_property;
                    assert(properties(earlier)[j] == other_property);
                }
            }
        }
    }
}

/// In a merge the merged blocks win: a property that they declare under a
/// selector has their value afterwards, and every other property has the value
/// that it had.
pub proof fn lemma_merged_blocks_win(
    blocks: Seq<Block>,
    others: Seq<Block>,
    selector: Seq<char>,
    property: Seq<char>,
)
    requires
        blocks_well_formed(others),
    ensures
        declared_value(upsert_blocks(blocks, others), selector, property) == match declared_value(
            others,
            selector,
            property,
        ) {
            Some(value) => Some(value),
            None => declared_value(blocks, selector, property),
        },
    decreases others.len(),
{
    let keys = selectors(others);
    lemma_first_index(keys, selector);
    if others.len() == 0 {
    } else {
        let earlier = others.drop_last();
        let last = others.last();
        let n = earlier.len() as int;
        assert(selectors(earlier) =~= keys.drop_last());
        assert(keys[n] == last.0);
        assert forall|i: int| 0 <= i < earlier.len() implies properties(
            (#[trigger] earlier[i]).1,
        ).no_duplicates() by {
            assert(earlier[i] == others[i]);
        }
        lemma_first_index(selectors(earlier), selector);
        lemma_merged_blocks_win(blocks, earlier, selector, property);
        lemma_upsert_declarations_set_values(
            upsert_blocks(blocks, earlier),
            last.0,
            last.1,
            selector,
            property,
        );
        lemma_first_index(properties(last.1), property);
        let found = first_index(selectors(earlier), selector);
        if selector == last.0 {
            assert forall|j: int| 0 <= j < n implies keys[j] != selector by {}
            lemma_first_index_is(keys, selector, n);
            assert forall|j: int| 0 <= j < n implies selectors(earlier)[j] != selector by {
                assert(keys[j] != selector);
            }
            lemma_first_index_is(selectors(earlier), selector, n);
            if !properties(last.1).contains(property) {
                let slot = first_index(properties(last.1), property);
                if slot < last.1.len() {
                    assert(properties(last.1)[slot] == property);
                }
            }
        } else {
            if found < n {
                assert(keys[found] == selector);
                assert forall|j: int| 0 <= j < found implies keys[j] != selector by {
                    assert(selectors(earlier)[j] != selector);
                }
                lemma_first_index_is(keys, selector, found);
                assert(others[found] == earlier[found]);
            } else {
                assert forall|j: int| 0 <= j < keys.len() implies keys[j] != selector by {
                    if j < n {
                        assert(selectors(earlier)[j] != selector);
                    }
                }
                lemma_first_index_is(keys, selector, keys.len() as int);
            }
        }
    }
}

/// Setting a property twice is setting it once to the second value: the
/// declaration stands where the first call put or found it.
pub proof fn lemma_last_value_wins(
    style: StyleModel,
    selector: Seq<char>,
    property: Seq<char>,
    first: Seq<char>,
    second: Seq<char>,
)
    ensures
        style.with_declaration(selector, property, first).with_declaration(
            selector,
            property,
            second,
        ) == style.with_declaration(selector, property, second),
{
    let blocks = style.blocks;
    let at = first_index(selectors(blocks), selector);
    lemma_first_index(selectors(blocks), selector);
    let once = upsert_block(blocks, selector, property, first);
    assert(first_index(selectors(once), selector) == at) by {
        assert forall|j: int| 0 <= j < at implies selectors(once)[j] != selector by {
            assert(selectors(blocks)[j] != selector);
        }
        lemma_first_index_is(selectors(once), selector, at);
    }
    let declarations = if at < blocks.len() {
        blocks[at].1
    } else {
        Seq::empty()
    };
    let slot = first_index(properties(declarations), property);
    lemma_first_index(properties(declarations), property);
    let set_once = once[at].1;
    assert(set_once =~= upsert_declaration(declarations, property, first));
    assert(first_index(properties(set_once), property) == slot) by {
        assert forall|j: int| 0 <= j < slot implies properties(set_once)[j] != property by {
            assert(properties(declarations)[j] != property);
        }
        lemma_first_index_is(properties(set_once), property, slot);
    }
    assert(upsert_declaration(set_once, property, second) =~= upsert_declaration(
        declarations,
        property,
        second,
    ));
    assert(upsert_block(once, selector, property, second) =~= upsert_block(
        blocks,
        selector,
        property,
        second,
    ));
}

/// Setting a property twice in the empty style leaves one block for the
/// selector, with that one property, which has the second value.
pub proof fn lemma_set_twice_in_empty_style(
    selector: Seq<char>,
    property: Seq<char>,
    first: Seq<char>,
    second: Seq<char>,
)
    ensures
        StyleModel::empty().with_declaration(selector, property, first).with_declaration(
            selector,
            property,
            second,
        ) == (StyleModel { blocks: seq![(selector, seq![(property, second)])], media: Seq::empty() }),
{
    lemma_last_value_wins(StyleModel::empty(), selector, property, first, second);
    assert(selectors(Seq::<Block>::empty()) =~= Seq::<Seq<char>>::empty());
    assert(upsert_block(Seq::<Block>::empty(), selector, property, second) =~= seq![
        (selector, seq![(property, second)]),
    ]);
}

/// One call by which a style is built.
pub ghost enum BuildStep {
    /// A declaration is set.
    Declaration { selector: Seq<char>, property: Seq<char>, value: Seq<char> },
    /// A media block is added.
    Media { query: Seq<char>, style: StyleModel },
}

/// The style built from the empty style by the given calls, the first one first.
pub open spec fn built(steps: Seq<BuildStep>) -> StyleModel
    decreases steps.len(),
{
    if steps.len() == 0 {
        StyleModel::empty()
    } else {
        match steps.last() {
            BuildStep::Declaration { selector, property, value } => built(
                steps.drop_last(),
            ).with_declaration(selector, property, value),
            BuildStep::Media { query, style } => built(steps.drop_last()).with_media(query, style),
        }
    }
}

/// Two styles built by the same calls are equal: `==` finds them so.
pub proof fn lemma_same_calls_build_equal_styles(a: Style, b: Style, steps: Seq<BuildStep>)
    requires
        a@ == built(steps),
        b@ == built(steps),
    ensures
        a@ == b@,
        a.eq_spec(&b),
{
}

/// The order in which two new selectors are first declared shows in the style:
/// the two orders give different styles.
pub proof fn lemma_order_of_new_blocks_matters(
    style: StyleModel,
    selector: Seq<char>,
    property: Seq<char>,
    value: Seq<char>,
    other_selector: Seq<char>,
    other_property: Seq<char>,
    other_value: Seq<char>,
)
    requires
        selector != other_selector,
        !selectors(style.blocks).contains(selector),
        !selectors(style.blocks).contains(other_selector),
    ensures
        style.with_declaration(selector, property, value).with_declaration(
            other_selector,
            other_property,
            other_value,
        ) != style.with_declaration(other_selector, other_property, other_value).with_declaration(
            selector,
            property,
            value,
        ),
{
    let n = style.blocks.len() as int;
    let keys = selectors(style.blocks);
    assert forall|j: int| 0 <= j < n implies keys[j] != selector && keys[j] != other_selector by {
        assert(keys.contains(keys[j]));
    }
    lemma_first_index_is(keys, selector, n);
    lemma_first_index_is(keys, other_selector, n);
    let one = upsert_block(style.blocks, selector, property, value);
    let two = upsert_block(style.blocks, other_selector, other_property, other_value);
    lemma_first_index(selectors(one), other_selector);
    lemma_first_index(selectors(two), selector);
    let one_two = upsert_block(one, other_selector, other_property, other_value);
    let two_one = upsert_block(two, selector, property, value);
    assert(selectors(one)[n] == selector);
    assert(selectors(two)[n] == other_selector);
    assert(one_two[n].0 == selector);
    assert(two_one[n].0 == other_selector);
}

/// The order in which two media blocks with different conditions are added
/// shows in the style: the two orders give different styles.
pub proof fn lemma_order_of_media_blocks_matters(
    style: StyleModel,
    query: Seq<char>,
    nested: StyleModel,
    other_query: Seq<char>,
    other_nested: StyleModel,
)
    requires
        query != other_query,
    ensures
        style.with_media(query, nested).with_media(other_query, other_nested) != style.with_media(
            other_query,
            other_nested,
        ).with_media(query, nested),
{
    let n = style.media.len() as int;
    let one = style.with_media(query, nested).with_media(other_query, other_nested);
    let two = style.with_media(other_query, other_nested).with_media(query, nested);
    assert(one.media[n].0 == query);
    assert(two.media[n].0 == other_query);
}

/// Declarations set under a selector that the blocks do not hold make one new
/// block at the end, where no property stands twice among them.
pub proof fn lemma_upsert_new_block(
    blocks: Seq<Block>,
    selector: Seq<char>,
    declarations: Seq<Declaration>,
)
    requires
        !selectors(blocks).contains(selector),
        properties(declarations).no_duplicates(),
        declarations.len() > 0,
    ensures
        upsert_declarations(blocks, selector, declarations) == blocks.push((selector, declarations)),
    decreases declarations.len(),
{
    let n = blocks.len() as int;
    let keys = selectors(blocks);
    let last = declarations.last();
    assert forall|j: int| 0 <= j < n implies keys[j] != selector by {
        assert(keys.contains(keys[j]));
    }
    if declarations.len() == 1 {
        assert(declarations.drop_last() =~= Seq::<Declaration>::empty());
        assert(upsert_declarations(blocks, selector, declarations.drop_last()) == blocks);
        lemma_first_index_is(keys, selector, n);
        assert(declarations =~= seq![(last.0, last.1)]);
    } else {
        let earlier = declarations.drop_last();
        assert(properties(earlier) =~= properties(declarations).drop_last());
        lemma_upsert_new_block(blocks, selector, earlier);
        let grown = blocks.push((selector, earlier));
        assert forall|j: int| 0 <= j < n implies selectors(grown)[j] != selector by {
            assert(selectors(grown)[j] == keys[j]);
        }
        lemma_first_index_is(selectors(grown), selector, n);
        assert forall|j: int| 0 <= j < earlier.len() implies properties(earlier)[j] != last.0 by {
            assert(properties(declarations)[j] == properties(earlier)[j]);
            assert(properties(declarations)[declarations.len() - 1] == last.0);
        }
        lemma_first_index_is(properties(earlier), last.0, earlier.len() as int);
        assert(earlier.push((last.0, last.1)) =~= declarations);
        assert(upsert_block(grown, selector, last.0, last.1) =~= blocks.push(
            (selector, declarations),
        ));
    }
}

/// Merging blocks whose selectors are new, each with at least one declaration,
/// puts them at the end as they are.
pub proof fn lemma_upsert_new_blocks(blocks: Seq<Block>, others: Seq<Block>)
    requires
        blocks_well_formed(others),
        forall|i: int| 0 <= i < others.len() ==> (#[trigger] others[i]).1.len() > 0,
        forall|i: int| 0 <= i < others.len() ==> !selectors(blocks).contains(
            (#[trigger] others[i]).0,
        ),
    ensures
        upsert_blocks(blocks, others) == blocks + others,
    decreases others.len(),
{
    if others.len() == 0 {
        assert(blocks + others =~= blocks);
    } else {
        let earlier = others.drop_last();
        let last = others.last();
        assert(selectors(earlier) =~= selectors(others).drop_last());
        assert forall|i: int| 0 <= i < earlier.len() implies properties(
            (#[trigger] earlier[i]).1,
        ).no_duplicates() by {
            assert(earlier[i] == others[i]);
        }
        assert forall|i: int| 0 <= i < earlier.len() implies (#[trigger] earlier[i]).1.len()
            > 0 by {
            assert(earlier[i] == others[i]);
        }
        assert forall|i: int| 0 <= i < earlier.len() implies !selectors(blocks).contains(
            (#[trigger] earlier[i]).0,
        ) by {
            assert(earlier[i] == others[i]);
        }
        lemma_upsert_new_blocks(blocks, earlier);
        let grown = blocks + earlier;
        assert(!selectors(grown).contains(last.0)) by {
            if selectors(grown).contains(last.0) {
                let j = choose|j: int| 0 <= j < grown.len() && selectors(grown)[j] == last.0;
                if j < blocks.len() {
                    assert(selectors(blocks)[j] == last.0);
                    assert(selectors(blocks).contains(last.0));
                } else {
                    let i = j - blocks.len();
                    assert(selectors(others)[i] == last.0);
                    assert(selectors(others)[others.len() - 1] == last.0);
                }
            }
        }
        lemma_upsert_new_block(grown, last.0, last.1);
        assert(grown.push((last.0, last.1)) =~= blocks + others);
    }
}

/// The text form and the CSS text of a style whose blocks and media blocks are
/// those of `first` followed by those of `second`: the blocks of `first`, the
/// blocks of `second`, the media blocks of `first`, the media blocks of
/// `second`.
pub proof fn lemma_text_of_joined_styles(first: StyleModel, second: StyleModel, prefix: Seq<char>)
    ensures
        ({
            let joined = StyleModel {
                blocks: first.blocks + second.blocks,
                media: first.media + second.media,
            };
            &&& debug_text(joined) == debug_text(first.declarations_only()) + debug_text(
                second.declarations_only(),
            ) + debug_text(first.media_only()) + debug_text(second.media_only())
            &&& rendered(joined, prefix) == rendered(first.declarations_only(), prefix) + rendered(
                second.declarations_only(),
                prefix,
            ) + rendered(first.media_only(), prefix) + rendered(second.media_only(), prefix)
        }),
{
    let joined = StyleModel {
        blocks: first.blocks + second.blocks,
        media: first.media + second.media,
    };
    let a = debug_sections(first.declarations_only());
    let b = debug_sections(second.declarations_only());
    let c = debug_sections(first.media_only());
    let d = debug_sections(second.media_only());
    assert(debug_sections(joined) =~= a + b + c + d);
    lemma_flatten_concat(a + b + c, d);
    lemma_flatten_concat(a + b, c);
    lemma_flatten_concat(a, b);
    let e = rule_texts(first.declarations_only(), prefix);
    let f = rule_texts(second.declarations_only(), prefix);
    let g = rule_texts(first.media_only(), prefix);
    let h = rule_texts(second.media_only(), prefix);
    assert(rule_texts(joined, prefix) =~= e + f + g + h);
    lemma_flatten_concat(e + f + g, h);
    lemma_flatten_concat(e + f, g);
    lemma_flatten_concat(e, f);
}

/// Merging a style whose selectors are new to this one puts its blocks after
/// this style's blocks and its media blocks after this style's media blocks, so
/// that the text form and the CSS text are those of the parts in that order.
///
/// The merged style must be well formed in its blocks, and each of its blocks
/// must hold a declaration: a block without one leaves no trace in a merge.
pub proof fn lemma_merge_of_disjoint_styles(style: StyleModel, other: StyleModel, prefix: Seq<char>)
    requires
        blocks_well_formed(other.blocks),
        forall|i: int| 0 <= i < other.blocks.len() ==> (#[trigger] other.blocks[i]).1.len() > 0,
        forall|i: int|
            0 <= i < other.blocks.len() ==> !selectors(style.blocks).contains(
                (#[trigger] other.blocks[i]).0,
            ),
    ensures
        style.merged(other) == (StyleModel {
            blocks: style.blocks + other.blocks,
            media: style.media + other.media,
        }),
        debug_text(style.merged(other)) == debug_text(style.declarations_only()) + debug_text(
            other.declarations_only(),
        ) + debug_text(style.media_only()) + debug_text(other.media_only()),
        rendered(style.merged(other), prefix) == rendered(style.declarations_only(), prefix)
            + rendered(other.declarations_only(), prefix) + rendered(style.media_only(), prefix)
            + rendered(other.media_only(), prefix),
{
    lemma_upsert_new_blocks(style.blocks, other.blocks);
    lemma_text_of_joined_styles(style, other, prefix);
}

/// A media block renders as one rule after the rules that the style had: the
/// condition, and in braces the nested style rendered under the same prefix.
pub proof fn lemma_media_block_renders_nested(
    style: StyleModel,
    query: Seq<char>,
    nested: StyleModel,
    prefix: Seq<char>,
)
    ensures
        rule_texts(style.with_media(query, nested), prefix) == rule_texts(style, prefix).push(
            media_rule_text(query, rule_texts(nested, prefix)),
        ),
        rendered(style.with_media(query, nested), prefix) == rendered(style, prefix) + ("@media "@
            + query + "{"@ + rendered(nested, prefix) + "}"@),
{
    let rule = media_rule_text(query, rule_texts(nested, prefix));
    assert(rule_texts(style.with_media(query, nested), prefix) =~= rule_texts(style, prefix).push(
        rule,
    ));
    rule_texts(style, prefix).lemma_flatten_push(rule);
}

} // verus!
