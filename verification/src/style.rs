//! The style tree: declaration blocks and nested media blocks.

use crate::laws::lemma_building_keeps_well_formed;
use crate::text::{first_index, lemma_deep_view_push, lemma_first_index, lemma_first_index_is};
use vstd::prelude::*;
use vstd::string::StringExecFns;

verus! {

/// A property name and its value.
pub type Declaration = (Seq<char>, Seq<char>);

/// A selector and its declarations, in the order in which they were added.
pub type Block = (Seq<char>, Seq<Declaration>);

/// What a [`Style`] holds: its declaration blocks and its media blocks, each in
/// insertion order. A media block is a condition and a nested style.
pub ghost struct StyleModel {
    pub blocks: Seq<Block>,
    pub media: Seq<(Seq<char>, StyleModel)>,
}

/// The selectors of a list of blocks, in order.
pub open spec fn selectors(blocks: Seq<Block>) -> Seq<Seq<char>> {
    blocks.map_values(|b: Block| b.0)
}

/// The property names of a list of declarations, in order.
pub open spec fn properties(declarations: Seq<Declaration>) -> Seq<Seq<char>> {
    declarations.map_values(|d: Declaration| d.0)
}

/// The declarations after `property` has been set to `value`: the first
/// declaration of that property keeps its place and takes the value; where there
/// is none, a new declaration is put at the end.
pub open spec fn upsert_declaration(
    declarations: Seq<Declaration>,
    property: Seq<char>,
    value: Seq<char>,
) -> Seq<Declaration> {
    let at = first_index(properties(declarations), property);
    if 0 <= at < declarations.len() {
        declarations.update(at, (property, value))
    } else {
        declarations.push((property, value))
    }
}

/// The blocks after `property` has been set to `value` under `selector`: the
/// first block of that selector keeps its place and takes the declaration;
/// where there is none, a new block with that one declaration is put at the end.
pub open spec fn upsert_block(
    blocks: Seq<Block>,
    selector: Seq<char>,
    property: Seq<char>,
    value: Seq<char>,
) -> Seq<Block> {
    let at = first_index(selectors(blocks), selector);
    if 0 <= at < blocks.len() {
        blocks.update(at, (selector, upsert_declaration(blocks[at].1, property, value)))
    } else {
        blocks.push((selector, seq![(property, value)]))
    }
}

/// The blocks after each of `declarations` has been set under `selector`, the
/// first one first.
pub open spec fn upsert_declarations(
    blocks: Seq<Block>,
    selector: Seq<char>,
    declarations: Seq<Declaration>,
) -> Seq<Block>
    decreases declarations.len(),
{
    if declarations.len() == 0 {
        blocks
    } else {
        upsert_block(
            upsert_declarations(blocks, selector, declarations.drop_last()),
            selector,
            declarations.last().0,
            declarations.last().1,
        )
    }
}

/// The blocks after every declaration of `others` has been set, block by block
/// and in order.
pub open spec fn upsert_blocks(blocks: Seq<Block>, others: Seq<Block>) -> Seq<Block>
    decreases others.len(),
{
    if others.len() == 0 {
        blocks
    } else {
        upsert_declarations(
            upsert_blocks(blocks, others.drop_last()),
            others.last().0,
            others.last().1,
        )
    }
}

/// The value that the blocks declare for `property` under `selector`: that of
/// the first declaration of the property in the first block of the selector.
pub open spec fn declared_value(
    blocks: Seq<Block>,
    selector: Seq<char>,
    property: Seq<char>,
) -> Option<Seq<char>> {
    let at = first_index(selectors(blocks), selector);
    if 0 <= at < blocks.len() {
        let slot = first_index(properties(blocks[at].1), property);
        if 0 <= slot < blocks[at].1.len() {
            Some(blocks[at].1[slot].1)
        } else {
            None
        }
    } else {
        None
    }
}

impl StyleModel {
    /// The style that holds nothing.
    pub open spec fn empty() -> StyleModel {
        StyleModel { blocks: Seq::empty(), media: Seq::empty() }
    }

    /// This style after `property` has been set to `value` under `selector`.
    pub open spec fn with_declaration(
        self,
        selector: Seq<char>,
        property: Seq<char>,
        value: Seq<char>,
    ) -> StyleModel {
        StyleModel { blocks: upsert_block(self.blocks, selector, property, value), media: self.media }
    }

    /// This style with one more media block at the end.
    pub open spec fn with_media(self, query: Seq<char>, style: StyleModel) -> StyleModel {
        StyleModel { blocks: self.blocks, media: self.media.push((query, style)) }
    }

    /// This style after `other` has been merged into it: every declaration of
    /// `other` is set in this style, in order, and the media blocks of `other`
    /// follow those of this style.
    pub open spec fn merged(self, other: StyleModel) -> StyleModel {
        StyleModel {
            blocks: upsert_blocks(self.blocks, other.blocks),
            media: self.media + other.media,
        }
    }

    /// The declaration blocks of this style, without its media blocks.
    pub open spec fn declarations_only(self) -> StyleModel {
        StyleModel { blocks: self.blocks, media: Seq::empty() }
    }

    /// The media blocks of this style, without its declaration blocks.
    pub open spec fn media_only(self) -> StyleModel {
        StyleModel { blocks: Seq::empty(), media: self.media }
    }

    /// No selector stands twice among the blocks, no property stands twice in a
    /// block, and the same holds of every nested style.
    pub open spec fn well_formed(self) -> bool
        decreases self,
    {
        &&& blocks_well_formed(self.blocks)
        &&& forall|k: int|
            0 <= k < self.media.len() ==> (#[trigger] self.media[k]).1.well_formed()
    }
}

/// No selector stands twice among the blocks, and no property stands twice in a
/// block.
pub open spec fn blocks_well_formed(blocks: Seq<Block>) -> bool {
    &&& selectors(blocks).no_duplicates()
    &&& forall|i: int|
        0 <= i < blocks.len() ==> properties((#[trigger] blocks[i]).1).no_duplicates()
}

/// A set of CSS declaration blocks together with nested media blocks.
pub struct Style {
    style: Vec<(String, Vec<(String, String)>)>,
    media: Vec<(String, Style)>,
}

/// The model of a style: the model of its blocks and, recursively, of its media
/// blocks.
spec fn model_of(style: Style) -> StyleModel
    decreases style,
{
    StyleModel {
        blocks: style.style.deep_view(),
        media: Seq::new(
            style.media.len() as nat,
            |k: int|
                if 0 <= k < style.media.len() {
                    (style.media[k].0@, model_of(style.media[k].1))
                } else {
                    arbitrary()
                },
        ),
    }
}

impl View for Style {
    type V = StyleModel;

    closed spec fn view(&self) -> StyleModel {
        model_of(*self)
    }
}

/// The models of a list of media blocks.
pub open spec fn media_models(media: Seq<(String, Style)>) -> Seq<(Seq<char>, StyleModel)> {
    Seq::new(media.len(), |k: int| (media[k].0@, media[k].1@))
}

/// The position of the first block under `selector`, or the number of blocks
/// where there is none.
fn find_block(blocks: &Vec<(String, Vec<(String, String)>)>, selector: &String) -> (at: usize)
    ensures
        at == first_index(selectors(blocks.deep_view()), selector@),
{
    let mut i: usize = 0;
    while i < blocks.len()
        invariant
            i <= blocks.len(),
            forall|j: int| 0 <= j < i ==> selectors(blocks.deep_view())[j] != selector@,
        decreases blocks.len() - i,
    {
        if blocks[i].0 == *selector {
            proof {
                lemma_first_index_is(selectors(blocks.deep_view()), selector@, i as int);
            }
            return i;
        }
        i += 1;
    }
    proof {
        lemma_first_index_is(selectors(blocks.deep_view()), selector@, i as int);
    }
    i
}

/// The position of the first declaration of `property`, or the number of
/// declarations where there is none.
fn find_declaration(declarations: &Vec<(String, String)>, property: &String) -> (at: usize)
    ensures
        at == first_index(properties(declarations.deep_view()), property@),
{
    let mut i: usize = 0;
    while i < declarations.len()
        invariant
            i <= declarations.len(),
            forall|j: int| 0 <= j < i ==> properties(declarations.deep_view())[j] != property@,
        decreases declarations.len() - i,
    {
        if declarations[i].0 == *property {
            proof {
                lemma_first_index_is(properties(declarations.deep_view()), property@, i as int);
            }
            return i;
        }
        i += 1;
    }
    proof {
        lemma_first_index_is(properties(declarations.deep_view()), property@, i as int);
    }
    i
}

/// Whether no property stands twice among the declarations.
fn distinct_properties(declarations: &Vec<(String, String)>) -> (distinct: bool)
    ensures
        distinct == properties(declarations.deep_view()).no_duplicates(),
{
    let ghost keys = properties(declarations.deep_view());
    let mut i: usize = 0;
    while i < declarations.len()
        invariant
            i <= declarations.len(),
            keys == properties(declarations.deep_view()),
            forall|j: int| 0 <= j < i ==> first_index(keys, #[trigger] keys[j]) == j,
        decreases declarations.len() - i,
    {
        let at = find_declaration(declarations, &declarations[i].0);
        proof {
            lemma_first_index(keys, keys[i as int]);
        }
        if at != i {
            return false;
        }
        i += 1;
    }
    true
}

/// Whether no selector stands twice among the blocks and no property stands
/// twice in a block.
fn distinct_blocks(blocks: &Vec<(String, Vec<(String, String)>)>) -> (distinct: bool)
    ensures
        distinct == blocks_well_formed(blocks.deep_view()),
{
    let ghost keys = selectors(blocks.deep_view());
    let mut i: usize = 0;
    while i < blocks.len()
        invariant
            i <= blocks.len(),
            keys == selectors(blocks.deep_view()),
            forall|j: int| 0 <= j < i ==> first_index(keys, #[trigger] keys[j]) == j,
            forall|j: int|
                0 <= j < i ==> properties((#[trigger] blocks.deep_view()[j]).1).no_duplicates(),
        decreases blocks.len() - i,
    {
        let at = find_block(blocks, &blocks[i].0);
        proof {
            lemma_first_index(keys, keys[i as int]);
        }
        if at != i {
            return false;
        }
        if !distinct_properties(&blocks[i].1) {
            return false;
        }
        i += 1;
    }
    true
}

/// A copy of the declarations.
fn clone_declarations(declarations: &Vec<(String, String)>) -> (copy: Vec<(String, String)>)
    ensures
        copy.deep_view() == declarations.deep_view(),
{
    let mut copy: Vec<(String, String)> = Vec::new();
    let mut i: usize = 0;
    assert(copy.deep_view() =~= declarations.deep_view().take(0));
    while i < declarations.len()
        invariant
            i <= declarations.len(),
            copy.deep_view() == declarations.deep_view().take(i as int),
        decreases declarations.len() - i,
    {
        let ghost before = copy;
        let entry = (declarations[i].0.clone(), declarations[i].1.clone());
        copy.push(entry);
        proof {
            lemma_deep_view_push(before, copy, entry);
            assert(copy.deep_view() =~= declarations.deep_view().take(i + 1));
        }
        i += 1;
    }
    assert(declarations.deep_view().take(declarations.len() as int) =~= declarations.deep_view());
    copy
}

/// A copy of the blocks.
fn clone_blocks(blocks: &Vec<(String, Vec<(String, String)>)>) -> (copy: Vec<
    (String, Vec<(String, String)>),
>)
    ensures
        copy.deep_view() == blocks.deep_view(),
{
    let mut copy: Vec<(String, Vec<(String, String)>)> = Vec::new();
    let mut i: usize = 0;
    assert(copy.deep_view() =~= blocks.deep_view().take(0));
    while i < blocks.len()
        invariant
            i <= blocks.len(),
            copy.deep_view() == blocks.deep_view().take(i as int),
        decreases blocks.len() - i,
    {
        let ghost before = copy;
        let entry = (blocks[i].0.clone(), clone_declarations(&blocks[i].1));
        copy.push(entry);
        proof {
            lemma_deep_view_push(before, copy, entry);
            assert(copy.deep_view() =~= blocks.deep_view().take(i + 1));
        }
        i += 1;
    }
    assert(blocks.deep_view().take(blocks.len() as int) =~= blocks.deep_view());
    copy
}

impl Clone for Style {
    /// A copy that holds what this style holds, nested styles included.
    fn clone(&self) -> (copy: Style)
        ensures
            copy@ == self@,
        decreases self,
    {
        let style = clone_blocks(&self.style);
        let mut media: Vec<(String, Style)> = Vec::new();
        let mut k: usize = 0;
        while k < self.media.len()
            invariant
                k <= self.media.len(),
                media.len() == k,
                forall|j: int|
                    0 <= j < k ==> (#[trigger] media[j]).0@ == self.media[j].0@ && media[j].1@
                        == self.media[j].1@,
            decreases self.media.len() - k,
        {
            let entry = (self.media[k].0.clone(), self.media[k].1.clone());
            media.push(entry);
            k += 1;
        }
        let copy = Style { style, media };
        assert(copy@.media =~= self@.media);
        copy
    }
}

impl Style {
    /// A style without declarations and without media blocks.
    pub fn new() -> (style: Style)
        ensures
            style@ == StyleModel::empty(),
            style@.well_formed(),
    {
        let style = Style { style: Vec::new(), media: Vec::new() };
        assert(style@.blocks =~= Seq::empty());
        assert(style@.media =~= Seq::empty());
        assert(selectors(style@.blocks) =~= Seq::empty());
        style
    }

    /// The style that holds the given blocks and media blocks, in the given
    /// order.
    ///
    /// `None` is returned where a selector stands twice among the blocks or a
    /// property stands twice in a block: no style holds such blocks.
    pub fn from_parts(
        blocks: Vec<(String, Vec<(String, String)>)>,
        media: Vec<(String, Style)>,
    ) -> (out: Option<Style>)
        ensures
            out is Some <==> blocks_well_formed(blocks.deep_view()),
            out matches Some(style) ==> style@ == (StyleModel {
                blocks: blocks.deep_view(),
                media: media_models(media@),
            }),
            out matches Some(style) ==> (style@.well_formed() <==> forall|k: int|
                0 <= k < media.len() ==> (#[trigger] media[k]).1@.well_formed()),
    {
        if distinct_blocks(&blocks) {
            let style = Style { style: blocks, media };
            proof {
                style.lemma_media();
                let models = media_models(media@);
                if style@.well_formed() {
                    assert forall|k: int| 0 <= k < media.len() implies (
                    #[trigger] media[k]).1@.well_formed() by {
                        assert(models[k].1.well_formed());
                    }
                }
                if forall|k: int| 0 <= k < media.len() ==> (#[trigger] media[k]).1@.well_formed() {
                    assert forall|k: int| 0 <= k < models.len() implies (
                    #[trigger] models[k]).1.well_formed() by {
                        assert(media[k].1@.well_formed());
                    }
                }
            }
            Some(style)
        } else {
            None
        }
    }

    /// Sets `property` to `value` under `selector`.
    ///
    /// Where the selector has a block already, the declaration goes there: a
    /// property that the block holds keeps its place and takes the new value,
    /// another is put at the block's end. Otherwise a new block is put at the
    /// end of the style.
    pub fn add(&mut self, selector: &str, property: &str, value: &str)
        ensures
            final(self)@ == old(self)@.with_declaration(selector@, property@, value@),
            old(self)@.well_formed() ==> final(self)@.well_formed(),
    {
        proof {
            if old(self)@.well_formed() {
                lemma_building_keeps_well_formed(
                    old(self)@,
                    selector@,
                    property@,
                    value@,
                    Seq::empty(),
                    StyleModel::empty(),
                );
            }
        }
        let selector = String::from_str(selector);
        let property = String::from_str(property);
        let value = String::from_str(value);
        let ghost before = old(self).style.deep_view();
        let at = find_block(&self.style, &selector);
        proof {
            lemma_first_index(selectors(before), selector@);
        }
        if at < self.style.len() {
            let ghost block = self.style[at as int].1;
            let ghost declarations = block.deep_view();
            assert(declarations == before[at as int].1);
            assert(selectors(before)[at as int] == selector@);
            let slot = find_declaration(&self.style[at].1, &property);
            proof {
                lemma_first_index(properties(declarations), property@);
            }
            if slot < self.style[at].1.len() {
                assert(properties(declarations)[slot as int] == property@);
                self.style[at].1[slot].1 = value;
                proof {
                    let after = self.style[at as int].1;
                    let goal = declarations.update(slot as int, (property@, value@));
                    assert forall|j: int| 0 <= j < after.len() implies after.deep_view()[j]
                        == goal[j] by {
                        assert(declarations[j] == block@[j].deep_view());
                    }
                    assert(after.deep_view() =~= goal);
                }
            } else {
                self.style[at].1.push((property, value));
                proof {
                    lemma_deep_view_push(block, self.style[at as int].1, (property, value));
                }
            }
            proof {
                let goal = before.update(
                    at as int,
                    (selector@, upsert_declaration(declarations, property@, value@)),
                );
                assert forall|j: int| 0 <= j < self.style.len() implies self.style.deep_view()[j]
                    == goal[j] by {
                    assert(before[j] == old(self).style@[j].deep_view());
                }
                assert(self.style.deep_view() =~= goal);
            }
        } else {
            let mut block: Vec<(String, String)> = Vec::new();
            block.push((property, value));
            assert(block.deep_view() =~= seq![(property@, value@)]);
            self.style.push((selector, block));
            proof {
                lemma_deep_view_push(old(self).style, self.style, (selector, block));
            }
        }
        assert(self@.media =~= old(self)@.media);
    }

    /// Puts a media block at the end of the style: the condition `query` with
    /// the nested `style`. A block with the same condition is not merged with.
    pub fn add_media(&mut self, query: &str, style: Style)
        ensures
            final(self)@ == old(self)@.with_media(query@, style@),
            old(self)@.well_formed() && style@.well_formed() ==> final(self)@.well_formed(),
    {
        proof {
            if old(self)@.well_formed() {
                lemma_building_keeps_well_formed(
                    old(self)@,
                    Seq::empty(),
                    Seq::empty(),
                    Seq::empty(),
                    query@,
                    style@,
                );
            }
        }
        let query = String::from_str(query);
        self.media.push((query, style));
        assert(self@.media =~= old(self)@.media.push((query@, style@)));
    }

    /// Merges `other` into this style.
    ///
    /// Every declaration of `other` is set in this style as by `add`, block by
    /// block and in order, so that `other` wins where both declare a property
    /// under one selector. The media blocks of `other` are copied to the end of
    /// this style's, none merged with another.
    pub fn append(&mut self, other: &Style)
        ensures
            final(self)@ == old(self)@.merged(other@),
            old(self)@.well_formed() && other@.well_formed() ==> final(self)@.well_formed(),
    {
        proof {
            if old(self)@.well_formed() {
                lemma_building_keeps_well_formed(
                    old(self)@,
                    Seq::empty(),
                    Seq::empty(),
                    Seq::empty(),
                    Seq::empty(),
                    other@,
                );
            }
        }
        let ghost start = self@;
        let ghost theirs = other@.blocks;
        assert(other.style.deep_view() == theirs);
        let mut i: usize = 0;
        assert(theirs.take(0) =~= Seq::<Block>::empty());
        while i < other.style.len()
            invariant
                i <= other.style.len(),
                other.style.deep_view() == theirs,
                self@.blocks == upsert_blocks(start.blocks, theirs.take(i as int)),
                self@.media == start.media,
            decreases other.style.len() - i,
        {
            let ghost base = self@.blocks;
            let ghost declarations = theirs[i as int].1;
            assert(theirs[i as int] == (
                other.style[i as int].0@,
                other.style[i as int].1.deep_view(),
            ));
            let mut j: usize = 0;
            assert(declarations.take(0) =~= Seq::<Declaration>::empty());
            while j < other.style[i].1.len()
                invariant
                    i < other.style.len(),
                    j <= other.style[i as int].1.len(),
                    other.style[i as int].1.deep_view() == declarations,
                    self@.blocks == upsert_declarations(
                        base,
                        other.style[i as int].0@,
                        declarations.take(j as int),
                    ),
                    self@.media == start.media,
                decreases other.style[i as int].1.len() - j,
            {
                let entry = &other.style[i].1[j];
                assert(declarations[j as int] == (entry.0@, entry.1@));
                self.add(other.style[i].0.as_str(), entry.0.as_str(), entry.1.as_str());
                proof {
                    assert(declarations.take(j + 1).drop_last() =~= declarations.take(j as int));
                }
                j += 1;
            }
            proof {
                assert(declarations.take(j as int) =~= declarations);
                assert(theirs.take(i + 1).drop_last() =~= theirs.take(i as int));
            }
            i += 1;
        }
        assert(theirs.take(i as int) =~= theirs);
        let mut k: usize = 0;
        proof {
            other.lemma_media();
        }
        assert(start.media + other@.media.take(0) =~= start.media);
        while k < other.media.len()
            invariant
                k <= other.media.len(),
                media_models(other.media@) == other@.media,
                self@.blocks == upsert_blocks(start.blocks, theirs),
                self@.media == start.media + other@.media.take(k as int),
            decreases other.media.len() - k,
        {
            let nested = other.media[k].1.clone();
            self.add_media(other.media[k].0.as_str(), nested);
            proof {
                assert(other@.media[k as int] == (
                    other.media[k as int].0@,
                    other.media[k as int].1@,
                ));
                assert(self@.media =~= start.media + other@.media.take(k + 1));
            }
            k += 1;
        }
        assert(other@.media.take(other.media.len() as int) =~= other@.media);
    }

    /// The declaration blocks, in insertion order.
    pub fn blocks(&self) -> (blocks: &Vec<(String, Vec<(String, String)>)>)
        ensures
            blocks.deep_view() == self@.blocks,
    {
        &self.style
    }

    /// The media blocks, in insertion order.
    pub fn media(&self) -> (media: &Vec<(String, Style)>)
        ensures
            media_models(media@) == self@.media,
    {
        proof {
            self.lemma_media();
        }
        &self.media
    }

    /// The model's media blocks are the models of the media blocks held.
    proof fn lemma_media(&self)
        ensures
            media_models(self.media@) == self@.media,
    {
        assert(media_models(self.media@) =~= self@.media);
    }
}

} // verus!
