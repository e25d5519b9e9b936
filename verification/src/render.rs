//! Rendering of a style to CSS rule text.

use crate::selector::{scope_selector, scoped_selector};
use crate::style::{Declaration, Style, StyleModel};
use crate::text::lemma_deep_view_push;
use vstd::prelude::*;
use vstd::string::StringExecFns;

verus! {

/// One declaration as CSS: property, colon, value, semicolon.
pub open spec fn declaration_text(declaration: Declaration) -> Seq<char> {
    declaration.0 + ":"@ + declaration.1 + ";"@
}

/// The declarations of a block as CSS, in order.
pub open spec fn declarations_text(declarations: Seq<Declaration>) -> Seq<char> {
    declarations.map_values(|d: Declaration| declaration_text(d)).flatten()
}

/// A rule: the selector as it stands in the sheet, then the declarations in
/// braces.
pub open spec fn rule_text(selector: Seq<char>, declarations: Seq<Declaration>) -> Seq<char> {
    selector + "{"@ + declarations_text(declarations) + "}"@
}

/// A media rule: the condition, then the nested rules in braces.
pub open spec fn media_rule_text(query: Seq<char>, rules: Seq<Seq<char>>) -> Seq<char> {
    "@media "@ + query + "{"@ + rules.flatten() + "}"@
}

/// The rules of a style under `prefix`: one for each declaration block, with
/// its selector scoped, then one for each media block, whose nested rules are
/// scoped by the same prefix.
pub open spec fn rule_texts(style: StyleModel, prefix: Seq<char>) -> Seq<Seq<char>>
    decreases style,
{
    Seq::new(
        style.blocks.len(),
        |i: int| rule_text(scoped_selector(style.blocks[i].0, prefix), style.blocks[i].1),
    ) + Seq::new(
        style.media.len(),
        |k: int|
            if 0 <= k < style.media.len() {
                media_rule_text(style.media[k].0, rule_texts(style.media[k].1, prefix))
            } else {
                Seq::empty()
            },
    )
}

/// The CSS text of a style under `prefix`: its rules, one after the other.
pub open spec fn rendered(style: StyleModel, prefix: Seq<char>) -> Seq<char> {
    rule_texts(style, prefix).flatten()
}

/// Joins the given texts.
pub fn join(texts: &Vec<String>) -> (out: String)
    ensures
        out@ == texts.deep_view().flatten(),
{
    let mut out = String::new();
    let mut i: usize = 0;
    assert(texts.deep_view().take(0) =~= Seq::<Seq<char>>::empty());
    while i < texts.len()
        invariant
            i <= texts.len(),
            out@ == texts.deep_view().take(i as int).flatten(),
        decreases texts.len() - i,
    {
        out.append(texts[i].as_str());
        proof {
            let all = texts.deep_view();
            assert(all.take(i + 1) =~= all.take(i as int).push(texts[i as int]@));
            all.take(i as int).lemma_flatten_push(texts[i as int]@);
        }
        i += 1;
    }
    assert(texts.deep_view().take(texts.len() as int) =~= texts.deep_view());
    out
}

/// The rule for a block whose selector has been scoped already.
pub fn rule_for(selector: &str, declarations: &Vec<(String, String)>) -> (out: String)
    ensures
        out@ == rule_text(selector@, declarations.deep_view()),
{
    let mut body = String::new();
    let mut i: usize = 0;
    let ghost texts = declarations.deep_view().map_values(|d: Declaration| declaration_text(d));
    assert(texts.take(0) =~= Seq::<Seq<char>>::empty());
    while i < declarations.len()
        invariant
            i <= declarations.len(),
            texts == declarations.deep_view().map_values(|d: Declaration| declaration_text(d)),
            body@ == texts.take(i as int).flatten(),
        decreases declarations.len() - i,
    {
        let ghost before = body@;
        body.append(declarations[i].0.as_str());
        body.append(":");
        body.append(declarations[i].1.as_str());
        body.append(";");
        proof {
            let line = declaration_text(declarations.deep_view()[i as int]);
            assert(body@ =~= before + line);
            assert(texts.take(i + 1) =~= texts.take(i as int).push(line));
            texts.take(i as int).lemma_flatten_push(line);
        }
        i += 1;
    }
    assert(texts.take(declarations.len() as int) =~= texts);
    let mut out = String::from_str(selector);
    out.append("{");
    out.append(body.as_str());
    out.append("}");
    out
}

/// The rule for a media block whose nested rules have been rendered already.
pub fn media_rule_for(query: &str, rules: &Vec<String>) -> (out: String)
    ensures
        out@ == media_rule_text(query@, rules.deep_view()),
{
    let body = join(rules);
    let mut out = String::from_str("@media ");
    out.append(query);
    out.append("{");
    out.append(body.as_str());
    out.append("}");
    out
}

impl Style {
    /// The rules of this style, with every class selector scoped by `prefix`:
    /// one rule for each declaration block, then one for each media block.
    pub fn rules(&self, prefix: &str) -> (rules: Vec<String>)
        ensures
            rules.deep_view() == rule_texts(self@, prefix@),
        decreases self@,
    {
        let mut res: Vec<String> = Vec::new();
        let blocks = self.blocks();
        let ghost block_rules = Seq::new(
            self@.blocks.len(),
            |i: int| rule_text(scoped_selector(self@.blocks[i].0, prefix@), self@.blocks[i].1),
        );
        let mut i: usize = 0;
        while i < blocks.len()
            invariant
                i <= blocks.len(),
                blocks.deep_view() == self@.blocks,
                block_rules == Seq::new(
                    self@.blocks.len(),
                    |i: int|
                        rule_text(scoped_selector(self@.blocks[i].0, prefix@), self@.blocks[i].1),
                ),
                res.deep_view() == block_rules.take(i as int),
            decreases blocks.len() - i,
        {
            let scoped = scope_selector(blocks[i].0.as_str(), prefix);
            let rule = rule_for(scoped.as_str(), &blocks[i].1);
            proof {
                assert(blocks.deep_view()[i as int] == (
                    blocks[i as int].0@,
                    blocks[i as int].1.deep_view(),
                ));
                assert(rule@ == block_rules[i as int]);
            }
            let ghost before = res;
            res.push(rule);
            proof {
                lemma_deep_view_push(before, res, rule);
                assert(res.deep_view() =~= block_rules.take(i + 1));
            }
            i += 1;
        }
        assert(block_rules.take(blocks.len() as int) =~= block_rules);
        let media = self.media();
        let ghost media_rules = Seq::new(
            self@.media.len(),
            |k: int|
                if 0 <= k < self@.media.len() {
                    media_rule_text(self@.media[k].0, rule_texts(self@.media[k].1, prefix@))
                } else {
                    Seq::empty()
                },
        );
        let mut k: usize = 0;
        while k < media.len()
            invariant
                k <= media.len(),
                crate::style::media_models(media@) == self@.media,
                media_rules == Seq::new(
                    self@.media.len(),
                    |k: int|
                        if 0 <= k < self@.media.len() {
                            media_rule_text(self@.media[k].0, rule_texts(self@.media[k].1, prefix@))
                        } else {
                            Seq::empty()
                        },
                ),
                res.deep_view() == block_rules + media_rules.take(k as int),
            decreases media.len() - k,
        {
            assert(self@.media[k as int] == (media[k as int].0@, media[k as int].1@));
            assert(decreases_to!(self@ => self@.media[k as int].1));
            let nested = media[k].1.rules(prefix);
            let rule = media_rule_for(media[k].0.as_str(), &nested);
            let ghost before = res;
            res.push(rule);
            proof {
                lemma_deep_view_push(before, res, rule);
                assert(res.deep_view() =~= block_rules + media_rules.take(k + 1));
            }
            k += 1;
        }
        assert(media_rules.take(media.len() as int) =~= media_rules);
        res
    }

    /// The CSS text of this style, with every class selector scoped by `prefix`:
    /// its rules, one after the other.
    pub fn render(&self, prefix: &str) -> (css: String)
        ensures
            css@ == rendered(self@, prefix@),
    {
        let rules = self.rules(prefix);
        join(&rules)
    }
}

} // verus!
