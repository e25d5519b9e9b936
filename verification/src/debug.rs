//! The multi-line text form of a style.

use crate::style::{media_models, Block, Declaration, Style, StyleModel};
use crate::text::{indent_text, indented};
use vstd::prelude::*;
use vstd::string::StringExecFns;

verus! {

/// The line of one declaration: set in by four spaces, the property, a colon and
/// a space, the value and a semicolon.
pub open spec fn declaration_line(declaration: Declaration) -> Seq<char> {
    "    "@ + declaration.0 + ": "@ + declaration.1 + ";\n"@
}

/// The lines of a block: the selector with an opening brace, one line for each
/// declaration, and the closing brace.
pub open spec fn block_lines(block: Block) -> Seq<char> {
    block.0 + " {\n"@ + block.1.map_values(|d: Declaration| declaration_line(d)).flatten()
        + "}\n"@
}

/// The lines of a media block: the condition with an opening brace, the lines of
/// the nested style set in by one step, and the closing brace.
pub open spec fn media_lines(query: Seq<char>, nested: Seq<char>) -> Seq<char> {
    "@media "@ + query + " {\n"@ + indented(nested) + "}\n"@
}

/// The sections of the text form: the lines of each block, then the lines of
/// each media block, in insertion order.
pub open spec fn debug_sections(style: StyleModel) -> Seq<Seq<char>>
    decreases style,
{
    style.blocks.map_values(|b: Block| block_lines(b)) + Seq::new(
        style.media.len(),
        |k: int|
            if 0 <= k < style.media.len() {
                media_lines(style.media[k].0, debug_sections(style.media[k].1).flatten())
            } else {
                Seq::empty()
            },
    )
}

/// The text form of a style: its sections, one after the other.
pub open spec fn debug_text(style: StyleModel) -> Seq<char> {
    debug_sections(style).flatten()
}

/// Appends the lines of one block to `out`.
fn write_block(out: &mut String, selector: &str, declarations: &Vec<(String, String)>)
    ensures
        final(out)@ == old(out)@ + block_lines((selector@, declarations.deep_view())),
{
    let ghost lines = declarations.deep_view().map_values(|d: Declaration| declaration_line(d));
    let ghost start = out@ + selector@ + " {\n"@;
    out.append(selector);
    out.append(" {\n");
    let mut i: usize = 0;
    assert(lines.take(0) =~= Seq::<Seq<char>>::empty());
    assert(out@ =~= start + lines.take(0).flatten());
    while i < declarations.len()
        invariant
            i <= declarations.len(),
            lines == declarations.deep_view().map_values(|d: Declaration| declaration_line(d)),
            out@ == start + lines.take(i as int).flatten(),
        decreases declarations.len() - i,
    {
        out.append("    ");
        out.append(declarations[i].0.as_str());
        out.append(": ");
        out.append(declarations[i].1.as_str());
        out.append(";\n");
        proof {
            let line = declaration_line(declarations.deep_view()[i as int]);
            assert(lines.take(i + 1) =~= lines.take(i as int).push(line));
            lines.take(i as int).lemma_flatten_push(line);
            assert(out@ =~= start + lines.take(i + 1).flatten());
        }
        i += 1;
    }
    assert(lines.take(declarations.len() as int) =~= lines);
    out.append("}\n");
    assert(out@ =~= old(out)@ + block_lines((selector@, declarations.deep_view())));
}

impl Style {
    /// The text form of this style, for reading and for comparing snapshots.
    pub fn debug_text(&self) -> (out: String)
        ensures
            out@ == debug_text(self@),
        decreases self@,
    {
        let mut out = String::new();
        let blocks = self.blocks();
        let media = self.media();
        let ghost sections = debug_sections(self@);
        let mut i: usize = 0;
        assert(sections.take(0) =~= Seq::<Seq<char>>::empty());
        while i < blocks.len()
            invariant
                i <= blocks.len(),
                blocks.deep_view() == self@.blocks,
                sections == debug_sections(self@),
                out@ == sections.take(i as int).flatten(),
            decreases blocks.len() - i,
        {
            write_block(&mut out, blocks[i].0.as_str(), &blocks[i].1);
            proof {
                assert(blocks.deep_view()[i as int] == (
                    blocks[i as int].0@,
                    blocks[i as int].1.deep_view(),
                ));
                let text = block_lines(self@.blocks[i as int]);
                assert(sections[i as int] == text);
                assert(sections.take(i + 1) =~= sections.take(i as int).push(text));
                sections.take(i as int).lemma_flatten_push(text);
            }
            i += 1;
        }
        let mut k: usize = 0;
        while k < media.len()
            invariant
                k <= media.len(),
                blocks.deep_view() == self@.blocks,
                media_models(media@) == self@.media,
                sections == debug_sections(self@),
                out@ == sections.take(blocks.len() + k).flatten(),
            decreases media.len() - k,
        {
            assert(self@.media[k as int] == (media[k as int].0@, media[k as int].1@));
            assert(decreases_to!(self@ => self@.media[k as int].1));
            let nested = media[k].1.debug_text();
            let lines = indent_text(nested.as_str());
            let ghost before = out@;
            out.append("@media ");
            out.append(media[k].0.as_str());
            out.append(" {\n");
            out.append(lines.as_str());
            out.append("}\n");
            proof {
                let at = blocks.len() + k;
                let text = media_lines(media[k as int].0@, nested@);
                assert(sections[at] == text);
                assert(out@ =~= before + text);
                assert(sections.take(at + 1) =~= sections.take(at).push(text));
                sections.take(at).lemma_flatten_push(text);
            }
            k += 1;
        }
        assert(sections.take(blocks.len() + media.len()) =~= sections);
        out
    }
}

} // verus!
