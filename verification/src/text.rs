//! Character sequences: searching and indenting.

use vstd::prelude::*;
use vstd::string::{StrSliceExecFns, StringExecFns};

verus! {

/// The deep view of a vector after a push is the deep view before it with the
/// deep view of the new entry pushed.
pub proof fn lemma_deep_view_push<T: DeepView>(before: Vec<T>, after: Vec<T>, last: T)
    requires
        after@ == before@.push(last),
    ensures
        after.deep_view() == before.deep_view().push(last.deep_view()),
{
    assert forall|j: int| 0 <= j < after.len() implies after.deep_view()[j]
        == before.deep_view().push(last.deep_view())[j] by {
        if j < before.len() {
            assert(before.deep_view()[j] == before@[j].deep_view());
        }
    }
    assert(after.deep_view() =~= before.deep_view().push(last.deep_view()));
}

/// The position of the first entry of `keys` that equals `key`, or `keys.len()`
/// where no entry does.
pub open spec fn first_index<K>(keys: Seq<K>, key: K) -> int
    decreases keys.len(),
{
    if keys.len() == 0 || keys[0] == key {
        0
    } else {
        1 + first_index(keys.drop_first(), key)
    }
}

/// `first_index` points at an entry equal to `key` that no earlier entry equals,
/// or past the end.
pub proof fn lemma_first_index<K>(keys: Seq<K>, key: K)
    ensures
        0 <= first_index(keys, key) <= keys.len(),
        first_index(keys, key) < keys.len() ==> keys[first_index(keys, key)] == key,
        forall|j: int| 0 <= j < first_index(keys, key) ==> keys[j] != key,
    decreases keys.len(),
{
    if keys.len() == 0 || keys[0] == key {
    } else {
        let rest = keys.drop_first();
        lemma_first_index(rest, key);
        assert forall|j: int| 0 <= j < first_index(keys, key) implies keys[j] != key by {
            if j > 0 {
                assert(keys[j] == rest[j - 1]);
            }
        }
    }
}

/// A position that holds the first match, or the length where nothing matches,
/// is what `first_index` gives.
pub proof fn lemma_first_index_is<K>(keys: Seq<K>, key: K, i: int)
    requires
        0 <= i <= keys.len(),
        i < keys.len() ==> keys[i] == key,
        forall|j: int| 0 <= j < i ==> keys[j] != key,
    ensures
        first_index(keys, key) == i,
{
    lemma_first_index(keys, key);
}

/// The text with each of its lines set in by four spaces. A line ends at a line
/// feed or at the end of the text; a line without characters is left out, and
/// every line that stays ends in a line feed.
pub open spec fn indented(text: Seq<char>) -> Seq<char>
    decreases text.len(),
{
    if text.len() == 0 {
        Seq::empty()
    } else {
        let end = first_index(text, '\n');
        let line = if end == 0 {
            Seq::empty()
        } else {
            "    "@ + text.take(end) + "\n"@
        };
        if 0 <= end < text.len() {
            line + indented(text.skip(end + 1))
        } else {
            line
        }
    }
}

/// A line feed after `line`, which holds none, ends the first line of the text.
proof fn lemma_indented_line(line: Seq<char>, rest: Seq<char>)
    requires
        !line.contains('\n'),
        rest.len() > 0,
        rest[0] == '\n',
    ensures
        indented(line + rest) == if line.len() == 0 {
            indented(rest.skip(1))
        } else {
            "    "@ + line + "\n"@ + indented(rest.skip(1))
        },
{
    let text = line + rest;
    assert forall|j: int| 0 <= j < line.len() implies text[j] != '\n' by {
        assert(line.contains(line[j]));
    }
    lemma_first_index_is(text, '\n', line.len() as int);
    assert(text.take(line.len() as int) =~= line);
    assert(text.skip(line.len() as int + 1) =~= rest.skip(1));
    if line.len() == 0 {
        assert(Seq::<char>::empty() + indented(rest.skip(1)) =~= indented(rest.skip(1)));
    }
}

/// A text without a line feed is one line.
proof fn lemma_indented_last_line(line: Seq<char>)
    requires
        !line.contains('\n'),
    ensures
        indented(line) == if line.len() == 0 {
            Seq::<char>::empty()
        } else {
            "    "@ + line + "\n"@
        },
{
    if line.len() > 0 {
        assert forall|j: int| 0 <= j < line.len() implies line[j] != '\n' by {
            assert(line.contains(line[j]));
        }
        lemma_first_index_is(line, '\n', line.len() as int);
        assert(line.take(line.len() as int) =~= line);
    }
}

/// Appends the line that `text` holds from `start` up to `end` to `out`, set in
/// by four spaces and ended by a line feed. A line that holds nothing is left
/// out.
fn write_line(out: &mut String, text: &str, start: usize, end: usize)
    requires
        start <= end <= text@.len(),
    ensures
        final(out)@ == old(out)@ + if start == end {
            Seq::<char>::empty()
        } else {
            "    "@ + text@.subrange(start as int, end as int) + "\n"@
        },
{
    if start < end {
        out.append("    ");
        out.append(text.substring_char(start, end));
        out.append("\n");
        assert(out@ =~= old(out)@ + ("    "@ + text@.subrange(start as int, end as int) + "\n"@));
    } else {
        assert(out@ =~= old(out)@ + Seq::<char>::empty());
    }
}

/// Sets each line of `text` in by four spaces, leaving out the lines that hold
/// nothing.
pub fn indent_text(text: &str) -> (out: String)
    ensures
        out@ == indented(text@),
{
    let length = text.unicode_len();
    let mut out = String::new();
    let mut start: usize = 0;
    let mut at: usize = 0;
    assert(text@.skip(0) =~= text@);
    assert(out@ + indented(text@) =~= indented(text@));
    for c in it: text.chars()
        invariant
            it.seq() == text@,
            length == text@.len(),
            at == it.index(),
            start <= at <= length,
            forall|j: int| start <= j < at ==> text@[j] != '\n',
            indented(text@) == out@ + indented(text@.skip(start as int)),
    {
        if c == '\n' {
            let ghost before = out@;
            let ghost line = text@.subrange(start as int, at as int);
            let ghost rest = text@.skip(at as int);
            proof {
                assert(line + rest =~= text@.skip(start as int));
                assert forall|j: int| 0 <= j < line.len() implies line[j] != '\n' by {
                    assert(line[j] == text@[start + j]);
                }
                lemma_indented_line(line, rest);
                assert(rest.skip(1) =~= text@.skip(at + 1));
            }
            write_line(&mut out, text, start, at);
            proof {
                if start < at {
                    assert(out@ + indented(rest.skip(1)) =~= before + ("    "@ + line + "\n"@
                        + indented(rest.skip(1))));
                } else {
                    assert(out@ =~= before);
                }
            }
            start = at + 1;
        }
        at += 1;
    }
    proof {
        let line = text@.skip(start as int);
        assert(line =~= text@.subrange(start as int, length as int));
        assert forall|j: int| 0 <= j < line.len() implies line[j] != '\n' by {
            assert(line[j] == text@[start + j]);
        }
        lemma_indented_last_line(line);
    }
    let ghost before = out@;
    write_line(&mut out, text, start, length);
    assert(out@ =~= indented(text@)) by {
        if start == length {
            assert(out@ =~= before);
        }
    }
    out
}

} // verus!
