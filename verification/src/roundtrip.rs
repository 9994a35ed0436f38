//! Reading, then writing: a text that is read and written again is the same
//! text, whatever it held.

use crate::ast::{space_char, Consumable, Identifier, LineView, Version, Whitespace};
use crate::grammar::{
    after_first_line, declared_names, first_line, lemma_line_feed_at,
    lemma_run_end, line_feed_at, parse_line_spec, parse_lines, parse_spec, parse_versions,
    run_end, split_lines,
};
use crate::writer::{render, render_versions, serialize};
use vstd::prelude::*;

verus! {

/// One more version is written behind the others.
pub proof fn lemma_render_versions_push(
    versions: Seq<(Seq<char>, Seq<char>)>,
    padding: Seq<char>,
    version: Seq<char>,
)
    ensures
        render_versions(versions.push((padding, version))) == render_versions(versions) + padding
            + version,
{
    assert(versions.push((padding, version)).drop_last() =~= versions);
}

/// The versions of a definition are written back as they stood.
proof fn lemma_versions_lossless(
    line: Seq<char>,
    name: Seq<char>,
    at: int,
    found: Seq<(Seq<char>, Seq<char>)>,
)
    requires
        0 <= at < line.len(),
        space_char(line[at]),
        name + render_versions(found) == line.subrange(0, at),
    ensures
        render(parse_versions(line, name, at, found)) == line,
    decreases line.len() - at,
{
    lemma_run_end::<Whitespace>(line, at);
    let pad_end = run_end::<Whitespace>(line, at);
    let padding = line.subrange(at, pad_end);
    let shape = LineView::ToolDefinition {
        name,
        versions: found,
        whitespace: Some(padding),
        comment: None,
    };
    assert(render(shape) =~= line.subrange(0, pad_end));
    if pad_end < line.len() && line[pad_end] != '#' && Version::accepts(line[pad_end]) {
        lemma_run_end::<Version>(line, pad_end);
        let end = run_end::<Version>(line, pad_end);
        let version = line.subrange(pad_end, end);
        let versions = found.push((padding, version));
        lemma_render_versions_push(found, padding, version);
        assert(name + render_versions(versions) =~= line.subrange(0, end));
        if end < line.len() && line[end] != '#' && space_char(line[end]) {
            lemma_versions_lossless(line, name, end, versions);
        }
    }
}

/// Reading loses nothing: whatever a line of text is read as, it is written
/// back as the same text. Valid or not, declared before or not.
pub proof fn lemma_line_lossless(line: Seq<char>, seen: Set<Seq<char>>)
    ensures
        render(parse_line_spec(line, seen)) == line,
{
    if line.len() == 0 {
        // nothing was read, nothing is written
    } else if line[0] == '#' || space_char(line[0]) {
        lemma_run_end::<Whitespace>(line, 0);
    } else if Identifier::accepts(line[0]) {
        lemma_run_end::<Identifier>(line, 0);
        let end = run_end::<Identifier>(line, 0);
        let name = line.subrange(0, end);
        if end < line.len() && space_char(line[end]) && !seen.contains(name) {
            lemma_versions_lossless(line, name, end, Seq::empty());
        }
    }
}

/// The text that the lines `lines` make: every line followed by one line
/// feed.
pub open spec fn lines_text(lines: Seq<Seq<char>>) -> Seq<char>
    decreases lines.len(),
{
    if lines.len() == 0 {
        Seq::empty()
    } else {
        lines_text(lines.drop_last()) + lines.last() + seq!['\n']
    }
}

/// The lines of a document as they are written, in their order.
pub open spec fn renders(doc: Seq<LineView>) -> Seq<Seq<char>> {
    Seq::new(doc.len(), |i: int| render(doc[i]))
}

/// The text of lines put together is the texts put together.
pub proof fn lemma_lines_text_add(a: Seq<Seq<char>>, b: Seq<Seq<char>>)
    ensures
        lines_text(a + b) == lines_text(a) + lines_text(b),
    decreases b.len(),
{
    if b.len() > 0 {
        lemma_lines_text_add(a, b.drop_last());
        assert((a + b).drop_last() =~= a + b.drop_last());
    }
}

/// A document is written as the lines that its lines are written as.
pub proof fn lemma_serialize_is_lines_text(doc: Seq<LineView>)
    ensures
        serialize(doc) == lines_text(renders(doc)),
    decreases doc.len(),
{
    if doc.len() > 0 {
        lemma_serialize_is_lines_text(doc.drop_last());
        assert(renders(doc).drop_last() =~= renders(doc.drop_last()));
    }
}

/// Lines that are read and written again are the same lines.
pub proof fn lemma_lines_lossless(lines: Seq<Seq<char>>)
    ensures
        renders(parse_lines(lines)) == lines,
{
    assert forall|i: int| 0 <= i < lines.len() implies renders(parse_lines(lines))[i]
        == lines[i] by {
        lemma_line_lossless(lines[i], declared_names(lines.take(i)));
    }
}

/// Reading loses nothing: a text that is read and written again is its
/// lines, each followed by one line feed. Every character of every line is
/// back in its place, whatever the line was read as.
pub proof fn lemma_parse_lossless(text: Seq<char>)
    ensures
        serialize(parse_spec(text)) == lines_text(split_lines(text)),
{
    lemma_serialize_is_lines_text(parse_spec(text));
    lemma_lines_lossless(split_lines(text));
}

/// No line feed of `text` has a carriage return right before it.
pub open spec fn plain_line_ends(text: Seq<char>) -> bool {
    forall|i: int| 0 < i < text.len() && #[trigger] text[i] == '\n' ==> text[i - 1] != '\r'
}

/// `text` with a line feed at its end, where it is not empty and has none
/// there.
pub open spec fn closed_text(text: Seq<char>) -> Seq<char> {
    if text.len() == 0 || text.last() == '\n' {
        text
    } else {
        text.push('\n')
    }
}

/// The lines of a text whose line feeds stand alone make that text again,
/// closed by a line feed.
pub proof fn lemma_split_lines_text(text: Seq<char>)
    requires
        plain_line_ends(text),
    ensures
        lines_text(split_lines(text)) == closed_text(text),
    decreases text.len(),
{
    if text.len() > 0 {
        lemma_line_feed_at(text, 0);
        let first = first_line(text);
        let rest = after_first_line(text);
        lemma_split_lines_text(rest);
        lemma_lines_text_add(seq![first], split_lines(rest));
        assert(lines_text(seq![first]) =~= first + seq!['\n']) by {
            assert(lines_text(seq![first].drop_last()) =~= Seq::<char>::empty());
        }
    }
}

/// Round trip: a text whose line feeds stand alone is read and written back
/// character for character, closed by a line feed where it had none at its
/// end.
pub proof fn lemma_round_trip(text: Seq<char>)
    requires
        plain_line_ends(text),
    ensures
        serialize(parse_spec(text)) == closed_text(text),
{
    lemma_parse_lossless(text);
    lemma_split_lines_text(text);
}

/// Where the line of index `i` starts in `text`.
pub open spec fn line_start(text: Seq<char>, i: int) -> int
    decreases i,
{
    if i <= 0 {
        0
    } else {
        line_feed_at(text, 0) + 1 + line_start(after_first_line(text), i - 1)
    }
}

/// Every line of a text is a slice of it: the characters from the line's
/// start on, as many as the line has.
pub proof fn lemma_line_is_slice(text: Seq<char>, i: int)
    requires
        0 <= i < split_lines(text).len(),
    ensures
        0 <= line_start(text, i),
        line_start(text, i) + split_lines(text)[i].len() <= text.len(),
        split_lines(text)[i] == text.subrange(
            line_start(text, i),
            line_start(text, i) + split_lines(text)[i].len(),
        ),
    decreases i,
{
    lemma_line_feed_at(text, 0);
    if i > 0 {
        lemma_line_is_slice(after_first_line(text), i - 1);
    }
}

/// A line that is kept verbatim holds the text of its line: the slice of
/// the text that the line is, character for character.
pub proof fn lemma_invalid_is_slice(text: Seq<char>, i: int)
    requires
        0 <= i < parse_spec(text).len(),
        parse_spec(text)[i] is Invalid,
    ensures
        0 <= line_start(text, i),
        line_start(text, i) + parse_spec(text)[i]->unparsed.len() <= text.len(),
        parse_spec(text)[i]->unparsed == text.subrange(
            line_start(text, i),
            line_start(text, i) + parse_spec(text)[i]->unparsed.len(),
        ),
{
    let lines = split_lines(text);
    lemma_line_lossless(lines[i], declared_names(lines.take(i)));
    lemma_line_is_slice(text, i);
}

} // verus!
