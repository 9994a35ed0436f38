//! The invariant of documents: reading establishes it for every text.

use crate::ast::{
    doc_wf, line_wf, space_char, valid_raw, valid_token,
    versions_wf, Consumable, Identifier, LineView, Version, Whitespace,
};
use crate::grammar::{
    after_first_line, close_comment, declared_name, declared_names, first_line, lemma_line_feed_at,
    lemma_run_end, parse_line_spec, parse_lines, parse_spec, parse_versions,
    run_end, split_lines,
};
use vstd::prelude::*;

verus! {

/// A run of accepted characters that is not empty is a token.
pub proof fn lemma_run_is_token<T: Consumable>(s: Seq<char>, from: int)
    requires
        0 <= from < s.len(),
        T::accepts(s[from]),
    ensures
        from < run_end::<T>(s, from) <= s.len(),
        valid_token::<T>(s.subrange(from, run_end::<T>(s, from))),
{
    lemma_run_end::<T>(s, from);
}

/// With the rest of the line as its comment, the line is well formed.
proof fn lemma_close_comment_wf(line: Seq<char>, hash: int, shape: LineView)
    requires
        0 <= hash < line.len(),
        valid_raw(line),
        line_wf(shape),
    ensures
        line_wf(close_comment(line, hash, shape)),
{
    let rest = line.subrange(hash + 1, line.len() as int);
    assert forall|i: int| 0 <= i < rest.len() implies #[trigger] rest[i] != '\n' by {
        assert(rest[i] == line[hash + 1 + i]);
    }
}

/// What the versions of a definition are read as is well formed.
proof fn lemma_versions_wf(
    line: Seq<char>,
    name: Seq<char>,
    at: int,
    found: Seq<(Seq<char>, Seq<char>)>,
)
    requires
        0 <= at < line.len(),
        space_char(line[at]),
        valid_raw(line),
        valid_token::<Identifier>(name),
        versions_wf(found),
    ensures
        line_wf(parse_versions(line, name, at, found)),
    decreases line.len() - at,
{
    lemma_run_is_token::<Whitespace>(line, at);
    let pad_end = run_end::<Whitespace>(line, at);
    let padding = line.subrange(at, pad_end);
    let shape = LineView::ToolDefinition {
        name,
        versions: found,
        whitespace: Some(padding),
        comment: None,
    };
    if pad_end < line.len() && line[pad_end] == '#' {
        if found.len() != 0 {
            lemma_close_comment_wf(line, pad_end, shape);
        }
    } else if pad_end < line.len() && Version::accepts(line[pad_end]) {
        lemma_run_is_token::<Version>(line, pad_end);
        let end = run_end::<Version>(line, pad_end);
        let versions = found.push((padding, line.subrange(pad_end, end)));
        let shape = LineView::ToolDefinition { name, versions, whitespace: None, comment: None };
        if end < line.len() && line[end] == '#' {
            lemma_close_comment_wf(line, end, shape);
        } else if end < line.len() && space_char(line[end]) {
            lemma_versions_wf(line, name, end, versions);
        }
    }
}

/// Whatever a line of text is read as, it is well formed: every token is
/// made of its own characters, no padding is empty, a definition has a
/// version.
pub proof fn lemma_line_wf(line: Seq<char>, seen: Set<Seq<char>>)
    requires
        valid_raw(line),
    ensures
        line_wf(parse_line_spec(line, seen)),
{
    if line.len() == 0 {
        // a line without a token
    } else if line[0] == '#' || space_char(line[0]) {
        lemma_run_end::<Whitespace>(line, 0);
        let end = run_end::<Whitespace>(line, 0);
        let padding = if end == 0 {
            None
        } else {
            Some(line.subrange(0, end))
        };
        let shape = LineView::Empty { whitespace: padding, comment: None };
        if end < line.len() && line[end] == '#' {
            lemma_close_comment_wf(line, end, shape);
        }
    } else if Identifier::accepts(line[0]) {
        lemma_run_is_token::<Identifier>(line, 0);
        let end = run_end::<Identifier>(line, 0);
        let name = line.subrange(0, end);
        if end < line.len() && space_char(line[end]) && !seen.contains(name) {
            lemma_versions_wf(line, name, end, Seq::empty());
        }
    }
}

/// A line is read as a definition only of the name that it declares, and
/// only where no earlier line declared it.
pub proof fn lemma_definition_declares(line: Seq<char>, seen: Set<Seq<char>>)
    ensures
        parse_line_spec(line, seen) matches LineView::ToolDefinition { name, .. }
            ==> declared_name(line) == Some(name) && !seen.contains(name),
{
    if line.len() > 0 && Identifier::accepts(line[0]) {
        lemma_run_is_token::<Identifier>(line, 0);
        let end = run_end::<Identifier>(line, 0);
        let name = line.subrange(0, end);
        if end < line.len() && space_char(line[end]) && !seen.contains(name) {
            lemma_versions_name(line, name, end, Seq::empty());
        }
    }
}

/// What the versions of a definition are read as defines no other tool than
/// `name`.
proof fn lemma_versions_name(
    line: Seq<char>,
    name: Seq<char>,
    at: int,
    found: Seq<(Seq<char>, Seq<char>)>,
)
    requires
        0 <= at < line.len(),
        space_char(line[at]),
    ensures
        parse_versions(line, name, at, found) matches LineView::ToolDefinition { name: n, .. }
            ==> n == name,
    decreases line.len() - at,
{
    lemma_run_end::<Whitespace>(line, at);
    let pad_end = run_end::<Whitespace>(line, at);
    if pad_end < line.len() && line[pad_end] != '#' && Version::accepts(line[pad_end]) {
        lemma_run_end::<Version>(line, pad_end);
        let end = run_end::<Version>(line, pad_end);
        let versions = found.push((line.subrange(at, pad_end), line.subrange(pad_end, end)));
        if end < line.len() && line[end] != '#' && space_char(line[end]) {
            lemma_versions_name(line, name, end, versions);
        }
    }
}

/// No line of a text holds a line feed.
pub proof fn lemma_split_lines_raw(text: Seq<char>)
    ensures
        forall|i: int| 0 <= i < split_lines(text).len() ==> valid_raw(#[trigger] split_lines(text)[i]),
    decreases text.len(),
{
    if text.len() > 0 {
        lemma_line_feed_at(text, 0);
        lemma_split_lines_raw(after_first_line(text));
        assert(split_lines(text) == seq![first_line(text)] + split_lines(after_first_line(text)));
    }
}

/// Lines that hold no line feed are read as a well-formed document: every
/// line is well formed, and no tool is defined twice.
pub proof fn lemma_parse_lines_wf(lines: Seq<Seq<char>>)
    requires
        forall|i: int| 0 <= i < lines.len() ==> valid_raw(#[trigger] lines[i]),
    ensures
        doc_wf(parse_lines(lines)),
{
    let doc = parse_lines(lines);
    assert forall|i: int| 0 <= i < doc.len() implies line_wf(#[trigger] doc[i]) by {
        lemma_line_wf(lines[i], declared_names(lines.take(i)));
    }
    assert forall|i: int, j: int|
        0 <= i < j < doc.len() && (#[trigger] doc[i]) is ToolDefinition && (
        #[trigger] doc[j]) is ToolDefinition implies doc[i]->name != doc[j]->name by {
        lemma_definition_declares(lines[i], declared_names(lines.take(i)));
        lemma_definition_declares(lines[j], declared_names(lines.take(j)));
        assert(lines.take(j)[i] == lines[i]);
    }
}

/// Every text is read as a well-formed document.
pub proof fn lemma_parse_wf(text: Seq<char>)
    ensures
        doc_wf(parse_spec(text)),
{
    lemma_split_lines_raw(text);
    lemma_parse_lines_wf(split_lines(text));
}

} // verus!
