//! The parser: text to document, line by line. No input is refused: a line
//! that fits no rule is kept verbatim, with the reason.

use crate::ast::{
    doc_wf, lines_view, pairs_view, space_char, Consumable, Identifier, Line, LineView, Node,
    SyntaxError, Unparsed, Version, Versions, Whitespace, AST,
};
use crate::grammar::{
    after_first_line, declared_names, first_line, lemma_declared_names_push, lemma_line_feed_unique,
    lemma_parse_lines_push, lemma_run_end_unique, parse_blank, parse_definition_spec,
    parse_line_spec, parse_lines, parse_spec, parse_versions, run_end, seen_after, split_lines,
};
use crate::invariants::lemma_parse_wf;
pub use vstd::hash_set::StringHashSet;
use vstd::prelude::*;
use vstd::slice::slice_subrange;

verus! {

/// `String::push` appends the character to the end of the string and
/// changes nothing else.
pub assume_specification[ String::push ](s: &mut String, c: char)
    ensures
        final(s)@ == old(s)@.push(c),
;

/// The characters of `line` from `from` up to `to`, as a string.
fn text_between(line: &[char], from: usize, to: usize) -> (text: String)
    requires
        from <= to <= line@.len(),
    ensures
        text@ == line@.subrange(from as int, to as int),
{
    let mut text = String::new();
    let mut i: usize = from;
    while i < to
        invariant
            from <= i <= to <= line@.len(),
            text@ == line@.subrange(from as int, i as int),
        decreases to - i,
    {
        text.push(line[i]);
        i += 1;
    }
    text
}

/// The token that starts at `from`: the longest run of characters that `T`
/// accepts, which may be empty, and the index behind it.
fn consume<T: Consumable>(line: &[char], from: usize) -> (out: (T, usize))
    requires
        from <= line@.len(),
    ensures
        out.1 == run_end::<T>(line@, from as int),
        from <= out.1 <= line@.len(),
        out.0.spec_value()@ == line@.subrange(from as int, out.1 as int),
{
    let mut output = String::new();
    let mut end: usize = from;
    while end < line.len() && T::is_consumable(line[end])
        invariant
            from <= end <= line@.len(),
            output@ == line@.subrange(from as int, end as int),
            forall|i: int| from <= i < end ==> T::accepts(#[trigger] line@[i]),
        decreases line@.len() - end,
    {
        output.push(line[end]);
        end += 1;
    }
    proof {
        lemma_run_end_unique::<T>(line@, from as int, end as int);
    }
    (T::new(output), end)
}

/// The line `line`, kept verbatim with `error`.
fn invalid(error: SyntaxError, line: &[char]) -> (kept: Line)
    ensures
        kept@ == (LineView::Invalid { error: error@, unparsed: line@ }),
{
    let raw = text_between(line, 0, line.len());
    assert(line@.subrange(0, line@.len() as int) =~= line@);
    Line::Invalid { error, unparsed: Unparsed::new(raw) }
}

/// The comment behind the `#` at `hash`: the rest of the line.
fn read_comment(line: &[char], hash: usize) -> (comment: Unparsed)
    requires
        hash < line@.len(),
    ensures
        comment@ == line@.subrange(hash + 1, line@.len() as int),
{
    let length = line.len();
    Unparsed::new(text_between(line, hash + 1, length))
}

/// Reads a line that starts with an identifier character.
fn parse_definition(line: &[char], unique_identifiers: &mut StringHashSet) -> (parsed: Line)
    requires
        line@.len() > 0,
        Identifier::accepts(line@[0]),
    ensures
        parsed@ == parse_definition_spec(line@, old(unique_identifiers)@),
        final(unique_identifiers)@ == seen_after(line@, old(unique_identifiers)@),
{
    let (name, end) = consume::<Identifier>(line, 0);
    if end >= line.len() {
        return invalid(SyntaxError::UnexpectedEOL { expected: "Version" }, line);
    }
    let next = line[end];
    if next == '#' {
        return invalid(SyntaxError::UnexpectedToken { token: next, expected: "Version" }, line);
    }
    if !Whitespace::is_consumable(next) {
        return invalid(SyntaxError::UnexpectedToken { token: next, expected: "Whitespace" }, line);
    }
    if unique_identifiers.contains(name.value().as_str()) {
        return invalid(SyntaxError::DuplicateIdentifier(name), line);
    }
    unique_identifiers.insert(name.value().clone());

    let mut versions: Vec<(Whitespace, Version)> = Vec::new();
    let mut at: usize = end;
    assert(pairs_view(versions@) =~= Seq::empty());
    loop
        invariant
            at < line@.len(),
            space_char(line@[at as int]),
            parse_versions(line@, name@, at as int, pairs_view(versions@))
                == parse_definition_spec(line@, old(unique_identifiers)@),
            unique_identifiers@ == seen_after(line@, old(unique_identifiers)@),
        decreases line@.len() - at,
    {
        let ghost found = pairs_view(versions@);
        let (padding, pad_end) = consume::<Whitespace>(line, at);
        if pad_end >= line.len() {
            if versions.len() == 0 {
                return invalid(SyntaxError::UnexpectedEOL { expected: "Version" }, line);
            }
            return Line::ToolDefinition {
                name,
                versions: Versions::new(versions),
                whitespace: Some(padding),
                comment: None,
            };
        }
        let first = line[pad_end];
        if first == '#' {
            if versions.len() == 0 {
                return invalid(
                    SyntaxError::UnexpectedToken { token: first, expected: "Version" },
                    line,
                );
            }
            return Line::ToolDefinition {
                name,
                versions: Versions::new(versions),
                whitespace: Some(padding),
                comment: Some(read_comment(line, pad_end)),
            };
        }
        if !Version::is_consumable(first) {
            return invalid(
                SyntaxError::UnexpectedToken { token: first, expected: "Version" },
                line,
            );
        }
        let (version, version_end) = consume::<Version>(line, pad_end);
        versions.push((padding, version));
        assert(pairs_view(versions@) =~= found.push(
            (
                line@.subrange(at as int, pad_end as int),
                line@.subrange(pad_end as int, version_end as int),
            ),
        ));
        if version_end >= line.len() {
            return Line::ToolDefinition {
                name,
                versions: Versions::new(versions),
                whitespace: None,
                comment: None,
            };
        }
        let next = line[version_end];
        if next == '#' {
            return Line::ToolDefinition {
                name,
                versions: Versions::new(versions),
                whitespace: None,
                comment: Some(read_comment(line, version_end)),
            };
        }
        if !Whitespace::is_consumable(next) {
            return invalid(
                SyntaxError::UnexpectedToken { token: next, expected: "Whitespace" },
                line,
            );
        }
        at = version_end;
    }
}

/// Reads a line that holds no tool: padding, then nothing or a comment.
fn parse_blank_line(line: &[char]) -> (parsed: Line)
    requires
        line@.len() > 0,
    ensures
        parsed@ == parse_blank(line@),
{
    let (padding, end) = consume::<Whitespace>(line, 0);
    let whitespace = if end == 0 {
        None
    } else {
        Some(padding)
    };
    if end == line.len() {
        Line::Empty { whitespace, comment: None }
    } else if line[end] == '#' {
        Line::Empty { whitespace, comment: Some(read_comment(line, end)) }
    } else {
        invalid(SyntaxError::UnexpectedToken { token: line[end], expected: "EOL,Comment" }, line)
    }
}

/// Reads one line, given as its characters.
fn parse_chars(line: &[char], unique_identifiers: &mut StringHashSet) -> (parsed: Line)
    ensures
        parsed@ == parse_line_spec(line@, old(unique_identifiers)@),
        final(unique_identifiers)@ == seen_after(line@, old(unique_identifiers)@),
{
    if line.len() == 0 {
        return Line::Empty { whitespace: None, comment: None };
    }
    let first = line[0];
    if first == '#' || Whitespace::is_consumable(first) {
        parse_blank_line(line)
    } else if Identifier::is_consumable(first) {
        parse_definition(line, unique_identifiers)
    } else {
        invalid(
            SyntaxError::UnexpectedToken { token: first, expected: "Identifier,Whitespace,Comment" },
            line,
        )
    }
}

/// The characters of `text`.
fn chars_of(text: &str) -> (chars: Vec<char>)
    ensures
        chars@ == text@,
{
    let mut chars: Vec<char> = Vec::new();
    for c in it: text.chars()
        invariant
            chars@ == it.seq().take(it.index() as int),
    {
        chars.push(c);
    }
    chars
}

/// Reads one line of text. `unique_identifiers` holds the names that earlier
/// lines declared, and gets the name that this line declares.
///
/// Every text is read as some line: the result is the one that the grammar
/// gives, and a text that fits no rule comes back verbatim in an `Invalid`
/// line.
pub fn parse_line(line: &str, unique_identifiers: &mut StringHashSet) -> (parsed: Line)
    ensures
        parsed@ == parse_line_spec(line@, old(unique_identifiers)@),
        final(unique_identifiers)@ == seen_after(line@, old(unique_identifiers)@),
{
    let chars = chars_of(line);
    parse_chars(chars.as_slice(), unique_identifiers)
}

/// Reads a document: the lines of `input` in their order, each read with the
/// names that the lines before it declare. No input is refused.
pub fn parse(input: &str) -> (ast: AST)
    ensures
        ast@ == parse_spec(input@),
        doc_wf(ast@),
{
    proof {
        lemma_parse_wf(input@);
    }
    let text = chars_of(input);
    let mut unique_identifiers = StringHashSet::new();
    let mut lines: Vec<Line> = Vec::new();
    let mut start: usize = 0;
    let ghost mut done: Seq<Seq<char>> = Seq::empty();
    assert(text@.skip(0) =~= text@);
    while start < text.len()
        invariant
            start <= text@.len(),
            text@ == input@,
            split_lines(text@) == done + split_lines(text@.skip(start as int)),
            lines_view(lines@) == parse_lines(done),
            unique_identifiers@ == declared_names(done),
        decreases text@.len() - start,
    {
        let ghost rest = text@.skip(start as int);
        let mut feed: usize = start;
        while feed < text.len() && text[feed] != '\n'
            invariant
                start <= feed <= text@.len(),
                forall|i: int| start <= i < feed ==> #[trigger] text@[i] != '\n',
            decreases text@.len() - feed,
        {
            feed += 1;
        }
        let end = if feed < text.len() && start < feed && text[feed - 1] == '\r' {
            feed - 1
        } else {
            feed
        };
        let next = if feed < text.len() {
            feed + 1
        } else {
            feed
        };
        let line = slice_subrange(text.as_slice(), start, end);
        proof {
            lemma_line_feed_unique(rest, 0, feed - start);
            assert(line@ =~= first_line(rest));
            assert(text@.skip(next as int) =~= after_first_line(rest));
            lemma_parse_lines_push(done, line@);
            lemma_declared_names_push(done, line@);
        }
        let parsed = parse_chars(line, &mut unique_identifiers);
        lines.push(parsed);
        proof {
            done = done.push(line@);
        }
        start = next;
    }
    AST { lines }
}

} // verus!
