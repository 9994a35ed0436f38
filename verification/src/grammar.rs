//! The grammar of the file, as functions on text: what a line is, what the
//! lines of a text are, and what document a text is.
//!
//! A line is blank (padding, then a comment or nothing), or it defines a
//! tool (a name, then versions with padding before each, then padding and a
//! comment or nothing), or it fits neither rule and is kept verbatim with
//! the reason. A comment is all that follows its `#`. Line feed and
//! carriage return stand in no name, padding or version: a line that holds
//! one of them where such a token would have to take it is kept verbatim.

use crate::ast::{
    space_char, version_char, Consumable, Identifier, LineView, SyntaxErrorView, Version,
    Whitespace,
};
use vstd::prelude::*;

verus! {

/// Where the longest run of characters that `T` accepts, starting at `from`,
/// ends in `s`: the index of the first character at or after `from` that `T`
/// does not accept, or the length of `s`.
pub open spec fn run_end<T: Consumable>(s: Seq<char>, from: int) -> int
    decreases s.len() - from,
{
    if 0 <= from < s.len() && T::accepts(s[from]) {
        run_end::<T>(s, from + 1)
    } else {
        from
    }
}

/// What `run_end` is: it closes a run of accepted characters that starts at
/// `from`, and no accepted character stands right behind that run.
pub proof fn lemma_run_end<T: Consumable>(s: Seq<char>, from: int)
    requires
        0 <= from,
    ensures
        from <= run_end::<T>(s, from),
        from <= s.len() ==> run_end::<T>(s, from) <= s.len(),
        forall|i: int| from <= i < run_end::<T>(s, from) ==> T::accepts(#[trigger] s[i]),
        run_end::<T>(s, from) < s.len() ==> !T::accepts(s[run_end::<T>(s, from)]),
    decreases s.len() - from,
{
    if from < s.len() && T::accepts(s[from]) {
        lemma_run_end::<T>(s, from + 1);
    }
}

/// And it is the only such index: a run of accepted characters from `from`
/// to `end`, with no accepted character behind it, ends where `run_end` says.
pub proof fn lemma_run_end_unique<T: Consumable>(s: Seq<char>, from: int, end: int)
    requires
        0 <= from <= end <= s.len(),
        forall|i: int| from <= i < end ==> T::accepts(#[trigger] s[i]),
        end < s.len() ==> !T::accepts(s[end]),
    ensures
        run_end::<T>(s, from) == end,
    decreases end - from,
{
    if from < end {
        lemma_run_end_unique::<T>(s, from + 1, end);
    }
}

/// What may start a line.
pub open spec fn expected_start() -> Seq<char> {
    "Identifier,Whitespace,Comment"@
}

/// What may stand behind the padding of a blank line.
pub open spec fn expected_end() -> Seq<char> {
    "EOL,Comment"@
}

/// What a definition needs behind its name and its padding.
pub open spec fn expected_version() -> Seq<char> {
    "Version"@
}

/// What has to stand behind a name, and behind a version that another
/// token follows.
pub open spec fn expected_whitespace() -> Seq<char> {
    "Whitespace"@
}

/// The line kept verbatim because the character at `at` stands where one of
/// `expected` had to stand.
pub open spec fn unexpected_token(line: Seq<char>, at: int, expected: Seq<char>) -> LineView {
    LineView::Invalid {
        error: SyntaxErrorView::UnexpectedToken { token: line[at], expected },
        unparsed: line,
    }
}

/// The line kept verbatim because it ends where one of `expected` had to
/// stand.
pub open spec fn unexpected_eol(line: Seq<char>, expected: Seq<char>) -> LineView {
    LineView::Invalid { error: SyntaxErrorView::UnexpectedEOL { expected }, unparsed: line }
}

/// `shape` with the comment `comment`.
pub open spec fn with_comment(shape: LineView, comment: Seq<char>) -> LineView {
    match shape {
        LineView::ToolDefinition { name, versions, whitespace, comment: _ } => {
            LineView::ToolDefinition { name, versions, whitespace, comment: Some(comment) }
        },
        LineView::Empty { whitespace, comment: _ } => LineView::Empty {
            whitespace,
            comment: Some(comment),
        },
        LineView::Invalid { error, unparsed } => shape,
    }
}

/// The line whose `#` stands at `hash` and which up to there reads as
/// `shape`: `shape` with the rest of the line, whatever it holds, as its
/// comment.
pub open spec fn close_comment(line: Seq<char>, hash: int, shape: LineView) -> LineView {
    with_comment(shape, line.subrange(hash + 1, line.len() as int))
}

/// A line that starts with padding or with `#`: the padding, where there is
/// any, with nothing but the end of the line or a comment behind it.
pub open spec fn parse_blank(line: Seq<char>) -> LineView {
    let end = run_end::<Whitespace>(line, 0);
    let padding = if end == 0 {
        None
    } else {
        Some(line.subrange(0, end))
    };
    if end == line.len() {
        LineView::Empty { whitespace: padding, comment: None }
    } else if line[end] == '#' {
        close_comment(line, end, LineView::Empty { whitespace: padding, comment: None })
    } else {
        unexpected_token(line, end, expected_end())
    }
}

/// A line of padding or none, `#` and any rest is a blank line with that
/// rest as its comment, whatever the rest holds.
pub proof fn lemma_blank_with_comment(
    line: Seq<char>,
    padding: Seq<char>,
    rest: Seq<char>,
    seen: Set<Seq<char>>,
)
    requires
        forall|i: int| 0 <= i < padding.len() ==> space_char(#[trigger] padding[i]),
        line == padding + seq!['#'] + rest,
    ensures
        parse_line_spec(line, seen) == (LineView::Empty {
            whitespace: if padding.len() == 0 {
                None
            } else {
                Some(padding)
            },
            comment: Some(rest),
        }),
{
    let end = padding.len() as int;
    assert forall|i: int| 0 <= i < end implies Whitespace::accepts(#[trigger] line[i]) by {
        assert(line[i] == padding[i]);
    }
    assert(line[end] == '#');
    lemma_run_end_unique::<Whitespace>(line, 0, end);
    assert(line.subrange(0, end) =~= padding);
    assert(line.subrange(end + 1, line.len() as int) =~= rest);
}

/// The versions of a definition from `at` on, where `at` is the index of a
/// space character, `name` the tool and `found` the versions before `at`.
///
/// Padding comes first. The end of the line or a `#` behind it closes the
/// definition, which needs one version at least; anything else starts a
/// version, which runs up to the next white space or `#`. A version is
/// followed by padding, by a comment or by the end of the line.
pub open spec fn parse_versions(
    line: Seq<char>,
    name: Seq<char>,
    at: int,
    found: Seq<(Seq<char>, Seq<char>)>,
) -> LineView
    recommends
        0 <= at < line.len(),
        space_char(line[at]),
    decreases line.len() - at,
    when 0 <= at < line.len() && space_char(line[at])
{
    let pad_end = run_end::<Whitespace>(line, at);
    let padding = line.subrange(at, pad_end);
    let shape = LineView::ToolDefinition {
        name,
        versions: found,
        whitespace: Some(padding),
        comment: None,
    };
    if pad_end >= line.len() {
        if found.len() == 0 {
            unexpected_eol(line, expected_version())
        } else {
            shape
        }
    } else if line[pad_end] == '#' {
        if found.len() == 0 {
            unexpected_token(line, pad_end, expected_version())
        } else {
            close_comment(line, pad_end, shape)
        }
    } else if !version_char(line[pad_end]) {
        unexpected_token(line, pad_end, expected_version())
    } else {
        let end = run_end::<Version>(line, pad_end);
        let versions = found.push((padding, line.subrange(pad_end, end)));
        let shape = LineView::ToolDefinition { name, versions, whitespace: None, comment: None };
        if end >= line.len() {
            shape
        } else if line[end] == '#' {
            close_comment(line, end, shape)
        } else if space_char(line[end]) {
            proof {
                lemma_run_end::<Whitespace>(line, at);
                lemma_run_end::<Version>(line, pad_end);
            }
            parse_versions(line, name, end, versions)
        } else {
            unexpected_token(line, end, expected_whitespace())
        }
    }
}

/// The name that a line declares: its leading run of identifier characters,
/// where that run is not empty and a space character follows it.
pub open spec fn declared_name(line: Seq<char>) -> Option<Seq<char>> {
    let end = run_end::<Identifier>(line, 0);
    if 0 < end < line.len() && space_char(line[end]) {
        Some(line.subrange(0, end))
    } else {
        None
    }
}

/// A line that starts with an identifier character. The name must be
/// followed by padding; a name that an earlier line declared is a
/// duplicate, whatever follows.
pub open spec fn parse_definition_spec(line: Seq<char>, seen: Set<Seq<char>>) -> LineView {
    let end = run_end::<Identifier>(line, 0);
    let name = line.subrange(0, end);
    if end >= line.len() {
        unexpected_eol(line, expected_version())
    } else if line[end] == '#' {
        unexpected_token(line, end, expected_version())
    } else if !space_char(line[end]) {
        unexpected_token(line, end, expected_whitespace())
    } else if seen.contains(name) {
        LineView::Invalid { error: SyntaxErrorView::DuplicateIdentifier(name), unparsed: line }
    } else {
        parse_versions(line, name, end, Seq::empty())
    }
}

/// What one line of text is, given the names that earlier lines declared.
pub open spec fn parse_line_spec(line: Seq<char>, seen: Set<Seq<char>>) -> LineView {
    if line.len() == 0 {
        LineView::Empty { whitespace: None, comment: None }
    } else if line[0] == '#' || space_char(line[0]) {
        parse_blank(line)
    } else if Identifier::accepts(line[0]) {
        parse_definition_spec(line, seen)
    } else {
        unexpected_token(line, 0, expected_start())
    }
}

/// The names declared once `line` is read: those before it, and the one it
/// declares.
pub open spec fn seen_after(line: Seq<char>, seen: Set<Seq<char>>) -> Set<Seq<char>> {
    match declared_name(line) {
        Some(name) => seen.insert(name),
        None => seen,
    }
}

/// Where the first line of `text` ends: the index of the first line feed at
/// or after `from`, or the length of `text`.
pub open spec fn line_feed_at(text: Seq<char>, from: int) -> int
    decreases text.len() - from,
{
    if 0 <= from < text.len() && text[from] != '\n' {
        line_feed_at(text, from + 1)
    } else {
        from
    }
}

/// The first line of a text that is not empty: what stands before the first
/// line feed, without the carriage return that may stand right before that
/// line feed. A text without a line feed is one line, taken as it is.
pub open spec fn first_line(text: Seq<char>) -> Seq<char> {
    let feed = line_feed_at(text, 0);
    if 0 < feed < text.len() && text[feed - 1] == '\r' {
        text.subrange(0, feed - 1)
    } else {
        text.subrange(0, feed)
    }
}

/// What follows the first line of `text` and its line feed.
pub open spec fn after_first_line(text: Seq<char>) -> Seq<char> {
    let feed = line_feed_at(text, 0);
    if feed < text.len() {
        text.skip(feed + 1)
    } else {
        Seq::empty()
    }
}

/// The lines of `text`. Each line feed ends a line; a carriage return right
/// before it goes with it. What follows the last line feed is a line too,
/// unless nothing follows it: a final line feed opens no empty line.
pub open spec fn split_lines(text: Seq<char>) -> Seq<Seq<char>>
    decreases text.len(),
{
    if text.len() == 0 {
        Seq::empty()
    } else {
        proof {
            lemma_line_feed_at(text, 0);
        }
        seq![first_line(text)] + split_lines(after_first_line(text))
    }
}

/// What `line_feed_at` is: no line feed stands between `from` and it, and
/// one stands at it unless the text ends there.
pub proof fn lemma_line_feed_at(text: Seq<char>, from: int)
    requires
        0 <= from <= text.len(),
    ensures
        from <= line_feed_at(text, from) <= text.len(),
        forall|i: int| from <= i < line_feed_at(text, from) ==> #[trigger] text[i] != '\n',
        line_feed_at(text, from) < text.len() ==> text[line_feed_at(text, from)] == '\n',
    decreases text.len() - from,
{
    if from < text.len() && text[from] != '\n' {
        lemma_line_feed_at(text, from + 1);
    }
}

/// And it is the only such index.
pub proof fn lemma_line_feed_unique(text: Seq<char>, from: int, feed: int)
    requires
        0 <= from <= feed <= text.len(),
        forall|i: int| from <= i < feed ==> #[trigger] text[i] != '\n',
        feed < text.len() ==> text[feed] == '\n',
    ensures
        line_feed_at(text, from) == feed,
    decreases feed - from,
{
    if from < feed {
        lemma_line_feed_unique(text, from + 1, feed);
    }
}

/// The names that the lines `lines` declare.
pub open spec fn declared_names(lines: Seq<Seq<char>>) -> Set<Seq<char>> {
    Set::new(
        |name: Seq<char>|
            exists|i: int| 0 <= i < lines.len() && declared_name(#[trigger] lines[i]) == Some(name),
    )
}

/// What the lines `lines` are, in their order: each is read with the names
/// that the lines before it declare.
pub open spec fn parse_lines(lines: Seq<Seq<char>>) -> Seq<LineView> {
    Seq::new(lines.len(), |i: int| parse_line_spec(lines[i], declared_names(lines.take(i))))
}

/// The document that `text` is.
pub open spec fn parse_spec(text: Seq<char>) -> Seq<LineView> {
    parse_lines(split_lines(text))
}

/// One more line declares the names before it and its own.
pub proof fn lemma_declared_names_push(lines: Seq<Seq<char>>, line: Seq<char>)
    ensures
        declared_names(lines.push(line)) == seen_after(line, declared_names(lines)),
{
    let more = lines.push(line);
    assert forall|name: Seq<char>|
        declared_names(more).contains(name) <==> seen_after(line, declared_names(lines)).contains(
            name,
        ) by {
        if declared_names(more).contains(name) {
            let i = choose|i: int|
                0 <= i < more.len() && declared_name(#[trigger] more[i]) == Some(name);
            if i < lines.len() {
                assert(more[i] == lines[i]);
            }
        }
        if seen_after(line, declared_names(lines)).contains(name) {
            if declared_names(lines).contains(name) {
                let i = choose|i: int|
                    0 <= i < lines.len() && declared_name(#[trigger] lines[i]) == Some(name);
                assert(more[i] == lines[i]);
            } else {
                assert(more[lines.len() as int] == line);
            }
        }
    }
    assert(declared_names(more) =~= seen_after(line, declared_names(lines)));
}

/// One more line is read with the names that the lines before it declare.
pub proof fn lemma_parse_lines_push(lines: Seq<Seq<char>>, line: Seq<char>)
    ensures
        parse_lines(lines.push(line)) == parse_lines(lines).push(
            parse_line_spec(line, declared_names(lines)),
        ),
{
    let more = lines.push(line);
    assert forall|i: int| 0 <= i < more.len() implies parse_lines(more)[i] == parse_lines(
        lines,
    ).push(parse_line_spec(line, declared_names(lines)))[i] by {
        if i < lines.len() {
            assert(more.take(i) =~= lines.take(i));
        } else {
            assert(more.take(i) =~= lines);
        }
    }
}

} // verus!
