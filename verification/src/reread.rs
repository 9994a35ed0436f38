//! Writing, then reading: a well-formed document that is written and read
//! again is the same document, unless one of its lines is written with a
//! carriage return at its end. Reading takes a carriage return that stands
//! right before a line feed for a part of the line's end, so such a line
//! comes back without it.

use crate::ast::{
    all_accepted, comment_wf, defines, doc_wf, has_definition, line_break, line_wf, padding_wf,
    space_char, unique_definitions, valid_raw, valid_token, versions_wf, Consumable, Identifier,
    LineView, Version, Whitespace,
};
use crate::grammar::{
    after_first_line, declared_name, declared_names, first_line, lemma_line_feed_unique,
    lemma_run_end_unique, parse_line_spec, parse_lines, parse_spec, parse_versions, run_end,
    split_lines,
};
use crate::roundtrip::{
    lemma_lines_text_add, lemma_parse_lossless, lemma_render_versions_push,
    lemma_serialize_is_lines_text, lines_text, renders,
};
use crate::transformer::{
    lemma_add_one, lemma_remove_absent, lemma_remove_one, lemma_rewrite_one, lemma_set_versions_wf,
    set_versions_spec,
};
use crate::writer::{render, render_tail, render_versions, serialize};
use vstd::prelude::*;

verus! {

/// `s` ends in a carriage return.
pub open spec fn ends_in_return(s: Seq<char>) -> bool {
    s.len() > 0 && s.last() == '\r'
}

/// The comment of a line, where it has one.
pub open spec fn comment_of(line: LineView) -> Option<Seq<char>> {
    match line {
        LineView::ToolDefinition { comment, .. } => comment,
        LineView::Empty { comment, .. } => comment,
        LineView::Invalid { .. } => None,
    }
}

/// The documents that reading gives back as they were written: every line
/// is well formed, none was kept verbatim, and none is written with a
/// carriage return at its end.
pub open spec fn rereadable(doc: Seq<LineView>) -> bool {
    forall|i: int|
        0 <= i < doc.len() ==> line_wf(#[trigger] doc[i]) && doc[i] !is Invalid && !ends_in_return(
            render(doc[i]),
        )
}

/// The versions of a well-formed definition are written without a line feed
/// or a carriage return.
proof fn lemma_versions_no_breaks(versions: Seq<(Seq<char>, Seq<char>)>)
    requires
        versions_wf(versions),
    ensures
        forall|k: int|
            0 <= k < render_versions(versions).len() ==> !line_break(
                #[trigger] render_versions(versions)[k],
            ),
        versions.len() > 0 ==> render_versions(versions).len() > 0,
    decreases versions.len(),
{
    if versions.len() > 0 {
        lemma_versions_no_breaks(versions.drop_last());
        let before = render_versions(versions.drop_last());
        let last = versions[versions.len() - 1];
        let text = render_versions(versions);
        assert(valid_token::<Whitespace>(last.0) && valid_token::<Version>(last.1));
        assert forall|k: int| 0 <= k < text.len() implies !line_break(
            #[trigger] text[k],
        ) by {
            if k < before.len() {
                assert(text[k] == before[k]);
            } else if k < before.len() + last.0.len() {
                assert(text[k] == last.0[k - before.len()]);
            } else {
                assert(text[k] == last.1[k - before.len() - last.0.len()]);
            }
        }
    }
}

/// A well-formed line that was not kept verbatim is written without a line
/// feed, and with a carriage return at its end only where its comment ends
/// in one.
pub proof fn lemma_written_line(line: LineView)
    requires
        line_wf(line),
        line !is Invalid,
    ensures
        valid_raw(render(line)),
        ends_in_return(render(line)) <==> (comment_of(line) matches Some(c) && ends_in_return(c)),
{
    let text = render(line);
    match line {
        LineView::ToolDefinition { name, versions, whitespace, comment } => {
            lemma_versions_no_breaks(versions);
            let body = name + render_versions(versions);
            assert forall|k: int| 0 <= k < body.len() implies !line_break(
                #[trigger] body[k],
            ) by {
                if k < name.len() {
                    assert(body[k] == name[k]);
                } else {
                    assert(body[k] == render_versions(versions)[k - name.len()]);
                }
            }
            lemma_written_tail(body, whitespace, comment);
            assert(text =~= body + render_tail(whitespace, comment));
        },
        LineView::Empty { whitespace, comment } => {
            lemma_written_tail(Seq::empty(), whitespace, comment);
            assert(text =~= Seq::<char>::empty() + render_tail(whitespace, comment));
        },
        LineView::Invalid { .. } => {},
    }
}

/// The end of a well-formed line, behind a text without line breaks, makes
/// a text without a line feed, and with a carriage return at its end only
/// where the comment ends in one.
proof fn lemma_written_tail(
    body: Seq<char>,
    whitespace: Option<Seq<char>>,
    comment: Option<Seq<char>>,
)
    requires
        forall|k: int| 0 <= k < body.len() ==> !line_break(#[trigger] body[k]),
        padding_wf(whitespace),
        comment_wf(comment),
    ensures
        valid_raw(body + render_tail(whitespace, comment)),
        ends_in_return(body + render_tail(whitespace, comment)) <==> (comment matches Some(c)
            && ends_in_return(c)),
{
    let padding = match whitespace {
        Some(w) => w,
        None => Seq::empty(),
    };
    let start = body + padding;
    let text = body + render_tail(whitespace, comment);
    assert forall|k: int| 0 <= k < start.len() implies !line_break(
        #[trigger] start[k],
    ) by {
        if k < body.len() {
            assert(start[k] == body[k]);
        } else {
            assert(start[k] == padding[k - body.len()]);
        }
    }
    match comment {
        Some(c) => {
            assert(text =~= start + seq!['#'] + c);
            assert forall|k: int| 0 <= k < text.len() implies #[trigger] text[k] != '\n' by {
                if k < start.len() {
                    assert(text[k] == start[k]);
                } else if k > start.len() {
                    assert(text[k] == c[k - start.len() - 1]);
                }
            }
            if c.len() > 0 {
                assert(text.last() == c.last());
            } else {
                assert(text.last() == '#');
            }
        },
        None => {
            assert(text =~= start);
            if text.len() > 0 {
                assert(!line_break(start[start.len() - 1]));
            }
        },
    }
}

/// Lines without a line feed and without a carriage return at their end,
/// each followed by a line feed, are the lines of the text that they make.
pub proof fn lemma_split_lines_of_text(lines: Seq<Seq<char>>)
    requires
        forall|i: int|
            0 <= i < lines.len() ==> valid_raw(#[trigger] lines[i]) && !ends_in_return(lines[i]),
    ensures
        split_lines(lines_text(lines)) == lines,
    decreases lines.len(),
{
    if lines.len() > 0 {
        let first = lines[0];
        let others = lines.drop_first();
        let text = lines_text(lines);
        assert(lines =~= seq![first] + others);
        lemma_lines_text_add(seq![first], others);
        assert(lines_text(seq![first]) =~= first + seq!['\n']) by {
            assert(lines_text(seq![first].drop_last()) =~= Seq::<char>::empty());
        }
        assert(text =~= first + seq!['\n'] + lines_text(others));
        assert forall|k: int| 0 <= k < first.len() implies #[trigger] text[k] != '\n' by {
            assert(text[k] == first[k]);
        }
        lemma_line_feed_unique(text, 0, first.len() as int);
        if first.len() > 0 {
            assert(text[first.len() - 1] == first.last());
        }
        assert(first_line(text) =~= first);
        assert(after_first_line(text) =~= lines_text(others));
        assert forall|i: int| 0 <= i < others.len() implies valid_raw(#[trigger] others[i])
            && !ends_in_return(others[i]) by {
            assert(others[i] == lines[i + 1]);
        }
        lemma_split_lines_of_text(others);
    }
}

/// The lines of a rereadable document are the lines of its text.
pub proof fn lemma_lines_of_written(doc: Seq<LineView>)
    requires
        rereadable(doc),
    ensures
        split_lines(serialize(doc)) == renders(doc),
{
    let lines = renders(doc);
    assert forall|i: int| 0 <= i < lines.len() implies valid_raw(#[trigger] lines[i])
        && !ends_in_return(lines[i]) by {
        lemma_written_line(doc[i]);
    }
    lemma_serialize_is_lines_text(doc);
    lemma_split_lines_of_text(lines);
}

/// Fixed point: a rereadable document is written, read and written again as
/// it was written first.
pub proof fn lemma_write_read_write(doc: Seq<LineView>)
    requires
        rereadable(doc),
    ensures
        serialize(parse_spec(serialize(doc))) == serialize(doc),
{
    lemma_lines_of_written(doc);
    lemma_serialize_is_lines_text(doc);
    lemma_parse_lossless(serialize(doc));
}

/// The document without lines is rereadable, and an edit keeps a document
/// so: the lines that leave take nothing with them, a rewritten definition
/// keeps its comment, and a new definition has none. So every document that
/// is made by edits alone is written, read and written again as it was
/// written first.
pub proof fn lemma_edits_are_rereadable(
    doc: Seq<LineView>,
    name: Seq<char>,
    versions: Seq<Seq<char>>,
)
    requires
        rereadable(doc),
        unique_definitions(doc),
        valid_token::<Identifier>(name),
        forall|i: int| 0 <= i < versions.len() ==> valid_token::<Version>(#[trigger] versions[i]),
    ensures
        rereadable(Seq::<LineView>::empty()),
        rereadable(set_versions_spec(doc, name, versions)),
        unique_definitions(set_versions_spec(doc, name, versions)),
{
    let result = set_versions_spec(doc, name, versions);
    assert(doc_wf(doc));
    lemma_set_versions_wf(doc, name, versions);
    if has_definition(doc, name) {
        let at = choose|k: int| 0 <= k < doc.len() && defines(#[trigger] doc[k], name);
        if versions.len() == 0 {
            lemma_remove_one(doc, name, at);
            assert forall|i: int| 0 <= i < result.len() implies (#[trigger] result[i]) !is Invalid
                && !ends_in_return(render(result[i])) by {
                if i < at {
                    assert(result[i] == doc[i]);
                } else {
                    assert(result[i] == doc[i + 1]);
                }
            }
        } else {
            lemma_rewrite_one(doc, name, versions, at);
            assert forall|i: int| 0 <= i < result.len() implies (#[trigger] result[i]) !is Invalid
                && !ends_in_return(render(result[i])) by {
                if i == at {
                    lemma_written_line(doc[at]);
                    lemma_written_line(result[at]);
                } else {
                    assert(result[i] == doc[i]);
                }
            }
        }
    } else if versions.len() == 0 {
        lemma_remove_absent(doc, name);
    } else {
        lemma_add_one(doc, name, versions);
        assert forall|i: int| 0 <= i < result.len() implies (#[trigger] result[i]) !is Invalid
            && !ends_in_return(render(result[i])) by {
            if i < doc.len() {
                assert(result[i] == doc[i]);
            } else {
                lemma_written_line(result[i]);
            }
        }
    }
}

/// Versions put together are written one group behind the other.
pub proof fn lemma_render_versions_add(
    a: Seq<(Seq<char>, Seq<char>)>,
    b: Seq<(Seq<char>, Seq<char>)>,
)
    ensures
        render_versions(a + b) == render_versions(a) + render_versions(b),
    decreases b.len(),
{
    if b.len() > 0 {
        lemma_render_versions_add(a, b.drop_last());
        assert((a + b).drop_last() =~= a + b.drop_last());
    }
}

/// What stands behind the versions read so far: the versions still to be
/// read, then the end of the line.
pub open spec fn rest_text(
    todo: Seq<(Seq<char>, Seq<char>)>,
    whitespace: Option<Seq<char>>,
    comment: Option<Seq<char>>,
) -> Seq<char> {
    render_versions(todo) + render_tail(whitespace, comment)
}

/// The rest of a line starts with its first version and that version's
/// padding.
proof fn lemma_rest_text_first(
    todo: Seq<(Seq<char>, Seq<char>)>,
    whitespace: Option<Seq<char>>,
    comment: Option<Seq<char>>,
)
    requires
        todo.len() > 0,
    ensures
        rest_text(todo, whitespace, comment) == todo[0].0 + todo[0].1 + rest_text(
            todo.drop_first(),
            whitespace,
            comment,
        ),
{
    let first = seq![todo[0]];
    assert(todo =~= first + todo.drop_first());
    lemma_render_versions_add(first, todo.drop_first());
    assert(render_versions(first) =~= todo[0].0 + todo[0].1) by {
        assert(render_versions(first.drop_last()) =~= Seq::<char>::empty());
    }
}

/// The rest of a well-formed line is empty or starts with a space
/// character or with `#`: no version runs on into it.
proof fn lemma_rest_text_head(
    todo: Seq<(Seq<char>, Seq<char>)>,
    whitespace: Option<Seq<char>>,
    comment: Option<Seq<char>>,
)
    requires
        versions_wf(todo),
        padding_wf(whitespace),
    ensures
        ({
            let rest = rest_text(todo, whitespace, comment);
            &&& rest.len() > 0 ==> space_char(rest[0]) || rest[0] == '#'
            &&& todo.len() > 0 || whitespace is Some ==> rest.len() > 0 && space_char(rest[0])
            &&& todo.len() == 0 && whitespace is None && comment is Some ==> rest.len() > 0
                && rest[0] == '#'
            &&& todo.len() == 0 && whitespace is None && comment is None ==> rest.len() == 0
        }),
{
    if todo.len() > 0 {
        lemma_rest_text_first(todo, whitespace, comment);
    }
}

/// Where a text is made of four parts, the two in the middle stand in it
/// where the parts before them end.
proof fn lemma_parts(prefix: Seq<char>, a: Seq<char>, b: Seq<char>, behind: Seq<char>)
    ensures
        ({
            let text = prefix + a + b + behind;
            let at = prefix.len() as int;
            &&& text.len() == prefix.len() + a.len() + b.len() + behind.len()
            &&& text.subrange(at, at + a.len()) == a
            &&& text.subrange(at + a.len(), at + a.len() + b.len()) == b
            &&& text.subrange(at + a.len() + b.len(), text.len() as int) == behind
            &&& a.len() > 0 ==> text[at] == a[0]
            &&& b.len() > 0 ==> text[at + a.len()] == b[0]
            &&& behind.len() > 0 ==> text[at + a.len() + b.len()] == behind[0]
        }),
{
}

/// A token that stands at `at`, with no character of its own behind it, is
/// the run that starts there.
proof fn lemma_token_at<T: Consumable>(text: Seq<char>, at: int, token: Seq<char>)
    requires
        0 <= at,
        at + token.len() <= text.len(),
        text.subrange(at, at + token.len()) == token,
        all_accepted::<T>(token),
        at + token.len() < text.len() ==> !T::accepts(text[at + token.len()]),
    ensures
        run_end::<T>(text, at) == at + token.len(),
{
    assert forall|i: int| at <= i < at + token.len() implies T::accepts(#[trigger] text[i]) by {
        assert(text[i] == token[i - at]);
    }
    lemma_run_end_unique::<T>(text, at, at + token.len());
}

/// The trailing padding of a well-formed definition, and its comment, are
/// read from its text as they stand in it.
proof fn lemma_reparse_end(
    text: Seq<char>,
    name: Seq<char>,
    found: Seq<(Seq<char>, Seq<char>)>,
    padding: Seq<char>,
    comment: Option<Seq<char>>,
)
    requires
        valid_token::<Whitespace>(padding),
        found.len() > 0,
        text == name + render_versions(found) + render_tail(Some(padding), comment),
    ensures
        parse_versions(text, name, (name + render_versions(found)).len() as int, found) == (
        LineView::ToolDefinition { name, versions: found, whitespace: Some(padding), comment }),
{
    let prefix = name + render_versions(found);
    let at = prefix.len() as int;
    match comment {
        Some(c) => {
            let hash = seq!['#'];
            lemma_parts(prefix, padding, hash, c);
            assert(text =~= prefix + padding + hash + c);
            lemma_token_at::<Whitespace>(text, at, padding);
        },
        None => {
            let none = Seq::<char>::empty();
            lemma_parts(prefix, padding, none, none);
            lemma_token_at::<Whitespace>(text, at, padding);
        },
    }
}

/// One version of a well-formed definition, with its padding, is read from
/// the text as it stands in it.
proof fn lemma_reparse_step(
    text: Seq<char>,
    prefix: Seq<char>,
    padding: Seq<char>,
    version: Seq<char>,
    behind: Seq<char>,
)
    requires
        valid_token::<Whitespace>(padding),
        valid_token::<Version>(version),
        behind.len() > 0 ==> space_char(behind[0]) || behind[0] == '#',
        text == prefix + padding + version + behind,
    ensures
        ({
            let at = prefix.len() as int;
            let pad_end = at + padding.len();
            let end = pad_end + version.len();
            &&& at < pad_end < end <= text.len()
            &&& space_char(text[at])
            &&& run_end::<Whitespace>(text, at) == pad_end
            &&& text.subrange(at, pad_end) == padding
            &&& Version::accepts(text[pad_end])
            &&& text[pad_end] != '#'
            &&& run_end::<Version>(text, pad_end) == end
            &&& text.subrange(pad_end, end) == version
            &&& end == text.len() <==> behind.len() == 0
            &&& end < text.len() ==> text[end] == behind[0]
            &&& text.subrange(end, text.len() as int) == behind
        }),
{
    let at = prefix.len() as int;
    let pad_end = at + padding.len();
    lemma_parts(prefix, padding, version, behind);
    lemma_token_at::<Whitespace>(text, at, padding);
    lemma_token_at::<Version>(text, pad_end, version);
}

/// The versions of a well-formed definition are read from its text as they
/// stand in it, with the end of the line behind them.
proof fn lemma_reparse_versions(
    text: Seq<char>,
    name: Seq<char>,
    found: Seq<(Seq<char>, Seq<char>)>,
    todo: Seq<(Seq<char>, Seq<char>)>,
    whitespace: Option<Seq<char>>,
    comment: Option<Seq<char>>,
)
    requires
        versions_wf(todo),
        padding_wf(whitespace),
        text == name + render_versions(found) + rest_text(todo, whitespace, comment),
        todo.len() > 0,
    ensures
        parse_versions(text, name, (name + render_versions(found)).len() as int, found) == (
        LineView::ToolDefinition { name, versions: found + todo, whitespace, comment }),
    decreases todo.len(),
{
    let prefix = name + render_versions(found);
    let padding = todo[0].0;
    let version = todo[0].1;
    let rest = todo.drop_first();
    let behind = rest_text(rest, whitespace, comment);
    let versions = found.push((padding, version));
    let end = (prefix.len() + padding.len() + version.len()) as int;
    lemma_rest_text_first(todo, whitespace, comment);
    assert(valid_token::<Whitespace>(padding) && valid_token::<Version>(version));
    assert(versions_wf(rest)) by {
        assert forall|i: int| 0 <= i < rest.len() implies valid_token::<Whitespace>(
            (#[trigger] rest[i]).0,
        ) && valid_token::<Version>(rest[i].1) by {
            assert(rest[i] == todo[i + 1]);
        }
    }
    lemma_rest_text_head(rest, whitespace, comment);
    assert(text =~= prefix + padding + version + behind);
    lemma_reparse_step(text, prefix, padding, version, behind);
    lemma_render_versions_push(found, padding, version);
    assert(versions + rest =~= found + todo);
    assert(name + render_versions(versions) =~= prefix + padding + version);
    assert(text =~= name + render_versions(versions) + behind);
    if rest.len() > 0 {
        lemma_reparse_versions(text, name, versions, rest, whitespace, comment);
    } else {
        assert(versions =~= found + todo);
        assert(behind =~= render_tail(whitespace, comment));
        match whitespace {
            Some(w) => {
                lemma_reparse_end(text, name, versions, w, comment);
            },
            None => {
                match comment {
                    Some(c) => {
                        assert(behind =~= seq!['#'] + c);
                        assert(text.subrange(end + 1, text.len() as int) =~= c) by {
                            assert(text.subrange(end, text.len() as int) == behind);
                            assert forall|i: int| 0 <= i < c.len() implies text[end + 1 + i]
                                == #[trigger] c[i] by {
                                assert(behind[i + 1] == c[i]);
                                assert(text.subrange(end, text.len() as int)[i + 1]
                                    == text[end + 1 + i]);
                            }
                        }
                    },
                    None => {},
                }
            },
        }
    }
}

/// A well-formed line without a tool is read from its text as it is.
proof fn lemma_reparse_blank(
    whitespace: Option<Seq<char>>,
    comment: Option<Seq<char>>,
    seen: Set<Seq<char>>,
)
    requires
        padding_wf(whitespace),
    ensures
        parse_line_spec(render_tail(whitespace, comment), seen) == (LineView::Empty {
            whitespace,
            comment,
        }),
        declared_name(render_tail(whitespace, comment)) is None,
{
    let text = render_tail(whitespace, comment);
    let padding = match whitespace {
        Some(w) => w,
        None => Seq::empty(),
    };
    let pad_end = padding.len() as int;
    if let Some(c) = comment {
        lemma_run_end_unique::<Whitespace>(text, 0, pad_end);
        assert(text.subrange(pad_end + 1, text.len() as int) =~= c);
    } else {
        lemma_run_end_unique::<Whitespace>(text, 0, pad_end);
    }
    if pad_end > 0 {
        assert(text.subrange(0, pad_end) =~= padding);
    }
}

/// A well-formed line that was not kept verbatim is read from its text as
/// it is, where no earlier line declared its tool; and its text declares
/// the tool that it defines, and no other.
pub proof fn lemma_reparse_line(line: LineView, seen: Set<Seq<char>>)
    requires
        line_wf(line),
        line !is Invalid,
        line matches LineView::ToolDefinition { name, .. } ==> !seen.contains(name),
    ensures
        parse_line_spec(render(line), seen) == line,
        declared_name(render(line)) == match line {
            LineView::ToolDefinition { name, .. } => Some(name),
            _ => None,
        },
{
    match line {
        LineView::ToolDefinition { name, versions, whitespace, comment } => {
            let text = render(line);
            let behind = rest_text(versions, whitespace, comment);
            lemma_rest_text_head(versions, whitespace, comment);
            assert(text =~= name + behind);
            let end = name.len() as int;
            lemma_run_end_unique::<Identifier>(text, 0, end);
            assert(text.subrange(0, end) =~= name);
            let none = Seq::<(Seq<char>, Seq<char>)>::empty();
            lemma_reparse_versions(text, name, none, versions, whitespace, comment);
        },
        LineView::Empty { whitespace, comment } => {
            lemma_reparse_blank(whitespace, comment, seen);
        },
        LineView::Invalid { .. } => {},
    }
}

/// Writing loses nothing either: a rereadable document in which every tool
/// is defined once is read from its text as the document that it is.
pub proof fn lemma_read_written(doc: Seq<LineView>)
    requires
        rereadable(doc),
        unique_definitions(doc),
    ensures
        parse_spec(serialize(doc)) == doc,
{
    let lines = renders(doc);
    lemma_lines_of_written(doc);
    assert forall|i: int| 0 <= i < doc.len() implies parse_lines(lines)[i] == doc[i] by {
        let seen = declared_names(lines.take(i));
        if doc[i] is ToolDefinition && seen.contains(doc[i]->name) {
            let j = choose|j: int|
                0 <= j < lines.take(i).len() && declared_name(#[trigger] lines.take(i)[j]) == Some(
                    doc[i]->name,
                );
            lemma_reparse_line(doc[j], Set::empty());
        }
        lemma_reparse_line(doc[i], seen);
    }
}

} // verus!
