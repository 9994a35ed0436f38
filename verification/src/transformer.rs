//! The editor: a new document in which one tool has other versions, and
//! every other line stands as it stood.

use crate::ast::{
    clone_padding, clone_text, defines, doc_wf, has_definition, line_wf, lines_view, pairs_view,
    unique_definitions, valid_token, versions_wf, Identifier, Line, LineView, Node, Version,
    Versions, Whitespace, AST,
};
use vstd::prelude::*;

verus! {

/// The texts of the versions `versions`, in their order.
pub open spec fn versions_view(versions: Seq<Version>) -> Seq<Seq<char>> {
    Seq::new(versions.len(), |i: int| versions[i]@)
}

/// The padding of a version for which the line held none: one space.
pub open spec fn default_padding() -> Seq<char> {
    seq![' ']
}

/// The versions `versions` with their paddings: the version at an index
/// keeps the padding that `old` has at that index, and gets one space where
/// `old` has none. What `old` holds beyond the new versions is dropped.
pub open spec fn padded(old: Seq<(Seq<char>, Seq<char>)>, versions: Seq<Seq<char>>) -> Seq<
    (Seq<char>, Seq<char>),
> {
    Seq::new(
        versions.len(),
        |i: int|
            (
                if i < old.len() {
                    old[i].0
                } else {
                    default_padding()
                },
                versions[i],
            ),
    )
}

/// The definition `line` with the versions `versions`: name, trailing
/// padding and comment stay. Another line stays as it is.
pub open spec fn rewritten(line: LineView, versions: Seq<Seq<char>>) -> LineView {
    match line {
        LineView::ToolDefinition { name, versions: old, whitespace, comment } => {
            LineView::ToolDefinition { name, versions: padded(old, versions), whitespace, comment }
        },
        _ => line,
    }
}

/// The line that defines `name` afresh: one space before each version,
/// nothing behind the last.
pub open spec fn new_definition(name: Seq<char>, versions: Seq<Seq<char>>) -> LineView {
    LineView::ToolDefinition {
        name,
        versions: padded(Seq::empty(), versions),
        whitespace: None,
        comment: None,
    }
}

/// The lines that stay when `name` is removed: all but its definitions.
pub open spec fn kept(name: Seq<char>) -> spec_fn(LineView) -> bool {
    |line: LineView| !defines(line, name)
}

/// What becomes of a line when `name` gets the versions `versions`.
pub open spec fn edited(name: Seq<char>, versions: Seq<Seq<char>>) -> spec_fn(LineView) -> LineView {
    |line: LineView|
        if defines(line, name) {
            rewritten(line, versions)
        } else {
            line
        }
}

/// The document `doc` in which the tool `name` has the versions `versions`.
///
/// Without versions the definition of `name` leaves the document. With
/// versions it is rewritten where it stands, and a document that has none
/// gets one as its last line. Lines that do not define `name` stay as they
/// are, in their order: lines kept verbatim too, whatever name they hold.
pub open spec fn set_versions_spec(
    doc: Seq<LineView>,
    name: Seq<char>,
    versions: Seq<Seq<char>>,
) -> Seq<LineView> {
    if versions.len() == 0 {
        doc.filter(kept(name))
    } else if has_definition(doc, name) {
        doc.map_values(edited(name, versions))
    } else {
        doc.push(new_definition(name, versions))
    }
}

/// The versions `versions`, each behind the padding that `old` has at its
/// index, or behind one space.
fn pad(old: &Vec<(Whitespace, Version)>, versions: &Vec<Version>) -> (pairs: Vec<
    (Whitespace, Version),
>)
    ensures
        pairs_view(pairs@) == padded(pairs_view(old@), versions_view(versions@)),
{
    let mut pairs: Vec<(Whitespace, Version)> = Vec::new();
    let mut i: usize = 0;
    while i < versions.len()
        invariant
            i <= versions@.len(),
            pairs_view(pairs@) == padded(pairs_view(old@), versions_view(versions@)).take(i as int),
        decreases versions@.len() - i,
    {
        let padding = if i < old.len() {
            old[i].0.clone()
        } else {
            Whitespace::single_space()
        };
        let ghost before = pairs@;
        pairs.push((padding, versions[i].clone()));
        proof {
            let all = padded(pairs_view(old@), versions_view(versions@));
            assert(pairs_view(pairs@) =~= pairs_view(before).push(all[i as int]));
            assert(all.take(i + 1) =~= all.take(i as int).push(all[i as int]));
        }
        i += 1;
    }
    assert(padded(pairs_view(old@), versions_view(versions@)).take(i as int) =~= padded(
        pairs_view(old@),
        versions_view(versions@),
    ));
    pairs
}

/// Whether `line` defines the tool `name`.
fn is_definition_of(line: &Line, name: &Identifier) -> (found: bool)
    ensures
        found == defines(line@, name@),
{
    match line {
        Line::ToolDefinition { name: defined, .. } => defined.same_as(name),
        _ => false,
    }
}

/// The document `ast` in which the tool `tool_name` has the versions
/// `versions`; `ast` itself stays as it is.
///
/// With no versions the definition of the tool is removed, and a document
/// without one comes back equal. With versions the definition is rewritten
/// in its place: each version takes the padding that stood at its index, or
/// one space where none stood, and the line keeps its trailing padding and
/// its comment. Where no line defines the tool, a new definition becomes the
/// last line. Every other line comes back equal.
pub fn set_versions(ast: &AST, tool_name: Identifier, versions: Vec<Version>) -> (edited_ast: AST)
    ensures
        edited_ast@ == set_versions_spec(ast@, tool_name@, versions_view(versions@)),
        doc_wf(ast@) && valid_token::<Identifier>(tool_name@) && (forall|i: int|
            0 <= i < versions@.len() ==> valid_token::<Version>((#[trigger] versions@[i])@))
            ==> doc_wf(edited_ast@),
{
    proof {
        if doc_wf(ast@) && valid_token::<Identifier>(tool_name@) && (forall|i: int|
            0 <= i < versions@.len() ==> valid_token::<Version>((#[trigger] versions@[i])@)) {
            assert forall|i: int| 0 <= i < versions_view(versions@).len() implies valid_token::<
                Version,
            >(#[trigger] versions_view(versions@)[i]) by {
                assert(valid_token::<Version>(versions@[i]@));
            }
            lemma_set_versions_wf(ast@, tool_name@, versions_view(versions@));
        }
    }
    let ghost doc = ast@;
    let ghost name = tool_name@;
    let ghost values = versions_view(versions@);
    let mut lines: Vec<Line> = Vec::new();
    let mut i: usize = 0;
    if versions.len() == 0 {
        assert(doc.take(0) =~= Seq::empty());
        assert(lines_view(lines@) =~= doc.take(0).filter(kept(name)));
        while i < ast.lines.len()
            invariant
                i <= ast.lines@.len(),
                doc == ast@,
                name == tool_name@,
                lines_view(lines@) == doc.take(i as int).filter(kept(name)),
            decreases ast.lines@.len() - i,
        {
            let ghost before = lines@;
            proof {
                assert(doc.take(i + 1) =~= doc.take(i as int).push(doc[i as int]));
                doc.take(i as int).lemma_filter_push(doc[i as int], kept(name));
            }
            if !is_definition_of(&ast.lines[i], &tool_name) {
                lines.push(ast.lines[i].clone());
                assert(lines_view(lines@) =~= lines_view(before).push(doc[i as int]));
            }
            i += 1;
        }
        assert(doc.take(i as int) =~= doc);
        return AST { lines };
    }
    let mut found = false;
    assert(lines_view(lines@) =~= doc.take(0).map_values(edited(name, values)));
    while i < ast.lines.len()
        invariant
            i <= ast.lines@.len(),
            doc == ast@,
            name == tool_name@,
            values == versions_view(versions@),
            lines_view(lines@) == doc.take(i as int).map_values(edited(name, values)),
            found == has_definition(doc.take(i as int), name),
        decreases ast.lines@.len() - i,
    {
        let ghost before = lines@;
        let ghost was_found = found;
        let line = &ast.lines[i];
        let defined = is_definition_of(line, &tool_name);
        let next = match line {
            Line::ToolDefinition { name: defined_name, versions: old, whitespace, comment } => {
                if defined {
                    Line::ToolDefinition {
                        name: defined_name.clone(),
                        versions: Versions::new(pad(old.value(), &versions)),
                        whitespace: clone_padding(whitespace),
                        comment: clone_text(comment),
                    }
                } else {
                    line.clone()
                }
            },
            _ => line.clone(),
        };
        assert(next@ == edited(name, values)(doc[i as int]));
        lines.push(next);
        found = found || defined;
        proof {
            let more = doc.take(i + 1);
            assert(more =~= doc.take(i as int).push(doc[i as int]));
            assert(lines_view(lines@) =~= lines_view(before).push(
                edited(name, values)(doc[i as int]),
            ));
            assert(more.map_values(edited(name, values)) =~= doc.take(i as int).map_values(
                edited(name, values),
            ).push(edited(name, values)(doc[i as int])));
            if was_found {
                let k = choose|k: int|
                    0 <= k < doc.take(i as int).len() && defines(
                        #[trigger] doc.take(i as int)[k],
                        name,
                    );
                assert(more[k] == doc.take(i as int)[k]);
            } else if defined {
                assert(more[i as int] == doc[i as int]);
            } else if has_definition(more, name) {
                let k = choose|k: int| 0 <= k < more.len() && defines(#[trigger] more[k], name);
                if k < i {
                    assert(doc.take(i as int)[k] == more[k]);
                }
            }
        }
        i += 1;
    }
    assert(doc.take(i as int) =~= doc);
    if !found {
        let ghost before = lines@;
        let empty: Vec<(Whitespace, Version)> = Vec::new();
        assert(pairs_view(empty@) =~= Seq::empty());
        lines.push(
            Line::ToolDefinition {
                name: tool_name,
                versions: Versions::new(pad(&empty, &versions)),
                whitespace: None,
                comment: None,
            },
        );
        proof {
            assert(doc.map_values(edited(name, values)) =~= doc) by {
                assert forall|k: int| 0 <= k < doc.len() implies !defines(#[trigger] doc[k], name) by {}
            }
            assert(lines_view(lines@) =~= lines_view(before).push(new_definition(name, values)));
        }
    }
    AST { lines }
}

/// Removing a tool from lines that do not define it keeps them all.
pub proof fn lemma_keep_all(doc: Seq<LineView>, name: Seq<char>)
    requires
        !has_definition(doc, name),
    ensures
        doc.filter(kept(name)) == doc,
    decreases doc.len(),
{
    if doc.len() == 0 {
        reveal(Seq::filter);
    } else {
        let before = doc.drop_last();
        assert(doc =~= before.push(doc.last()));
        assert(!has_definition(before, name)) by {
            if has_definition(before, name) {
                let k = choose|k: int| 0 <= k < before.len() && defines(#[trigger] before[k], name);
                assert(doc[k] == before[k]);
            }
        }
        assert(!defines(doc[doc.len() - 1], name));
        lemma_keep_all(before, name);
        before.lemma_filter_push(doc.last(), kept(name));
    }
}

/// Removing the versions of a tool that the document does not define
/// changes nothing.
pub proof fn lemma_remove_absent(doc: Seq<LineView>, name: Seq<char>)
    requires
        !has_definition(doc, name),
    ensures
        set_versions_spec(doc, name, Seq::empty()) == doc,
{
    lemma_keep_all(doc, name);
}

/// Where each tool is defined once, removing the versions of a tool removes
/// the one line that defines it: the lines before and behind it stay as they
/// are, in their order.
pub proof fn lemma_remove_one(doc: Seq<LineView>, name: Seq<char>, at: int)
    requires
        unique_definitions(doc),
        0 <= at < doc.len(),
        defines(doc[at], name),
    ensures
        set_versions_spec(doc, name, Seq::empty()) == doc.remove(at),
    decreases doc.len(),
{
    let before = doc.drop_last();
    let last = doc.last();
    assert(doc =~= before.push(last));
    before.lemma_filter_push(last, kept(name));
    if at == doc.len() - 1 {
        assert(!has_definition(before, name)) by {
            if has_definition(before, name) {
                let k = choose|k: int| 0 <= k < before.len() && defines(#[trigger] before[k], name);
                assert(doc[k] == before[k]);
            }
        }
        lemma_keep_all(before, name);
        assert(doc.remove(at) =~= before);
    } else {
        assert(!defines(last, name));
        assert(unique_definitions(before)) by {
            assert forall|i: int, j: int|
                0 <= i < j < before.len() && (#[trigger] before[i]) is ToolDefinition && (
                #[trigger] before[j]) is ToolDefinition implies before[i]->name
                != before[j]->name by {
                assert(before[i] == doc[i] && before[j] == doc[j]);
            }
        }
        assert(before[at] == doc[at]);
        lemma_remove_one(before, name, at);
        assert(doc.remove(at) =~= before.remove(at).push(last));
    }
}

/// Where each tool is defined once, giving a defined tool versions
/// rewrites the one line that defines it: every other line stays as it is.
pub proof fn lemma_rewrite_one(
    doc: Seq<LineView>,
    name: Seq<char>,
    versions: Seq<Seq<char>>,
    at: int,
)
    requires
        unique_definitions(doc),
        0 <= at < doc.len(),
        defines(doc[at], name),
        versions.len() > 0,
    ensures
        set_versions_spec(doc, name, versions) == doc.update(at, rewritten(doc[at], versions)),
{
}

/// Giving versions to a tool that no line defines adds its definition as
/// the last line: one space before each version, and nothing else.
pub proof fn lemma_add_one(doc: Seq<LineView>, name: Seq<char>, versions: Seq<Seq<char>>)
    requires
        !has_definition(doc, name),
        versions.len() > 0,
    ensures
        set_versions_spec(doc, name, versions) == doc.push(new_definition(name, versions)),
        forall|i: int|
            0 <= i < versions.len() ==> (#[trigger] new_definition(name, versions)->versions[i])
                == (default_padding(), versions[i]),
{
}

/// Paddings stay where they are: in the rewritten definition the version
/// at an index stands behind the padding that stood at that index, and
/// behind one space where the line had no version there. Name, trailing
/// padding and comment of the line stay, and its versions are the new ones.
pub proof fn lemma_paddings_kept(
    doc: Seq<LineView>,
    name: Seq<char>,
    versions: Seq<Seq<char>>,
    at: int,
)
    requires
        0 <= at < doc.len(),
        defines(doc[at], name),
        versions.len() > 0,
    ensures
        set_versions_spec(doc, name, versions).len() == doc.len(),
        set_versions_spec(doc, name, versions)[at] matches LineView::ToolDefinition {
            name: new_name,
            versions: new_versions,
            whitespace,
            comment,
        } && {
            &&& new_name == name
            &&& whitespace == doc[at]->ToolDefinition_whitespace
            &&& comment == doc[at]->ToolDefinition_comment
            &&& new_versions.len() == versions.len()
            &&& forall|i: int|
                0 <= i < versions.len() ==> (#[trigger] new_versions[i]).1 == versions[i]
            &&& forall|i: int|
                0 <= i < versions.len() && i < doc[at]->versions.len() ==> (
                #[trigger] new_versions[i]).0 == doc[at]->versions[i].0
            &&& forall|i: int|
                doc[at]->versions.len() <= i < versions.len() ==> (#[trigger] new_versions[i]).0
                    == default_padding()
        },
{
}

/// The versions of a rewritten or new definition are well formed.
proof fn lemma_padded_wf(old: Seq<(Seq<char>, Seq<char>)>, versions: Seq<Seq<char>>)
    requires
        versions_wf(old),
        forall|i: int| 0 <= i < versions.len() ==> valid_token::<Version>(#[trigger] versions[i]),
    ensures
        versions_wf(padded(old, versions)),
{
    assert(padded(old, versions).len() == versions.len());
}

/// Editing keeps the invariant: a well-formed document in which a name gets
/// versions, all of them well formed, is a well-formed document.
pub proof fn lemma_set_versions_wf(doc: Seq<LineView>, name: Seq<char>, versions: Seq<Seq<char>>)
    requires
        doc_wf(doc),
        valid_token::<Identifier>(name),
        forall|i: int| 0 <= i < versions.len() ==> valid_token::<Version>(#[trigger] versions[i]),
    ensures
        doc_wf(set_versions_spec(doc, name, versions)),
{
    let result = set_versions_spec(doc, name, versions);
    if has_definition(doc, name) {
        let at = choose|k: int| 0 <= k < doc.len() && defines(#[trigger] doc[k], name);
        if versions.len() == 0 {
            lemma_remove_one(doc, name, at);
            assert forall|i: int| 0 <= i < result.len() implies line_wf(#[trigger] result[i]) by {}
        } else {
            lemma_padded_wf(doc[at]->versions, versions);
            assert forall|i: int| 0 <= i < result.len() implies line_wf(#[trigger] result[i]) by {}
        }
    } else if versions.len() == 0 {
        lemma_remove_absent(doc, name);
    } else {
        lemma_padded_wf(Seq::empty(), versions);
    }
}

} // verus!
