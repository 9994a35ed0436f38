//! What a document answers: the errors of its lines, and the versions of a
//! tool. And what an edit does to both.

use crate::ast::{defines, has_definition, LineView, SyntaxErrorView};
use crate::transformer::{
    edited, kept, new_definition, rewritten, set_versions_spec,
};
use vstd::prelude::*;

verus! {

/// The errors of the lines of `doc` that were kept verbatim, in the order
/// of the lines.
pub open spec fn errors_spec(doc: Seq<LineView>) -> Seq<SyntaxErrorView>
    decreases doc.len(),
{
    if doc.len() == 0 {
        Seq::empty()
    } else {
        match doc.last() {
            LineView::Invalid { error, .. } => errors_spec(doc.drop_last()).push(error),
            _ => errors_spec(doc.drop_last()),
        }
    }
}

/// The versions of a definition, without their paddings.
pub open spec fn version_texts(versions: Seq<(Seq<char>, Seq<char>)>) -> Seq<Seq<char>> {
    Seq::new(versions.len(), |i: int| versions[i].1)
}

/// The versions that `doc` gives the tool `name`: those of the first line
/// that defines it, or nothing where no line does.
pub open spec fn lookup_spec(doc: Seq<LineView>, name: Seq<char>) -> Option<Seq<Seq<char>>>
    decreases doc.len(),
{
    if doc.len() == 0 {
        None
    } else if defines(doc[0], name) {
        Some(version_texts(doc[0]->versions))
    } else {
        lookup_spec(doc.drop_first(), name)
    }
}

/// A tool has versions in the documents that define it, and in no others.
pub proof fn lemma_lookup_is_some(doc: Seq<LineView>, name: Seq<char>)
    ensures
        lookup_spec(doc, name) is Some <==> has_definition(doc, name),
    decreases doc.len(),
{
    if doc.len() > 0 {
        let rest = doc.drop_first();
        lemma_lookup_is_some(rest, name);
        if !defines(doc[0], name) && !has_definition(rest, name) && has_definition(doc, name) {
            let k = choose|k: int| 0 <= k < doc.len() && defines(#[trigger] doc[k], name);
            assert(rest[k - 1] == doc[k]);
        }
    }
}

/// The versions that a tool has are those of the first line that defines
/// it.
pub proof fn lemma_lookup_is_first(doc: Seq<LineView>, name: Seq<char>, at: int)
    requires
        0 <= at < doc.len(),
        defines(doc[at], name),
        forall|i: int| 0 <= i < at ==> !defines(#[trigger] doc[i], name),
    ensures
        lookup_spec(doc, name) == Some(version_texts(doc[at]->versions)),
    decreases doc.len(),
{
    if at > 0 {
        lemma_lookup_is_first(doc.drop_first(), name, at - 1);
    }
}

/// What was set is what is looked up: after an edit the tool has the
/// versions that it was given, and none where it was given none.
pub proof fn lemma_lookup_after_set(doc: Seq<LineView>, name: Seq<char>, versions: Seq<Seq<char>>)
    ensures
        lookup_spec(set_versions_spec(doc, name, versions), name) == if versions.len() == 0 {
            None
        } else {
            Some(versions)
        },
    decreases doc.len(),
{
    if versions.len() == 0 {
        lemma_lookup_is_some(set_versions_spec(doc, name, versions), name);
    } else if has_definition(doc, name) {
        lemma_lookup_rewritten(doc, name, versions);
    } else {
        lemma_lookup_added(doc, name, versions);
    }
}

/// The rewritten definition gives the new versions.
proof fn lemma_lookup_rewritten(doc: Seq<LineView>, name: Seq<char>, versions: Seq<Seq<char>>)
    requires
        has_definition(doc, name),
    ensures
        lookup_spec(doc.map_values(edited(name, versions)), name) == Some(versions),
    decreases doc.len(),
{
    let result = doc.map_values(edited(name, versions));
    let at = choose|k: int| 0 <= k < doc.len() && defines(#[trigger] doc[k], name);
    if !defines(doc[0], name) {
        let rest = doc.drop_first();
        assert(rest[at - 1] == doc[at]);
        assert(result.drop_first() =~= rest.map_values(edited(name, versions)));
        lemma_lookup_rewritten(rest, name, versions);
    }
}

/// The added definition gives the new versions.
proof fn lemma_lookup_added(doc: Seq<LineView>, name: Seq<char>, versions: Seq<Seq<char>>)
    requires
        !has_definition(doc, name),
    ensures
        lookup_spec(doc.push(new_definition(name, versions)), name) == Some(versions),
    decreases doc.len(),
{
    let result = doc.push(new_definition(name, versions));
    if doc.len() > 0 {
        let rest = doc.drop_first();
        assert(result.drop_first() =~= rest.push(new_definition(name, versions)));
        lemma_lookup_added(rest, name, versions);
    }
}

/// An edit of one tool leaves the versions of every other tool as they
/// were.
pub proof fn lemma_lookup_of_others(
    doc: Seq<LineView>,
    name: Seq<char>,
    versions: Seq<Seq<char>>,
    other: Seq<char>,
)
    requires
        other != name,
    ensures
        lookup_spec(set_versions_spec(doc, name, versions), other) == lookup_spec(doc, other),
{
    if versions.len() == 0 {
        lemma_lookup_kept(doc, name, other);
    } else if has_definition(doc, name) {
        lemma_lookup_edited(doc, name, versions, other);
    } else {
        lemma_lookup_pushed(doc, new_definition(name, versions), other);
    }
}

/// Lines that leave with one tool hold no versions of another.
proof fn lemma_lookup_kept(doc: Seq<LineView>, name: Seq<char>, other: Seq<char>)
    requires
        other != name,
    ensures
        lookup_spec(doc.filter(kept(name)), other) == lookup_spec(doc, other),
    decreases doc.len(),
{
    if doc.len() > 0 {
        let rest = doc.drop_first();
        assert(doc =~= seq![doc[0]] + rest);
        rest.lemma_filter_prepend(doc[0], kept(name));
        lemma_lookup_kept(rest, name, other);
        if kept(name)(doc[0]) {
            let result = seq![doc[0]] + rest.filter(kept(name));
            assert(result.drop_first() =~= rest.filter(kept(name)));
        }
    }
}

/// A rewritten definition of one tool holds no versions of another.
proof fn lemma_lookup_edited(
    doc: Seq<LineView>,
    name: Seq<char>,
    versions: Seq<Seq<char>>,
    other: Seq<char>,
)
    requires
        other != name,
    ensures
        lookup_spec(doc.map_values(edited(name, versions)), other) == lookup_spec(doc, other),
    decreases doc.len(),
{
    if doc.len() > 0 {
        let rest = doc.drop_first();
        let result = doc.map_values(edited(name, versions));
        assert(result.drop_first() =~= rest.map_values(edited(name, versions)));
        lemma_lookup_edited(rest, name, versions, other);
    }
}

/// A line behind the others that does not define a tool changes none of
/// its versions.
proof fn lemma_lookup_pushed(doc: Seq<LineView>, line: LineView, other: Seq<char>)
    requires
        !defines(line, other),
    ensures
        lookup_spec(doc.push(line), other) == lookup_spec(doc, other),
    decreases doc.len(),
{
    if doc.len() == 0 {
        assert(doc.push(line).drop_first() =~= doc);
    } else {
        assert(doc.push(line).drop_first() =~= doc.drop_first().push(line));
        lemma_lookup_pushed(doc.drop_first(), line, other);
    }
}

/// An edit touches no line that was kept verbatim: the errors of the
/// document stay as they were, in their order.
pub proof fn lemma_errors_after_set(doc: Seq<LineView>, name: Seq<char>, versions: Seq<Seq<char>>)
    ensures
        errors_spec(set_versions_spec(doc, name, versions)) == errors_spec(doc),
{
    if versions.len() == 0 {
        lemma_errors_kept(doc, name);
    } else if has_definition(doc, name) {
        lemma_errors_edited(doc, name, versions);
    } else {
        let line = new_definition(name, versions);
        assert(doc.push(line).drop_last() =~= doc);
    }
}

/// Lines that leave with a tool were not kept verbatim.
proof fn lemma_errors_kept(doc: Seq<LineView>, name: Seq<char>)
    ensures
        errors_spec(doc.filter(kept(name))) == errors_spec(doc),
    decreases doc.len(),
{
    if doc.len() > 0 {
        let before = doc.drop_last();
        assert(doc =~= before.push(doc.last()));
        before.lemma_filter_push(doc.last(), kept(name));
        lemma_errors_kept(before, name);
        if kept(name)(doc.last()) {
            assert(before.filter(kept(name)).push(doc.last()).drop_last() =~= before.filter(
                kept(name),
            ));
        }
    }
}

/// A rewritten definition was not kept verbatim.
proof fn lemma_errors_edited(doc: Seq<LineView>, name: Seq<char>, versions: Seq<Seq<char>>)
    ensures
        errors_spec(doc.map_values(edited(name, versions))) == errors_spec(doc),
    decreases doc.len(),
{
    if doc.len() > 0 {
        let result = doc.map_values(edited(name, versions));
        assert(result.drop_last() =~= doc.drop_last().map_values(edited(name, versions)));
        lemma_errors_edited(doc.drop_last(), name, versions);
    }
}

} // verus!
