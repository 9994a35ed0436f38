//! The serializer: a document back to text, each line as its tokens stand.

use crate::ast::{pairs_view, text_of, Line, LineView, Node, Unparsed, Whitespace, AST};
use vstd::prelude::*;

verus! {

/// The versions of a definition as text: each padding followed by its
/// version, in order.
pub open spec fn render_versions(versions: Seq<(Seq<char>, Seq<char>)>) -> Seq<char>
    decreases versions.len(),
{
    if versions.len() == 0 {
        Seq::empty()
    } else {
        render_versions(versions.drop_last()) + versions.last().0 + versions.last().1
    }
}

/// The end of a line as text: the padding, where there is any, then `#` and
/// the comment, where there is one.
pub open spec fn render_tail(whitespace: Option<Seq<char>>, comment: Option<Seq<char>>) -> Seq<
    char,
> {
    let padding = match whitespace {
        Some(w) => w,
        None => Seq::empty(),
    };
    match comment {
        Some(c) => padding + seq!['#'] + c,
        None => padding,
    }
}

/// One line as text, without a line feed. A definition is its name, its
/// versions and its end; a line without a tool is its end; a line kept
/// verbatim is its text.
pub open spec fn render(line: LineView) -> Seq<char> {
    match line {
        LineView::ToolDefinition { name, versions, whitespace, comment } => name + render_versions(
            versions,
        ) + render_tail(whitespace, comment),
        LineView::Empty { whitespace, comment } => render_tail(whitespace, comment),
        LineView::Invalid { error, unparsed } => unparsed,
    }
}

/// A document as text: every line followed by one line feed. So the lines
/// are joined by line feeds and one more ends the text, and the document
/// without lines is the empty text.
pub open spec fn serialize(doc: Seq<LineView>) -> Seq<char>
    decreases doc.len(),
{
    if doc.len() == 0 {
        Seq::empty()
    } else {
        serialize(doc.drop_last()) + render(doc.last()) + seq!['\n']
    }
}

/// Appends the end of a line to `text`.
fn push_tail(text: &mut String, whitespace: &Option<Whitespace>, comment: &Option<Unparsed>)
    ensures
        final(text)@ == old(text)@ + render_tail(text_of(*whitespace), text_of(*comment)),
{
    if let Some(padding) = whitespace {
        text.append(padding.value().as_str());
    }
    if let Some(words) = comment {
        proof {
            reveal_strlit("#");
        }
        text.append("#");
        text.append(words.value().as_str());
    }
}

impl Line {
    /// The line as text, without a line feed.
    pub fn to_string(&self) -> (text: String)
        ensures
            text@ == render(self@),
    {
        match self {
            Line::ToolDefinition { name, versions, whitespace, comment } => {
                let mut text = name.value().clone();
                let pairs = versions.value();
                let mut i: usize = 0;
                while i < pairs.len()
                    invariant
                        i <= pairs@.len(),
                        pairs_view(pairs@) == versions@,
                        text@ == name@ + render_versions(versions@.take(i as int)),
                    decreases pairs@.len() - i,
                {
                    text.append(pairs[i].0.value().as_str());
                    text.append(pairs[i].1.value().as_str());
                    proof {
                        let more = versions@.take(i + 1);
                        assert(more.drop_last() =~= versions@.take(i as int));
                    }
                    i += 1;
                }
                assert(versions@.take(i as int) =~= versions@);
                push_tail(&mut text, whitespace, comment);
                text
            },
            Line::Empty { whitespace, comment } => {
                let mut text = String::new();
                push_tail(&mut text, whitespace, comment);
                text
            },
            Line::Invalid { error, unparsed } => unparsed.value().clone(),
        }
    }
}

/// The document as text: every line as its tokens stand, each followed by
/// one line feed. The document without lines gives the empty text.
pub fn write(ast: &AST) -> (text: String)
    ensures
        text@ == serialize(ast@),
{
    let mut result = String::new();
    let mut i: usize = 0;
    while i < ast.lines.len()
        invariant
            i <= ast.lines@.len(),
            result@ == serialize(ast@.take(i as int)),
        decreases ast.lines@.len() - i,
    {
        let line = ast.lines[i].to_string();
        proof {
            reveal_strlit("\n");
        }
        result.append(line.as_str());
        result.append("\n");
        proof {
            let more = ast@.take(i + 1);
            assert(more.drop_last() =~= ast@.take(i as int));
        }
        i += 1;
    }
    assert(ast@.take(i as int) =~= ast@);
    result
}

} // verus!
