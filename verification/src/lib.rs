//! A lossless reader, editor and writer for tool-versions files: one tool
//! and its pinned versions per line, with free spacing and `#` comments.
//!
//! Every text is read, line by line, into a document that gives the text
//! back when it is written unchanged. An edit replaces, removes or adds the
//! versions of one tool and leaves all other lines as they stood.

use vstd::prelude::*;

pub mod ast;
pub mod grammar;
pub mod invariants;
pub mod parser;
pub mod queries;
pub mod reread;
pub mod roundtrip;
pub mod transformer;
pub mod writer;

use crate::ast::{
    doc_wf, valid_token, Identifier, Line, LineView, Node, SyntaxError, SyntaxErrorView, Version,
    AST,
};
use crate::grammar::parse_spec;
use crate::queries::{errors_spec, lookup_spec};
use crate::transformer::set_versions_spec;
use crate::writer::serialize;

verus! {

/// The values of the errors `errors`, in their order.
pub open spec fn errors_view(errors: Seq<&SyntaxError>) -> Seq<SyntaxErrorView> {
    Seq::new(errors.len(), |i: int| errors[i]@)
}

/// The texts of the strings `texts`, in their order.
pub open spec fn strings_view(texts: Seq<String>) -> Seq<Seq<char>> {
    Seq::new(texts.len(), |i: int| texts[i]@)
}

/// The texts of the string slices `texts`, in their order.
pub open spec fn strs_view(texts: Seq<&str>) -> Seq<Seq<char>> {
    Seq::new(texts.len(), |i: int| texts[i]@)
}

/// Why an edit was refused: a text that came in as a string is not the
/// token that it stands for.
#[derive(Debug, PartialEq, Eq, Clone, Copy)]
pub enum ValidationError {
    /// The name of the tool is empty or holds a character that no name has.
    InvalidIdentifier,
    /// The version at this index is empty or holds white space or a `#`.
    InvalidVersion(usize),
}

/// A tool-versions document, read from text or started empty.
pub struct ToolVersions {
    ast: AST,
}

impl View for ToolVersions {
    type V = Seq<LineView>;

    closed spec fn view(&self) -> Seq<LineView> {
        self.ast@
    }
}

impl ToolVersions {
    /// The document without lines.
    pub fn new() -> (tools: Self)
        ensures
            tools@ == Seq::<LineView>::empty(),
            doc_wf(tools@),
    {
        let tools = ToolVersions { ast: AST { lines: Vec::new() } };
        tools
    }

    /// The document that the text `s` is. No text is refused.
    pub fn from(s: &str) -> (tools: Self)
        ensures
            tools@ == parse_spec(s@),
            doc_wf(tools@),
    {
        ToolVersions { ast: parser::parse(s) }
    }

    /// The errors of the lines that were kept verbatim, in the order of the
    /// lines.
    pub fn errors(&self) -> (errors: Vec<&SyntaxError>)
        ensures
            errors_view(errors@) == errors_spec(self@),
    {
        let mut errors: Vec<&SyntaxError> = Vec::new();
        let mut i: usize = 0;
        while i < self.ast.lines.len()
            invariant
                i <= self.ast.lines@.len(),
                errors_view(errors@) == errors_spec(self@.take(i as int)),
            decreases self.ast.lines@.len() - i,
        {
            proof {
                let more = self@.take(i + 1);
                assert(more.drop_last() =~= self@.take(i as int));
            }
            match &self.ast.lines[i] {
                Line::Invalid { error, .. } => {
                    errors.push(error);
                },
                _ => {},
            }
            i += 1;
        }
        assert(self@.take(i as int) =~= self@);
        errors
    }

    /// The versions of the tool `tool_name`: those of the first line that
    /// defines it, and `None` where no line does.
    pub fn versions(&self, tool_name: &str) -> (versions: Option<Vec<String>>)
        ensures
            match versions {
                Some(texts) => lookup_spec(self@, tool_name@) == Some(strings_view(texts@)),
                None => lookup_spec(self@, tool_name@) is None,
            },
    {
        let wanted = tool_name.to_owned();
        let mut i: usize = 0;
        assert(self@.skip(0) =~= self@);
        while i < self.ast.lines.len()
            invariant
                i <= self.ast.lines@.len(),
                wanted@ == tool_name@,
                lookup_spec(self@, tool_name@) == lookup_spec(self@.skip(i as int), tool_name@),
            decreases self.ast.lines@.len() - i,
        {
            proof {
                assert(self@.skip(i as int).drop_first() =~= self@.skip(i + 1));
            }
            match &self.ast.lines[i] {
                Line::ToolDefinition { name, versions, .. } => {
                    if *name.value() == wanted {
                        let pairs = versions.value();
                        let mut texts: Vec<String> = Vec::new();
                        let mut k: usize = 0;
                        while k < pairs.len()
                            invariant
                                k <= pairs@.len(),
                                texts@.len() == k,
                                forall|j: int| 0 <= j < k ==> (#[trigger] texts@[j])@ == pairs@[j].1@,
                            decreases pairs@.len() - k,
                        {
                            texts.push(pairs[k].1.value().clone());
                            k += 1;
                        }
                        return Some(texts);
                    }
                },
                _ => {},
            }
            i += 1;
        }
        None
    }

    /// Gives the tool `tool_name` the versions `versions`, as
    /// `transformer::set_versions` does, once the texts are seen to be a
    /// name and versions. Otherwise the document stays as it is and the
    /// error says which text was refused: the name, or else the first
    /// version that is none.
    pub fn set_versions(&mut self, tool_name: &str, versions: Vec<&str>) -> (done: Result<
        (),
        ValidationError,
    >)
        ensures
            doc_wf(old(self)@) ==> doc_wf(final(self)@),
            match done {
                Ok(()) => {
                    &&& valid_token::<Identifier>(tool_name@)
                    &&& forall|i: int|
                        0 <= i < versions@.len() ==> valid_token::<Version>(
                            (#[trigger] versions@[i])@,
                        )
                    &&& final(self)@ == set_versions_spec(
                        old(self)@,
                        tool_name@,
                        strs_view(versions@),
                    )
                },
                Err(ValidationError::InvalidIdentifier) => {
                    &&& !valid_token::<Identifier>(tool_name@)
                    &&& final(self)@ == old(self)@
                },
                Err(ValidationError::InvalidVersion(at)) => {
                    &&& valid_token::<Identifier>(tool_name@)
                    &&& at < versions@.len()
                    &&& !valid_token::<Version>(versions@[at as int]@)
                    &&& forall|i: int|
                        0 <= i < at ==> valid_token::<Version>((#[trigger] versions@[i])@)
                    &&& final(self)@ == old(self)@
                },
            },
    {
        let name = match Identifier::try_new(tool_name.to_owned()) {
            Some(name) => name,
            None => {
                return Err(ValidationError::InvalidIdentifier);
            },
        };
        let mut tokens: Vec<Version> = Vec::new();
        let mut i: usize = 0;
        while i < versions.len()
            invariant
                i <= versions@.len(),
                tokens@.len() == i,
                valid_token::<Identifier>(tool_name@),
                forall|j: int| 0 <= j < i ==> (#[trigger] tokens@[j])@ == versions@[j]@,
                forall|j: int| 0 <= j < i ==> valid_token::<Version>((#[trigger] versions@[j])@),
                *self == *old(self),
            decreases versions@.len() - i,
        {
            match Version::try_new(versions[i].to_owned()) {
                Some(token) => {
                    tokens.push(token);
                },
                None => {
                    return Err(ValidationError::InvalidVersion(i));
                },
            }
            i += 1;
        }
        assert(transformer::versions_view(tokens@) =~= strs_view(versions@));
        self.ast = transformer::set_versions(&self.ast, name, tokens);
        Ok(())
    }

    /// The document as text.
    pub fn write(&self) -> (text: String)
        ensures
            text@ == serialize(self@),
    {
        writer::write(&self.ast)
    }
}

} // verus!
