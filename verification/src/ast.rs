//! The lossless document model: tokens, lines and documents, each with the
//! mathematical value (its view) that the contracts of this crate speak of.

use vstd::prelude::*;

verus! {

/// The characters of a tool name: ASCII letters and digits, `.`, `_` and `-`.
pub open spec fn identifier_char(c: char) -> bool {
    ||| '0' <= c <= '9'
    ||| 'A' <= c <= 'Z'
    ||| 'a' <= c <= 'z'
    ||| c == '.'
    ||| c == '-'
    ||| c == '_'
}

/// The characters that carry the Unicode property `White_Space`.
pub open spec fn white_space(c: char) -> bool {
    ||| '\u{9}' <= c <= '\u{d}'
    ||| c == ' '
    ||| c == '\u{85}'
    ||| c == '\u{a0}'
    ||| c == '\u{1680}'
    ||| '\u{2000}' <= c <= '\u{200a}'
    ||| c == '\u{2028}'
    ||| c == '\u{2029}'
    ||| c == '\u{202f}'
    ||| c == '\u{205f}'
    ||| c == '\u{3000}'
}

/// Line feed and carriage return. They stand in no name, no padding and no
/// version.
pub open spec fn line_break(c: char) -> bool {
    c == '\n' || c == '\r'
}

/// The characters of padding: white space that does not break the line.
pub open spec fn space_char(c: char) -> bool {
    white_space(c) && !line_break(c)
}

/// The characters of a version: anything but white space and `#`.
pub open spec fn version_char(c: char) -> bool {
    !white_space(c) && c != '#'
}

/// A value that wraps one inner value and hands it back unchanged.
pub trait Node<T>: Sized {
    /// The wrapped value.
    spec fn spec_value(&self) -> T;

    /// Wraps `value` as it is. Nothing is checked here: whether a token is
    /// valid is a property of its view, and `try_new` is the checked way in.
    fn new(value: T) -> (node: Self)
        ensures
            node.spec_value() == value,
    ;

    /// The wrapped value.
    fn value(&self) -> (value: &T)
        ensures
            *value == self.spec_value(),
    ;
}

/// A token with a character set: the text of such a token is a run of
/// characters that the set accepts.
pub trait Consumable: Node<String> {
    /// Whether `c` may stand in a token of this type.
    spec fn accepts(c: char) -> bool;

    /// Whether `c` may stand in a token of this type.
    fn is_consumable(c: char) -> (accepted: bool)
        ensures
            accepted == Self::accepts(c),
    ;
}

/// Every character of `s` may stand in a token of type `T`.
pub open spec fn all_accepted<T: Consumable>(s: Seq<char>) -> bool {
    forall|i: int| 0 <= i < s.len() ==> T::accepts(#[trigger] s[i])
}

/// `s` is the text of a token of type `T`: not empty, and every character
/// accepted.
pub open spec fn valid_token<T: Consumable>(s: Seq<char>) -> bool {
    s.len() > 0 && all_accepted::<T>(s)
}

/// Text kept as it stood, a comment or a whole line: it holds no line feed,
/// and may hold anything else.
pub open spec fn valid_raw(s: Seq<char>) -> bool {
    forall|i: int| 0 <= i < s.len() ==> #[trigger] s[i] != '\n'
}

/// Whether `c` may stand in a tool name.
pub fn is_identifier_char(c: char) -> (b: bool)
    ensures
        b == identifier_char(c),
{
    ('0' <= c && c <= '9') || ('A' <= c && c <= 'Z') || ('a' <= c && c <= 'z') || c == '.'
        || c == '-' || c == '_'
}

/// Whether `c` carries the Unicode property `White_Space`.
pub fn is_white_space(c: char) -> (b: bool)
    ensures
        b == white_space(c),
{
    ('\u{9}' <= c && c <= '\u{d}') || c == ' ' || c == '\u{85}' || c == '\u{a0}' || c == '\u{1680}'
        || ('\u{2000}' <= c && c <= '\u{200a}') || c == '\u{2028}' || c == '\u{2029}' || c
        == '\u{202f}' || c == '\u{205f}' || c == '\u{3000}'
}

/// Whether `c` is a line feed or a carriage return.
pub fn is_line_break(c: char) -> (b: bool)
    ensures
        b == line_break(c),
{
    c == '\n' || c == '\r'
}

/// Whether every character of `s` may stand in a token of type `T`.
pub fn accepted<T: Consumable>(s: &str) -> (all: bool)
    ensures
        all == all_accepted::<T>(s@),
{
    let mut all = true;
    let ghost mut seen: Seq<char> = Seq::empty();
    for c in it: s.chars()
        invariant
            seen == it.seq().take(it.index() as int),
            all == all_accepted::<T>(seen),
    {
        let ok = T::is_consumable(c);
        proof {
            let next = seen.push(c);
            assert(it.seq().take(it.index() + 1) == next);
            if !all {
                let bad = choose|i: int| 0 <= i < seen.len() && !T::accepts(#[trigger] seen[i]);
                assert(next[bad] == seen[bad]);
            } else if !ok {
                assert(next[seen.len() as int] == c);
            }
            seen = next;
        }
        all = all && ok;
    }
    assert(seen == s@);
    all
}

/// The name of a tool. Names are told apart by case.
#[derive(Debug, PartialEq, Eq, Hash)]
pub struct Identifier(String);

impl Node<String> for Identifier {
    closed spec fn spec_value(&self) -> String {
        self.0
    }

    fn new(value: String) -> (node: Self) {
        Self(value)
    }

    fn value(&self) -> (value: &String) {
        &self.0
    }
}

impl Consumable for Identifier {
    open spec fn accepts(c: char) -> bool {
        identifier_char(c)
    }

    fn is_consumable(c: char) -> (accepted: bool) {
        is_identifier_char(c)
    }
}

impl View for Identifier {
    type V = Seq<char>;

    open spec fn view(&self) -> Seq<char> {
        self.spec_value()@
    }
}

impl Clone for Identifier {
    fn clone(&self) -> (copy: Self)
        ensures
            copy@ == self@,
    {
        Self(self.0.clone())
    }
}

impl Identifier {
    /// The name `value`, if it is one: not empty, identifier characters only.
    pub fn try_new(value: String) -> (token: Option<Identifier>)
        ensures
            token is Some <==> valid_token::<Identifier>(value@),
            token matches Some(t) ==> t@ == value@,
    {
        if !value.as_str().is_empty() && accepted::<Identifier>(value.as_str()) {
            Some(Identifier::new(value))
        } else {
            None
        }
    }

    /// Whether the two names are the same text.
    pub fn same_as(&self, other: &Identifier) -> (same: bool)
        ensures
            same == (self@ == other@),
    {
        self.0 == other.0
    }
}

/// One version of a tool, as the line holds it.
#[derive(Debug, PartialEq)]
pub struct Version(String);

impl Node<String> for Version {
    closed spec fn spec_value(&self) -> String {
        self.0
    }

    fn new(value: String) -> (node: Self) {
        Self(value)
    }

    fn value(&self) -> (value: &String) {
        &self.0
    }
}

impl Consumable for Version {
    open spec fn accepts(c: char) -> bool {
        version_char(c)
    }

    fn is_consumable(c: char) -> (accepted: bool) {
        !is_white_space(c) && c != '#'
    }
}

impl View for Version {
    type V = Seq<char>;

    open spec fn view(&self) -> Seq<char> {
        self.spec_value()@
    }
}

impl Clone for Version {
    fn clone(&self) -> (copy: Self)
        ensures
            copy@ == self@,
    {
        Self(self.0.clone())
    }
}

impl Version {
    /// The version `value`, if it is one: not empty, no white space, no `#`.
    pub fn try_new(value: String) -> (token: Option<Version>)
        ensures
            token is Some <==> valid_token::<Version>(value@),
            token matches Some(t) ==> t@ == value@,
    {
        if !value.as_str().is_empty() && accepted::<Version>(value.as_str()) {
            Some(Version::new(value))
        } else {
            None
        }
    }
}

/// Padding: the white space before a version, at the start of a blank line
/// or behind the last version. Where a line has none, there is no
/// `Whitespace` at all: padding is never empty.
#[derive(Debug, PartialEq)]
pub struct Whitespace(String);

impl Node<String> for Whitespace {
    closed spec fn spec_value(&self) -> String {
        self.0
    }

    fn new(value: String) -> (node: Self) {
        Self(value)
    }

    fn value(&self) -> (value: &String) {
        &self.0
    }
}

impl Consumable for Whitespace {
    open spec fn accepts(c: char) -> bool {
        space_char(c)
    }

    fn is_consumable(c: char) -> (accepted: bool) {
        is_white_space(c) && !is_line_break(c)
    }
}

impl View for Whitespace {
    type V = Seq<char>;

    open spec fn view(&self) -> Seq<char> {
        self.spec_value()@
    }
}

impl Clone for Whitespace {
    fn clone(&self) -> (copy: Self)
        ensures
            copy@ == self@,
    {
        Self(self.0.clone())
    }
}

impl Whitespace {
    /// The padding `value`, if it is one: not empty, space characters only.
    pub fn try_new(value: String) -> (token: Option<Whitespace>)
        ensures
            token is Some <==> valid_token::<Whitespace>(value@),
            token matches Some(t) ==> t@ == value@,
    {
        if !value.as_str().is_empty() && accepted::<Whitespace>(value.as_str()) {
            Some(Whitespace::new(value))
        } else {
            None
        }
    }

    /// The padding that a version gets where the line had none for it: one
    /// space.
    pub fn single_space() -> (padding: Whitespace)
        ensures
            padding@ == seq![' '],
    {
        proof {
            reveal_strlit(" ");
        }
        let space = " ".to_owned();
        Whitespace::new(space)
    }
}

/// Text kept as it stood: the text of a comment, without its `#`, or a whole
/// line that fits no rule.
#[derive(Debug, PartialEq)]
pub struct Unparsed(String);

impl Node<String> for Unparsed {
    closed spec fn spec_value(&self) -> String {
        self.0
    }

    fn new(value: String) -> (node: Self) {
        Self(value)
    }

    fn value(&self) -> (value: &String) {
        &self.0
    }
}

impl View for Unparsed {
    type V = Seq<char>;

    open spec fn view(&self) -> Seq<char> {
        self.spec_value()@
    }
}

impl Clone for Unparsed {
    fn clone(&self) -> (copy: Self)
        ensures
            copy@ == self@,
    {
        Self(self.0.clone())
    }
}

/// The versions of one tool as the line holds them: each with the padding
/// that stands before it.
pub open spec fn pairs_view(pairs: Seq<(Whitespace, Version)>) -> Seq<(Seq<char>, Seq<char>)> {
    Seq::new(pairs.len(), |i: int| (pairs[i].0@, pairs[i].1@))
}

/// The versions of one tool, each with the padding that stands before it.
/// A definition has one version at least.
#[derive(Debug, PartialEq)]
pub struct Versions(Vec<(Whitespace, Version)>);

impl Node<Vec<(Whitespace, Version)>> for Versions {
    closed spec fn spec_value(&self) -> Vec<(Whitespace, Version)> {
        self.0
    }

    fn new(value: Vec<(Whitespace, Version)>) -> (node: Self) {
        Self(value)
    }

    fn value(&self) -> (value: &Vec<(Whitespace, Version)>) {
        &self.0
    }
}

impl View for Versions {
    type V = Seq<(Seq<char>, Seq<char>)>;

    open spec fn view(&self) -> Seq<(Seq<char>, Seq<char>)> {
        pairs_view(self.spec_value()@)
    }
}

impl Clone for Versions {
    fn clone(&self) -> (copy: Self)
        ensures
            copy@ == self@,
    {
        let mut pairs: Vec<(Whitespace, Version)> = Vec::new();
        let mut i: usize = 0;
        while i < self.0.len()
            invariant
                i <= self.0.len(),
                pairs_view(pairs@) == pairs_view(self.0@).take(i as int),
            decreases self.0.len() - i,
        {
            let ghost before = pairs@;
            pairs.push((self.0[i].0.clone(), self.0[i].1.clone()));
            assert(pairs_view(pairs@) =~= pairs_view(before).push(pairs_view(self.0@)[i as int]));
            i += 1;
        }
        Self(pairs)
    }
}

/// Why a line could not be read.
#[derive(Debug, PartialEq)]
pub enum SyntaxError {
    /// `token` stood where one of `expected` had to stand.
    UnexpectedToken { token: char, expected: &'static str },
    /// The line ended where one of `expected` had to stand.
    UnexpectedEOL { expected: &'static str },
    /// An earlier line already declared this tool.
    DuplicateIdentifier(Identifier),
}

/// The value of a `SyntaxError`.
pub enum SyntaxErrorView {
    UnexpectedToken { token: char, expected: Seq<char> },
    UnexpectedEOL { expected: Seq<char> },
    DuplicateIdentifier(Seq<char>),
}

impl View for SyntaxError {
    type V = SyntaxErrorView;

    open spec fn view(&self) -> SyntaxErrorView {
        match self {
            SyntaxError::UnexpectedToken { token, expected } => SyntaxErrorView::UnexpectedToken {
                token: *token,
                expected: expected@,
            },
            SyntaxError::UnexpectedEOL { expected } => SyntaxErrorView::UnexpectedEOL {
                expected: expected@,
            },
            SyntaxError::DuplicateIdentifier(name) => SyntaxErrorView::DuplicateIdentifier(name@),
        }
    }
}

impl Clone for SyntaxError {
    fn clone(&self) -> (copy: Self)
        ensures
            copy@ == self@,
    {
        match self {
            SyntaxError::UnexpectedToken { token, expected } => SyntaxError::UnexpectedToken {
                token: *token,
                expected: *expected,
            },
            SyntaxError::UnexpectedEOL { expected } => SyntaxError::UnexpectedEOL {
                expected: *expected,
            },
            SyntaxError::DuplicateIdentifier(name) => SyntaxError::DuplicateIdentifier(
                name.clone(),
            ),
        }
    }
}

/// One line of a document.
#[derive(Debug, PartialEq)]
pub enum Line {
    /// A tool and its versions, then optional padding and an optional
    /// comment.
    ToolDefinition {
        name: Identifier,
        versions: Versions,
        whitespace: Option<Whitespace>,
        comment: Option<Unparsed>,
    },
    /// A line without a tool: optional padding, then an optional comment.
    Empty { whitespace: Option<Whitespace>, comment: Option<Unparsed> },
    /// A line that fits neither rule, kept verbatim with the reason.
    Invalid { error: SyntaxError, unparsed: Unparsed },
}

/// The value of a `Line`.
pub enum LineView {
    ToolDefinition {
        name: Seq<char>,
        versions: Seq<(Seq<char>, Seq<char>)>,
        whitespace: Option<Seq<char>>,
        comment: Option<Seq<char>>,
    },
    Empty { whitespace: Option<Seq<char>>, comment: Option<Seq<char>> },
    Invalid { error: SyntaxErrorView, unparsed: Seq<char> },
}

/// The text of an optional token.
pub open spec fn text_of<T: View<V = Seq<char>>>(token: Option<T>) -> Option<Seq<char>> {
    match token {
        Some(t) => Some(t@),
        None => None,
    }
}

impl View for Line {
    type V = LineView;

    open spec fn view(&self) -> LineView {
        match self {
            Line::ToolDefinition { name, versions, whitespace, comment } => {
                LineView::ToolDefinition {
                    name: name@,
                    versions: versions@,
                    whitespace: text_of(*whitespace),
                    comment: text_of(*comment),
                }
            },
            Line::Empty { whitespace, comment } => LineView::Empty {
                whitespace: text_of(*whitespace),
                comment: text_of(*comment),
            },
            Line::Invalid { error, unparsed } => LineView::Invalid {
                error: error@,
                unparsed: unparsed@,
            },
        }
    }
}

impl Clone for Line {
    fn clone(&self) -> (copy: Self)
        ensures
            copy@ == self@,
    {
        match self {
            Line::ToolDefinition { name, versions, whitespace, comment } => Line::ToolDefinition {
                name: name.clone(),
                versions: versions.clone(),
                whitespace: clone_padding(whitespace),
                comment: clone_text(comment),
            },
            Line::Empty { whitespace, comment } => Line::Empty {
                whitespace: clone_padding(whitespace),
                comment: clone_text(comment),
            },
            Line::Invalid { error, unparsed } => Line::Invalid {
                error: error.clone(),
                unparsed: unparsed.clone(),
            },
        }
    }
}

pub(crate) fn clone_padding(padding: &Option<Whitespace>) -> (copy: Option<Whitespace>)
    ensures
        text_of(copy) == text_of(*padding),
{
    match padding {
        Some(p) => Some(p.clone()),
        None => None,
    }
}

pub(crate) fn clone_text(text: &Option<Unparsed>) -> (copy: Option<Unparsed>)
    ensures
        text_of(copy) == text_of(*text),
{
    match text {
        Some(t) => Some(t.clone()),
        None => None,
    }
}

/// The values of the lines `lines`, in their order.
pub open spec fn lines_view(lines: Seq<Line>) -> Seq<LineView> {
    Seq::new(lines.len(), |i: int| lines[i]@)
}

/// A document: its lines in the order of the text.
#[derive(Debug, PartialEq)]
pub struct AST {
    pub lines: Vec<Line>,
}

impl View for AST {
    type V = Seq<LineView>;

    open spec fn view(&self) -> Seq<LineView> {
        lines_view(self.lines@)
    }
}

/// The error of a line's value is well formed: a duplicated name is a name.
pub open spec fn error_wf(error: SyntaxErrorView) -> bool {
    error matches SyntaxErrorView::DuplicateIdentifier(name) ==> valid_token::<Identifier>(name)
}

/// Padding, where there is any, is well formed.
pub open spec fn padding_wf(padding: Option<Seq<char>>) -> bool {
    padding matches Some(p) ==> valid_token::<Whitespace>(p)
}

/// A comment, where there is one, holds no line feed.
pub open spec fn comment_wf(comment: Option<Seq<char>>) -> bool {
    comment matches Some(c) ==> valid_raw(c)
}

/// Every version has its padding before it, and both are well formed.
pub open spec fn versions_wf(versions: Seq<(Seq<char>, Seq<char>)>) -> bool {
    forall|i: int|
        0 <= i < versions.len() ==> valid_token::<Whitespace>((#[trigger] versions[i]).0)
            && valid_token::<Version>(versions[i].1)
}

/// The invariant of a line's value: every token is made of its own
/// characters, paddings are not empty, a definition has at least one version,
/// and neither a comment nor verbatim text holds a line feed.
pub open spec fn line_wf(line: LineView) -> bool {
    match line {
        LineView::ToolDefinition { name, versions, whitespace, comment } => {
            &&& valid_token::<Identifier>(name)
            &&& versions.len() > 0
            &&& versions_wf(versions)
            &&& padding_wf(whitespace)
            &&& comment_wf(comment)
        },
        LineView::Empty { whitespace, comment } => padding_wf(whitespace) && comment_wf(comment),
        LineView::Invalid { error, unparsed } => error_wf(error) && valid_raw(unparsed),
    }
}

/// `line` defines the tool `name`.
pub open spec fn defines(line: LineView, name: Seq<char>) -> bool {
    line matches LineView::ToolDefinition { name: n, .. } && n == name
}

/// Some line of `doc` defines the tool `name`.
pub open spec fn has_definition(doc: Seq<LineView>, name: Seq<char>) -> bool {
    exists|i: int| 0 <= i < doc.len() && defines(#[trigger] doc[i], name)
}

/// No two lines of `doc` define the same tool.
pub open spec fn unique_definitions(doc: Seq<LineView>) -> bool {
    forall|i: int, j: int|
        0 <= i < j < doc.len() && (#[trigger] doc[i]) is ToolDefinition
            && (#[trigger] doc[j]) is ToolDefinition ==> doc[i]->name != doc[j]->name
}

/// The invariant of a document's value: every line is well formed and every
/// tool is defined once at most.
pub open spec fn doc_wf(doc: Seq<LineView>) -> bool {
    &&& forall|i: int| 0 <= i < doc.len() ==> line_wf(#[trigger] doc[i])
    &&& unique_definitions(doc)
}

} // verus!
