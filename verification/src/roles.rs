//! What references do with the declarations they refer to, judged by the syntax around them.

use vstd::prelude::*;

use crate::files::TextRange;
use crate::moniker::SymbolInformationKind;
use crate::plain::Plain;
use crate::static_index::StaticReferenceRole;
use crate::text::is_text;

verus! {

/// The kind of a syntax node, as far as it matters for references.
#[derive(Debug, Clone, Copy, PartialEq, Eq, Structural)]
pub enum NodeKind {
    Attr,
    UseTree,
    PathType,
    MacroCall,
    PathExpr,
    RecordExpr,
    CallExpr,
    MethodCallExpr,
    FieldExpr,
    RecordExprField,
    Use,
    PathSegment,
    Path,
    Other,
}

impl DeepView for NodeKind {
    type V = NodeKind;

    open spec fn deep_view(&self) -> NodeKind {
        *self
    }
}

impl Plain for NodeKind {
    fn duplicate(&self) -> (copy: Self) {
        *self
    }

    fn same(&self, other: &Self) -> (equal: bool) {
        *self == *other
    }
}

/// A syntax node around a token.
#[derive(Debug, Clone, PartialEq, Eq)]
pub struct Ancestor {
    pub kind: NodeKind,
    pub range: TextRange,
    /// The path of a record expression, the callee of a call, or the name in a method call.
    pub part: Option<TextRange>,
    /// The receiver of a method call.
    pub receiver: Option<TextRange>,
    /// The visibility of a use item.
    pub visibility: Option<String>,
    /// The text of a use tree.
    pub text: String,
    /// The name that a use tree gives, and where it stands.
    pub rename: Option<(String, TextRange)>,
}

/// Whether a range lies inside an optional one.
pub open spec fn inside(part: Option<TextRange>, range: TextRange) -> bool {
    match part {
        Some(part) => part.encloses(range),
        None => false,
    }
}

fn lies_inside(part: &Option<TextRange>, range: TextRange) -> (found: bool)
    ensures
        found == inside(*part, range),
{
    match part {
        Some(part) => part.contains_range(range),
        None => false,
    }
}

/// The first node of a kind from a position on.
pub open spec fn first_of_kind(ancestors: Seq<Ancestor>, kind: NodeKind, from: int) -> Option<int>
    decreases ancestors.len() - from,
{
    if from < 0 || from >= ancestors.len() {
        None
    } else if ancestors[from].kind == kind {
        Some(from)
    } else {
        first_of_kind(ancestors, kind, from + 1)
    }
}

fn find_kind(ancestors: &Vec<Ancestor>, kind: NodeKind) -> (found: Option<usize>)
    ensures
        match found {
            Some(at) => at < ancestors.len() && first_of_kind(ancestors@, kind, 0) == Some(at as int),
            None => first_of_kind(ancestors@, kind, 0) is None,
        },
{
    let mut index: usize = 0;
    while index < ancestors.len()
        invariant
            index <= ancestors.len(),
            first_of_kind(ancestors@, kind, 0) == first_of_kind(ancestors@, kind, index as int),
        decreases ancestors.len() - index,
    {
        if ancestors[index].kind == kind {
            return Some(index);
        }
        index += 1;
    }
    None
}

/// Whether a token stands in a use item that is visible everywhere.
pub open spec fn in_public_use(ancestors: Seq<Ancestor>) -> bool {
    match first_of_kind(ancestors, NodeKind::Use, 0) {
        Some(at) => ancestors[at].visibility.deep_view() == Some("pub"@),
        None => false,
    }
}

/// Whether a token stands in a use item that is visible everywhere.
pub fn public_use(ancestors: &Vec<Ancestor>) -> (public: bool)
    ensures
        public == in_public_use(ancestors@),
{
    match find_kind(ancestors, NodeKind::Use) {
        Some(at) => is_text(&ancestors[at].visibility, "pub"),
        None => false,
    }
}

/// Whether a token does not stand in a segment of a path that is followed by another one.
pub open spec fn in_last_segment(ancestors: Seq<Ancestor>) -> bool {
    match first_of_kind(ancestors, NodeKind::PathSegment, 0) {
        Some(at) => at + 2 >= ancestors.len() || ancestors[at + 2].kind != NodeKind::Path,
        None => true,
    }
}

/// Whether a token does not stand in a segment of a path that is followed by another one.
pub fn is_terminal_path_segment(ancestors: &Vec<Ancestor>) -> (terminal: bool)
    ensures
        terminal == in_last_segment(ancestors@),
{
    match find_kind(ancestors, NodeKind::PathSegment) {
        Some(at) => ancestors.len() - at <= 2 || ancestors[at + 2].kind != NodeKind::Path,
        None => true,
    }
}

/// Whether naming a declaration of a kind makes a value of it.
pub open spec fn is_constructor(kind: SymbolInformationKind) -> bool {
    kind == SymbolInformationKind::Struct || kind == SymbolInformationKind::EnumMember
}

/// What a node around a token says of the role of the token, if anything.
pub open spec fn role_by(
    kind: SymbolInformationKind,
    ancestors: Seq<Ancestor>,
    range: TextRange,
    node: Ancestor,
) -> Option<StaticReferenceRole> {
    let terminal = in_last_segment(ancestors);
    match node.kind {
        NodeKind::Attr => Some(StaticReferenceRole::Decorate),
        NodeKind::UseTree => if in_public_use(ancestors) && terminal {
            Some(StaticReferenceRole::Export)
        } else {
            Some(StaticReferenceRole::Import)
        },
        NodeKind::PathType => if terminal {
            Some(StaticReferenceRole::Type)
        } else {
            None
        },
        NodeKind::MacroCall => if kind == SymbolInformationKind::Macro {
            Some(StaticReferenceRole::Call)
        } else {
            None
        },
        NodeKind::PathExpr => if is_constructor(kind) && node.range.end == range.end && terminal {
            Some(StaticReferenceRole::Instantiate)
        } else {
            None
        },
        NodeKind::RecordExpr => if inside(node.part, range) && terminal {
            Some(StaticReferenceRole::Instantiate)
        } else {
            None
        },
        NodeKind::CallExpr => if inside(node.part, range) && terminal {
            Some(StaticReferenceRole::Call)
        } else {
            None
        },
        NodeKind::MethodCallExpr => if inside(node.part, range) {
            Some(StaticReferenceRole::Call)
        } else if is_constructor(kind) && inside(node.receiver, range) {
            Some(StaticReferenceRole::Instantiate)
        } else {
            None
        },
        NodeKind::FieldExpr => Some(StaticReferenceRole::Access),
        NodeKind::RecordExprField => Some(StaticReferenceRole::Access),
        _ => None,
    }
}

/// What the innermost node from a position on that says anything says of the role of a token.
pub open spec fn role_from(
    kind: SymbolInformationKind,
    ancestors: Seq<Ancestor>,
    range: TextRange,
    from: int,
) -> StaticReferenceRole
    decreases ancestors.len() - from,
{
    if from < 0 || from >= ancestors.len() {
        StaticReferenceRole::Reference
    } else {
        match role_by(kind, ancestors, range, ancestors[from]) {
            Some(role) => role,
            None => role_from(kind, ancestors, range, from + 1),
        }
    }
}

fn judge(
    kind: SymbolInformationKind,
    ancestors: &Vec<Ancestor>,
    range: TextRange,
    node: &Ancestor,
) -> (role: Option<StaticReferenceRole>)
    ensures
        role == role_by(kind, ancestors@, range, *node),
{
    let terminal = is_terminal_path_segment(ancestors);
    let constructor = kind == SymbolInformationKind::Struct || kind
        == SymbolInformationKind::EnumMember;
    match node.kind {
        NodeKind::Attr => Some(StaticReferenceRole::Decorate),
        NodeKind::UseTree => if public_use(ancestors) && terminal {
            Some(StaticReferenceRole::Export)
        } else {
            Some(StaticReferenceRole::Import)
        },
        NodeKind::PathType if terminal => Some(StaticReferenceRole::Type),
        NodeKind::MacroCall if kind == SymbolInformationKind::Macro => Some(
            StaticReferenceRole::Call,
        ),
        NodeKind::PathExpr if constructor && node.range.end == range.end && terminal => Some(
            StaticReferenceRole::Instantiate,
        ),
        NodeKind::RecordExpr if lies_inside(&node.part, range) && terminal => Some(
            StaticReferenceRole::Instantiate,
        ),
        NodeKind::CallExpr if lies_inside(&node.part, range) && terminal => Some(
            StaticReferenceRole::Call,
        ),
        NodeKind::MethodCallExpr => if lies_inside(&node.part, range) {
            Some(StaticReferenceRole::Call)
        } else if constructor && lies_inside(&node.receiver, range) {
            Some(StaticReferenceRole::Instantiate)
        } else {
            None
        },
        NodeKind::FieldExpr | NodeKind::RecordExprField => Some(StaticReferenceRole::Access),
        _ => None,
    }
}

/// What a reference does with a declaration of a kind, judged by the nodes around it from the
/// inside out.
pub fn reference_role(
    kind: SymbolInformationKind,
    ancestors: &Vec<Ancestor>,
    range: TextRange,
) -> (role: StaticReferenceRole)
    ensures
        role == role_from(kind, ancestors@, range, 0),
{
    let mut index: usize = 0;
    while index < ancestors.len()
        invariant
            index <= ancestors.len(),
            role_from(kind, ancestors@, range, 0) == role_from(
                kind,
                ancestors@,
                range,
                index as int,
            ),
        decreases ancestors.len() - index,
    {
        match judge(kind, ancestors, range, &ancestors[index]) {
            Some(role) => {
                return role;
            },
            None => {},
        }
        index += 1;
    }
    StaticReferenceRole::Reference
}

/// The kind of a token, as far as it matters for the extent of declarations.
#[derive(Debug, Clone, Copy, PartialEq, Eq, Structural)]
pub enum TokenKind {
    Whitespace,
    /// A comment that documents what follows it.
    DocComment,
    /// Any other comment.
    Comment,
    Other,
}

impl DeepView for TokenKind {
    type V = TokenKind;

    open spec fn deep_view(&self) -> TokenKind {
        *self
    }
}

impl Plain for TokenKind {
    fn duplicate(&self) -> (copy: Self) {
        *self
    }

    fn same(&self, other: &Self) -> (equal: bool) {
        *self == *other
    }
}

/// The smallest part of a syntax tree around a range.
#[derive(Debug, Clone, PartialEq, Eq)]
pub enum Covering {
    /// A node, with its tokens.
    Node(Vec<(TextRange, TokenKind)>),
    /// A token.
    Token(TextRange, TokenKind),
}

/// Whether a declaration does not start at a token.
pub open spec fn is_leading(kind: TokenKind) -> bool {
    kind == TokenKind::Whitespace || kind == TokenKind::Comment
}

/// Whether a declaration does not end at a token.
pub open spec fn is_trailing(kind: TokenKind) -> bool {
    kind == TokenKind::Whitespace || kind == TokenKind::Comment || kind == TokenKind::DocComment
}

/// Whether a declaration does not start at a token: comments that document it belong to it.
pub fn is_leading_trivia_excluding_docs(kind: TokenKind) -> (leading: bool)
    ensures
        leading == is_leading(kind),
{
    match kind {
        TokenKind::Whitespace | TokenKind::Comment => true,
        _ => false,
    }
}

/// Whether a declaration does not end at a token.
pub fn is_trailing_trivia(kind: TokenKind) -> (trailing: bool)
    ensures
        trailing == is_trailing(kind),
{
    match kind {
        TokenKind::Whitespace | TokenKind::Comment | TokenKind::DocComment => true,
        _ => false,
    }
}

/// The first of the first tokens inside a range at which a declaration starts.
pub open spec fn first_kept(
    tokens: Seq<(TextRange, TokenKind)>,
    range: TextRange,
    count: int,
) -> Option<TextRange>
    decreases count,
{
    if count <= 0 {
        None
    } else {
        match first_kept(tokens, range, count - 1) {
            Some(found) => Some(found),
            None => if range.encloses(tokens[count - 1].0) && !is_leading(tokens[count - 1].1) {
                Some(tokens[count - 1].0)
            } else {
                None
            },
        }
    }
}

/// The last of the first tokens inside a range at which a declaration ends.
pub open spec fn last_kept(
    tokens: Seq<(TextRange, TokenKind)>,
    range: TextRange,
    count: int,
) -> Option<TextRange>
    decreases count,
{
    if count <= 0 {
        None
    } else if range.encloses(tokens[count - 1].0) && !is_trailing(tokens[count - 1].1) {
        Some(tokens[count - 1].0)
    } else {
        last_kept(tokens, range, count - 1)
    }
}

/// From the start of one range to the end of another, if there are both.
pub open spec fn spanned(
    first: Option<TextRange>,
    last: Option<TextRange>,
    otherwise: TextRange,
) -> TextRange {
    match (first, last) {
        (Some(first), Some(last)) => TextRange { start: first.start, end: last.end },
        _ => otherwise,
    }
}

/// The extent of a declaration without the white space and the comments around it, other than the
/// comments that document it.
pub open spec fn trimmed(root: TextRange, range: TextRange, covering: Covering) -> TextRange {
    if range == root || !root.encloses(range) {
        range
    } else {
        match covering {
            Covering::Node(tokens) => spanned(
                first_kept(tokens@, range, tokens@.len() as int),
                last_kept(tokens@, range, tokens@.len() as int),
                range,
            ),
            Covering::Token(token, kind) => spanned(
                if is_leading(kind) {
                    None
                } else {
                    Some(token)
                },
                if is_trailing(kind) {
                    None
                } else {
                    Some(token)
                },
                range,
            ),
        }
    }
}

fn span(first: Option<TextRange>, last: Option<TextRange>, otherwise: TextRange) -> (range: TextRange)
    ensures
        range == spanned(first, last, otherwise),
{
    match (first, last) {
        (Some(first), Some(last)) => TextRange::new(first.start, last.end),
        _ => otherwise,
    }
}

/// The extent of a declaration without the white space and the comments around it.
pub fn definition_range_excluding_trivia(
    root: TextRange,
    range: TextRange,
    covering: &Covering,
) -> (result: TextRange)
    ensures
        result == trimmed(root, range, *covering),
{
    if range == root || !root.contains_range(range) {
        return range;
    }
    match covering {
        Covering::Node(tokens) => {
            let mut first: Option<TextRange> = None;
            let mut last: Option<TextRange> = None;
            let mut index: usize = 0;
            while index < tokens.len()
                invariant
                    index <= tokens.len(),
                    first == first_kept(tokens@, range, index as int),
                    last == last_kept(tokens@, range, index as int),
                decreases tokens.len() - index,
            {
                let (token, kind) = tokens[index];
                if range.contains_range(token) {
                    if first.is_none() && !is_leading_trivia_excluding_docs(kind) {
                        first = Some(token);
                    }
                    if !is_trailing_trivia(kind) {
                        last = Some(token);
                    }
                }
                index += 1;
            }
            span(first, last, range)
        },
        Covering::Token(token, kind) => {
            let first: Option<TextRange> = if is_leading_trivia_excluding_docs(*kind) {
                None
            } else {
                Some(*token)
            };
            let last: Option<TextRange> = if is_trailing_trivia(*kind) {
                None
            } else {
                Some(*token)
            };
            span(first, last, range)
        },
    }
}

} // verus!
