//! What the role of a reference tells of the syntax around it.

use vstd::prelude::*;

use crate::files::TextRange;
use crate::moniker::SymbolInformationKind;
use crate::roles::{
    Ancestor, NodeKind, first_of_kind, in_last_segment, in_public_use, role_by, role_from,
};
use crate::static_index::StaticReferenceRole;

verus! {

/// Whether a node is the innermost one of its kind.
pub open spec fn is_innermost(ancestors: Seq<Ancestor>, at: int) -> bool {
    &&& 0 <= at < ancestors.len()
    &&& forall|i: int| 0 <= i < at ==> (#[trigger] ancestors[i]).kind != ancestors[at].kind
}

/// Whether a token ends the path that it stands in: the path of its innermost segment is no part of a
/// longer one.
pub open spec fn ends_path(ancestors: Seq<Ancestor>) -> bool {
    forall|at: int|
        #[trigger] is_innermost(ancestors, at) && ancestors[at].kind == NodeKind::PathSegment && at
            + 2 < ancestors.len() ==> ancestors[at + 2].kind != NodeKind::Path
}

/// Whether the innermost use item around a token is visible everywhere.
pub open spec fn is_reexported(ancestors: Seq<Ancestor>) -> bool {
    exists|at: int|
        #[trigger] is_innermost(ancestors, at) && ancestors[at].kind == NodeKind::Use
            && ancestors[at].visibility is Some && ancestors[at].visibility->0@ == "pub"@
}

/// Whether a part of a node is there and holds a range.
pub open spec fn holds(part: Option<TextRange>, range: TextRange) -> bool {
    part matches Some(part) && part.start <= range.start && range.end <= part.end
}

/// Whether a node says nothing of what a token does with a declaration of a kind. A node of no
/// expression, type, attribute, macro call or use tree never does.
pub open spec fn is_silent(
    kind: SymbolInformationKind,
    ancestors: Seq<Ancestor>,
    range: TextRange,
    node: Ancestor,
) -> bool {
    let value = kind == SymbolInformationKind::Struct || kind == SymbolInformationKind::EnumMember;
    &&& node.kind != NodeKind::Attr
    &&& node.kind != NodeKind::UseTree
    &&& node.kind != NodeKind::FieldExpr
    &&& node.kind != NodeKind::RecordExprField
    &&& node.kind == NodeKind::MacroCall ==> kind != SymbolInformationKind::Macro
    &&& node.kind == NodeKind::PathType ==> !ends_path(ancestors)
    &&& node.kind == NodeKind::PathExpr && ends_path(ancestors) && value ==> node.range.end
        != range.end
    &&& node.kind == NodeKind::RecordExpr && ends_path(ancestors) ==> !holds(node.part, range)
    &&& node.kind == NodeKind::CallExpr && ends_path(ancestors) ==> !holds(node.part, range)
    &&& node.kind == NodeKind::MethodCallExpr ==> !holds(node.part, range)
    &&& node.kind == NodeKind::MethodCallExpr && value ==> !holds(node.receiver, range)
}

/// Whether a node is the innermost one that says what a token does with a declaration of a kind.
pub open spec fn is_telling(
    kind: SymbolInformationKind,
    ancestors: Seq<Ancestor>,
    range: TextRange,
    at: int,
) -> bool {
    &&& 0 <= at < ancestors.len()
    &&& !is_silent(kind, ancestors, range, ancestors[at])
    &&& forall|i: int| 0 <= i < at ==> is_silent(kind, ancestors, range, #[trigger] ancestors[i])
}

proof fn lemma_first_of_kind(ancestors: Seq<Ancestor>, kind: NodeKind, from: int)
    requires
        0 <= from <= ancestors.len(),
    ensures
        match first_of_kind(ancestors, kind, from) {
            Some(at) => from <= at < ancestors.len() && ancestors[at].kind == kind && forall|i: int|
                from <= i < at ==> (#[trigger] ancestors[i]).kind != kind,
            None => forall|i: int|
                from <= i < ancestors.len() ==> (#[trigger] ancestors[i]).kind != kind,
        },
    decreases ancestors.len() - from,
{
    if from < ancestors.len() {
        lemma_first_of_kind(ancestors, kind, from + 1);
    }
}

proof fn lemma_last_segment(ancestors: Seq<Ancestor>)
    ensures
        in_last_segment(ancestors) == ends_path(ancestors),
{
    lemma_first_of_kind(ancestors, NodeKind::PathSegment, 0);
    match first_of_kind(ancestors, NodeKind::PathSegment, 0) {
        Some(first) => {
            assert(is_innermost(ancestors, first));
            assert forall|at: int|
                #[trigger] is_innermost(ancestors, at) && ancestors[at].kind
                    == NodeKind::PathSegment implies at == first by {
                if first < at {
                    assert(ancestors[first].kind != ancestors[at].kind);
                }
            }
        },
        None => {},
    }
}

proof fn lemma_public_use(ancestors: Seq<Ancestor>)
    ensures
        in_public_use(ancestors) == is_reexported(ancestors),
{
    lemma_first_of_kind(ancestors, NodeKind::Use, 0);
    match first_of_kind(ancestors, NodeKind::Use, 0) {
        Some(first) => {
            assert(is_innermost(ancestors, first));
            assert forall|at: int|
                #[trigger] is_innermost(ancestors, at) && ancestors[at].kind
                    == NodeKind::Use implies at == first by {
                if first < at {
                    assert(ancestors[first].kind != ancestors[at].kind);
                }
            }
        },
        None => {},
    }
}

proof fn lemma_silent(
    kind: SymbolInformationKind,
    ancestors: Seq<Ancestor>,
    range: TextRange,
    node: Ancestor,
)
    ensures
        role_by(kind, ancestors, range, node) is None <==> is_silent(kind, ancestors, range, node),
{
    lemma_last_segment(ancestors);
}

proof fn lemma_told(
    kind: SymbolInformationKind,
    ancestors: Seq<Ancestor>,
    range: TextRange,
    at: int,
    from: int,
)
    requires
        is_telling(kind, ancestors, range, at),
        0 <= from <= at,
    ensures
        Some(role_from(kind, ancestors, range, from)) == role_by(
            kind,
            ancestors,
            range,
            ancestors[at],
        ),
    decreases at - from,
{
    lemma_silent(kind, ancestors, range, ancestors[from]);
    if from < at {
        assert(is_silent(kind, ancestors, range, ancestors[from]));
        lemma_told(kind, ancestors, range, at, from + 1);
    }
}

/// Naming a struct or a variant of an enum at the end of a path expression makes a value of it, as
/// does calling a method on it.
pub proof fn law_values_are_instantiated(
    kind: SymbolInformationKind,
    ancestors: Seq<Ancestor>,
    range: TextRange,
    at: int,
)
    requires
        kind == SymbolInformationKind::Struct || kind == SymbolInformationKind::EnumMember,
        0 <= at < ancestors.len(),
        forall|i: int| 0 <= i < at ==> is_silent(kind, ancestors, range, #[trigger] ancestors[i]),
    ensures
        ancestors[at].kind == NodeKind::PathExpr && ancestors[at].range.end == range.end
            && ends_path(ancestors) ==> role_from(kind, ancestors, range, 0)
            == StaticReferenceRole::Instantiate,
        ancestors[at].kind == NodeKind::MethodCallExpr && holds(ancestors[at].receiver, range)
            && !holds(ancestors[at].part, range) ==> role_from(kind, ancestors, range, 0)
            == StaticReferenceRole::Instantiate,
{
    lemma_last_segment(ancestors);
    if !is_silent(kind, ancestors, range, ancestors[at]) {
        lemma_told(kind, ancestors, range, at, 0);
    }
}

/// Whatever is named at the end of the path of a record expression is instantiated.
pub proof fn law_records_are_instantiated(
    kind: SymbolInformationKind,
    ancestors: Seq<Ancestor>,
    range: TextRange,
    at: int,
)
    requires
        0 <= at < ancestors.len(),
        ancestors[at].kind == NodeKind::RecordExpr,
        holds(ancestors[at].part, range),
        ends_path(ancestors),
        forall|i: int| 0 <= i < at ==> is_silent(kind, ancestors, range, #[trigger] ancestors[i]),
    ensures
        role_from(kind, ancestors, range, 0) == StaticReferenceRole::Instantiate,
{
    lemma_last_segment(ancestors);
    lemma_told(kind, ancestors, range, at, 0);
}

/// The last segment of the callee of a call, the name of a method in a call of it, and the name of a
/// macro in a call of it are called.
pub proof fn law_callees_are_called(
    kind: SymbolInformationKind,
    ancestors: Seq<Ancestor>,
    range: TextRange,
    at: int,
)
    requires
        0 <= at < ancestors.len(),
        forall|i: int| 0 <= i < at ==> is_silent(kind, ancestors, range, #[trigger] ancestors[i]),
    ensures
        ancestors[at].kind == NodeKind::CallExpr && holds(ancestors[at].part, range) && ends_path(
            ancestors,
        ) ==> role_from(kind, ancestors, range, 0) == StaticReferenceRole::Call,
        ancestors[at].kind == NodeKind::MethodCallExpr && holds(ancestors[at].part, range)
            ==> role_from(kind, ancestors, range, 0) == StaticReferenceRole::Call,
        ancestors[at].kind == NodeKind::MacroCall && kind == SymbolInformationKind::Macro
            ==> role_from(kind, ancestors, range, 0) == StaticReferenceRole::Call,
{
    lemma_last_segment(ancestors);
    if !is_silent(kind, ancestors, range, ancestors[at]) {
        lemma_told(kind, ancestors, range, at, 0);
    }
}

/// The last segment of the path of a type is a type. Fields of values and of record expressions are
/// accessed. What stands in an attribute decorates.
pub proof fn law_types_fields_and_attributes(
    kind: SymbolInformationKind,
    ancestors: Seq<Ancestor>,
    range: TextRange,
    at: int,
)
    requires
        0 <= at < ancestors.len(),
        forall|i: int| 0 <= i < at ==> is_silent(kind, ancestors, range, #[trigger] ancestors[i]),
    ensures
        ancestors[at].kind == NodeKind::PathType && ends_path(ancestors) ==> role_from(
            kind,
            ancestors,
            range,
            0,
        ) == StaticReferenceRole::Type,
        ancestors[at].kind == NodeKind::FieldExpr ==> role_from(kind, ancestors, range, 0)
            == StaticReferenceRole::Access,
        ancestors[at].kind == NodeKind::RecordExprField ==> role_from(kind, ancestors, range, 0)
            == StaticReferenceRole::Access,
        ancestors[at].kind == NodeKind::Attr ==> role_from(kind, ancestors, range, 0)
            == StaticReferenceRole::Decorate,
{
    lemma_last_segment(ancestors);
    if !is_silent(kind, ancestors, range, ancestors[at]) {
        lemma_told(kind, ancestors, range, at, 0);
    }
}

/// What a use tree names is exported where the use item is visible everywhere and the path ends
/// there, and imported otherwise.
pub proof fn law_uses_import_or_export(
    kind: SymbolInformationKind,
    ancestors: Seq<Ancestor>,
    range: TextRange,
    at: int,
)
    requires
        0 <= at < ancestors.len(),
        ancestors[at].kind == NodeKind::UseTree,
        forall|i: int| 0 <= i < at ==> is_silent(kind, ancestors, range, #[trigger] ancestors[i]),
    ensures
        is_reexported(ancestors) && ends_path(ancestors) ==> role_from(kind, ancestors, range, 0)
            == StaticReferenceRole::Export,
        !is_reexported(ancestors) || !ends_path(ancestors) ==> role_from(
            kind,
            ancestors,
            range,
            0,
        ) == StaticReferenceRole::Import,
{
    lemma_last_segment(ancestors);
    lemma_public_use(ancestors);
    lemma_told(kind, ancestors, range, at, 0);
}

/// A token around which no node says anything only refers: no attribute, use tree or field expression
/// is around it, no call calls it, no type ends with it, and, where it could make a value, no path
/// expression ends with it and no method is called on it.
pub proof fn law_other_tokens_refer(
    kind: SymbolInformationKind,
    ancestors: Seq<Ancestor>,
    range: TextRange,
)
    requires
        forall|i: int|
            0 <= i < ancestors.len() ==> {
                let node = #[trigger] ancestors[i];
                ||| node.kind == NodeKind::Use || node.kind == NodeKind::PathSegment || node.kind
                    == NodeKind::Path || node.kind == NodeKind::Other
                ||| node.kind == NodeKind::MacroCall && kind != SymbolInformationKind::Macro
                ||| node.kind == NodeKind::PathType && !ends_path(ancestors)
                ||| node.kind == NodeKind::PathExpr && (kind != SymbolInformationKind::Struct
                    && kind != SymbolInformationKind::EnumMember || node.range.end != range.end
                    || !ends_path(ancestors))
                ||| node.kind == NodeKind::RecordExpr && !(holds(node.part, range) && ends_path(
                    ancestors,
                ))
                ||| node.kind == NodeKind::CallExpr && !(holds(node.part, range) && ends_path(
                    ancestors,
                ))
                ||| node.kind == NodeKind::MethodCallExpr && !holds(node.part, range) && (kind
                    != SymbolInformationKind::Struct && kind != SymbolInformationKind::EnumMember
                    || !holds(node.receiver, range))
            },
    ensures
        role_from(kind, ancestors, range, 0) == StaticReferenceRole::Reference,
{
    lemma_referred(kind, ancestors, range, 0);
}

proof fn lemma_referred(
    kind: SymbolInformationKind,
    ancestors: Seq<Ancestor>,
    range: TextRange,
    from: int,
)
    requires
        0 <= from <= ancestors.len(),
        forall|i: int|
            0 <= i < ancestors.len() ==> is_silent(kind, ancestors, range, #[trigger] ancestors[i]),
    ensures
        role_from(kind, ancestors, range, from) == StaticReferenceRole::Reference,
    decreases ancestors.len() - from,
{
    if from < ancestors.len() {
        lemma_silent(kind, ancestors, range, ancestors[from]);
        lemma_referred(kind, ancestors, range, from + 1);
    }
}

/// Calls on one token for two kinds of declarations differ only where the kind matters: for structs
/// and variants of enums, which are made, and for macros, which are called.
pub proof fn law_roles_by_kind(
    kind: SymbolInformationKind,
    other: SymbolInformationKind,
    ancestors: Seq<Ancestor>,
    range: TextRange,
)
    requires
        (kind == SymbolInformationKind::Struct || kind == SymbolInformationKind::EnumMember)
            == (other == SymbolInformationKind::Struct || other
            == SymbolInformationKind::EnumMember),
        (kind == SymbolInformationKind::Macro) == (other == SymbolInformationKind::Macro),
    ensures
        role_from(kind, ancestors, range, 0) == role_from(other, ancestors, range, 0),
{
    lemma_same_role(kind, other, ancestors, range, 0);
}

proof fn lemma_same_role(
    kind: SymbolInformationKind,
    other: SymbolInformationKind,
    ancestors: Seq<Ancestor>,
    range: TextRange,
    from: int,
)
    requires
        0 <= from <= ancestors.len(),
        (kind == SymbolInformationKind::Struct || kind == SymbolInformationKind::EnumMember)
            == (other == SymbolInformationKind::Struct || other
            == SymbolInformationKind::EnumMember),
        (kind == SymbolInformationKind::Macro) == (other == SymbolInformationKind::Macro),
    ensures
        role_from(kind, ancestors, range, from) == role_from(other, ancestors, range, from),
    decreases ancestors.len() - from,
{
    if from < ancestors.len() {
        lemma_same_role(kind, other, ancestors, range, from + 1);
    }
}

} // verus!
