//! Monikers: names of declarations that hold across packages.

use vstd::prelude::*;

use crate::order::{Key, Place};
use crate::plain::Plain;

verus! {

/// What a declaration is.
#[derive(Debug, Clone, Copy, PartialEq, Eq, Structural)]
pub enum SymbolInformationKind {
    AssociatedType,
    Attribute,
    Constant,
    Enum,
    EnumMember,
    Field,
    Function,
    Macro,
    Method,
    Module,
    Parameter,
    SelfParameter,
    StaticMethod,
    StaticVariable,
    Struct,
    Trait,
    TraitMethod,
    Type,
    TypeAlias,
    TypeParameter,
    Union,
    Variable,
}

impl DeepView for SymbolInformationKind {
    type V = SymbolInformationKind;

    open spec fn deep_view(&self) -> SymbolInformationKind {
        *self
    }
}

impl Plain for SymbolInformationKind {
    fn duplicate(&self) -> (copy: Self) {
        *self
    }

    fn same(&self, other: &Self) -> (equal: bool) {
        *self == *other
    }
}

/// The name of a kind of declaration.
pub open spec fn kind_name(kind: SymbolInformationKind) -> Seq<char> {
    match kind {
        SymbolInformationKind::AssociatedType => "AssociatedType"@,
        SymbolInformationKind::Attribute => "Attribute"@,
        SymbolInformationKind::Constant => "Constant"@,
        SymbolInformationKind::Enum => "Enum"@,
        SymbolInformationKind::EnumMember => "EnumMember"@,
        SymbolInformationKind::Field => "Field"@,
        SymbolInformationKind::Function => "Function"@,
        SymbolInformationKind::Macro => "Macro"@,
        SymbolInformationKind::Method => "Method"@,
        SymbolInformationKind::Module => "Module"@,
        SymbolInformationKind::Parameter => "Parameter"@,
        SymbolInformationKind::SelfParameter => "SelfParameter"@,
        SymbolInformationKind::StaticMethod => "StaticMethod"@,
        SymbolInformationKind::StaticVariable => "StaticVariable"@,
        SymbolInformationKind::Struct => "Struct"@,
        SymbolInformationKind::Trait => "Trait"@,
        SymbolInformationKind::TraitMethod => "TraitMethod"@,
        SymbolInformationKind::Type => "Type"@,
        SymbolInformationKind::TypeAlias => "TypeAlias"@,
        SymbolInformationKind::TypeParameter => "TypeParameter"@,
        SymbolInformationKind::Union => "Union"@,
        SymbolInformationKind::Variable => "Variable"@,
    }
}

/// The name of a kind of declaration.
pub fn kind_text(kind: SymbolInformationKind) -> (text: &'static str)
    ensures
        text@ == kind_name(kind),
{
    match kind {
        SymbolInformationKind::AssociatedType => "AssociatedType",
        SymbolInformationKind::Attribute => "Attribute",
        SymbolInformationKind::Constant => "Constant",
        SymbolInformationKind::Enum => "Enum",
        SymbolInformationKind::EnumMember => "EnumMember",
        SymbolInformationKind::Field => "Field",
        SymbolInformationKind::Function => "Function",
        SymbolInformationKind::Macro => "Macro",
        SymbolInformationKind::Method => "Method",
        SymbolInformationKind::Module => "Module",
        SymbolInformationKind::Parameter => "Parameter",
        SymbolInformationKind::SelfParameter => "SelfParameter",
        SymbolInformationKind::StaticMethod => "StaticMethod",
        SymbolInformationKind::StaticVariable => "StaticVariable",
        SymbolInformationKind::Struct => "Struct",
        SymbolInformationKind::Trait => "Trait",
        SymbolInformationKind::TraitMethod => "TraitMethod",
        SymbolInformationKind::Type => "Type",
        SymbolInformationKind::TypeAlias => "TypeAlias",
        SymbolInformationKind::TypeParameter => "TypeParameter",
        SymbolInformationKind::Union => "Union",
        SymbolInformationKind::Variable => "Variable",
    }
}

/// The rank of a kind of declaration in the order of kinds.
pub open spec fn kind_rank(kind: SymbolInformationKind) -> u8 {
    match kind {
        SymbolInformationKind::AssociatedType => 0,
        SymbolInformationKind::Attribute => 1,
        SymbolInformationKind::Constant => 2,
        SymbolInformationKind::Enum => 3,
        SymbolInformationKind::EnumMember => 4,
        SymbolInformationKind::Field => 5,
        SymbolInformationKind::Function => 6,
        SymbolInformationKind::Macro => 7,
        SymbolInformationKind::Method => 8,
        SymbolInformationKind::Module => 9,
        SymbolInformationKind::Parameter => 10,
        SymbolInformationKind::SelfParameter => 11,
        SymbolInformationKind::StaticMethod => 12,
        SymbolInformationKind::StaticVariable => 13,
        SymbolInformationKind::Struct => 14,
        SymbolInformationKind::Trait => 15,
        SymbolInformationKind::TraitMethod => 16,
        SymbolInformationKind::Type => 17,
        SymbolInformationKind::TypeAlias => 18,
        SymbolInformationKind::TypeParameter => 19,
        SymbolInformationKind::Union => 20,
        SymbolInformationKind::Variable => 21,
    }
}

fn kind_rank_of(kind: SymbolInformationKind) -> (rank: u8)
    ensures
        rank == kind_rank(kind),
{
    match kind {
        SymbolInformationKind::AssociatedType => 0,
        SymbolInformationKind::Attribute => 1,
        SymbolInformationKind::Constant => 2,
        SymbolInformationKind::Enum => 3,
        SymbolInformationKind::EnumMember => 4,
        SymbolInformationKind::Field => 5,
        SymbolInformationKind::Function => 6,
        SymbolInformationKind::Macro => 7,
        SymbolInformationKind::Method => 8,
        SymbolInformationKind::Module => 9,
        SymbolInformationKind::Parameter => 10,
        SymbolInformationKind::SelfParameter => 11,
        SymbolInformationKind::StaticMethod => 12,
        SymbolInformationKind::StaticVariable => 13,
        SymbolInformationKind::Struct => 14,
        SymbolInformationKind::Trait => 15,
        SymbolInformationKind::TraitMethod => 16,
        SymbolInformationKind::Type => 17,
        SymbolInformationKind::TypeAlias => 18,
        SymbolInformationKind::TypeParameter => 19,
        SymbolInformationKind::Union => 20,
        SymbolInformationKind::Variable => 21,
    }
}

/// Kinds of declarations are ordered by their names.
impl Key for SymbolInformationKind {
    open spec fn before(left: SymbolInformationKind, right: SymbolInformationKind) -> bool {
        kind_rank(left) < kind_rank(right)
    }

    proof fn lemma_irreflexive(value: SymbolInformationKind) {
    }

    proof fn lemma_transitive(
        first: SymbolInformationKind,
        second: SymbolInformationKind,
        third: SymbolInformationKind,
    ) {
    }

    proof fn lemma_total(left: SymbolInformationKind, right: SymbolInformationKind) {
    }

    fn place(&self, other: &Self) -> (place: Place) {
        kind_rank_of(*self).place(&kind_rank_of(*other))
    }
}

/// What a part of a moniker describes.
#[derive(Debug, Clone, Copy, PartialEq, Eq, Structural)]
pub enum MonikerDescriptorKind {
    Namespace,
    Type,
    Term,
    Method,
    TypeParameter,
    Parameter,
    Macro,
    Meta,
}

impl DeepView for MonikerDescriptorKind {
    type V = MonikerDescriptorKind;

    open spec fn deep_view(&self) -> MonikerDescriptorKind {
        *self
    }
}

impl Plain for MonikerDescriptorKind {
    fn duplicate(&self) -> (copy: Self) {
        *self
    }

    fn same(&self, other: &Self) -> (equal: bool) {
        *self == *other
    }
}

/// The name of a kind of descriptor.
pub open spec fn descriptor_name(kind: MonikerDescriptorKind) -> Seq<char> {
    match kind {
        MonikerDescriptorKind::Namespace => "Namespace"@,
        MonikerDescriptorKind::Type => "Type"@,
        MonikerDescriptorKind::Term => "Term"@,
        MonikerDescriptorKind::Method => "Method"@,
        MonikerDescriptorKind::TypeParameter => "TypeParameter"@,
        MonikerDescriptorKind::Parameter => "Parameter"@,
        MonikerDescriptorKind::Macro => "Macro"@,
        MonikerDescriptorKind::Meta => "Meta"@,
    }
}

/// The name of a kind of descriptor.
pub fn descriptor_text(kind: MonikerDescriptorKind) -> (text: &'static str)
    ensures
        text@ == descriptor_name(kind),
{
    match kind {
        MonikerDescriptorKind::Namespace => "Namespace",
        MonikerDescriptorKind::Type => "Type",
        MonikerDescriptorKind::Term => "Term",
        MonikerDescriptorKind::Method => "Method",
        MonikerDescriptorKind::TypeParameter => "TypeParameter",
        MonikerDescriptorKind::Parameter => "Parameter",
        MonikerDescriptorKind::Macro => "Macro",
        MonikerDescriptorKind::Meta => "Meta",
    }
}

/// A part of a moniker.
#[derive(Debug, Clone, PartialEq, Eq)]
pub struct MonikerDescriptor {
    pub name: String,
    pub desc: MonikerDescriptorKind,
}

/// The content of a [`MonikerDescriptor`].
pub struct MonikerDescriptorModel {
    pub name: Seq<char>,
    pub desc: MonikerDescriptorKind,
}

impl DeepView for MonikerDescriptor {
    type V = MonikerDescriptorModel;

    open spec fn deep_view(&self) -> MonikerDescriptorModel {
        MonikerDescriptorModel {
            name: self.name.deep_view(),
            desc: self.desc.deep_view(),
        }
    }
}

impl Plain for MonikerDescriptor {
    fn duplicate(&self) -> (copy: Self) {
        MonikerDescriptor {
            name: self.name.duplicate(),
            desc: self.desc.duplicate(),
        }
    }

    fn same(&self, other: &Self) -> (equal: bool) {
        self.name.same(&other.name)
            && self.desc.same(&other.desc)
    }
}

/// The path of a declaration inside its crate.
#[derive(Debug, Clone, PartialEq, Eq)]
pub struct MonikerIdentifier {
    pub crate_name: String,
    pub description: Vec<MonikerDescriptor>,
}

/// The content of a [`MonikerIdentifier`].
pub struct MonikerIdentifierModel {
    pub crate_name: Seq<char>,
    pub description: Seq<MonikerDescriptorModel>,
}

impl DeepView for MonikerIdentifier {
    type V = MonikerIdentifierModel;

    open spec fn deep_view(&self) -> MonikerIdentifierModel {
        MonikerIdentifierModel {
            crate_name: self.crate_name.deep_view(),
            description: self.description.deep_view(),
        }
    }
}

impl Plain for MonikerIdentifier {
    fn duplicate(&self) -> (copy: Self) {
        MonikerIdentifier {
            crate_name: self.crate_name.duplicate(),
            description: self.description.duplicate(),
        }
    }

    fn same(&self, other: &Self) -> (equal: bool) {
        self.crate_name.same(&other.crate_name)
            && self.description.same(&other.description)
    }
}

/// The package that a moniker belongs to.
#[derive(Debug, Clone, PartialEq, Eq)]
pub struct PackageInformation {
    pub name: String,
    pub repo: Option<String>,
    pub version: Option<String>,
}

/// The content of a [`PackageInformation`].
pub struct PackageInformationModel {
    pub name: Seq<char>,
    pub repo: Option<Seq<char>>,
    pub version: Option<Seq<char>>,
}

impl DeepView for PackageInformation {
    type V = PackageInformationModel;

    open spec fn deep_view(&self) -> PackageInformationModel {
        PackageInformationModel {
            name: self.name.deep_view(),
            repo: self.repo.deep_view(),
            version: self.version.deep_view(),
        }
    }
}

impl Plain for PackageInformation {
    fn duplicate(&self) -> (copy: Self) {
        PackageInformation {
            name: self.name.duplicate(),
            repo: self.repo.duplicate(),
            version: self.version.duplicate(),
        }
    }

    fn same(&self, other: &Self) -> (equal: bool) {
        self.name.same(&other.name)
            && self.repo.same(&other.repo)
            && self.version.same(&other.version)
    }
}

/// The name of a declaration that other packages can refer to.
#[derive(Debug, Clone, PartialEq, Eq)]
pub struct Moniker {
    pub identifier: MonikerIdentifier,
    pub package_information: PackageInformation,
}

/// The content of a [`Moniker`].
pub struct MonikerModel {
    pub identifier: MonikerIdentifierModel,
    pub package_information: PackageInformationModel,
}

impl DeepView for Moniker {
    type V = MonikerModel;

    open spec fn deep_view(&self) -> MonikerModel {
        MonikerModel {
            identifier: self.identifier.deep_view(),
            package_information: self.package_information.deep_view(),
        }
    }
}

impl Plain for Moniker {
    fn duplicate(&self) -> (copy: Self) {
        Moniker {
            identifier: self.identifier.duplicate(),
            package_information: self.package_information.duplicate(),
        }
    }

    fn same(&self, other: &Self) -> (equal: bool) {
        self.identifier.same(&other.identifier)
            && self.package_information.same(&other.package_information)
    }
}

/// What is known of the name of a declaration.
#[derive(Debug, Clone, PartialEq, Eq)]
pub enum MonikerResult {
    /// The declaration has a moniker.
    Moniker(Moniker),
    /// The declaration is local to another one, which may have a moniker.
    Local { enclosing_moniker: Option<Moniker> },
}

/// The content of a [`MonikerResult`].
pub enum MonikerResultModel {
    Moniker(MonikerModel),
    Local { enclosing_moniker: Option<MonikerModel> },
}

impl DeepView for MonikerResult {
    type V = MonikerResultModel;

    open spec fn deep_view(&self) -> MonikerResultModel {
        match self {
            MonikerResult::Moniker(moniker) => MonikerResultModel::Moniker(moniker.deep_view()),
            MonikerResult::Local { enclosing_moniker } => MonikerResultModel::Local {
                enclosing_moniker: enclosing_moniker.deep_view(),
            },
        }
    }
}

impl Plain for MonikerResult {
    fn duplicate(&self) -> (copy: Self) {
        match self {
            MonikerResult::Moniker(moniker) => MonikerResult::Moniker(moniker.duplicate()),
            MonikerResult::Local { enclosing_moniker } => MonikerResult::Local {
                enclosing_moniker: enclosing_moniker.duplicate(),
            },
        }
    }

    fn same(&self, other: &Self) -> (equal: bool) {
        match (self, other) {
            (MonikerResult::Moniker(left), MonikerResult::Moniker(right)) => left.same(right),
            (
                MonikerResult::Local { enclosing_moniker: left },
                MonikerResult::Local { enclosing_moniker: right },
            ) => left.same(right),
            _ => false,
        }
    }
}

} // verus!
