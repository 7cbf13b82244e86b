//! Paths of a file system as sequences of components.

use vstd::prelude::*;

use crate::order::{Key, Place, pair_before};
use crate::plain::Plain;

verus! {

/// A component of a path. Names are byte strings, as file systems give them.
#[derive(Debug, Clone, PartialEq, Eq)]
pub enum Component {
    /// A drive or a share.
    Prefix(Vec<u8>),
    /// The root.
    RootDir,
    /// A leading dot.
    CurDir,
    /// Two dots.
    ParentDir,
    /// A name.
    Normal(Vec<u8>),
}

/// The content of a [`Component`].
pub enum ComponentModel {
    Prefix(Seq<u8>),
    RootDir,
    CurDir,
    ParentDir,
    Normal(Seq<u8>),
}

impl DeepView for Component {
    type V = ComponentModel;

    open spec fn deep_view(&self) -> ComponentModel {
        match self {
            Component::Prefix(name) => ComponentModel::Prefix(name.deep_view()),
            Component::RootDir => ComponentModel::RootDir,
            Component::CurDir => ComponentModel::CurDir,
            Component::ParentDir => ComponentModel::ParentDir,
            Component::Normal(name) => ComponentModel::Normal(name.deep_view()),
        }
    }
}

/// A component as a pair of numbers and bytes by which components are ordered.
pub open spec fn component_rank(component: ComponentModel) -> (u8, Seq<u8>) {
    match component {
        ComponentModel::Prefix(name) => (0, name),
        ComponentModel::RootDir => (1, Seq::empty()),
        ComponentModel::CurDir => (2, Seq::empty()),
        ComponentModel::ParentDir => (3, Seq::empty()),
        ComponentModel::Normal(name) => (4, name),
    }
}

impl Component {
    fn kind(&self) -> (kind: u8)
        ensures
            kind == component_rank(self.deep_view()).0,
    {
        match self {
            Component::Prefix(_) => 0,
            Component::RootDir => 1,
            Component::CurDir => 2,
            Component::ParentDir => 3,
            Component::Normal(_) => 4,
        }
    }
}

impl Plain for Component {
    fn duplicate(&self) -> (copy: Self) {
        match self {
            Component::Prefix(name) => Component::Prefix(name.duplicate()),
            Component::RootDir => Component::RootDir,
            Component::CurDir => Component::CurDir,
            Component::ParentDir => Component::ParentDir,
            Component::Normal(name) => Component::Normal(name.duplicate()),
        }
    }

    fn same(&self, other: &Self) -> (equal: bool) {
        match (self, other) {
            (Component::Prefix(left), Component::Prefix(right)) => left.same(right),
            (Component::RootDir, Component::RootDir) => true,
            (Component::CurDir, Component::CurDir) => true,
            (Component::ParentDir, Component::ParentDir) => true,
            (Component::Normal(left), Component::Normal(right)) => left.same(right),
            _ => false,
        }
    }
}

/// Components are ordered by their kind, and names by their bytes.
impl Key for Component {
    open spec fn before(left: ComponentModel, right: ComponentModel) -> bool {
        pair_before::<u8, Vec<u8>>(component_rank(left), component_rank(right))
    }

    proof fn lemma_irreflexive(value: ComponentModel) {
        <(u8, Vec<u8>) as Key>::lemma_irreflexive(component_rank(value));
    }

    proof fn lemma_transitive(first: ComponentModel, second: ComponentModel, third: ComponentModel) {
        <(u8, Vec<u8>) as Key>::lemma_transitive(
            component_rank(first),
            component_rank(second),
            component_rank(third),
        );
    }

    proof fn lemma_total(left: ComponentModel, right: ComponentModel) {
        <(u8, Vec<u8>) as Key>::lemma_total(component_rank(left), component_rank(right));
    }

    fn place(&self, other: &Self) -> (place: Place) {
        match self.kind().place(&other.kind()) {
            Place::Same => match (self, other) {
                (Component::Prefix(left), Component::Prefix(right)) => left.place(right),
                (Component::Normal(left), Component::Normal(right)) => left.place(right),
                _ => Place::Same,
            },
            decided => decided,
        }
    }
}

/// A path.
pub type FsPath = Vec<Component>;

/// The content of a path.
pub type PathModel = Seq<ComponentModel>;

/// The path without its last component. A root, a prefix and the empty path have none.
pub open spec fn parent_of(path: PathModel) -> Option<PathModel> {
    if path.len() == 0 {
        None
    } else {
        match path.last() {
            ComponentModel::Prefix(_) => None,
            ComponentModel::RootDir => None,
            _ => Some(path.drop_last()),
        }
    }
}

/// The path without its last component.
pub fn parent(path: &FsPath) -> (parent: Option<FsPath>)
    ensures
        parent.deep_view() == parent_of(path.deep_view()),
{
    if path.len() == 0 {
        return None;
    }
    assert(path.deep_view().last() == path@[path.len() - 1].deep_view());
    match &path[path.len() - 1] {
        Component::Prefix(_) => None,
        Component::RootDir => None,
        _ => {
            let mut copy = path.duplicate();
            let ghost all = copy.deep_view();
            let _ = copy.pop();
            assert(copy.deep_view() =~= all.drop_last());
            Some(copy)
        },
    }
}

/// The parent of a path, unless it is empty.
pub open spec fn watchable_parent(path: PathModel) -> Option<PathModel> {
    match parent_of(path) {
        Some(parent) => if parent.len() > 0 {
            Some(parent)
        } else {
            None
        },
        None => None,
    }
}

/// The parent of a path, unless it is empty.
pub fn nonempty_parent(path: &FsPath) -> (result: Option<FsPath>)
    ensures
        result.deep_view() == watchable_parent(path.deep_view()),
{
    match parent(path) {
        Some(parent) => {
            assert(parent.deep_view().len() == parent.len());
            if parent.len() > 0 {
                Some(parent)
            } else {
                None
            }
        },
        None => None,
    }
}

/// A path below another one. One that starts at a root or a drive of its own replaces it, and one
/// that starts at a root keeps the drive.
pub open spec fn joined(base: PathModel, path: PathModel) -> PathModel {
    if base.len() == 0 || path.len() == 0 {
        base + path
    } else {
        match path[0] {
            ComponentModel::Prefix(_) => path,
            ComponentModel::RootDir => match base[0] {
                ComponentModel::Prefix(_) => seq![base[0]] + path,
                _ => path,
            },
            ComponentModel::CurDir => base + path.drop_first(),
            _ => base + path,
        }
    }
}

fn append_from(base: &mut FsPath, path: &FsPath, start: usize)
    requires
        start <= path.len(),
    ensures
        final(base).deep_view() == old(base).deep_view() + path.deep_view().skip(start as int),
{
    let ghost first = base.deep_view();
    let ghost rest = path.deep_view();
    let mut index: usize = start;
    assert(base.deep_view() =~= first + rest.subrange(start as int, start as int));
    while index < path.len()
        invariant
            start <= index <= path.len(),
            rest == path.deep_view(),
            base.deep_view() == first + rest.subrange(start as int, index as int),
        decreases path.len() - index,
    {
        let ghost before = base.deep_view();
        let component = path[index].duplicate();
        let ghost added = component.deep_view();
        base.push(component);
        proof {
            assert(added == rest[index as int]);
            assert(base.deep_view() =~= before.push(added));
            assert(base.deep_view() =~= first + rest.subrange(start as int, index + 1));
        }
        index += 1;
    }
    assert(rest.subrange(start as int, index as int) =~= rest.skip(start as int));
}

/// Puts a path below another one.
pub fn join_paths(base: &FsPath, path: &FsPath) -> (result: FsPath)
    ensures
        result.deep_view() == joined(base.deep_view(), path.deep_view()),
{
    let ghost b = base.deep_view();
    let ghost p = path.deep_view();
    if base.len() == 0 || path.len() == 0 {
        let mut result = base.duplicate();
        append_from(&mut result, path, 0);
        assert(p.skip(0) =~= p);
        return result;
    }
    assert(p[0] == path@[0].deep_view());
    assert(b[0] == base@[0].deep_view());
    match &path[0] {
        Component::Prefix(_) => path.duplicate(),
        Component::RootDir => match &base[0] {
            Component::Prefix(_) => {
                let mut result: FsPath = Vec::new();
                result.push(base[0].duplicate());
                assert(result.deep_view() =~= seq![b[0]]);
                append_from(&mut result, path, 0);
                assert(p.skip(0) =~= p);
                result
            },
            _ => path.duplicate(),
        },
        Component::CurDir => {
            let mut result = base.duplicate();
            append_from(&mut result, path, 1);
            assert(p.skip(1) =~= p.drop_first());
            result
        },
        _ => {
            let mut result = base.duplicate();
            append_from(&mut result, path, 0);
            assert(p.skip(0) =~= p);
            result
        },
    }
}

/// The last component of a path, where it is a name.
pub open spec fn name_of(path: PathModel) -> Option<ComponentModel> {
    if path.len() > 0 && path.last() is Normal {
        Some(path.last())
    } else {
        None
    }
}

/// The last component of a path, where it is a name.
pub fn file_name(path: &FsPath) -> (name: Option<Component>)
    ensures
        name.deep_view() == name_of(path.deep_view()),
{
    if path.len() == 0 {
        return None;
    }
    assert(path.deep_view().last() == path@[path.len() - 1].deep_view());
    match &path[path.len() - 1] {
        Component::Normal(name) => Some(Component::Normal(name.duplicate())),
        _ => None,
    }
}

/// The components of a path from a position on.
pub fn path_from(path: &FsPath, start: usize) -> (rest: FsPath)
    requires
        start <= path.len(),
    ensures
        rest.deep_view() == path.deep_view().skip(start as int),
{
    let mut rest: FsPath = Vec::new();
    assert(rest.deep_view() =~= Seq::<ComponentModel>::empty());
    append_from(&mut rest, path, start);
    assert(rest.deep_view() =~= path.deep_view().skip(start as int));
    rest
}

} // verus!
