//! Links among external inputs: where they lead, and what to watch along the way.

use vstd::prelude::*;
use vstd::utf8::encode_utf8;

use crate::error::{GraphError, GraphErrorModel, failure, outcome};
use crate::external::{
    DiskStatus, ExternalGraphInput, ExternalGraphInputModel, insert_missing_target_watch_roots,
    insert_watch_root, insert_with_parent, is_absent, with_missing, with_root, with_root_and_parent,
};
use crate::keys::{
    content_digest, digest_content, external_input_key, external_input_key_suffix, input_key,
    suffixed,
};
use crate::paths::{
    Component, ComponentModel, FsPath, PathModel, file_name, join_paths, joined, name_of,
    nonempty_parent, parent, parent_of, path_from, watchable_parent,
};
use crate::plain::Plain;
use crate::table::Table;

verus! {

/// The number of links that are followed from one link on.
pub const MAX_SYMLINK_HOPS: usize = 64;

/// A path that is being inspected component by component.
#[derive(Debug, Clone, PartialEq, Eq)]
pub struct Inspection {
    pub path: Vec<Component>,
    /// The part of the path that was inspected.
    pub prefix: Vec<Component>,
    /// The number of components that were inspected.
    pub next: usize,
}

/// The content of a [`Inspection`].
pub struct InspectionModel {
    pub path: Seq<ComponentModel>,
    pub prefix: Seq<ComponentModel>,
    pub next: usize,
}

impl DeepView for Inspection {
    type V = InspectionModel;

    open spec fn deep_view(&self) -> InspectionModel {
        InspectionModel {
            path: self.path.deep_view(),
            prefix: self.prefix.deep_view(),
            next: self.next.deep_view(),
        }
    }
}

/// Where a path leads.
#[derive(Debug, Clone, PartialEq, Eq)]
pub enum SymlinkPath {
    /// To a link, behind which the rest of the path goes on.
    Link { path: Vec<Component>, suffix: Vec<Component> },
    /// To something that is no link.
    Existing { path: Vec<Component>, directory: bool },
    /// Nowhere.
    Missing { path: Vec<Component> },
}

/// The content of a [`SymlinkPath`].
pub enum SymlinkPathModel {
    Link { path: Seq<ComponentModel>, suffix: Seq<ComponentModel> },
    Existing { path: Seq<ComponentModel>, directory: bool },
    Missing { path: Seq<ComponentModel> },
}

impl DeepView for SymlinkPath {
    type V = SymlinkPathModel;

    open spec fn deep_view(&self) -> SymlinkPathModel {
        match self {
            SymlinkPath::Link { path, suffix } => SymlinkPathModel::Link {
                path: path.deep_view(),
                suffix: suffix.deep_view(),
            },
            SymlinkPath::Existing { path, directory } => SymlinkPathModel::Existing {
                path: path.deep_view(),
                directory: directory.deep_view(),
            },
            SymlinkPath::Missing { path } => SymlinkPathModel::Missing {
                path: path.deep_view(),
            },
        }
    }
}

/// How far an inspection has come.
#[derive(Debug, Clone, PartialEq, Eq)]
pub enum InspectStep {
    /// The prefix is to be looked at, whether it is a link or not.
    Link(Inspection),
    /// The prefix, which is the whole path, is to be looked at with links followed.
    Target(Inspection),
    /// The path was inspected.
    Done(SymlinkPath),
}

/// The content of a [`InspectStep`].
pub enum InspectStepModel {
    Link(InspectionModel),
    Target(InspectionModel),
    Done(SymlinkPathModel),
}

impl DeepView for InspectStep {
    type V = InspectStepModel;

    open spec fn deep_view(&self) -> InspectStepModel {
        match self {
            InspectStep::Link(value) => InspectStepModel::Link(value.deep_view()),
            InspectStep::Target(value) => InspectStepModel::Target(value.deep_view()),
            InspectStep::Done(value) => InspectStepModel::Done(value.deep_view()),
        }
    }
}

/// Inspects components up to the next name: the prefix up to it, the number of components, and
/// whether there was a name.
pub open spec fn scanned(path: PathModel, prefix: PathModel, next: int) -> (PathModel, int, bool)
    decreases path.len() - next,
{
    if next < 0 || next >= path.len() {
        (prefix, next, false)
    } else {
        match path[next] {
            ComponentModel::CurDir => scanned(path, prefix, next + 1),
            ComponentModel::ParentDir => scanned(
                path,
                match parent_of(prefix) {
                    Some(parent) => parent,
                    None => prefix,
                },
                next + 1,
            ),
            ComponentModel::Normal(_) => (prefix.push(path[next]), next + 1, true),
            _ => scanned(path, prefix.push(path[next]), next + 1),
        }
    }
}

/// The next look at the disk that an inspection needs.
pub open spec fn inspection_continued(path: PathModel, prefix: PathModel, next: int) -> InspectStepModel {
    let (prefix, next, found) = scanned(path, prefix, next);
    let inspection = InspectionModel { path, prefix, next: next as usize };
    if found {
        InspectStepModel::Link(inspection)
    } else {
        InspectStepModel::Target(inspection)
    }
}

fn continue_inspection(inspection: Inspection) -> (step: InspectStep)
    requires
        inspection.next <= inspection.path.len(),
    ensures
        step.deep_view() == inspection_continued(
            inspection.path.deep_view(),
            inspection.prefix.deep_view(),
            inspection.next as int,
        ),
        match step {
            InspectStep::Link(next) => next.next <= next.path.len(),
            _ => true,
        },
{
    let Inspection { path, prefix, next } = inspection;
    let ghost p = path.deep_view();
    let ghost first = prefix.deep_view();
    let ghost start = next as int;
    let mut prefix = prefix;
    let mut next: usize = next;
    while next < path.len()
        invariant
            next <= path.len(),
            p == path.deep_view(),
            p == inspection.path.deep_view(),
            first == inspection.prefix.deep_view(),
            start == inspection.next as int,
            scanned(p, first, start) == scanned(p, prefix.deep_view(), next as int),
        decreases path.len() - next,
    {
        assert(p[next as int] == path@[next as int].deep_view());
        let ghost before = prefix.deep_view();
        match &path[next] {
            Component::CurDir => {},
            Component::ParentDir => match parent(&prefix) {
                Some(parent) => {
                    prefix = parent;
                },
                None => {},
            },
            Component::Normal(_) => {
                prefix.push(path[next].duplicate());
                assert(prefix.deep_view() =~= before.push(p[next as int]));
                return InspectStep::Link(Inspection { path, prefix, next: next + 1 });
            },
            _ => {
                prefix.push(path[next].duplicate());
                assert(prefix.deep_view() =~= before.push(p[next as int]));
            },
        }
        next += 1;
    }
    InspectStep::Target(Inspection { path, prefix, next })
}

/// Starts to inspect a path.
pub fn inspect_symlink_path(path: FsPath) -> (step: InspectStep)
    ensures
        step.deep_view() == inspection_continued(path.deep_view(), Seq::empty(), 0),
        match step {
            InspectStep::Link(next) => next.next <= next.path.len(),
            _ => true,
        },
{
    let prefix: FsPath = Vec::new();
    assert(prefix.deep_view() =~= Seq::<ComponentModel>::empty());
    continue_inspection(Inspection { path, prefix, next: 0 })
}

/// What comes of looking at a prefix without following links.
pub open spec fn link_inspected(inspection: InspectionModel, status: DiskStatus, error: Seq<char>) -> Result<
    InspectStepModel,
    GraphErrorModel,
> {
    let path = inspection.path;
    let next = inspection.next as int;
    match status {
        DiskStatus::Symlink => Ok(
            InspectStepModel::Done(
                SymlinkPathModel::Link { path: inspection.prefix, suffix: path.skip(next) },
            ),
        ),
        DiskStatus::Directory => Ok(inspection_continued(path, inspection.prefix, next)),
        DiskStatus::File => if next < path.len() {
            Ok(InspectStepModel::Done(SymlinkPathModel::Missing { path }))
        } else {
            Ok(inspection_continued(path, inspection.prefix, next))
        },
        DiskStatus::Failed => Err(GraphErrorModel::Failed(error)),
        _ => Ok(InspectStepModel::Done(SymlinkPathModel::Missing { path })),
    }
}

/// Takes a look at a prefix, without following links, into account.
pub fn inspect_link(inspection: Inspection, status: DiskStatus, error: &str) -> (result: Result<
    InspectStep,
    GraphError,
>)
    requires
        inspection.next <= inspection.path.len(),
    ensures
        outcome(result) == link_inspected(inspection.deep_view(), status, error@),
        match result {
            Ok(InspectStep::Link(next)) => next.next <= next.path.len(),
            _ => true,
        },
{
    assert(inspection.deep_view().path.len() == inspection.path.len());
    match status {
        DiskStatus::Symlink => {
            let suffix = path_from(&inspection.path, inspection.next);
            Ok(InspectStep::Done(SymlinkPath::Link { path: inspection.prefix, suffix }))
        },
        DiskStatus::Directory => Ok(continue_inspection(inspection)),
        DiskStatus::File => if inspection.next < inspection.path.len() {
            Ok(InspectStep::Done(SymlinkPath::Missing { path: inspection.path }))
        } else {
            Ok(continue_inspection(inspection))
        },
        DiskStatus::Failed => Err(failure(error)),
        _ => Ok(InspectStep::Done(SymlinkPath::Missing { path: inspection.path })),
    }
}

/// What comes of looking at a whole path with links followed.
pub open spec fn target_inspected(
    inspection: InspectionModel,
    status: DiskStatus,
    error: Seq<char>,
) -> Result<SymlinkPathModel, GraphErrorModel> {
    match status {
        DiskStatus::Directory => Ok(
            SymlinkPathModel::Existing { path: inspection.prefix, directory: true },
        ),
        DiskStatus::File => Ok(
            SymlinkPathModel::Existing { path: inspection.prefix, directory: false },
        ),
        DiskStatus::Symlink => Ok(
            SymlinkPathModel::Existing { path: inspection.prefix, directory: false },
        ),
        DiskStatus::NotFound => Ok(SymlinkPathModel::Missing { path: inspection.path }),
        _ => Err(GraphErrorModel::Failed(error)),
    }
}

/// Takes a look at a whole path, with links followed, into account.
pub fn inspect_target(inspection: Inspection, status: DiskStatus, error: &str) -> (result: Result<
    SymlinkPath,
    GraphError,
>)
    ensures
        outcome(result) == target_inspected(inspection.deep_view(), status, error@),
{
    match status {
        DiskStatus::Directory => Ok(
            SymlinkPath::Existing { path: inspection.prefix, directory: true },
        ),
        DiskStatus::File | DiskStatus::Symlink => Ok(
            SymlinkPath::Existing { path: inspection.prefix, directory: false },
        ),
        DiskStatus::NotFound => Ok(SymlinkPath::Missing { path: inspection.path }),
        _ => Err(failure(error)),
    }
}

/// The identity of a link: its name below the canonical path of its parent, where that is known.
pub open spec fn link_identity(path: PathModel, canonical_parent: Option<PathModel>) -> PathModel {
    match parent_of(path) {
        None => path,
        Some(parent) => {
            let parent = match canonical_parent {
                Some(canonical) => canonical,
                None => parent,
            };
            match name_of(path) {
                Some(name) => joined(parent, seq![name]),
                None => parent,
            }
        },
    }
}

/// The identity of a link.
pub fn canonical_link_identity(path: &FsPath, canonical_parent: &Option<FsPath>) -> (link: FsPath)
    ensures
        link.deep_view() == link_identity(path.deep_view(), canonical_parent.deep_view()),
{
    let own = match parent(path) {
        Some(parent) => parent,
        None => return path.duplicate(),
    };
    let directory = match canonical_parent {
        Some(canonical) => canonical.duplicate(),
        None => own,
    };
    match file_name(path) {
        Some(name) => {
            let mut last: FsPath = Vec::new();
            let ghost n = name.deep_view();
            last.push(name);
            assert(last.deep_view() =~= seq![n]);
            join_paths(&directory, &last)
        },
        None => directory,
    }
}

/// What a link holds.
#[derive(Debug, Clone, PartialEq, Eq)]
pub struct LinkTarget {
    pub path: Vec<Component>,
    /// The bytes of the path in the encoding of the platform.
    pub bytes: Vec<u8>,
    pub is_absolute: bool,
}

/// The content of a [`LinkTarget`].
pub struct LinkTargetModel {
    pub path: Seq<ComponentModel>,
    pub bytes: Seq<u8>,
    pub is_absolute: bool,
}

impl DeepView for LinkTarget {
    type V = LinkTargetModel;

    open spec fn deep_view(&self) -> LinkTargetModel {
        LinkTargetModel {
            path: self.path.deep_view(),
            bytes: self.bytes.deep_view(),
            is_absolute: self.is_absolute.deep_view(),
        }
    }
}

impl Plain for LinkTarget {
    fn duplicate(&self) -> (copy: Self) {
        LinkTarget {
            path: self.path.duplicate(),
            bytes: self.bytes.duplicate(),
            is_absolute: self.is_absolute.duplicate(),
        }
    }

    fn same(&self, other: &Self) -> (equal: bool) {
        self.path.same(&other.path)
            && self.bytes.same(&other.bytes)
            && self.is_absolute.same(&other.is_absolute)
    }
}

/// What was captured of external inputs: contents by key, and the paths to watch.
#[derive(Debug)]
pub struct Capture {
    pub content: Table<Vec<u8>, Vec<u8>>,
    pub roots: Table<Vec<Component>, bool>,
}

/// The content of a [`Capture`].
pub struct CaptureModel {
    pub content: Map<Seq<u8>, Seq<u8>>,
    pub roots: Map<Seq<ComponentModel>, bool>,
}

impl DeepView for Capture {
    type V = CaptureModel;

    open spec fn deep_view(&self) -> CaptureModel {
        CaptureModel {
            content: self.content.deep_view(),
            roots: self.roots.deep_view(),
        }
    }
}

impl Plain for Capture {
    fn duplicate(&self) -> (copy: Self) {
        Capture {
            content: self.content.duplicate(),
            roots: self.roots.duplicate(),
        }
    }

    fn same(&self, other: &Self) -> (equal: bool) {
        self.content.same(&other.content)
            && self.roots.same(&other.roots)
    }
}

/// The way from a link to what it leads to.
#[derive(Debug)]
pub struct LinkWalk {
    /// The key of the link.
    pub key: Vec<u8>,
    /// The number of links that were followed.
    pub hops: usize,
    /// The links that were met, each with what followed it in the path.
    pub seen: Table<(Vec<Component>, Vec<Component>), ()>,
}

/// The content of a [`LinkWalk`].
pub struct LinkWalkModel {
    pub key: Seq<u8>,
    pub hops: usize,
    pub seen: Map<(Seq<ComponentModel>, Seq<ComponentModel>), ()>,
}

impl DeepView for LinkWalk {
    type V = LinkWalkModel;

    open spec fn deep_view(&self) -> LinkWalkModel {
        LinkWalkModel {
            key: self.key.deep_view(),
            hops: self.hops.deep_view(),
            seen: self.seen.deep_view(),
        }
    }
}

impl Plain for LinkWalk {
    fn duplicate(&self) -> (copy: Self) {
        LinkWalk {
            key: self.key.duplicate(),
            hops: self.hops.duplicate(),
            seen: self.seen.duplicate(),
        }
    }

    fn same(&self, other: &Self) -> (equal: bool) {
        self.key.same(&other.key)
            && self.hops.same(&other.hops)
            && self.seen.same(&other.seen)
    }
}

/// What was met on the way.
#[derive(Debug, Clone, PartialEq, Eq)]
pub enum WalkEvent {
    /// A link, and what follows it in the path.
    Link { link: Vec<Component>, suffix: Vec<Component> },
    /// What that link holds.
    Read { link: Vec<Component>, link_bytes: Vec<u8>, suffix: Vec<Component>, target: LinkTarget },
    /// Something that is no link, by its canonical path.
    Existing { path: Vec<Component>, directory: bool },
    /// Nothing; the nearest path that exists is given.
    Missing { nearest: Option<Vec<Component>> },
}

/// The content of a [`WalkEvent`].
pub enum WalkEventModel {
    Link { link: Seq<ComponentModel>, suffix: Seq<ComponentModel> },
    Read { link: Seq<ComponentModel>, link_bytes: Seq<u8>, suffix: Seq<ComponentModel>, target: LinkTargetModel },
    Existing { path: Seq<ComponentModel>, directory: bool },
    Missing { nearest: Option<Seq<ComponentModel>> },
}

impl DeepView for WalkEvent {
    type V = WalkEventModel;

    open spec fn deep_view(&self) -> WalkEventModel {
        match self {
            WalkEvent::Link { link, suffix } => WalkEventModel::Link {
                link: link.deep_view(),
                suffix: suffix.deep_view(),
            },
            WalkEvent::Read { link, link_bytes, suffix, target } => WalkEventModel::Read {
                link: link.deep_view(),
                link_bytes: link_bytes.deep_view(),
                suffix: suffix.deep_view(),
                target: target.deep_view(),
            },
            WalkEvent::Existing { path, directory } => WalkEventModel::Existing {
                path: path.deep_view(),
                directory: directory.deep_view(),
            },
            WalkEvent::Missing { nearest } => WalkEventModel::Missing {
                nearest: nearest.deep_view(),
            },
        }
    }
}

/// What to do next.
#[derive(Debug, Clone, PartialEq, Eq)]
pub enum WalkAction {
    /// Inspect a path.
    Inspect(Vec<Component>),
    /// Read the link that was met.
    ReadLink,
    /// The way ends here.
    Stop,
}

/// The content of a [`WalkAction`].
pub enum WalkActionModel {
    Inspect(Seq<ComponentModel>),
    ReadLink,
    Stop,
}

impl DeepView for WalkAction {
    type V = WalkActionModel;

    open spec fn deep_view(&self) -> WalkActionModel {
        match self {
            WalkAction::Inspect(value) => WalkActionModel::Inspect(value.deep_view()),
            WalkAction::ReadLink => WalkActionModel::ReadLink,
            WalkAction::Stop => WalkActionModel::Stop,
        }
    }
}

/// Where a link leads: an absolute path stands for itself, and another one is below the directory
/// of the link.
pub open spec fn resolved_target(link: PathModel, target: LinkTargetModel) -> PathModel {
    if target.is_absolute {
        target.path
    } else {
        joined(
            match parent_of(link) {
                Some(parent) => parent,
                None => link,
            },
            target.path,
        )
    }
}

fn resolve_target(link: &FsPath, target: &LinkTarget) -> (path: FsPath)
    ensures
        path.deep_view() == resolved_target(link.deep_view(), target.deep_view()),
{
    if target.is_absolute {
        target.path.duplicate()
    } else {
        match parent(link) {
            Some(parent) => join_paths(&parent, &target.path),
            None => join_paths(link, &target.path),
        }
    }
}

/// Adds a content.
pub open spec fn with_content(capture: CaptureModel, key: Seq<u8>, bytes: Seq<u8>) -> CaptureModel {
    CaptureModel { content: capture.content.insert(key, bytes), ..capture }
}

/// Watches the directory of a link.
pub open spec fn with_link_parent(capture: CaptureModel, link: PathModel) -> CaptureModel {
    match watchable_parent(link) {
        Some(parent) => CaptureModel { roots: with_root(capture.roots, parent, false), ..capture },
        None => capture,
    }
}

/// The bytes of a label in a key.
pub open spec fn label(text: &str) -> Seq<u8> {
    encode_utf8(text@)
}

impl Capture {
    /// Starts with nothing.
    pub fn new() -> (capture: Self)
        ensures
            capture.deep_view() == (CaptureModel { content: Map::empty(), roots: Map::empty() }),
    {
        Capture { content: Table::new(), roots: Table::new() }
    }

    fn add_content(&mut self, key: Vec<u8>, bytes: Vec<u8>)
        ensures
            final(self).deep_view() == with_content(old(self).deep_view(), key@, bytes@),
    {
        assert(key.deep_view() =~= key@);
        assert(bytes.deep_view() =~= bytes@);
        self.content.insert(key, bytes);
    }

    fn watch_link_parent(&mut self, link: &FsPath)
        ensures
            final(self).deep_view() == with_link_parent(old(self).deep_view(), link.deep_view()),
    {
        match nonempty_parent(link) {
            Some(parent) => insert_watch_root(&mut self.roots, parent, false),
            None => {},
        }
    }
}

/// Captures an input that may be missing, and is.
pub open spec fn missing_captured(
    capture: CaptureModel,
    input: ExternalGraphInputModel,
    nearest: Option<PathModel>,
) -> CaptureModel {
    let marked = with_content(
        capture,
        suffixed(input_key(input, Seq::empty()), label("missing")),
        Seq::empty(),
    );
    CaptureModel { roots: with_missing(marked.roots, nearest), ..marked }
}

/// Captures a file below an input.
pub open spec fn file_captured(
    capture: CaptureModel,
    input: ExternalGraphInputModel,
    relative: Seq<u8>,
    bytes: Seq<u8>,
) -> CaptureModel {
    with_content(capture, suffixed(input_key(input, relative), label("file")), bytes)
}

/// Starts on an input, of which it is known what is on disk, links not followed: one that may be
/// missing, and is, is captured, and there is nothing more to do for it.
pub open spec fn input_begun(
    capture: CaptureModel,
    input: ExternalGraphInputModel,
    status: DiskStatus,
    nearest: Option<PathModel>,
) -> (CaptureModel, bool) {
    if input.optional && is_absent(status) {
        (missing_captured(capture, input, nearest), false)
    } else {
        (capture, true)
    }
}

impl Capture {
    /// Starts on an input. Whether the input is still to be walked through is returned.
    pub fn begin_input(
        &mut self,
        input: &ExternalGraphInput,
        status: DiskStatus,
        nearest: Option<FsPath>,
    ) -> (walk: bool)
        ensures
            (final(self).deep_view(), walk) == input_begun(
                old(self).deep_view(),
                input.deep_view(),
                status,
                nearest.deep_view(),
            ),
    {
        if input.optional && status.absent() {
            self.capture_missing(input, nearest);
            false
        } else {
            true
        }
    }

    /// Captures an input that may be missing, and is. The nearest path that exists is watched.
    pub fn capture_missing(&mut self, input: &ExternalGraphInput, nearest: Option<FsPath>)
        ensures
            final(self).deep_view() == missing_captured(
                old(self).deep_view(),
                input.deep_view(),
                nearest.deep_view(),
            ),
    {
        let nothing: Vec<u8> = Vec::new();
        let empty: Vec<u8> = Vec::new();
        assert(nothing@ =~= Seq::<u8>::empty());
        assert(empty@ =~= Seq::<u8>::empty());
        let key = external_input_key(input, nothing.as_slice());
        self.add_content(external_input_key_suffix(key.as_slice(), "missing".as_bytes()), empty);
        insert_missing_target_watch_roots(&mut self.roots, nearest);
    }

    /// Captures a file below an input, of which the path relative to the input is given.
    pub fn capture_file(&mut self, input: &ExternalGraphInput, relative: &[u8], bytes: Vec<u8>)
        ensures
            final(self).deep_view() == file_captured(
                old(self).deep_view(),
                input.deep_view(),
                relative@,
                bytes@,
            ),
    {
        let key = external_input_key(input, relative);
        self.add_content(external_input_key_suffix(key.as_slice(), "file".as_bytes()), bytes);
    }

    /// The digest of everything that was captured.
    pub fn digest(&self) -> (digest: String)
        ensures
            digest@ == content_digest(self.deep_view().content),
    {
        digest_content(&self.content)
    }
}

/// The start of the way from a link below an input.
pub open spec fn walk_begun(
    capture: CaptureModel,
    input: ExternalGraphInputModel,
    relative: Seq<u8>,
    link: PathModel,
    target: LinkTargetModel,
) -> (CaptureModel, LinkWalkModel, PathModel) {
    let key = input_key(input, relative);
    (
        with_link_parent(
            with_content(capture, suffixed(key, label("symlink")), target.bytes),
            link,
        ),
        LinkWalkModel {
            key,
            hops: 0,
            seen: Map::empty().insert((link, Seq::empty()), ()),
        },
        resolved_target(link, target),
    )
}

/// Captures a link below an input, and starts on the way to what it leads to. The path to inspect
/// first is returned.
pub fn capture_symlink(
    capture: &mut Capture,
    input: &ExternalGraphInput,
    relative: &[u8],
    link: FsPath,
    target: &LinkTarget,
) -> (started: (LinkWalk, FsPath))
    ensures
        (final(capture).deep_view(), started.0.deep_view(), started.1.deep_view()) == walk_begun(
            old(capture).deep_view(),
            input.deep_view(),
            relative@,
            link.deep_view(),
            target.deep_view(),
        ),
{
    let key = external_input_key(input, relative);
    let bytes = target.bytes.duplicate();
    assert(bytes.deep_view() =~= bytes@);
    capture.add_content(
        external_input_key_suffix(key.as_slice(), "symlink".as_bytes()),
        bytes,
    );
    capture.watch_link_parent(&link);
    let path = resolve_target(&link, target);
    let mut seen: Table<(Vec<Component>, Vec<Component>), ()> = Table::new();
    let suffix: FsPath = Vec::new();
    assert(suffix.deep_view() =~= Seq::<ComponentModel>::empty());
    assert(key.deep_view() =~= key@);
    seen.insert((link, suffix), ());
    (LinkWalk { key, hops: 0, seen }, path)
}

/// What becomes of a way when something is met: links are followed up to a number, and none twice
/// with the same rest of the path.
pub open spec fn walked(walk: LinkWalkModel, capture: CaptureModel, event: WalkEventModel) -> (
    LinkWalkModel,
    CaptureModel,
    WalkActionModel,
) {
    match event {
        WalkEventModel::Link { link, suffix } => {
            if walk.hops >= MAX_SYMLINK_HOPS {
                (walk, capture, WalkActionModel::Stop)
            } else {
                let counted = LinkWalkModel { hops: (walk.hops + 1) as usize, ..walk };
                let watched = with_link_parent(capture, link);
                if walk.seen.contains_key((link, suffix)) {
                    (counted, watched, WalkActionModel::Stop)
                } else {
                    (
                        LinkWalkModel { seen: walk.seen.insert((link, suffix), ()), ..counted },
                        watched,
                        WalkActionModel::ReadLink,
                    )
                }
            }
        },
        WalkEventModel::Read { link, link_bytes, suffix, target } => (
            walk,
            with_content(
                capture,
                suffixed(suffixed(walk.key, label("symlink-hop")), link_bytes),
                target.bytes,
            ),
            WalkActionModel::Inspect(joined(resolved_target(link, target), suffix)),
        ),
        WalkEventModel::Existing { path, directory } => (
            walk,
            CaptureModel {
                roots: with_root_and_parent(capture.roots, path, directory),
                ..capture
            },
            WalkActionModel::Stop,
        ),
        WalkEventModel::Missing { nearest } => (
            walk,
            CaptureModel { roots: with_missing(capture.roots, nearest), ..capture },
            WalkActionModel::Stop,
        ),
    }
}

/// Goes on from what was met on the way from a link.
pub fn capture_symlink_target(walk: &mut LinkWalk, capture: &mut Capture, event: WalkEvent) -> (action:
    WalkAction)
    ensures
        (final(walk).deep_view(), final(capture).deep_view(), action.deep_view()) == walked(
            old(walk).deep_view(),
            old(capture).deep_view(),
            event.deep_view(),
        ),
{
    match event {
        WalkEvent::Link { link, suffix } => {
            if walk.hops >= MAX_SYMLINK_HOPS {
                return WalkAction::Stop;
            }
            walk.hops = walk.hops + 1;
            capture.watch_link_parent(&link);
            let ghost before = walk.seen.deep_view();
            let ghost k = (link.deep_view(), suffix.deep_view());
            if walk.seen.insert((link, suffix), ()).is_some() {
                assert(before.insert(k, ()) =~= before);
                return WalkAction::Stop;
            }
            WalkAction::ReadLink
        },
        WalkEvent::Read { link, link_bytes, suffix, target } => {
            let hop = external_input_key_suffix(walk.key.as_slice(), "symlink-hop".as_bytes());
            let key = external_input_key_suffix(hop.as_slice(), link_bytes.as_slice());
            let bytes = target.bytes.duplicate();
            proof {
                assert(walk.key.deep_view() =~= walk.key@);
                assert(link_bytes.deep_view() =~= link_bytes@);
                assert(bytes.deep_view() =~= bytes@);
            }
            capture.add_content(key, bytes);
            let next = resolve_target(&link, &target);
            WalkAction::Inspect(join_paths(&next, &suffix))
        },
        WalkEvent::Existing { path, directory } => {
            insert_with_parent(&mut capture.roots, path, directory);
            WalkAction::Stop
        },
        WalkEvent::Missing { nearest } => {
            insert_missing_target_watch_roots(&mut capture.roots, nearest);
            WalkAction::Stop
        },
    }
}

/// The number of links that are read on a way on which the given events come in.
pub open spec fn links_read(
    walk: LinkWalkModel,
    capture: CaptureModel,
    events: Seq<WalkEventModel>,
) -> nat
    decreases events.len(),
{
    if events.len() == 0 {
        0
    } else {
        let (after, captured, action) = walked(walk, capture, events[0]);
        links_read(after, captured, events.drop_first()) + if action is ReadLink {
            1nat
        } else {
            0nat
        }
    }
}

/// However links lead to each other, no more of them are read on one way than the number of links
/// that are followed.
pub proof fn law_walk_is_bounded(
    walk: LinkWalkModel,
    capture: CaptureModel,
    events: Seq<WalkEventModel>,
)
    requires
        walk.hops <= MAX_SYMLINK_HOPS,
    ensures
        links_read(walk, capture, events) <= MAX_SYMLINK_HOPS - walk.hops,
    decreases events.len(),
{
    if events.len() > 0 {
        let (after, captured, action) = walked(walk, capture, events[0]);
        law_walk_is_bounded(after, captured, events.drop_first());
    }
}

/// A link is read at most once with the same rest of the path behind it.
pub proof fn law_links_are_read_once(
    walk: LinkWalkModel,
    capture: CaptureModel,
    link: PathModel,
    suffix: PathModel,
)
    ensures
        walked(walk, capture, WalkEventModel::Link { link, suffix }).2 is ReadLink
            ==> walked(walk, capture, WalkEventModel::Link { link, suffix }).0.seen.contains_key(
            (link, suffix),
        ),
        walk.seen.contains_key((link, suffix)) ==> walked(
            walk,
            capture,
            WalkEventModel::Link { link, suffix },
        ).2 is Stop,
{
}

proof fn lemma_scan_advances(path: PathModel, prefix: PathModel, next: int)
    requires
        0 <= next <= path.len(),
    ensures
        next <= scanned(path, prefix, next).1 <= path.len(),
        scanned(path, prefix, next).2 ==> next < scanned(path, prefix, next).1,
    decreases path.len() - next,
{
    if next < path.len() {
        match path[next] {
            ComponentModel::CurDir => {
                lemma_scan_advances(path, prefix, next + 1);
            },
            ComponentModel::ParentDir => {
                lemma_scan_advances(
                    path,
                    match parent_of(prefix) {
                        Some(parent) => parent,
                        None => prefix,
                    },
                    next + 1,
                );
            },
            ComponentModel::Normal(_) => {},
            _ => {
                lemma_scan_advances(path, prefix.push(path[next]), next + 1);
            },
        }
    }
}

/// Each look at the disk takes an inspection further along its path, so that it comes to an end.
pub proof fn law_inspection_advances(
    inspection: InspectionModel,
    status: DiskStatus,
    error: Seq<char>,
)
    requires
        inspection.next <= inspection.path.len(),
        inspection.path.len() <= usize::MAX,
    ensures
        match link_inspected(inspection, status, error) {
            Ok(InspectStepModel::Link(after)) => {
                &&& after.path == inspection.path
                &&& inspection.next < after.next <= after.path.len()
            },
            _ => true,
        },
{
    lemma_scan_advances(inspection.path, inspection.prefix, inspection.next as int);
}

/// What was met below an external input.
#[derive(Debug, Clone, PartialEq, Eq)]
pub struct EntryFacts {
    /// Whether the entry could not be read.
    pub failed: bool,
    /// Whether the path of an entry that could not be read is known.
    pub has_path: bool,
    /// Whether the path is a link.
    pub is_link: bool,
    /// Whether the link leads to a file.
    pub leads_to_file: bool,
    /// Whether the entry, links followed, is a file.
    pub is_file: bool,
}

/// The content of a [`EntryFacts`].
pub struct EntryFactsModel {
    pub failed: bool,
    pub has_path: bool,
    pub is_link: bool,
    pub leads_to_file: bool,
    pub is_file: bool,
}

impl DeepView for EntryFacts {
    type V = EntryFactsModel;

    open spec fn deep_view(&self) -> EntryFactsModel {
        EntryFactsModel {
            failed: self.failed.deep_view(),
            has_path: self.has_path.deep_view(),
            is_link: self.is_link.deep_view(),
            leads_to_file: self.leads_to_file.deep_view(),
            is_file: self.is_file.deep_view(),
        }
    }
}

/// What to do with what was met below an external input.
#[derive(Debug, Clone, Copy, PartialEq, Eq, Structural)]
pub struct EntryPlan {
    /// Capture where the link leads.
    pub follow: bool,
    /// Capture the content of the file.
    pub read: bool,
    /// Give up.
    pub fail: bool,
}

/// What to do with what was met below an external input: links are followed, files are read, also
/// behind links, and an entry that could not be read is given up unless it is a link.
pub open spec fn entry_planned(entry: EntryFactsModel) -> EntryPlan {
    if entry.failed {
        EntryPlan {
            follow: entry.has_path && entry.is_link,
            read: false,
            fail: !(entry.has_path && entry.is_link),
        }
    } else {
        EntryPlan {
            follow: entry.is_link,
            read: entry.is_link && entry.leads_to_file || entry.is_file,
            fail: false,
        }
    }
}

/// Decides what to do with what was met below an external input.
pub fn plan_entry(entry: &EntryFacts) -> (plan: EntryPlan)
    ensures
        plan == entry_planned(entry.deep_view()),
{
    if entry.failed {
        let link = entry.has_path && entry.is_link;
        EntryPlan { follow: link, read: false, fail: !link }
    } else {
        EntryPlan {
            follow: entry.is_link,
            read: entry.is_link && entry.leads_to_file || entry.is_file,
            fail: false,
        }
    }
}

} // verus!
