//! Holding the analysis against the disk: source files and the files of the project model.

use vstd::prelude::*;
use vstd::string::*;
use vstd::utf8::{decode_utf8, encode_utf8, valid_utf8};

use crate::cache::{
    GraphSnapshotCache, GraphSnapshotCacheModel, drain_source_input_events_at,
    source_events_drained,
};
use crate::digest::{digest_bytes, digest_of};
use crate::error::{GraphError, GraphErrorModel, outcome, retry_error};
use crate::external::{LocatedPath, LocatedPathModel};
use crate::files::{FileId, SourceFileModel, SourceFiles};
use crate::paths::{Component, PathModel, parent, parent_of};
use crate::plain::Plain;
use crate::table::Table;
use crate::text::characters;
use crate::universe::{ProjectInput, ProjectInputModel, WorkspaceFacts, WorkspaceFactsModel};

verus! {

/// What came of reading a file.
#[derive(Debug, Clone, PartialEq, Eq)]
pub enum DiskRead {
    Bytes(Vec<u8>),
    /// The file could not be read, and why.
    Unreadable(String),
}

/// The content of a [`DiskRead`].
pub enum DiskReadModel {
    Bytes(Seq<u8>),
    Unreadable(Seq<char>),
}

impl DeepView for DiskRead {
    type V = DiskReadModel;

    open spec fn deep_view(&self) -> DiskReadModel {
        match self {
            DiskRead::Bytes(bytes) => DiskReadModel::Bytes(bytes@),
            DiskRead::Unreadable(error) => DiskReadModel::Unreadable(error@),
        }
    }
}

/// What the standard library says of bytes that are no UTF-8.
pub uninterp spec fn utf8_error(bytes: Seq<u8>) -> Seq<char>;

/// Calls `String::from_utf8`: bytes that are UTF-8 become the text that they encode, and others
/// are refused. How the refusal is worded is left to the standard library.
#[verifier::external_body]
fn decode(bytes: Vec<u8>) -> (result: Result<String, String>)
    ensures
        match result {
            Ok(text) => valid_utf8(bytes@) && encode_utf8(text@) == bytes@,
            Err(error) => !valid_utf8(bytes@) && error@ == utf8_error(bytes@),
        },
{
    String::from_utf8(bytes).map_err(|error| error.to_string())
}

/// The first characters of a text without the carriage returns that stand before line feeds.
pub open spec fn unix_lines(text: Seq<char>, count: int) -> Seq<char>
    decreases count,
{
    if count <= 0 {
        Seq::empty()
    } else {
        let before = unix_lines(text, count - 1);
        if text[count - 1] == '\r' && count < text.len() && text[count] == '\n' {
            before
        } else {
            before.push(text[count - 1])
        }
    }
}

/// Whether a text is another one but for carriage returns before line feeds in the latter.
fn same_lines(disk: &str, text: &str) -> (same: bool)
    ensures
        same == (unix_lines(disk@, disk@.len() as int) == text@),
{
    let chars = characters(disk);
    let expected = characters(text);
    let mut lines: Vec<char> = Vec::new();
    let mut index: usize = 0;
    while index < chars.len()
        invariant
            index <= chars.len(),
            chars@ == disk@,
            lines@ == unix_lines(disk@, index as int),
        decreases chars.len() - index,
    {
        if !(chars[index] == '\r' && index + 1 < chars.len() && chars[index + 1] == '\n') {
            lines.push(chars[index]);
        }
        index += 1;
    }
    if lines.len() != expected.len() {
        return false;
    }
    let mut at: usize = 0;
    while at < lines.len()
        invariant
            at <= lines.len(),
            lines.len() == expected.len(),
            lines@ == unix_lines(disk@, disk@.len() as int),
            expected@ == text@,
            forall|i: int| 0 <= i < at ==> lines@[i] == expected@[i],
        decreases lines.len() - at,
    {
        if lines[at] != expected[at] {
            assert(lines@[at as int] != text@[at as int]);
            return false;
        }
        at += 1;
    }
    assert(lines@ =~= expected@);
    true
}

/// The error of a source file.
pub open spec fn source_error(path: Seq<char>, reason: Seq<char>) -> GraphErrorModel {
    GraphErrorModel::Retry("graph source "@ + path + reason)
}

fn refuse_source(path: &str, reason: &str) -> (error: GraphError)
    ensures
        error.deep_view() == source_error(path@, reason@),
{
    let mut message = "graph source ".to_owned();
    message.append(path);
    message.append(reason);
    GraphError::Retry(message)
}

/// The digest of a source file on disk, if it holds the text that the analysis has, whatever line
/// endings it uses.
pub open spec fn disk_digest(path: Seq<char>, disk: DiskReadModel, text: Seq<char>) -> Result<
    Seq<char>,
    GraphErrorModel,
> {
    match disk {
        DiskReadModel::Unreadable(error) => Err(
            source_error(path, " is unavailable on disk: "@ + error + "; retry the request"@),
        ),
        DiskReadModel::Bytes(bytes) => {
            if !valid_utf8(bytes) {
                Err(
                    source_error(
                        path,
                        " is not UTF-8: "@ + utf8_error(bytes) + "; retry the request"@,
                    ),
                )
            } else {
                let found = decode_utf8(bytes);
                if unix_lines(found, found.len() as int) != text {
                    Err(
                        source_error(path, " moved beyond the analyzer VFS; retry the request"@),
                    )
                } else {
                    Ok(digest_of(bytes))
                }
            }
        },
    }
}

/// The digest of a source file on disk, if it holds the text that the analysis has.
pub fn checker_disk_digest(path: &str, disk: &DiskRead, checker_text: &str) -> (result: Result<
    String,
    GraphError,
>)
    ensures
        outcome(result) == disk_digest(path@, disk.deep_view(), checker_text@),
{
    let bytes = match disk {
        DiskRead::Bytes(bytes) => bytes,
        DiskRead::Unreadable(error) => {
            let mut reason = " is unavailable on disk: ".to_owned();
            reason.append(error.as_str());
            reason.append("; retry the request");
            return Err(refuse_source(path, reason.as_str()));
        },
    };
    let copy = bytes.duplicate();
    proof {
        assert(copy.deep_view() =~= copy@);
        assert(bytes.deep_view() =~= bytes@);
    }
    let text = match decode(copy) {
        Ok(text) => text,
        Err(error) => {
            let mut reason = " is not UTF-8: ".to_owned();
            reason.append(error.as_str());
            reason.append("; retry the request");
            return Err(refuse_source(path, reason.as_str()));
        },
    };
    proof {
        vstd::utf8::encode_utf8_decode_utf8(text@);
    }
    if !same_lines(text.as_str(), checker_text) {
        return Err(refuse_source(path, " moved beyond the analyzer VFS; retry the request"));
    }
    Ok(digest_bytes(bytes.as_slice()))
}

/// The digest of a source file, if the analysis has its text, it is on disk, and the disk holds
/// that text.
pub open spec fn source_digest(
    files: Map<FileId, SourceFileModel>,
    file_id: FileId,
    disk: DiskReadModel,
) -> Result<Seq<char>, GraphErrorModel> {
    if !files.contains_key(file_id) {
        Err(GraphErrorModel::Cancelled)
    } else {
        match (files[file_id].text, files[file_id].location.disk) {
            (None, _) => Err(GraphErrorModel::Cancelled),
            (Some(_), None) => Err(
                source_error(
                    files[file_id].location.name,
                    " has no disk identity; retry after saving it"@,
                ),
            ),
            (Some(text), Some(path)) => disk_digest(path.path, disk, text),
        }
    }
}

/// The digest of a source file.
pub fn checker_source_digest(files: &SourceFiles, file_id: FileId, disk: &DiskRead) -> (result: Result<
    String,
    GraphError,
>)
    ensures
        outcome(result) == source_digest(files.deep_view(), file_id, disk.deep_view()),
{
    let file = match files.get(&file_id) {
        Some(file) => file,
        None => return Err(GraphError::Cancelled),
    };
    match (&file.text, &file.location.disk) {
        (None, _) => Err(GraphError::Cancelled),
        (Some(_), None) => Err(
            refuse_source(
                file.location.name.as_str(),
                " has no disk identity; retry after saving it",
            ),
        ),
        (Some(text), Some(path)) => checker_disk_digest(path.path.as_str(), disk, text.as_str()),
    }
}

/// The digests of the first source files.
pub open spec fn source_digests(
    files: Map<FileId, SourceFileModel>,
    ids: Seq<FileId>,
    reads: Seq<DiskReadModel>,
    count: int,
) -> Result<Map<FileId, Seq<char>>, GraphErrorModel>
    decreases count,
{
    if count <= 0 {
        Ok(Map::empty())
    } else {
        match source_digests(files, ids, reads, count - 1) {
            Err(error) => Err(error),
            Ok(digests) => match source_digest(files, ids[count - 1], reads[count - 1]) {
                Err(error) => Err(error),
                Ok(digest) => Ok(digests.insert(ids[count - 1], digest)),
            },
        }
    }
}

proof fn lemma_digests_error(
    files: Map<FileId, SourceFileModel>,
    ids: Seq<FileId>,
    reads: Seq<DiskReadModel>,
    count: int,
    more: int,
)
    requires
        0 <= count <= more,
        source_digests(files, ids, reads, count) is Err,
    ensures
        source_digests(files, ids, reads, more) == source_digests(files, ids, reads, count),
    decreases more - count,
{
    if count < more {
        lemma_digests_error(files, ids, reads, count, more - 1);
    }
}

/// Takes the digests of source files, of which it is given what reading them brought.
pub fn validate_source_inputs(files: &SourceFiles, ids: &Vec<FileId>, reads: &Vec<DiskRead>) -> (result:
    Result<Table<FileId, String>, GraphError>)
    requires
        reads.len() == ids.len(),
    ensures
        outcome(result) == source_digests(
            files.deep_view(),
            ids@,
            reads.deep_view(),
            ids@.len() as int,
        ),
{
    let ghost f = files.deep_view();
    let ghost r = reads.deep_view();
    let mut digests: Table<FileId, String> = Table::new();
    let mut index: usize = 0;
    while index < ids.len()
        invariant
            index <= ids.len(),
            reads.len() == ids.len(),
            f == files.deep_view(),
            r == reads.deep_view(),
            source_digests(f, ids@, r, index as int) == Ok::<
                Map<FileId, Seq<char>>,
                GraphErrorModel,
            >(digests.deep_view()),
        decreases ids.len() - index,
    {
        assert(r[index as int] == reads@[index as int].deep_view());
        match checker_source_digest(files, ids[index], &reads[index]) {
            Err(error) => {
                proof {
                    lemma_digests_error(f, ids@, r, index + 1, ids@.len() as int);
                }
                return Err(error);
            },
            Ok(digest) => {
                digests.insert(ids[index], digest);
            },
        }
        index += 1;
    }
    Ok(digests)
}

/// Where a source file is.
#[derive(Debug, Clone, PartialEq, Eq)]
pub struct SourceLocation {
    /// The name under which the file is known.
    pub name: String,
    pub disk: Option<LocatedPath>,
}

/// The content of a [`SourceLocation`].
pub struct SourceLocationModel {
    pub name: Seq<char>,
    pub disk: Option<LocatedPathModel>,
}

impl DeepView for SourceLocation {
    type V = SourceLocationModel;

    open spec fn deep_view(&self) -> SourceLocationModel {
        SourceLocationModel {
            name: self.name.deep_view(),
            disk: self.disk.deep_view(),
        }
    }
}

impl Plain for SourceLocation {
    fn duplicate(&self) -> (copy: Self) {
        SourceLocation {
            name: self.name.duplicate(),
            disk: self.disk.duplicate(),
        }
    }

    fn same(&self, other: &Self) -> (equal: bool) {
        self.name.same(&other.name)
            && self.disk.same(&other.disk)
    }
}

/// The directories of the first source files, which are to be watched.
pub open spec fn source_roots(locations: Seq<SourceLocationModel>, count: int) -> Result<
    Map<PathModel, ()>,
    GraphErrorModel,
>
    decreases count,
{
    if count <= 0 {
        Ok(Map::empty())
    } else {
        match source_roots(locations, count - 1) {
            Err(error) => Err(error),
            Ok(roots) => match locations[count - 1].disk {
                None => Err(
                    source_error(
                        locations[count - 1].name,
                        " has no disk identity; retry after saving it"@,
                    ),
                ),
                Some(located) => match parent_of(located.path) {
                    None => Err(
                        source_error(located.text, " has no watchable parent; retry"@),
                    ),
                    Some(directory) => Ok(roots.insert(directory, ())),
                },
            },
        }
    }
}

proof fn lemma_roots_error(locations: Seq<SourceLocationModel>, count: int, more: int)
    requires
        0 <= count <= more,
        source_roots(locations, count) is Err,
    ensures
        source_roots(locations, more) == source_roots(locations, count),
    decreases more - count,
{
    if count < more {
        lemma_roots_error(locations, count, more - 1);
    }
}

/// The directories of source files, which are to be watched.
pub fn source_watch_roots(locations: &Vec<SourceLocation>) -> (result: Result<
    Table<Vec<Component>, ()>,
    GraphError,
>)
    ensures
        outcome(result) == source_roots(
            locations.deep_view(),
            locations.deep_view().len() as int,
        ),
{
    let ghost all = locations.deep_view();
    let mut roots: Table<Vec<Component>, ()> = Table::new();
    let mut index: usize = 0;
    while index < locations.len()
        invariant
            index <= locations.len(),
            all == locations.deep_view(),
            source_roots(all, index as int) == Ok::<Map<PathModel, ()>, GraphErrorModel>(
                roots.deep_view(),
            ),
        decreases locations.len() - index,
    {
        let location = &locations[index];
        assert(all[index as int] == location.deep_view());
        let located = match &location.disk {
            Some(located) => located,
            None => {
                proof {
                    lemma_roots_error(all, index + 1, all.len() as int);
                }
                return Err(
                    refuse_source(
                        location.name.as_str(),
                        " has no disk identity; retry after saving it",
                    ),
                );
            },
        };
        match parent(&located.path) {
            Some(directory) => {
                roots.insert(directory, ());
            },
            None => {
                proof {
                    lemma_roots_error(all, index + 1, all.len() as int);
                }
                return Err(
                    refuse_source(located.text.as_str(), " has no watchable parent; retry"),
                );
            },
        }
        index += 1;
    }
    Ok(roots)
}

/// Whether the source files are being watched.
pub open spec fn watches_sources(cache: GraphSnapshotCacheModel) -> bool {
    cache.source_input_watcher && !cache.source_input_watcher_stale
}

/// Whether the source files need a new watcher.
pub fn needs_source_watcher(cache: &GraphSnapshotCache) -> (needed: bool)
    ensures
        needed == !watches_sources(cache.deep_view()),
{
    !cache.source_input_watcher || cache.source_input_watcher_stale
}

/// The last event on source files, which must be being watched.
pub fn current_source_input_epoch(cache: &mut GraphSnapshotCache, event_epoch: u64) -> (result: Result<
    u64,
    GraphError,
>)
    ensures
        match result {
            Ok(epoch) => {
                &&& watches_sources(old(cache).deep_view())
                &&& epoch == event_epoch
                &&& final(cache).deep_view() == source_events_drained(
                    old(cache).deep_view(),
                    event_epoch,
                )
            },
            Err(error) => {
                &&& !watches_sources(old(cache).deep_view())
                &&& final(cache).deep_view() == old(cache).deep_view()
                &&& error.deep_view() == GraphErrorModel::Retry(
                    "graph source watcher is unavailable for an incremental snapshot; retry"@,
                )
            },
        },
{
    if needs_source_watcher(cache) {
        return Err(
            retry_error("graph source watcher is unavailable for an incremental snapshot; retry"),
        );
    }
    drain_source_input_events_at(cache, event_epoch);
    Ok(event_epoch)
}

/// Takes over a new watcher of the source files, and returns the last event.
pub fn adopt_source_watcher(cache: &mut GraphSnapshotCache, event_epoch: u64) -> (epoch: u64)
    ensures
        epoch == event_epoch,
        final(cache).deep_view() == (GraphSnapshotCacheModel {
            source_input_watcher: true,
            source_input_watcher_stale: false,
            ..source_events_drained(old(cache).deep_view(), event_epoch)
        }),
{
    drain_source_input_events_at(cache, event_epoch);
    cache.source_input_watcher = true;
    cache.source_input_watcher_stale = false;
    event_epoch
}

/// What the files of the project model of a workspace hold now.
#[derive(Debug, Clone, PartialEq, Eq)]
pub struct ModelOnDisk {
    /// The bytes of the files that the project model was made from.
    pub project_inputs: Vec<Option<Vec<u8>>>,
    /// The bytes of the lock file.
    pub lockfile: Option<Vec<u8>>,
}

/// The content of a [`ModelOnDisk`].
pub struct ModelOnDiskModel {
    pub project_inputs: Seq<Option<Seq<u8>>>,
    pub lockfile: Option<Seq<u8>>,
}

impl DeepView for ModelOnDisk {
    type V = ModelOnDiskModel;

    open spec fn deep_view(&self) -> ModelOnDiskModel {
        ModelOnDiskModel {
            project_inputs: self.project_inputs.deep_view(),
            lockfile: self.lockfile.deep_view(),
        }
    }
}

impl Plain for ModelOnDisk {
    fn duplicate(&self) -> (copy: Self) {
        ModelOnDisk {
            project_inputs: self.project_inputs.duplicate(),
            lockfile: self.lockfile.duplicate(),
        }
    }

    fn same(&self, other: &Self) -> (equal: bool) {
        self.project_inputs.same(&other.project_inputs)
            && self.lockfile.same(&other.lockfile)
    }
}

/// The first file that holds something else than when the project model was made.
pub open spec fn moved_input(
    inputs: Seq<ProjectInputModel>,
    now: Seq<Option<Seq<u8>>>,
    count: int,
) -> Option<Seq<char>>
    decreases count,
{
    if count <= 0 {
        None
    } else {
        match moved_input(inputs, now, count - 1) {
            Some(path) => Some(path),
            None => if now[count - 1] == inputs[count - 1].bytes {
                None
            } else {
                Some(inputs[count - 1].path)
            },
        }
    }
}

/// Whether a workspace is as its project model knows it, or what moved. The lock file counts for
/// workspaces of cargo only.
pub open spec fn workspace_validated(workspace: WorkspaceFactsModel, now: ModelOnDiskModel) -> Option<
    GraphErrorModel,
> {
    match moved_input(
        workspace.project_inputs,
        now.project_inputs,
        workspace.project_inputs.len() as int,
    ) {
        Some(path) => Some(
            GraphErrorModel::Retry(
                path + " moved beyond the immutable project model; reload and retry"@,
            ),
        ),
        None => if workspace.packages is Some && now.lockfile != workspace.lockfile {
            Some(
                GraphErrorModel::Retry(
                    "Cargo.lock moved beyond the immutable project model; reload and retry"@,
                ),
            )
        } else {
            None
        },
    }
}

/// The first of the first workspaces that is not as its project model knows it.
pub open spec fn model_validated(
    workspaces: Seq<WorkspaceFactsModel>,
    now: Seq<ModelOnDiskModel>,
    count: int,
) -> Option<GraphErrorModel>
    decreases count,
{
    if count <= 0 {
        None
    } else {
        match model_validated(workspaces, now, count - 1) {
            Some(error) => Some(error),
            None => workspace_validated(workspaces[count - 1], now[count - 1]),
        }
    }
}

proof fn lemma_moved_stays(
    inputs: Seq<ProjectInputModel>,
    now: Seq<Option<Seq<u8>>>,
    count: int,
    more: int,
)
    requires
        0 <= count <= more,
        moved_input(inputs, now, count) is Some,
    ensures
        moved_input(inputs, now, more) == moved_input(inputs, now, count),
    decreases more - count,
{
    if count < more {
        lemma_moved_stays(inputs, now, count, more - 1);
    }
}

proof fn lemma_model_stays(
    workspaces: Seq<WorkspaceFactsModel>,
    now: Seq<ModelOnDiskModel>,
    count: int,
    more: int,
)
    requires
        0 <= count <= more,
        model_validated(workspaces, now, count) is Some,
    ensures
        model_validated(workspaces, now, more) == model_validated(workspaces, now, count),
    decreases more - count,
{
    if count < more {
        lemma_model_stays(workspaces, now, count, more - 1);
    }
}

fn find_moved(inputs: &Vec<ProjectInput>, now: &Vec<Option<Vec<u8>>>) -> (path: Option<String>)
    requires
        now.len() == inputs.len(),
    ensures
        path.deep_view() == moved_input(
            inputs.deep_view(),
            now.deep_view(),
            inputs.deep_view().len() as int,
        ),
{
    let ghost i = inputs.deep_view();
    let ghost n = now.deep_view();
    let mut index: usize = 0;
    while index < inputs.len()
        invariant
            index <= inputs.len(),
            now.len() == inputs.len(),
            i == inputs.deep_view(),
            n == now.deep_view(),
            moved_input(i, n, index as int) is None,
        decreases inputs.len() - index,
    {
        assert(i[index as int] == inputs@[index as int].deep_view());
        assert(n[index as int] == now@[index as int].deep_view());
        if !now[index].same(&inputs[index].bytes) {
            proof {
                lemma_moved_stays(i, n, index + 1, i.len() as int);
            }
            return Some(inputs[index].path.clone());
        }
        index += 1;
    }
    None
}

fn validate_workspace(workspace: &WorkspaceFacts, now: &ModelOnDisk) -> (result: Result<(), GraphError>)
    requires
        now.project_inputs.len() == workspace.project_inputs.len(),
    ensures
        match workspace_validated(workspace.deep_view(), now.deep_view()) {
            Some(error) => result is Err && result->Err_0.deep_view() == error,
            None => result is Ok,
        },
{
    match find_moved(&workspace.project_inputs, &now.project_inputs) {
        Some(path) => {
            let mut message = path;
            message.append(" moved beyond the immutable project model; reload and retry");
            return Err(GraphError::Retry(message));
        },
        None => {},
    }
    if workspace.packages.is_some() && !now.lockfile.same(&workspace.lockfile) {
        return Err(
            retry_error("Cargo.lock moved beyond the immutable project model; reload and retry"),
        );
    }
    Ok(())
}

/// Holds the project model of workspaces against what its files hold now.
pub fn validate_project_model_inputs(workspaces: &Vec<WorkspaceFacts>, now: &Vec<ModelOnDisk>) -> (result:
    Result<(), GraphError>)
    requires
        now.len() == workspaces.len(),
        forall|i: int|
            0 <= i < workspaces.len() ==> (#[trigger] now@[i]).project_inputs.len()
                == workspaces@[i].project_inputs.len(),
    ensures
        match model_validated(
            workspaces.deep_view(),
            now.deep_view(),
            workspaces.deep_view().len() as int,
        ) {
            Some(error) => result is Err && result->Err_0.deep_view() == error,
            None => result is Ok,
        },
{
    let ghost w = workspaces.deep_view();
    let ghost n = now.deep_view();
    let mut index: usize = 0;
    while index < workspaces.len()
        invariant
            index <= workspaces.len(),
            now.len() == workspaces.len(),
            forall|i: int|
                0 <= i < workspaces.len() ==> (#[trigger] now@[i]).project_inputs.len()
                    == workspaces@[i].project_inputs.len(),
            w == workspaces.deep_view(),
            n == now.deep_view(),
            model_validated(w, n, index as int) is None,
        decreases workspaces.len() - index,
    {
        assert(w[index as int] == workspaces@[index as int].deep_view());
        assert(n[index as int] == now@[index as int].deep_view());
        assert(now@[index as int].project_inputs.len()
            == workspaces@[index as int].project_inputs.len());
        match validate_workspace(&workspaces[index], &now[index]) {
            Ok(_) => {},
            Err(error) => {
                proof {
                    lemma_model_stays(w, n, index + 1, w.len() as int);
                }
                return Err(error);
            },
        }
        index += 1;
    }
    Ok(())
}

} // verus!
