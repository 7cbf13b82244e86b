//! Source files: where they are, what they hold and how offsets map to positions.

use vstd::prelude::*;

use crate::error::{GraphError, GraphErrorModel, outcome};
use crate::order::{Key, Place};
use crate::plain::Plain;
use crate::snapshot::{GraphSnapshotEvidence, GraphSnapshotEvidenceModel};
use crate::table::Table;
use crate::text::{normalize_path, normalized};

verus! {

/// The number of a source file.
#[derive(Debug, Clone, Copy, PartialEq, Eq, Hash, Structural)]
pub struct FileId(pub u32);

impl DeepView for FileId {
    type V = FileId;

    open spec fn deep_view(&self) -> FileId {
        *self
    }
}

impl Plain for FileId {
    fn duplicate(&self) -> (copy: Self) {
        *self
    }

    fn same(&self, other: &Self) -> (equal: bool) {
        *self == *other
    }
}

impl FileId {
    /// The file with a number.
    pub fn from_raw(raw: u32) -> (file: Self)
        ensures
            file == FileId(raw),
    {
        FileId(raw)
    }

    /// The number of the file.
    pub fn index(self) -> (raw: u32)
        ensures
            raw == self.0,
    {
        self.0
    }
}

/// Files are ordered by their numbers.
impl Key for FileId {
    open spec fn before(left: FileId, right: FileId) -> bool {
        left.0 < right.0
    }

    proof fn lemma_irreflexive(value: FileId) {
    }

    proof fn lemma_transitive(first: FileId, second: FileId, third: FileId) {
    }

    proof fn lemma_total(left: FileId, right: FileId) {
    }

    fn place(&self, other: &Self) -> (place: Place) {
        self.0.place(&other.0)
    }
}

/// A range of byte offsets in a text.
#[derive(Debug, Clone, Copy, PartialEq, Eq, Structural)]
pub struct TextRange {
    pub start: u32,
    pub end: u32,
}

impl DeepView for TextRange {
    type V = TextRange;

    open spec fn deep_view(&self) -> TextRange {
        *self
    }
}

impl Plain for TextRange {
    fn duplicate(&self) -> (copy: Self) {
        *self
    }

    fn same(&self, other: &Self) -> (equal: bool) {
        *self == *other
    }
}

impl TextRange {
    /// Whether the other range lies inside this one.
    pub open spec fn encloses(self, other: TextRange) -> bool {
        self.start <= other.start && other.end <= self.end
    }

    /// The number of bytes in the range.
    pub open spec fn width(self) -> int {
        self.end - self.start
    }

    /// The range between two offsets.
    pub fn new(start: u32, end: u32) -> (range: Self)
        ensures
            range == (TextRange { start, end }),
    {
        TextRange { start, end }
    }

    /// Whether another range lies inside this one.
    pub fn contains_range(self, other: TextRange) -> (inside: bool)
        ensures
            inside == self.encloses(other),
    {
        self.start <= other.start && other.end <= self.end
    }

    /// Whether this range has fewer bytes than the other one.
    pub fn is_narrower(self, other: TextRange) -> (narrower: bool)
        ensures
            narrower == (self.width() < other.width()),
    {
        (self.end as i64 - self.start as i64) < (other.end as i64 - other.start as i64)
    }
}

/// A range of a source file.
#[derive(Debug, Clone, Copy, PartialEq, Eq, Structural)]
pub struct FileRange {
    pub file_id: FileId,
    pub range: TextRange,
}

impl DeepView for FileRange {
    type V = FileRange;

    open spec fn deep_view(&self) -> FileRange {
        *self
    }
}

impl Plain for FileRange {
    fn duplicate(&self) -> (copy: Self) {
        *self
    }

    fn same(&self, other: &Self) -> (equal: bool) {
        *self == *other
    }
}

/// A zero-based position.
#[derive(Debug, Clone, Copy, PartialEq, Eq, Structural)]
pub struct LineColumn {
    pub line: u32,
    pub column: u32,
}

impl DeepView for LineColumn {
    type V = LineColumn;

    open spec fn deep_view(&self) -> LineColumn {
        *self
    }
}

impl Plain for LineColumn {
    fn duplicate(&self) -> (copy: Self) {
        *self
    }

    fn same(&self, other: &Self) -> (equal: bool) {
        *self == *other
    }
}

/// How serious a diagnostic is.
#[derive(Debug, Clone, Copy, PartialEq, Eq, Structural)]
pub enum Severity {
    Error,
    Warning,
    WeakWarning,
    Allow,
}

impl DeepView for Severity {
    type V = Severity;

    open spec fn deep_view(&self) -> Severity {
        *self
    }
}

impl Plain for Severity {
    fn duplicate(&self) -> (copy: Self) {
        *self
    }

    fn same(&self, other: &Self) -> (equal: bool) {
        *self == *other
    }
}

/// A path on disk, and what is left of it below the root of the workspace.
#[derive(Debug)]
pub struct DiskPath {
    pub path: String,
    pub relative: Option<String>,
}

/// The content of a [`DiskPath`].
pub struct DiskPathModel {
    pub path: Seq<char>,
    pub relative: Option<Seq<char>>,
}

impl DeepView for DiskPath {
    type V = DiskPathModel;

    open spec fn deep_view(&self) -> DiskPathModel {
        DiskPathModel {
            path: self.path.deep_view(),
            relative: self.relative.deep_view(),
        }
    }
}

impl Plain for DiskPath {
    fn duplicate(&self) -> (copy: Self) {
        DiskPath {
            path: self.path.duplicate(),
            relative: self.relative.duplicate(),
        }
    }

    fn same(&self, other: &Self) -> (equal: bool) {
        self.path.same(&other.path)
            && self.relative.same(&other.relative)
    }
}

/// Where a source file is.
#[derive(Debug)]
pub struct FileLocation {
    /// The name under which the file is known.
    pub name: String,
    /// The path of the file, if it is on disk.
    pub disk: Option<DiskPath>,
}

/// The content of a [`FileLocation`].
pub struct FileLocationModel {
    pub name: Seq<char>,
    pub disk: Option<DiskPathModel>,
}

impl DeepView for FileLocation {
    type V = FileLocationModel;

    open spec fn deep_view(&self) -> FileLocationModel {
        FileLocationModel {
            name: self.name.deep_view(),
            disk: self.disk.deep_view(),
        }
    }
}

impl Plain for FileLocation {
    fn duplicate(&self) -> (copy: Self) {
        FileLocation {
            name: self.name.duplicate(),
            disk: self.disk.duplicate(),
        }
    }

    fn same(&self, other: &Self) -> (equal: bool) {
        self.name.same(&other.name)
            && self.disk.same(&other.disk)
    }
}

/// A diagnostic that the analysis reported.
#[derive(Debug)]
pub struct SourceDiagnostic {
    pub range: FileRange,
    pub code: String,
    pub message: String,
    pub severity: Severity,
}

/// The content of a [`SourceDiagnostic`].
pub struct SourceDiagnosticModel {
    pub range: FileRange,
    pub code: Seq<char>,
    pub message: Seq<char>,
    pub severity: Severity,
}

impl DeepView for SourceDiagnostic {
    type V = SourceDiagnosticModel;

    open spec fn deep_view(&self) -> SourceDiagnosticModel {
        SourceDiagnosticModel {
            range: self.range.deep_view(),
            code: self.code.deep_view(),
            message: self.message.deep_view(),
            severity: self.severity.deep_view(),
        }
    }
}

impl Plain for SourceDiagnostic {
    fn duplicate(&self) -> (copy: Self) {
        SourceDiagnostic {
            range: self.range.duplicate(),
            code: self.code.duplicate(),
            message: self.message.duplicate(),
            severity: self.severity.duplicate(),
        }
    }

    fn same(&self, other: &Self) -> (equal: bool) {
        self.range.same(&other.range)
            && self.code.same(&other.code)
            && self.message.same(&other.message)
            && self.severity.same(&other.severity)
    }
}

/// What the analysis knows of a source file beyond its declarations.
#[derive(Debug)]
pub struct FileAnalysis {
    /// The range of the whole file.
    pub root: TextRange,
    pub diagnostics: Vec<SourceDiagnostic>,
    /// The callees of call expressions.
    pub calls: Vec<TextRange>,
    /// The method names of method calls.
    pub method_calls: Vec<TextRange>,
    /// The last path segments of macro calls.
    pub macro_calls: Vec<TextRange>,
    /// The last path segments of record expressions.
    pub record_literals: Vec<TextRange>,
    /// The last path segments of path types.
    pub type_paths: Vec<TextRange>,
    /// The last path segments of use trees.
    pub use_paths: Vec<TextRange>,
}

/// The content of a [`FileAnalysis`].
pub struct FileAnalysisModel {
    pub root: TextRange,
    pub diagnostics: Seq<SourceDiagnosticModel>,
    pub calls: Seq<TextRange>,
    pub method_calls: Seq<TextRange>,
    pub macro_calls: Seq<TextRange>,
    pub record_literals: Seq<TextRange>,
    pub type_paths: Seq<TextRange>,
    pub use_paths: Seq<TextRange>,
}

impl DeepView for FileAnalysis {
    type V = FileAnalysisModel;

    open spec fn deep_view(&self) -> FileAnalysisModel {
        FileAnalysisModel {
            root: self.root.deep_view(),
            diagnostics: self.diagnostics.deep_view(),
            calls: self.calls.deep_view(),
            method_calls: self.method_calls.deep_view(),
            macro_calls: self.macro_calls.deep_view(),
            record_literals: self.record_literals.deep_view(),
            type_paths: self.type_paths.deep_view(),
            use_paths: self.use_paths.deep_view(),
        }
    }
}

impl Plain for FileAnalysis {
    fn duplicate(&self) -> (copy: Self) {
        FileAnalysis {
            root: self.root.duplicate(),
            diagnostics: self.diagnostics.duplicate(),
            calls: self.calls.duplicate(),
            method_calls: self.method_calls.duplicate(),
            macro_calls: self.macro_calls.duplicate(),
            record_literals: self.record_literals.duplicate(),
            type_paths: self.type_paths.duplicate(),
            use_paths: self.use_paths.duplicate(),
        }
    }

    fn same(&self, other: &Self) -> (equal: bool) {
        self.root.same(&other.root)
            && self.diagnostics.same(&other.diagnostics)
            && self.calls.same(&other.calls)
            && self.method_calls.same(&other.method_calls)
            && self.macro_calls.same(&other.macro_calls)
            && self.record_literals.same(&other.record_literals)
            && self.type_paths.same(&other.type_paths)
            && self.use_paths.same(&other.use_paths)
    }
}

/// A source file as one revision of the analysis sees it.
#[derive(Debug)]
pub struct SourceFile {
    pub location: FileLocation,
    /// The text, unless the analysis was cancelled.
    pub text: Option<String>,
    /// The positions of offsets, unless the analysis was cancelled.
    pub positions: Option<Table<u32, LineColumn>>,
    /// What else is known, unless the analysis was cancelled.
    pub analysis: Option<FileAnalysis>,
}

/// The content of a [`SourceFile`].
pub struct SourceFileModel {
    pub location: FileLocationModel,
    pub text: Option<Seq<char>>,
    pub positions: Option<Map<u32, LineColumn>>,
    pub analysis: Option<FileAnalysisModel>,
}

impl DeepView for SourceFile {
    type V = SourceFileModel;

    open spec fn deep_view(&self) -> SourceFileModel {
        SourceFileModel {
            location: self.location.deep_view(),
            text: self.text.deep_view(),
            positions: self.positions.deep_view(),
            analysis: self.analysis.deep_view(),
        }
    }
}

impl Plain for SourceFile {
    fn duplicate(&self) -> (copy: Self) {
        SourceFile {
            location: self.location.duplicate(),
            text: self.text.duplicate(),
            positions: self.positions.duplicate(),
            analysis: self.analysis.duplicate(),
        }
    }

    fn same(&self, other: &Self) -> (equal: bool) {
        self.location.same(&other.location)
            && self.text.same(&other.text)
            && self.positions.same(&other.positions)
            && self.analysis.same(&other.analysis)
    }
}

/// The source files of one revision of the analysis.
pub type SourceFiles = Table<FileId, SourceFile>;

/// The path under which a location appears in a snapshot: relative to the root of the workspace
/// where it lies below it, and with slashes as separators.
pub open spec fn location_path(location: FileLocationModel) -> Seq<char> {
    match location.disk {
        None => location.name,
        Some(disk) => match disk.relative {
            Some(relative) => normalized(relative),
            None => normalized(disk.path),
        },
    }
}

/// The path under which a source file appears in a snapshot. A file that is not known has none.
pub open spec fn source_of(files: Map<FileId, SourceFileModel>, file_id: FileId) -> Seq<char> {
    if files.contains_key(file_id) {
        location_path(files[file_id].location)
    } else {
        Seq::empty()
    }
}

/// The path under which a source file appears in a snapshot.
pub fn source_path(files: &SourceFiles, file_id: FileId) -> (source: String)
    ensures
        source@ == source_of(files.deep_view(), file_id),
{
    match files.get(&file_id) {
        None => String::new(),
        Some(file) => match &file.location.disk {
            None => file.location.name.clone(),
            Some(disk) => match &disk.relative {
                Some(relative) => normalize_path(relative.as_str()),
                None => normalize_path(disk.path.as_str()),
            },
        },
    }
}

/// The one-based evidence of a range, where the positions of both of its ends are known.
pub open spec fn evidence_of(
    files: Map<FileId, SourceFileModel>,
    range: FileRange,
) -> Option<GraphSnapshotEvidenceModel> {
    if !files.contains_key(range.file_id) {
        None
    } else {
        match files[range.file_id].positions {
            None => None,
            Some(positions) => {
                if positions.contains_key(range.range.start) && positions.contains_key(
                    range.range.end,
                ) {
                    let start = positions[range.range.start];
                    let end = positions[range.range.end];
                    if start.line < u32::MAX && start.column < u32::MAX && end.line < u32::MAX
                        && end.column < u32::MAX {
                        Some(
                            GraphSnapshotEvidenceModel {
                                file: source_of(files, range.file_id),
                                start_line: (start.line + 1) as u32,
                                start_column: (start.column + 1) as u32,
                                end_line: (end.line + 1) as u32,
                                end_column: (end.column + 1) as u32,
                            },
                        )
                    } else {
                        None
                    }
                } else {
                    None
                }
            },
        }
    }
}

/// The evidence of a range, where it is known.
pub fn evidence(files: &SourceFiles, range: FileRange) -> (evidence: Option<GraphSnapshotEvidence>)
    ensures
        evidence.deep_view() == evidence_of(files.deep_view(), range),
{
    let file = match files.get(&range.file_id) {
        Some(file) => file,
        None => return None,
    };
    let positions = match &file.positions {
        Some(positions) => positions,
        None => return None,
    };
    let start = match positions.get(&range.range.start) {
        Some(start) => *start,
        None => return None,
    };
    let end = match positions.get(&range.range.end) {
        Some(end) => *end,
        None => return None,
    };
    if start.line < u32::MAX && start.column < u32::MAX && end.line < u32::MAX && end.column
        < u32::MAX {
        Some(
            GraphSnapshotEvidence {
                file: source_path(files, range.file_id),
                start_line: start.line + 1,
                start_column: start.column + 1,
                end_line: end.line + 1,
                end_column: end.column + 1,
            },
        )
    } else {
        None
    }
}

/// The evidence of a range, or that the analysis was cancelled.
pub open spec fn required_evidence_of(
    files: Map<FileId, SourceFileModel>,
    range: FileRange,
) -> Result<GraphSnapshotEvidenceModel, GraphErrorModel> {
    match evidence_of(files, range) {
        Some(evidence) => Ok(evidence),
        None => Err(GraphErrorModel::Cancelled),
    }
}

/// The evidence of a range, or that the analysis was cancelled.
pub fn required_evidence(files: &SourceFiles, range: FileRange) -> (evidence: Result<
    GraphSnapshotEvidence,
    GraphError,
>)
    ensures
        outcome(evidence) == required_evidence_of(files.deep_view(), range),
{
    match evidence(files, range) {
        Some(evidence) => Ok(evidence),
        None => Err(GraphError::Cancelled),
    }
}

} // verus!
