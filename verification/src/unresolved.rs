//! What a snapshot does not know: the coverage of edge families, and the sites without edges.

use vstd::prelude::*;
use vstd::string::*;

use crate::error::{GraphError, GraphErrorModel, outcome};
use crate::files::{
    FileAnalysis, FileAnalysisModel, FileId, FileRange, SourceFileModel, SourceFiles, TextRange,
    required_evidence, required_evidence_of,
};
use crate::nodes::{reference_kind, reference_kind_name};
use crate::plain::Plain;
use crate::snapshot::{
    GraphSnapshotCoverage, GraphSnapshotCoverageModel, GraphSnapshotEvidence,
    GraphSnapshotEvidenceModel, GraphSnapshotUnresolved, GraphSnapshotUnresolvedModel,
};
use crate::static_index::{
    ReferenceData, ReferenceDataModel, StaticReferenceRole, TokenStaticData, TokenStaticDataModel,
};
use crate::text::same_text;

verus! {

/// How completely a family is covered.
pub open spec fn covered_as(family: Seq<char>, state: Seq<char>) -> GraphSnapshotCoverageModel {
    GraphSnapshotCoverageModel { family, state }
}

/// How completely each family of edges is covered.
pub open spec fn coverage_model() -> Seq<GraphSnapshotCoverageModel> {
    seq![
        covered_as("contains"@, "partial"@),
        covered_as("exports"@, "partial"@),
        covered_as("imports"@, "partial"@),
        covered_as("calls"@, "partial"@),
        covered_as("accesses"@, "partial"@),
        covered_as("instantiates"@, "partial"@),
        covered_as("type_ref"@, "partial"@),
        covered_as("extends"@, "partial"@),
        covered_as("implements"@, "partial"@),
        covered_as("overrides"@, "partial"@),
        covered_as("dispatches"@, "partial"@),
        covered_as("decorates"@, "partial"@),
        covered_as("renders"@, "unsupported"@),
        covered_as("tests"@, "partial"@),
        covered_as("references"@, "partial"@),
    ]
}

fn covered(family: &str, state: &str) -> (coverage: GraphSnapshotCoverage)
    ensures
        coverage.deep_view() == covered_as(family@, state@),
{
    GraphSnapshotCoverage { family: family.to_owned(), state: state.to_owned() }
}

/// How completely each family of edges is covered.
pub fn coverage() -> (families: Vec<GraphSnapshotCoverage>)
    ensures
        families.deep_view() == coverage_model(),
{
    let families: Vec<GraphSnapshotCoverage> = vec![
        covered("contains", "partial"),
        covered("exports", "partial"),
        covered("imports", "partial"),
        covered("calls", "partial"),
        covered("accesses", "partial"),
        covered("instantiates", "partial"),
        covered("type_ref", "partial"),
        covered("extends", "partial"),
        covered("implements", "partial"),
        covered("overrides", "partial"),
        covered("dispatches", "partial"),
        covered("decorates", "partial"),
        covered("renders", "unsupported"),
        covered("tests", "partial"),
        covered("references", "partial"),
    ];
    assert(families.deep_view() =~= coverage_model());
    families
}

/// A site whose edges of one family are not known.
pub open spec fn unresolved_site(
    family: Seq<char>,
    evidence: GraphSnapshotEvidenceModel,
    reason: Seq<char>,
) -> GraphSnapshotUnresolvedModel {
    GraphSnapshotUnresolvedModel { family, evidence, reason, candidates: Seq::empty() }
}

fn make_site(family: &str, evidence: GraphSnapshotEvidence, reason: &str) -> (site:
    GraphSnapshotUnresolved)
    ensures
        site.deep_view() == unresolved_site(family@, evidence.deep_view(), reason@),
{
    let site = GraphSnapshotUnresolved {
        family: family.to_owned(),
        evidence,
        reason: reason.to_owned(),
        candidates: Vec::new(),
    };
    assert(site.deep_view().candidates =~= Seq::<Seq<char>>::empty());
    site
}

/// The sites that a file contributes because it takes part in several builds: the whole file for
/// each of the first families that are supported.
pub open spec fn conditional_sites(
    coverage: Seq<GraphSnapshotCoverageModel>,
    position: GraphSnapshotEvidenceModel,
    count: int,
) -> Seq<GraphSnapshotUnresolvedModel>
    decreases count,
{
    if count <= 0 {
        Seq::empty()
    } else {
        let sites = conditional_sites(coverage, position, count - 1);
        if coverage[count - 1].state != "unsupported"@ {
            sites.push(
                unresolved_site(coverage[count - 1].family, position, "conditional-build"@),
            )
        } else {
            sites
        }
    }
}

/// The sites that a file contributes because it takes part in several builds.
pub fn collect_conditional(
    coverage: &Vec<GraphSnapshotCoverage>,
    position: &GraphSnapshotEvidence,
) -> (sites: Vec<GraphSnapshotUnresolved>)
    ensures
        sites.deep_view() == conditional_sites(
            coverage.deep_view(),
            position.deep_view(),
            coverage.deep_view().len() as int,
        ),
{
    let ghost all = coverage.deep_view();
    let mut sites: Vec<GraphSnapshotUnresolved> = Vec::new();
    let mut index: usize = 0;
    assert(sites.deep_view() =~= Seq::<GraphSnapshotUnresolvedModel>::empty());
    while index < coverage.len()
        invariant
            index <= coverage.len(),
            all == coverage.deep_view(),
            sites.deep_view() == conditional_sites(all, position.deep_view(), index as int),
        decreases coverage.len() - index,
    {
        let entry = &coverage[index];
        assert(all[index as int] == entry.deep_view());
        if !same_text(entry.state.as_str(), "unsupported") {
            let ghost before = sites.deep_view();
            let site = make_site(entry.family.as_str(), position.duplicate(), "conditional-build");
            let ghost added = site.deep_view();
            sites.push(site);
            assert(sites.deep_view() =~= before.push(added));
        }
        index += 1;
    }
    sites
}

/// Whether some site is of a family.
pub open spec fn has_family(sites: Seq<GraphSnapshotUnresolvedModel>, family: Seq<char>) -> bool {
    exists|i: int| 0 <= i < sites.len() && (#[trigger] sites[i]).family == family
}

/// The sites that stand for the first partly covered families of which no site is known: the whole
/// file for each.
pub open spec fn gap_sites(
    coverage: Seq<GraphSnapshotCoverageModel>,
    known: Seq<GraphSnapshotUnresolvedModel>,
    position: GraphSnapshotEvidenceModel,
    count: int,
) -> Seq<GraphSnapshotUnresolvedModel>
    decreases count,
{
    if count <= 0 {
        Seq::empty()
    } else {
        let sites = gap_sites(coverage, known, position, count - 1);
        if coverage[count - 1].state == "partial"@ && !has_family(
            known,
            coverage[count - 1].family,
        ) {
            sites.push(unresolved_site(coverage[count - 1].family, position, "provider-gap"@))
        } else {
            sites
        }
    }
}

fn knows_family(sites: &Vec<GraphSnapshotUnresolved>, family: &str) -> (known: bool)
    ensures
        known == has_family(sites.deep_view(), family@),
{
    let ghost all = sites.deep_view();
    let mut index: usize = 0;
    while index < sites.len()
        invariant
            index <= sites.len(),
            all == sites.deep_view(),
            forall|i: int| 0 <= i < index ==> (#[trigger] all[i]).family != family@,
        decreases sites.len() - index,
    {
        assert(all[index as int] == sites@[index as int].deep_view());
        if same_text(sites[index].family.as_str(), family) {
            return true;
        }
        index += 1;
    }
    false
}

/// The sites that stand for the partly covered families of which no site is known.
pub fn collect_gaps(
    coverage: &Vec<GraphSnapshotCoverage>,
    known: &Vec<GraphSnapshotUnresolved>,
    position: &GraphSnapshotEvidence,
) -> (sites: Vec<GraphSnapshotUnresolved>)
    ensures
        sites.deep_view() == gap_sites(
            coverage.deep_view(),
            known.deep_view(),
            position.deep_view(),
            coverage.deep_view().len() as int,
        ),
{
    let ghost all = coverage.deep_view();
    let mut sites: Vec<GraphSnapshotUnresolved> = Vec::new();
    let mut index: usize = 0;
    assert(sites.deep_view() =~= Seq::<GraphSnapshotUnresolvedModel>::empty());
    while index < coverage.len()
        invariant
            index <= coverage.len(),
            all == coverage.deep_view(),
            sites.deep_view() == gap_sites(
                all,
                known.deep_view(),
                position.deep_view(),
                index as int,
            ),
        decreases coverage.len() - index,
    {
        let entry = &coverage[index];
        assert(all[index as int] == entry.deep_view());
        if same_text(entry.state.as_str(), "partial") && !knows_family(
            known,
            entry.family.as_str(),
        ) {
            let ghost before = sites.deep_view();
            let site = make_site(entry.family.as_str(), position.duplicate(), "provider-gap");
            let ghost added = site.deep_view();
            sites.push(site);
            assert(sites.deep_view() =~= before.push(added));
        }
        index += 1;
    }
    sites
}

/// A construct that should give rise to an edge.
#[derive(Debug, Clone, Copy, PartialEq, Eq, Structural)]
pub enum SiteKind {
    Call,
    MethodCall,
    MacroCall,
    RecordLiteral,
    TypePath,
    UsePath,
}

impl DeepView for SiteKind {
    type V = SiteKind;

    open spec fn deep_view(&self) -> SiteKind {
        *self
    }
}

impl Plain for SiteKind {
    fn duplicate(&self) -> (copy: Self) {
        *self
    }

    fn same(&self, other: &Self) -> (equal: bool) {
        *self == *other
    }
}

/// The family of the edges that a construct should give rise to.
pub open spec fn site_family(kind: SiteKind) -> Seq<char> {
    match kind {
        SiteKind::Call => "calls"@,
        SiteKind::MethodCall => "calls"@,
        SiteKind::MacroCall => "calls"@,
        SiteKind::RecordLiteral => "instantiates"@,
        SiteKind::TypePath => "type_ref"@,
        SiteKind::UsePath => "imports"@,
    }
}

/// Why a construct may not give rise to an edge.
pub open spec fn site_reason(kind: SiteKind) -> Seq<char> {
    match kind {
        SiteKind::MacroCall => "macro-or-generated"@,
        _ => "analysis-error"@,
    }
}

fn family_text(kind: SiteKind) -> (family: &'static str)
    ensures
        family@ == site_family(kind),
{
    match kind {
        SiteKind::Call => "calls",
        SiteKind::MethodCall => "calls",
        SiteKind::MacroCall => "calls",
        SiteKind::RecordLiteral => "instantiates",
        SiteKind::TypePath => "type_ref",
        SiteKind::UsePath => "imports",
    }
}

fn reason_text(kind: SiteKind) -> (reason: &'static str)
    ensures
        reason@ == site_reason(kind),
{
    match kind {
        SiteKind::MacroCall => "macro-or-generated",
        _ => "analysis-error",
    }
}

/// Ranges of constructs of a kind.
pub open spec fn sites_of_kind(kind: SiteKind, ranges: Seq<TextRange>) -> Seq<(SiteKind, TextRange)> {
    Seq::new(ranges.len(), |i: int| (kind, ranges[i]))
}

/// The constructs of a file that should give rise to edges.
pub open spec fn sites_of(analysis: FileAnalysisModel) -> Seq<(SiteKind, TextRange)> {
    sites_of_kind(SiteKind::Call, analysis.calls) + sites_of_kind(
        SiteKind::MethodCall,
        analysis.method_calls,
    ) + sites_of_kind(SiteKind::MacroCall, analysis.macro_calls) + sites_of_kind(
        SiteKind::RecordLiteral,
        analysis.record_literals,
    ) + sites_of_kind(SiteKind::TypePath, analysis.type_paths) + sites_of_kind(
        SiteKind::UsePath,
        analysis.use_paths,
    )
}

fn add_sites(sites: &mut Vec<(SiteKind, TextRange)>, kind: SiteKind, ranges: &Vec<TextRange>)
    ensures
        final(sites).deep_view() == old(sites).deep_view() + sites_of_kind(kind, ranges.deep_view()),
{
    let ghost start = sites.deep_view();
    let ghost added = sites_of_kind(kind, ranges.deep_view());
    let mut index: usize = 0;
    assert(sites.deep_view() =~= start + added.take(0));
    while index < ranges.len()
        invariant
            index <= ranges.len(),
            added == sites_of_kind(kind, ranges.deep_view()),
            sites.deep_view() == start + added.take(index as int),
        decreases ranges.len() - index,
    {
        let ghost before = sites.deep_view();
        assert(added[index as int] == (kind, ranges@[index as int]));
        sites.push((kind, ranges[index]));
        assert(sites.deep_view() =~= before.push((kind, ranges@[index as int])));
        assert(sites.deep_view() =~= start + added.take(index + 1));
        index += 1;
    }
    assert(added.take(index as int) =~= added);
}

fn collect_sites(analysis: &FileAnalysis) -> (sites: Vec<(SiteKind, TextRange)>)
    ensures
        sites.deep_view() == sites_of(analysis.deep_view()),
{
    let mut sites: Vec<(SiteKind, TextRange)> = Vec::new();
    add_sites(&mut sites, SiteKind::Call, &analysis.calls);
    add_sites(&mut sites, SiteKind::MethodCall, &analysis.method_calls);
    add_sites(&mut sites, SiteKind::MacroCall, &analysis.macro_calls);
    add_sites(&mut sites, SiteKind::RecordLiteral, &analysis.record_literals);
    add_sites(&mut sites, SiteKind::TypePath, &analysis.type_paths);
    add_sites(&mut sites, SiteKind::UsePath, &analysis.use_paths);
    assert(sites.deep_view() =~= sites_of(analysis.deep_view()));
    sites
}

/// Whether a reference of a file, other than a declaration, makes an edge of a family inside a
/// site.
pub open spec fn resolves(
    reference: ReferenceDataModel,
    file_id: FileId,
    family: Seq<char>,
    site: TextRange,
) -> bool {
    &&& !reference.is_definition
    &&& reference.range.file_id == file_id
    &&& reference_kind_name(reference.role) == family
    &&& site.encloses(reference.range.range)
}

/// Whether some reference resolves a site.
pub open spec fn is_resolved(
    tokens: Seq<TokenStaticDataModel>,
    file_id: FileId,
    family: Seq<char>,
    site: TextRange,
) -> bool {
    exists|t: int, r: int|
        0 <= t < tokens.len() && 0 <= r < tokens[t].references.len() && resolves(
            #[trigger] tokens[t].references[r],
            file_id,
            family,
            site,
        )
}

/// The references to a file that are no declarations.
fn collect_resolved(tokens: &Vec<TokenStaticData>, file_id: FileId) -> (found: Vec<
    (TextRange, StaticReferenceRole),
>)
    ensures
        forall|family: Seq<char>, site: TextRange| #[trigger]
            is_resolved(tokens.deep_view(), file_id, family, site) <==> exists|i: int|
                0 <= i < found.len() && reference_kind_name((#[trigger] found@[i]).1) == family
                    && site.encloses(found@[i].0),
{
    let ghost all = tokens.deep_view();
    let mut found: Vec<(TextRange, StaticReferenceRole)> = Vec::new();
    let ghost mut at: Seq<(int, int)> = Seq::empty();
    let mut index: usize = 0;
    while index < tokens.len()
        invariant
            index <= tokens.len(),
            all == tokens.deep_view(),
            at.len() == found.len(),
            forall|i: int|
                0 <= i < found.len() ==> 0 <= (#[trigger] at[i]).0 < all.len() && 0 <= at[i].1
                    < all[at[i].0].references.len() && is_found(
                    all[at[i].0].references[at[i].1],
                    file_id,
                    found@[i],
                ),
            forall|t: int, r: int|
                0 <= t < index && 0 <= r < all[t].references.len() && !(
                #[trigger] all[t].references[r]).is_definition && all[t].references[r].range.file_id
                    == file_id ==> exists|i: int|
                    0 <= i < found.len() && is_found(
                        all[t].references[r],
                        file_id,
                        #[trigger] found@[i],
                    ),
        decreases tokens.len() - index,
    {
        let references = &tokens[index].references;
        assert(all[index as int].references == references.deep_view());
        let mut next: usize = 0;
        while next < references.len()
            invariant
                index < tokens.len(),
                next <= references.len(),
                all == tokens.deep_view(),
                all[index as int].references == references.deep_view(),
                at.len() == found.len(),
                forall|i: int|
                    0 <= i < found.len() ==> 0 <= (#[trigger] at[i]).0 < all.len() && 0 <= at[i].1
                        < all[at[i].0].references.len() && is_found(
                        all[at[i].0].references[at[i].1],
                        file_id,
                        found@[i],
                    ),
                forall|t: int, r: int|
                    (0 <= t < index && 0 <= r < all[t].references.len() || t == index && 0 <= r
                        < next) && !(#[trigger] all[t].references[r]).is_definition
                        && all[t].references[r].range.file_id == file_id ==> exists|i: int|
                        0 <= i < found.len() && is_found(
                            all[t].references[r],
                            file_id,
                            #[trigger] found@[i],
                        ),
            decreases references.len() - next,
        {
            let reference = &references[next];
            assert(all[index as int].references[next as int] == reference.deep_view());
            let ghost before = found@;
            if !reference.is_definition && reference.range.file_id == file_id {
                found.push((reference.range.range, reference.role));
                proof {
                    at = at.push((index as int, next as int));
                    assert(found@[before.len() as int] == (reference.range.range, reference.role));
                    assert forall|t: int, r: int|
                        (0 <= t < index && 0 <= r < all[t].references.len() || t == index && 0 <= r
                            <= next) && !(#[trigger] all[t].references[r]).is_definition
                            && all[t].references[r].range.file_id == file_id implies exists|i: int|
                        0 <= i < found.len() && is_found(
                            all[t].references[r],
                            file_id,
                            #[trigger] found@[i],
                        ) by {
                        if t == index && r == next {
                            assert(is_found(
                                all[t].references[r],
                                file_id,
                                found@[before.len() as int],
                            ));
                        } else {
                            let i = choose|i: int|
                                0 <= i < before.len() && is_found(
                                    all[t].references[r],
                                    file_id,
                                    #[trigger] before[i],
                                );
                            assert(found@[i] == before[i]);
                        }
                    }
                }
            }
            next += 1;
        }
        index += 1;
    }
    proof {
        assert forall|family: Seq<char>, site: TextRange| #[trigger]
            is_resolved(all, file_id, family, site) <==> exists|i: int|
                0 <= i < found.len() && reference_kind_name((#[trigger] found@[i]).1) == family
                    && site.encloses(found@[i].0) by {
            if is_resolved(all, file_id, family, site) {
                let (t, r) = choose|t: int, r: int|
                    0 <= t < all.len() && 0 <= r < all[t].references.len() && resolves(
                        #[trigger] all[t].references[r],
                        file_id,
                        family,
                        site,
                    );
                let i = choose|i: int|
                    0 <= i < found.len() && is_found(
                        all[t].references[r],
                        file_id,
                        #[trigger] found@[i],
                    );
                assert(reference_kind_name(found@[i].1) == family);
            }
            if exists|i: int|
                0 <= i < found.len() && reference_kind_name((#[trigger] found@[i]).1) == family
                    && site.encloses(found@[i].0) {
                let i = choose|i: int|
                    0 <= i < found.len() && reference_kind_name((#[trigger] found@[i]).1) == family
                        && site.encloses(found@[i].0);
                let (t, r) = at[i];
                assert(resolves(all[t].references[r], file_id, family, site));
            }
        }
    }
    found
}

/// Whether what was found is a reference of a file that is no declaration.
spec fn is_found(
    reference: ReferenceDataModel,
    file_id: FileId,
    found: (TextRange, StaticReferenceRole),
) -> bool {
    &&& !reference.is_definition
    &&& reference.range.file_id == file_id
    &&& found.0 == reference.range.range
    &&& found.1 == reference.role
}

/// Whether a reference calls an item of a trait in a file, so that its target is decided at run
/// time.
pub open spec fn dispatches_in(reference: ReferenceDataModel, file_id: FileId) -> bool {
    &&& !reference.is_definition
    &&& reference.range.file_id == file_id
    &&& reference.role == StaticReferenceRole::Call
}

/// The sites of the first calls of an item of a trait in a file.
pub open spec fn token_dispatches(
    files: Map<FileId, SourceFileModel>,
    file_id: FileId,
    references: Seq<ReferenceDataModel>,
    count: int,
) -> Result<Seq<GraphSnapshotUnresolvedModel>, GraphErrorModel>
    decreases count,
{
    if count <= 0 {
        Ok(Seq::empty())
    } else {
        match token_dispatches(files, file_id, references, count - 1) {
            Err(error) => Err(error),
            Ok(sites) => {
                let reference = references[count - 1];
                if dispatches_in(reference, file_id) {
                    match required_evidence_of(files, reference.range) {
                        Err(error) => Err(error),
                        Ok(position) => Ok(
                            sites.push(unresolved_site("dispatches"@, position, "dynamic"@)),
                        ),
                    }
                } else {
                    Ok(sites)
                }
            },
        }
    }
}

/// The sites of the calls of the first items of traits in a file.
pub open spec fn dispatch_sites(
    files: Map<FileId, SourceFileModel>,
    file_id: FileId,
    tokens: Seq<TokenStaticDataModel>,
    count: int,
) -> Result<Seq<GraphSnapshotUnresolvedModel>, GraphErrorModel>
    decreases count,
{
    if count <= 0 {
        Ok(Seq::empty())
    } else {
        match dispatch_sites(files, file_id, tokens, count - 1) {
            Err(error) => Err(error),
            Ok(sites) => {
                let token = tokens[count - 1];
                if token.trait_member {
                    match token_dispatches(
                        files,
                        file_id,
                        token.references,
                        token.references.len() as int,
                    ) {
                        Err(error) => Err(error),
                        Ok(more) => Ok(sites + more),
                    }
                } else {
                    Ok(sites)
                }
            },
        }
    }
}

/// The first constructs of a file that no reference resolves.
pub open spec fn open_sites(
    files: Map<FileId, SourceFileModel>,
    file_id: FileId,
    tokens: Seq<TokenStaticDataModel>,
    sites: Seq<(SiteKind, TextRange)>,
    count: int,
) -> Result<Seq<GraphSnapshotUnresolvedModel>, GraphErrorModel>
    decreases count,
{
    if count <= 0 {
        Ok(Seq::empty())
    } else {
        match open_sites(files, file_id, tokens, sites, count - 1) {
            Err(error) => Err(error),
            Ok(found) => {
                let (kind, range) = sites[count - 1];
                if is_resolved(tokens, file_id, site_family(kind), range) {
                    Ok(found)
                } else {
                    match required_evidence_of(files, (FileRange { file_id, range })) {
                        Err(error) => Err(error),
                        Ok(position) => Ok(
                            found.push(
                                unresolved_site(site_family(kind), position, site_reason(kind)),
                            ),
                        ),
                    }
                }
            },
        }
    }
}

/// The sites of a file without edges: calls that are decided at run time, then constructs that no
/// reference resolves.
pub open spec fn unresolved_of(
    files: Map<FileId, SourceFileModel>,
    file_id: FileId,
    analysis: FileAnalysisModel,
    tokens: Seq<TokenStaticDataModel>,
) -> Result<Seq<GraphSnapshotUnresolvedModel>, GraphErrorModel> {
    match dispatch_sites(files, file_id, tokens, tokens.len() as int) {
        Err(error) => Err(error),
        Ok(dispatched) => match open_sites(
            files,
            file_id,
            tokens,
            sites_of(analysis),
            sites_of(analysis).len() as int,
        ) {
            Err(error) => Err(error),
            Ok(found) => Ok(dispatched + found),
        },
    }
}

proof fn lemma_token_dispatches_error(
    files: Map<FileId, SourceFileModel>,
    file_id: FileId,
    references: Seq<ReferenceDataModel>,
    count: int,
    more: int,
)
    requires
        0 <= count <= more,
        token_dispatches(files, file_id, references, count) is Err,
    ensures
        token_dispatches(files, file_id, references, more) == token_dispatches(
            files,
            file_id,
            references,
            count,
        ),
    decreases more - count,
{
    if count < more {
        lemma_token_dispatches_error(files, file_id, references, count, more - 1);
    }
}

proof fn lemma_dispatch_error(
    files: Map<FileId, SourceFileModel>,
    file_id: FileId,
    tokens: Seq<TokenStaticDataModel>,
    count: int,
    more: int,
)
    requires
        0 <= count <= more,
        dispatch_sites(files, file_id, tokens, count) is Err,
    ensures
        dispatch_sites(files, file_id, tokens, more) == dispatch_sites(
            files,
            file_id,
            tokens,
            count,
        ),
    decreases more - count,
{
    if count < more {
        lemma_dispatch_error(files, file_id, tokens, count, more - 1);
    }
}

proof fn lemma_open_error(
    files: Map<FileId, SourceFileModel>,
    file_id: FileId,
    tokens: Seq<TokenStaticDataModel>,
    sites: Seq<(SiteKind, TextRange)>,
    count: int,
    more: int,
)
    requires
        0 <= count <= more,
        open_sites(files, file_id, tokens, sites, count) is Err,
    ensures
        open_sites(files, file_id, tokens, sites, more) == open_sites(
            files,
            file_id,
            tokens,
            sites,
            count,
        ),
    decreases more - count,
{
    if count < more {
        lemma_open_error(files, file_id, tokens, sites, count, more - 1);
    }
}

fn collect_token_dispatches(
    files: &SourceFiles,
    file_id: FileId,
    references: &Vec<ReferenceData>,
) -> (result: Result<Vec<GraphSnapshotUnresolved>, GraphError>)
    ensures
        outcome(result) == token_dispatches(
            files.deep_view(),
            file_id,
            references.deep_view(),
            references.deep_view().len() as int,
        ),
{
    let ghost f = files.deep_view();
    let ghost all = references.deep_view();
    let mut sites: Vec<GraphSnapshotUnresolved> = Vec::new();
    let mut index: usize = 0;
    assert(sites.deep_view() =~= Seq::<GraphSnapshotUnresolvedModel>::empty());
    while index < references.len()
        invariant
            index <= references.len(),
            f == files.deep_view(),
            all == references.deep_view(),
            token_dispatches(f, file_id, all, index as int) == Ok::<
                Seq<GraphSnapshotUnresolvedModel>,
                GraphErrorModel,
            >(sites.deep_view()),
        decreases references.len() - index,
    {
        let reference = &references[index];
        assert(all[index as int] == reference.deep_view());
        if !reference.is_definition && reference.range.file_id == file_id && reference.role
            == StaticReferenceRole::Call {
            match required_evidence(files, reference.range) {
                Err(error) => {
                    proof {
                        lemma_token_dispatches_error(f, file_id, all, index + 1, all.len() as int);
                    }
                    return Err(error);
                },
                Ok(position) => {
                    let ghost before = sites.deep_view();
                    let site = make_site("dispatches", position, "dynamic");
                    let ghost added = site.deep_view();
                    sites.push(site);
                    assert(sites.deep_view() =~= before.push(added));
                },
            }
        }
        index += 1;
    }
    Ok(sites)
}

fn collect_dispatches(files: &SourceFiles, file_id: FileId, tokens: &Vec<TokenStaticData>) -> (result:
    Result<Vec<GraphSnapshotUnresolved>, GraphError>)
    ensures
        outcome(result) == dispatch_sites(
            files.deep_view(),
            file_id,
            tokens.deep_view(),
            tokens.deep_view().len() as int,
        ),
{
    let ghost f = files.deep_view();
    let ghost all = tokens.deep_view();
    let mut sites: Vec<GraphSnapshotUnresolved> = Vec::new();
    let mut index: usize = 0;
    assert(sites.deep_view() =~= Seq::<GraphSnapshotUnresolvedModel>::empty());
    while index < tokens.len()
        invariant
            index <= tokens.len(),
            f == files.deep_view(),
            all == tokens.deep_view(),
            dispatch_sites(f, file_id, all, index as int) == Ok::<
                Seq<GraphSnapshotUnresolvedModel>,
                GraphErrorModel,
            >(sites.deep_view()),
        decreases tokens.len() - index,
    {
        let token = &tokens[index];
        assert(all[index as int] == token.deep_view());
        if token.trait_member {
            match collect_token_dispatches(files, file_id, &token.references) {
                Err(error) => {
                    proof {
                        lemma_dispatch_error(f, file_id, all, index + 1, all.len() as int);
                    }
                    return Err(error);
                },
                Ok(more) => {
                    let ghost before = sites.deep_view();
                    let ghost added = more.deep_view();
                    let mut more = more;
                    sites.append(&mut more);
                    assert(sites.deep_view() =~= before + added);
                },
            }
        }
        index += 1;
    }
    Ok(sites)
}

fn is_site_resolved(
    resolved: &Vec<(TextRange, StaticReferenceRole)>,
    family: &str,
    site: TextRange,
) -> (found: bool)
    ensures
        found == exists|i: int|
            0 <= i < resolved.len() && reference_kind_name((#[trigger] resolved@[i]).1) == family@
                && site.encloses(resolved@[i].0),
{
    let mut index: usize = 0;
    while index < resolved.len()
        invariant
            index <= resolved.len(),
            forall|i: int|
                0 <= i < index ==> !(reference_kind_name((#[trigger] resolved@[i]).1) == family@
                    && site.encloses(resolved@[i].0)),
        decreases resolved.len() - index,
    {
        let (range, role) = resolved[index];
        if site.contains_range(range) && same_text(reference_kind(role), family) {
            assert(reference_kind_name(resolved@[index as int].1) == family@);
            return true;
        }
        index += 1;
    }
    false
}

/// Finds the sites of a file without edges.
pub fn collect_unresolved(
    files: &SourceFiles,
    file_id: FileId,
    analysis: &FileAnalysis,
    tokens: &Vec<TokenStaticData>,
) -> (result: Result<Vec<GraphSnapshotUnresolved>, GraphError>)
    ensures
        outcome(result) == unresolved_of(
            files.deep_view(),
            file_id,
            analysis.deep_view(),
            tokens.deep_view(),
        ),
{
    let ghost f = files.deep_view();
    let ghost t = tokens.deep_view();
    let resolved = collect_resolved(tokens, file_id);
    let sites = collect_sites(analysis);
    let ghost s = sites.deep_view();
    let mut unresolved = match collect_dispatches(files, file_id, tokens) {
        Ok(sites) => sites,
        Err(error) => return Err(error),
    };
    let ghost dispatched = unresolved.deep_view();
    let mut index: usize = 0;
    assert(unresolved.deep_view() =~= dispatched + Seq::<GraphSnapshotUnresolvedModel>::empty());
    while index < sites.len()
        invariant
            index <= sites.len(),
            f == files.deep_view(),
            t == tokens.deep_view(),
            s == sites.deep_view(),
            s == sites_of(analysis.deep_view()),
            dispatch_sites(f, file_id, t, t.len() as int) == Ok::<
                Seq<GraphSnapshotUnresolvedModel>,
                GraphErrorModel,
            >(dispatched),
            forall|family: Seq<char>, site: TextRange| #[trigger]
                is_resolved(t, file_id, family, site) <==> exists|i: int|
                    0 <= i < resolved.len() && reference_kind_name((#[trigger] resolved@[i]).1)
                        == family && site.encloses(resolved@[i].0),
            match open_sites(f, file_id, t, s, index as int) {
                Ok(found) => unresolved.deep_view() == dispatched + found,
                Err(_) => false,
            },
        decreases sites.len() - index,
    {
        let (kind, range) = sites[index];
        assert(s[index as int] == (kind, range));
        assert(is_resolved(t, file_id, site_family(kind), range) <==> exists|i: int|
            0 <= i < resolved.len() && reference_kind_name((#[trigger] resolved@[i]).1)
                == site_family(kind) && range.encloses(resolved@[i].0));
        if !is_site_resolved(&resolved, family_text(kind), range) {
            match required_evidence(files, FileRange { file_id, range }) {
                Err(error) => {
                    proof {
                        lemma_open_error(f, file_id, t, s, index + 1, s.len() as int);
                    }
                    return Err(error);
                },
                Ok(position) => {
                    let ghost before = unresolved.deep_view();
                    let site = make_site(family_text(kind), position, reason_text(kind));
                    let ghost added = site.deep_view();
                    unresolved.push(site);
                    assert(unresolved.deep_view() =~= before.push(added));
                },
            }
        }
        index += 1;
    }
    Ok(unresolved)
}

} // verus!
