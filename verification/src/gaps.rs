//! Which sites of a source file are listed as those whose edges are not known.

use vstd::prelude::*;
use vstd::string::*;

use crate::files::{
    FileAnalysisModel, FileId, FileRange, SourceFileModel, TextRange, evidence_of, source_of,
};
use crate::nodes::reference_kind_name;
use crate::snapshot::GraphSnapshotUnresolvedModel;
use crate::static_index::{StaticReferenceRole, TokenStaticDataModel};
use crate::unresolved::{
    SiteKind, dispatch_sites, dispatches_in, is_resolved, open_sites, resolves, site_family,
    site_reason, sites_of, token_dispatches, unresolved_of,
};

verus! {

/// Whether a reference is a call, in a file, of an item of a trait: not the declaration of the item,
/// and of no other role.
pub open spec fn is_dynamic_call(
    tokens: Seq<TokenStaticDataModel>,
    file_id: FileId,
    at: (int, int),
) -> bool {
    &&& 0 <= at.0 < tokens.len()
    &&& 0 <= at.1 < tokens[at.0].references.len()
    &&& tokens[at.0].trait_member
    &&& !tokens[at.0].references[at.1].is_definition
    &&& tokens[at.0].references[at.1].role == StaticReferenceRole::Call
    &&& tokens[at.0].references[at.1].range.file_id == file_id
}

/// Whether a site stands for a range of a file, under a family and a reason, without candidates.
pub open spec fn is_site(
    files: Map<FileId, SourceFileModel>,
    site: GraphSnapshotUnresolvedModel,
    range: FileRange,
    family: Seq<char>,
    reason: Seq<char>,
) -> bool {
    &&& site.family == family
    &&& site.reason == reason
    &&& site.candidates.len() == 0
    &&& evidence_of(files, range) == Some(site.evidence)
}

/// Whether sites stand one to one for the given calls.
pub open spec fn are_dispatches(
    files: Map<FileId, SourceFileModel>,
    tokens: Seq<TokenStaticDataModel>,
    sites: Seq<GraphSnapshotUnresolvedModel>,
    calls: Seq<(int, int)>,
) -> bool {
    &&& sites.len() == calls.len()
    &&& calls.no_duplicates()
    &&& forall|i: int|
        0 <= i < sites.len() ==> is_site(
            files,
            #[trigger] sites[i],
            tokens[calls[i].0].references[calls[i].1].range,
            "dispatches"@,
            "dynamic"@,
        )
}

proof fn lemma_token_dispatches(
    files: Map<FileId, SourceFileModel>,
    file_id: FileId,
    tokens: Seq<TokenStaticDataModel>,
    t: int,
    count: int,
) -> (calls: Seq<(int, int)>)
    requires
        0 <= t < tokens.len(),
        tokens[t].trait_member,
        0 <= count <= tokens[t].references.len(),
        token_dispatches(files, file_id, tokens[t].references, count) is Ok,
    ensures
        are_dispatches(
            files,
            tokens,
            token_dispatches(files, file_id, tokens[t].references, count)->Ok_0,
            calls,
        ),
        forall|at: (int, int)| #[trigger]
            calls.contains(at) <==> at.0 == t && at.1 < count && is_dynamic_call(
                tokens,
                file_id,
                at,
            ),
    decreases count,
{
    if count <= 0 {
        Seq::empty()
    } else {
        let before = lemma_token_dispatches(files, file_id, tokens, t, count - 1);
        let sites = token_dispatches(files, file_id, tokens[t].references, count - 1)->Ok_0;
        let all = token_dispatches(files, file_id, tokens[t].references, count)->Ok_0;
        let last = (t, count - 1);
        if dispatches_in(tokens[t].references[count - 1], file_id) {
            let calls = before.push(last);
            assert(!before.contains(last));
            assert forall|i: int, j: int|
                0 <= i < calls.len() && 0 <= j < calls.len() && i != j implies calls[i]
                != calls[j] by {
                if i < before.len() {
                    assert(before.contains(before[i]));
                }
                if j < before.len() {
                    assert(before.contains(before[j]));
                }
            }
            assert forall|at: (int, int)| #[trigger]
                calls.contains(at) <==> at.0 == t && at.1 < count && is_dynamic_call(
                tokens,
                file_id,
                at,
            ) by {
                if before.contains(at) {
                    let i = choose|i: int| 0 <= i < before.len() && before[i] == at;
                    assert(calls[i] == at);
                }
                if at == last {
                    assert(calls[before.len() as int] == at);
                }
                if calls.contains(at) {
                    let i = choose|i: int| 0 <= i < calls.len() && calls[i] == at;
                    if i < before.len() {
                        assert(before[i] == at);
                        assert(before.contains(at));
                    }
                }
            }
            assert forall|i: int| 0 <= i < all.len() implies is_site(
                files,
                #[trigger] all[i],
                tokens[calls[i].0].references[calls[i].1].range,
                "dispatches"@,
                "dynamic"@,
            ) by {
                if i < sites.len() {
                    assert(all[i] == sites[i]);
                    assert(calls[i] == before[i]);
                }
            }
            calls
        } else {
            assert forall|at: (int, int)| #[trigger]
                before.contains(at) <==> at.0 == t && at.1 < count && is_dynamic_call(
                tokens,
                file_id,
                at,
            ) by {
                if at == last {
                    assert(!is_dynamic_call(tokens, file_id, at));
                }
            }
            before
        }
    }
}

proof fn lemma_dispatches_joined(
    files: Map<FileId, SourceFileModel>,
    tokens: Seq<TokenStaticDataModel>,
    sites: Seq<GraphSnapshotUnresolvedModel>,
    calls: Seq<(int, int)>,
    more: Seq<GraphSnapshotUnresolvedModel>,
    more_calls: Seq<(int, int)>,
)
    requires
        are_dispatches(files, tokens, sites, calls),
        are_dispatches(files, tokens, more, more_calls),
        forall|at: (int, int)| #[trigger] calls.contains(at) ==> !more_calls.contains(at),
    ensures
        are_dispatches(files, tokens, sites + more, calls + more_calls),
        forall|at: (int, int)| #[trigger]
            (calls + more_calls).contains(at) <==> calls.contains(at) || more_calls.contains(at),
{
    let all = calls + more_calls;
    assert forall|i: int, j: int|
        0 <= i < all.len() && 0 <= j < all.len() && i != j implies all[i] != all[j] by {
        if i < calls.len() {
            assert(calls.contains(calls[i]));
        } else {
            assert(more_calls.contains(more_calls[i - calls.len()]));
        }
        if j < calls.len() {
            assert(calls.contains(calls[j]));
        } else {
            assert(more_calls.contains(more_calls[j - calls.len()]));
        }
    }
    assert forall|i: int| 0 <= i < (sites + more).len() implies is_site(
        files,
        #[trigger] (sites + more)[i],
        tokens[all[i].0].references[all[i].1].range,
        "dispatches"@,
        "dynamic"@,
    ) by {
        if i < sites.len() {
            assert((sites + more)[i] == sites[i]);
            assert(all[i] == calls[i]);
        } else {
            assert((sites + more)[i] == more[i - sites.len()]);
            assert(all[i] == more_calls[i - sites.len()]);
        }
    }
    assert forall|at: (int, int)| #[trigger] all.contains(at) <==> calls.contains(at)
        || more_calls.contains(at) by {
        if calls.contains(at) {
            let i = choose|i: int| 0 <= i < calls.len() && calls[i] == at;
            assert(all[i] == at);
        }
        if more_calls.contains(at) {
            let i = choose|i: int| 0 <= i < more_calls.len() && more_calls[i] == at;
            assert(all[calls.len() + i] == at);
        }
        if all.contains(at) {
            let i = choose|i: int| 0 <= i < all.len() && all[i] == at;
            if i < calls.len() {
                assert(calls[i] == at);
            } else {
                assert(more_calls[i - calls.len()] == at);
            }
        }
    }
}

proof fn lemma_dispatch_sites(
    files: Map<FileId, SourceFileModel>,
    file_id: FileId,
    tokens: Seq<TokenStaticDataModel>,
    count: int,
) -> (calls: Seq<(int, int)>)
    requires
        0 <= count <= tokens.len(),
        dispatch_sites(files, file_id, tokens, count) is Ok,
    ensures
        are_dispatches(
            files,
            tokens,
            dispatch_sites(files, file_id, tokens, count)->Ok_0,
            calls,
        ),
        forall|at: (int, int)| #[trigger]
            calls.contains(at) <==> at.0 < count && is_dynamic_call(tokens, file_id, at),
    decreases count,
{
    if count <= 0 {
        Seq::empty()
    } else {
        let before = lemma_dispatch_sites(files, file_id, tokens, count - 1);
        let token = tokens[count - 1];
        let sites = dispatch_sites(files, file_id, tokens, count - 1)->Ok_0;
        if token.trait_member {
            let n = token.references.len() as int;
            let calls = lemma_token_dispatches(files, file_id, tokens, count - 1, n);
            let more = token_dispatches(files, file_id, token.references, n)->Ok_0;
            lemma_dispatches_joined(files, tokens, sites, before, more, calls);
            assert forall|at: (int, int)| #[trigger]
                (before + calls).contains(at) <==> at.0 < count && is_dynamic_call(
                tokens,
                file_id,
                at,
            ) by {
                assert(before.contains(at) <==> at.0 < count - 1 && is_dynamic_call(
                    tokens,
                    file_id,
                    at,
                ));
                assert(calls.contains(at) <==> at.0 == count - 1 && at.1 < n && is_dynamic_call(
                    tokens,
                    file_id,
                    at,
                ));
            }
            before + calls
        } else {
            before
        }
    }
}

/// Whether no reference of a role in a file, other than a declaration, lies inside a range.
pub open spec fn is_untouched(
    tokens: Seq<TokenStaticDataModel>,
    file_id: FileId,
    role: StaticReferenceRole,
    range: TextRange,
) -> bool {
    forall|t: int, r: int|
        0 <= t < tokens.len() && 0 <= r < tokens[t].references.len() && !(
        #[trigger] tokens[t].references[r]).is_definition && tokens[t].references[r].range.file_id
            == file_id && tokens[t].references[r].role == role ==> tokens[t].references[r].range.range.start
            < range.start || range.end < tokens[t].references[r].range.range.end
}

proof fn lemma_family_names()
    ensures
        forall|role: StaticReferenceRole| #[trigger]
            reference_kind_name(role) == "calls"@ <==> role == StaticReferenceRole::Call,
        forall|role: StaticReferenceRole| #[trigger]
            reference_kind_name(role) == "instantiates"@ <==> role
                == StaticReferenceRole::Instantiate,
        forall|role: StaticReferenceRole| #[trigger]
            reference_kind_name(role) == "type_ref"@ <==> role == StaticReferenceRole::Type,
        forall|role: StaticReferenceRole| #[trigger]
            reference_kind_name(role) == "imports"@ <==> role == StaticReferenceRole::Import,
        "calls"@ != "dispatches"@,
        "instantiates"@ != "dispatches"@,
        "type_ref"@ != "dispatches"@,
        "imports"@ != "dispatches"@,
{
    reveal_strlit("accesses");
    reveal_strlit("calls");
    reveal_strlit("decorates");
    reveal_strlit("dispatches");
    reveal_strlit("exports");
    reveal_strlit("imports");
    reveal_strlit("instantiates");
    reveal_strlit("references");
    reveal_strlit("type_ref");
    assert("calls"@[0] == 'c' && "accesses"@[0] == 'a' && "decorates"@[0] == 'd' && "exports"@[0]
        == 'e' && "imports"@[0] == 'i' && "imports"@[1] == 'm' && "instantiates"@[1] == 'n'
        && "instantiates"@[0] == 'i' && "references"@[0] == 'r' && "type_ref"@[0] == 't'
        && "dispatches"@[0] == 'd');
}

proof fn lemma_untouched(
    tokens: Seq<TokenStaticDataModel>,
    file_id: FileId,
    role: StaticReferenceRole,
    family: Seq<char>,
    range: TextRange,
)
    requires
        forall|other: StaticReferenceRole| #[trigger]
            reference_kind_name(other) == family <==> other == role,
    ensures
        is_resolved(tokens, file_id, family, range) <==> !is_untouched(
            tokens,
            file_id,
            role,
            range,
        ),
{
    if is_resolved(tokens, file_id, family, range) {
        let (t, r) = choose|t: int, r: int|
            0 <= t < tokens.len() && 0 <= r < tokens[t].references.len() && resolves(
                #[trigger] tokens[t].references[r],
                file_id,
                family,
                range,
            );
        assert(!tokens[t].references[r].is_definition);
        assert(reference_kind_name(tokens[t].references[r].role) == family);
    }
    if !is_untouched(tokens, file_id, role, range) {
        let (t, r) = choose|t: int, r: int|
            0 <= t < tokens.len() && 0 <= r < tokens[t].references.len() && !(
            #[trigger] tokens[t].references[r]).is_definition
                && tokens[t].references[r].range.file_id == file_id && tokens[t].references[r].role
                == role && !(tokens[t].references[r].range.range.start < range.start || range.end
                < tokens[t].references[r].range.range.end);
        assert(reference_kind_name(tokens[t].references[r].role) == family);
        assert(resolves(tokens[t].references[r], file_id, family, range));
    }
}

/// Whether a construct should give rise to an edge of a role, under a family, and for what reason it
/// may not.
pub open spec fn is_expected(
    analysis: FileAnalysisModel,
    range: TextRange,
    role: StaticReferenceRole,
    family: Seq<char>,
    reason: Seq<char>,
) -> bool {
    ||| (analysis.calls.contains(range) || analysis.method_calls.contains(range)) && role
        == StaticReferenceRole::Call && family == "calls"@ && reason == "analysis-error"@
    ||| analysis.macro_calls.contains(range) && role == StaticReferenceRole::Call && family
        == "calls"@ && reason == "macro-or-generated"@
    ||| analysis.record_literals.contains(range) && role == StaticReferenceRole::Instantiate
        && family == "instantiates"@ && reason == "analysis-error"@
    ||| analysis.type_paths.contains(range) && role == StaticReferenceRole::Type && family
        == "type_ref"@ && reason == "analysis-error"@
    ||| analysis.use_paths.contains(range) && role == StaticReferenceRole::Import && family
        == "imports"@ && reason == "analysis-error"@
}

/// The role of the references that resolve a construct of a kind.
spec fn site_role(kind: SiteKind) -> StaticReferenceRole {
    match kind {
        SiteKind::RecordLiteral => StaticReferenceRole::Instantiate,
        SiteKind::TypePath => StaticReferenceRole::Type,
        SiteKind::UsePath => StaticReferenceRole::Import,
        _ => StaticReferenceRole::Call,
    }
}

/// Whether a file has a construct of a kind.
spec fn has_site(analysis: FileAnalysisModel, kind: SiteKind, range: TextRange) -> bool {
    match kind {
        SiteKind::Call => analysis.calls.contains(range),
        SiteKind::MethodCall => analysis.method_calls.contains(range),
        SiteKind::MacroCall => analysis.macro_calls.contains(range),
        SiteKind::RecordLiteral => analysis.record_literals.contains(range),
        SiteKind::TypePath => analysis.type_paths.contains(range),
        SiteKind::UsePath => analysis.use_paths.contains(range),
    }
}

proof fn lemma_sites_of(analysis: FileAnalysisModel, kind: SiteKind, range: TextRange)
    ensures
        sites_of(analysis).contains((kind, range)) <==> has_site(analysis, kind, range),
{
    let all = sites_of(analysis);
    let a = analysis.calls.len() as int;
    let b = a + analysis.method_calls.len();
    let c = b + analysis.macro_calls.len();
    let d = c + analysis.record_literals.len();
    let e = d + analysis.type_paths.len();
    if all.contains((kind, range)) {
        let i = choose|i: int| 0 <= i < all.len() && all[i] == (kind, range);
        if i < a {
            assert(analysis.calls[i] == range);
        } else if i < b {
            assert(analysis.method_calls[i - a] == range);
        } else if i < c {
            assert(analysis.macro_calls[i - b] == range);
        } else if i < d {
            assert(analysis.record_literals[i - c] == range);
        } else if i < e {
            assert(analysis.type_paths[i - d] == range);
        } else {
            assert(analysis.use_paths[i - e] == range);
        }
    }
    if has_site(analysis, kind, range) {
        match kind {
            SiteKind::Call => {
                let i = choose|i: int| 0 <= i < a && analysis.calls[i] == range;
                assert(all[i] == (kind, range));
            },
            SiteKind::MethodCall => {
                let i = choose|i: int| 0 <= i < b - a && analysis.method_calls[i] == range;
                assert(all[a + i] == (kind, range));
            },
            SiteKind::MacroCall => {
                let i = choose|i: int| 0 <= i < c - b && analysis.macro_calls[i] == range;
                assert(all[b + i] == (kind, range));
            },
            SiteKind::RecordLiteral => {
                let i = choose|i: int| 0 <= i < d - c && analysis.record_literals[i] == range;
                assert(all[c + i] == (kind, range));
            },
            SiteKind::TypePath => {
                let i = choose|i: int| 0 <= i < e - d && analysis.type_paths[i] == range;
                assert(all[d + i] == (kind, range));
            },
            SiteKind::UsePath => {
                let i = choose|i: int|
                    0 <= i < analysis.use_paths.len() && analysis.use_paths[i] == range;
                assert(all[e + i] == (kind, range));
            },
        }
    }
}

proof fn lemma_site_kinds(analysis: FileAnalysisModel, kind: SiteKind, range: TextRange)
    ensures
        has_site(analysis, kind, range) ==> is_expected(
            analysis,
            range,
            site_role(kind),
            site_family(kind),
            site_reason(kind),
        ),
        forall|role: StaticReferenceRole| #[trigger]
            reference_kind_name(role) == site_family(kind) <==> role == site_role(kind),
        site_family(kind) != "dispatches"@,
{
    lemma_family_names();
}

proof fn lemma_expected_kind(
    analysis: FileAnalysisModel,
    range: TextRange,
    role: StaticReferenceRole,
    family: Seq<char>,
    reason: Seq<char>,
) -> (kind: SiteKind)
    requires
        is_expected(analysis, range, role, family, reason),
    ensures
        has_site(analysis, kind, range),
        site_role(kind) == role,
        site_family(kind) == family,
        site_reason(kind) == reason,
{
    if analysis.calls.contains(range) && role == StaticReferenceRole::Call && family == "calls"@
        && reason == "analysis-error"@ {
        SiteKind::Call
    } else if analysis.method_calls.contains(range) && role == StaticReferenceRole::Call && family
        == "calls"@ && reason == "analysis-error"@ {
        SiteKind::MethodCall
    } else if analysis.macro_calls.contains(range) && role == StaticReferenceRole::Call && family
        == "calls"@ && reason == "macro-or-generated"@ {
        SiteKind::MacroCall
    } else if analysis.record_literals.contains(range) && role == StaticReferenceRole::Instantiate {
        SiteKind::RecordLiteral
    } else if analysis.type_paths.contains(range) && role == StaticReferenceRole::Type {
        SiteKind::TypePath
    } else {
        SiteKind::UsePath
    }
}

/// Whether a site is that of a construct, among the first ones, that no reference resolves.
spec fn is_open(
    files: Map<FileId, SourceFileModel>,
    file_id: FileId,
    tokens: Seq<TokenStaticDataModel>,
    sites: Seq<(SiteKind, TextRange)>,
    count: int,
    site: GraphSnapshotUnresolvedModel,
) -> bool {
    exists|k: int|
        0 <= k < count && !is_resolved(
            tokens,
            file_id,
            site_family((#[trigger] sites[k]).0),
            sites[k].1,
        ) && is_site(
            files,
            site,
            (FileRange { file_id, range: sites[k].1 }),
            site_family(sites[k].0),
            site_reason(sites[k].0),
        )
}

/// Whether some site is that of a construct.
spec fn is_met(
    files: Map<FileId, SourceFileModel>,
    file_id: FileId,
    found: Seq<GraphSnapshotUnresolvedModel>,
    construct: (SiteKind, TextRange),
) -> bool {
    exists|i: int|
        0 <= i < found.len() && is_site(
            files,
            #[trigger] found[i],
            (FileRange { file_id, range: construct.1 }),
            site_family(construct.0),
            site_reason(construct.0),
        )
}

proof fn lemma_open_sites(
    files: Map<FileId, SourceFileModel>,
    file_id: FileId,
    tokens: Seq<TokenStaticDataModel>,
    sites: Seq<(SiteKind, TextRange)>,
    count: int,
)
    requires
        0 <= count <= sites.len(),
        open_sites(files, file_id, tokens, sites, count) is Ok,
    ensures
        ({
            let found = open_sites(files, file_id, tokens, sites, count)->Ok_0;
            &&& forall|i: int|
                0 <= i < found.len() ==> is_open(
                    files,
                    file_id,
                    tokens,
                    sites,
                    count,
                    #[trigger] found[i],
                )
            &&& forall|k: int|
                0 <= k < count && !is_resolved(
                    tokens,
                    file_id,
                    site_family((#[trigger] sites[k]).0),
                    sites[k].1,
                ) ==> is_met(files, file_id, found, sites[k])
        }),
    decreases count,
{
    if count > 0 {
        lemma_open_sites(files, file_id, tokens, sites, count - 1);
        let before = open_sites(files, file_id, tokens, sites, count - 1)->Ok_0;
        let found = open_sites(files, file_id, tokens, sites, count)->Ok_0;
        let (kind, range) = sites[count - 1];
        assert forall|i: int| 0 <= i < found.len() implies is_open(
            files,
            file_id,
            tokens,
            sites,
            count,
            #[trigger] found[i],
        ) by {
            if i < before.len() {
                assert(found[i] == before[i]);
                assert(is_open(files, file_id, tokens, sites, count - 1, before[i]));
                let k = choose|k: int|
                    0 <= k < count - 1 && !is_resolved(
                        tokens,
                        file_id,
                        site_family((#[trigger] sites[k]).0),
                        sites[k].1,
                    ) && is_site(
                        files,
                        before[i],
                        (FileRange { file_id, range: sites[k].1 }),
                        site_family(sites[k].0),
                        site_reason(sites[k].0),
                    );
                assert(0 <= k < count);
            } else {
                assert(sites[count - 1].0 == kind);
            }
        }
        assert forall|k: int|
            0 <= k < count && !is_resolved(
                tokens,
                file_id,
                site_family((#[trigger] sites[k]).0),
                sites[k].1,
            ) implies is_met(files, file_id, found, sites[k]) by {
            if k < count - 1 {
                assert(is_met(files, file_id, before, sites[k]));
                let i = choose|i: int|
                    0 <= i < before.len() && is_site(
                        files,
                        #[trigger] before[i],
                        (FileRange { file_id, range: sites[k].1 }),
                        site_family(sites[k].0),
                        site_reason(sites[k].0),
                    );
                assert(found[i] == before[i]);
            } else {
                assert(is_site(
                    files,
                    found[before.len() as int],
                    (FileRange { file_id, range }),
                    site_family(kind),
                    site_reason(kind),
                ));
            }
        }
    }
}

/// The sites that are listed for a file under the family of dispatches stand one to one for the calls
/// in that file of items of traits. They come first, in their order, and no other site is of that
/// family.
pub proof fn law_dispatches_are_the_dynamic_calls(
    files: Map<FileId, SourceFileModel>,
    file_id: FileId,
    analysis: FileAnalysisModel,
    tokens: Seq<TokenStaticDataModel>,
) -> (calls: Seq<(int, int)>)
    requires
        unresolved_of(files, file_id, analysis, tokens) is Ok,
    ensures
        ({
            let sites = unresolved_of(files, file_id, analysis, tokens)->Ok_0;
            &&& calls.len() <= sites.len()
            &&& are_dispatches(files, tokens, sites.take(calls.len() as int), calls)
            &&& forall|at: (int, int)| #[trigger]
                calls.contains(at) <==> is_dynamic_call(tokens, file_id, at)
            &&& forall|i: int|
                calls.len() <= i < sites.len() ==> (#[trigger] sites[i]).family != "dispatches"@
        }),
{
    let calls = lemma_dispatch_sites(files, file_id, tokens, tokens.len() as int);
    let dispatched = dispatch_sites(files, file_id, tokens, tokens.len() as int)->Ok_0;
    let sites = unresolved_of(files, file_id, analysis, tokens)->Ok_0;
    let all = sites_of(analysis);
    let found = open_sites(files, file_id, tokens, all, all.len() as int)->Ok_0;
    lemma_open_sites(files, file_id, tokens, all, all.len() as int);
    assert(sites.take(calls.len() as int) =~= dispatched);
    assert forall|i: int| calls.len() <= i < sites.len() implies (#[trigger] sites[i]).family
        != "dispatches"@ by {
        let n = i - calls.len();
        assert(sites[i] == found[n]);
        assert(is_open(files, file_id, tokens, all, all.len() as int, found[n]));
        let k = choose|k: int|
            0 <= k < all.len() && !is_resolved(
                tokens,
                file_id,
                site_family((#[trigger] all[k]).0),
                all[k].1,
            ) && is_site(
                files,
                found[n],
                (FileRange { file_id, range: all[k].1 }),
                site_family(all[k].0),
                site_reason(all[k].0),
            );
        lemma_site_kinds(analysis, all[k].0, all[k].1);
    }
    calls
}

/// Every site that is listed for a file lies in that file: it stands for a call there of an item of a
/// trait, or for a construct there inside which no reference of the role that it should have lies.
pub proof fn law_sites_lie_in_their_file(
    files: Map<FileId, SourceFileModel>,
    file_id: FileId,
    analysis: FileAnalysisModel,
    tokens: Seq<TokenStaticDataModel>,
    i: int,
)
    requires
        unresolved_of(files, file_id, analysis, tokens) is Ok,
        0 <= i < unresolved_of(files, file_id, analysis, tokens)->Ok_0.len(),
    ensures
        ({
            let site = unresolved_of(files, file_id, analysis, tokens)->Ok_0[i];
            &&& site.evidence.file == source_of(files, file_id)
            &&& site.candidates.len() == 0
            &&& {
                ||| exists|t: int, r: int|
                    is_dynamic_call(tokens, file_id, (t, r)) && is_site(
                        files,
                        site,
                        (#[trigger] tokens[t].references[r]).range,
                        "dispatches"@,
                        "dynamic"@,
                    )
                ||| exists|range: TextRange, role: StaticReferenceRole|
                    is_expected(analysis, range, role, site.family, site.reason)
                        && #[trigger] is_untouched(tokens, file_id, role, range) && is_site(
                        files,
                        site,
                        (FileRange { file_id, range }),
                        site.family,
                        site.reason,
                    )
            }
        }),
{
    let calls = lemma_dispatch_sites(files, file_id, tokens, tokens.len() as int);
    let dispatched = dispatch_sites(files, file_id, tokens, tokens.len() as int)->Ok_0;
    let sites = unresolved_of(files, file_id, analysis, tokens)->Ok_0;
    let all = sites_of(analysis);
    let found = open_sites(files, file_id, tokens, all, all.len() as int)->Ok_0;
    lemma_open_sites(files, file_id, tokens, all, all.len() as int);
    if i < dispatched.len() {
        assert(sites[i] == dispatched[i]);
        assert(calls.contains(calls[i]));
        let (t, r) = calls[i];
        assert(is_dynamic_call(tokens, file_id, (t, r)));
        assert(is_site(
            files,
            sites[i],
            tokens[t].references[r].range,
            "dispatches"@,
            "dynamic"@,
        ));
    } else {
        let n = i - dispatched.len();
        assert(sites[i] == found[n]);
        assert(is_open(files, file_id, tokens, all, all.len() as int, found[n]));
        let k = choose|k: int|
            0 <= k < all.len() && !is_resolved(
                tokens,
                file_id,
                site_family((#[trigger] all[k]).0),
                all[k].1,
            ) && is_site(
                files,
                found[n],
                (FileRange { file_id, range: all[k].1 }),
                site_family(all[k].0),
                site_reason(all[k].0),
            );
        let (kind, range) = all[k];
        assert(all.contains((kind, range)));
        lemma_sites_of(analysis, kind, range);
        lemma_site_kinds(analysis, kind, range);
        lemma_untouched(tokens, file_id, site_role(kind), site_family(kind), range);
        assert(is_untouched(tokens, file_id, site_role(kind), range));
        assert(is_expected(analysis, range, site_role(kind), sites[i].family, sites[i].reason));
    }
}

proof fn lemma_construct_met(
    files: Map<FileId, SourceFileModel>,
    file_id: FileId,
    tokens: Seq<TokenStaticDataModel>,
    all: Seq<(SiteKind, TextRange)>,
    kind: SiteKind,
    range: TextRange,
) -> (i: int)
    requires
        open_sites(files, file_id, tokens, all, all.len() as int) is Ok,
        all.contains((kind, range)),
        !is_resolved(tokens, file_id, site_family(kind), range),
    ensures
        0 <= i < open_sites(files, file_id, tokens, all, all.len() as int)->Ok_0.len(),
        is_site(
            files,
            open_sites(files, file_id, tokens, all, all.len() as int)->Ok_0[i],
            (FileRange { file_id, range }),
            site_family(kind),
            site_reason(kind),
        ),
{
    let found = open_sites(files, file_id, tokens, all, all.len() as int)->Ok_0;
    lemma_open_sites(files, file_id, tokens, all, all.len() as int);
    let k = choose|k: int| 0 <= k < all.len() && all[k] == (kind, range);
    assert(is_met(files, file_id, found, all[k]));
    choose|i: int|
        0 <= i < found.len() && is_site(
            files,
            #[trigger] found[i],
            (FileRange { file_id, range }),
            site_family(kind),
            site_reason(kind),
        )
}

/// Every construct of a file inside which no reference of the role that it should have lies is listed.
pub proof fn law_untouched_constructs_are_listed(
    files: Map<FileId, SourceFileModel>,
    file_id: FileId,
    analysis: FileAnalysisModel,
    tokens: Seq<TokenStaticDataModel>,
    range: TextRange,
    role: StaticReferenceRole,
    family: Seq<char>,
    reason: Seq<char>,
)
    requires
        unresolved_of(files, file_id, analysis, tokens) is Ok,
        is_expected(analysis, range, role, family, reason),
        is_untouched(tokens, file_id, role, range),
    ensures
        exists|i: int|
            0 <= i < unresolved_of(files, file_id, analysis, tokens)->Ok_0.len() && is_site(
                files,
                #[trigger] unresolved_of(files, file_id, analysis, tokens)->Ok_0[i],
                (FileRange { file_id, range }),
                family,
                reason,
            ),
{
    let dispatched = dispatch_sites(files, file_id, tokens, tokens.len() as int)->Ok_0;
    let sites = unresolved_of(files, file_id, analysis, tokens)->Ok_0;
    let all = sites_of(analysis);
    let found = open_sites(files, file_id, tokens, all, all.len() as int)->Ok_0;
    let kind = lemma_expected_kind(analysis, range, role, family, reason);
    assert(all.contains((kind, range))) by {
        lemma_sites_of(analysis, kind, range);
    }
    assert(!is_resolved(tokens, file_id, family, range)) by {
        lemma_site_kinds(analysis, kind, range);
        lemma_untouched(tokens, file_id, role, family, range);
    }
    let i = lemma_construct_met(files, file_id, tokens, all, kind, range);
    assert(sites == dispatched + found);
    assert(sites[dispatched.len() + i] == found[i]);
}

} // verus!
