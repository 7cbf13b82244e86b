//! What each shard says of itself: the edges that it covers, and what it was made from.

use vstd::prelude::*;

use crate::detailing::{is_partial_family, lemma_families};
use crate::files::{FileId, SourceFileModel, source_of};
use crate::grounding::{
    has_cause, is_alias_edge, is_containment_edge, is_relation_edge, is_use_edge,
    law_edges_have_causes,
};
use crate::housing::law_one_shard_for_each_source;
use crate::nodes::digests_of;
use crate::shards::built;
use crate::static_index::{StaticIndexModel, StaticIndexedFileModel};
use crate::unresolved::coverage_model;

verus! {

/// Every shard says of each family of edges how far it is covered: in part of those that there are
/// edges of, and not at all of what is rendered.
pub proof fn law_coverage_names_every_family(
    files: Map<FileId, SourceFileModel>,
    index: StaticIndexModel,
    target: Seq<char>,
    interface_fingerprints: Map<Seq<char>, Seq<char>>,
    source_inputs: Map<FileId, Seq<char>>,
    owners: Map<Seq<char>, Seq<char>>,
    s: int,
)
    ensures
        built(
            files,
            index,
            target,
            interface_fingerprints,
            source_inputs,
            owners,
        ) matches Ok(result) ==> 0 <= s < result.shards.len() ==> {
            let coverage = result.shards[s].coverage;
            &&& forall|i: int|
                0 <= i < coverage.len() ==> if is_partial_family(
                    (#[trigger] coverage[i]).family,
                ) {
                    coverage[i].state == "partial"@
                } else {
                    coverage[i].family == "renders"@ && coverage[i].state == "unsupported"@
                }
            &&& forall|family: Seq<char>| #[trigger]
                is_partial_family(family) ==> exists|i: int|
                    0 <= i < coverage.len() && (#[trigger] coverage[i]).family == family
            &&& exists|i: int|
                0 <= i < coverage.len() && (#[trigger] coverage[i]).family == "renders"@
        },
{
    let outcome = built(files, index, target, interface_fingerprints, source_inputs, owners);
    if outcome is Ok && 0 <= s < outcome->Ok_0.shards.len() {
        let coverage = outcome->Ok_0.shards[s].coverage;
        law_one_shard_for_each_source(
            files,
            index,
            target,
            interface_fingerprints,
            source_inputs,
            owners,
        );
        assert(coverage == coverage_model());
        lemma_families();
        assert(coverage[12].family == "renders"@);
        assert forall|i: int| 0 <= i < coverage.len() implies if is_partial_family(
            (#[trigger] coverage[i]).family,
        ) {
            coverage[i].state == "partial"@
        } else {
            coverage[i].family == "renders"@ && coverage[i].state == "unsupported"@
        } by {
            assert(i == 12 || coverage[i].state == "partial"@);
        }
    }
}

/// The kind of every edge of a shard is a family that the shard says it covers.
pub proof fn law_edges_are_covered(
    files: Map<FileId, SourceFileModel>,
    index: StaticIndexModel,
    target: Seq<char>,
    interface_fingerprints: Map<Seq<char>, Seq<char>>,
    source_inputs: Map<FileId, Seq<char>>,
    owners: Map<Seq<char>, Seq<char>>,
    s: int,
    e: int,
)
    requires
        index.tokens.len() <= usize::MAX,
    ensures
        built(
            files,
            index,
            target,
            interface_fingerprints,
            source_inputs,
            owners,
        ) matches Ok(result) ==> 0 <= s < result.shards.len() && 0 <= e
            < result.shards[s].edges.len() ==> exists|i: int|
            0 <= i < result.shards[s].coverage.len() && (
            #[trigger] result.shards[s].coverage[i]).family == result.shards[s].edges[e].kind
                && result.shards[s].coverage[i].state == "partial"@,
{
    let outcome = built(files, index, target, interface_fingerprints, source_inputs, owners);
    if outcome is Ok && 0 <= s < outcome->Ok_0.shards.len() && 0 <= e
        < outcome->Ok_0.shards[s].edges.len() {
        let shard = outcome->Ok_0.shards[s];
        let edge = shard.edges[e];
        law_edges_have_causes(
            files,
            index,
            target,
            interface_fingerprints,
            source_inputs,
            owners,
        );
        law_coverage_names_every_family(
            files,
            index,
            target,
            interface_fingerprints,
            source_inputs,
            owners,
            s,
        );
        if edge.kind != "tests"@ {
            assert(has_cause(files, index, shard.source, edge));
            if exists|t: int, r: int| #[trigger]
                is_use_edge(files, index, shard.source, t, r, edge) {
                let (t, r) = choose|t: int, r: int| #[trigger]
                    is_use_edge(files, index, shard.source, t, r, edge);
                assert(is_partial_family(edge.kind));
            } else if exists|t: int, r: int| #[trigger]
                is_alias_edge(files, index, shard.source, t, r, edge) {
                let (t, r) = choose|t: int, r: int| #[trigger]
                    is_alias_edge(files, index, shard.source, t, r, edge);
                assert(is_partial_family(edge.kind));
            } else if exists|d: int| #[trigger] is_containment_edge(files, index, d, edge) {
                let d = choose|d: int| #[trigger] is_containment_edge(files, index, d, edge);
                assert(is_partial_family(edge.kind));
            } else {
                let k = choose|k: int|
                    0 <= k < index.relations.len() && is_relation_edge(
                        files,
                        index,
                        shard.source,
                        #[trigger] index.relations[k],
                        edge,
                    );
                assert(is_partial_family(edge.kind));
            }
        }
        assert(is_partial_family(edge.kind));
        let i = choose|i: int|
            0 <= i < shard.coverage.len() && (#[trigger] shard.coverage[i]).family == edge.kind;
        assert(shard.coverage[i].state == "partial"@);
    }
}

/// Whether a file is the last of an index under its path.
pub open spec fn is_last_indexed(
    files: Map<FileId, SourceFileModel>,
    indexed: Seq<StaticIndexedFileModel>,
    i: int,
) -> bool {
    &&& 0 <= i < indexed.len()
    &&& forall|j: int|
        i < j < indexed.len() ==> source_of(files, (#[trigger] indexed[j]).file_id) != source_of(
            files,
            indexed[i].file_id,
        )
}

proof fn lemma_digest_of_last(
    files: Map<FileId, SourceFileModel>,
    indexed: Seq<StaticIndexedFileModel>,
    inputs: Map<FileId, Seq<char>>,
    i: int,
    count: int,
)
    requires
        0 <= i < count <= indexed.len(),
        is_last_indexed(files, indexed, i),
    ensures
        digests_of(files, indexed, inputs, count)[source_of(files, indexed[i].file_id)]
            == inputs[indexed[i].file_id],
    decreases count,
{
    if i < count - 1 {
        lemma_digest_of_last(files, indexed, inputs, i, count - 1);
        assert(source_of(files, indexed[count - 1].file_id) != source_of(
            files,
            indexed[i].file_id,
        ));
    }
}

/// A shard carries the digest that its file was validated with, and the interface of its source file.
/// Shards are built only where every indexed file was validated.
pub proof fn law_shards_carry_what_was_validated(
    files: Map<FileId, SourceFileModel>,
    index: StaticIndexModel,
    target: Seq<char>,
    interface_fingerprints: Map<Seq<char>, Seq<char>>,
    source_inputs: Map<FileId, Seq<char>>,
    owners: Map<Seq<char>, Seq<char>>,
    s: int,
    i: int,
)
    ensures
        built(
            files,
            index,
            target,
            interface_fingerprints,
            source_inputs,
            owners,
        ) matches Ok(result) ==> {
            &&& 0 <= i < index.files.len() ==> source_inputs.contains_key(index.files[i].file_id)
            &&& 0 <= s < result.shards.len() && is_last_indexed(files, index.files, i)
                && source_of(files, index.files[i].file_id) == result.shards[s].source ==> {
                &&& result.shards[s].checker_digest == source_inputs[index.files[i].file_id]
                &&& result.shards[s].interface_fingerprint
                    == interface_fingerprints[result.shards[s].source]
            }
        },
{
    let outcome = built(files, index, target, interface_fingerprints, source_inputs, owners);
    if outcome is Ok {
        law_one_shard_for_each_source(
            files,
            index,
            target,
            interface_fingerprints,
            source_inputs,
            owners,
        );
        if 0 <= s < outcome->Ok_0.shards.len() && is_last_indexed(files, index.files, i) {
            let shard = outcome->Ok_0.shards[s];
            lemma_digest_of_last(
                files,
                index.files,
                source_inputs,
                i,
                index.files.len() as int,
            );
            assert(shard.checker_digest == digests_of(
                files,
                index.files,
                source_inputs,
                index.files.len() as int,
            )[shard.source]);
        }
    }
}

} // verus!
