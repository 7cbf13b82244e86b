//! The nodes and edges of a snapshot while they are being collected.

use vstd::prelude::*;

use crate::plain::Plain;
use crate::snapshot::{
    GraphSnapshotDiagnostic, GraphSnapshotDiagnosticModel, GraphSnapshotEdge, GraphSnapshotEdgeModel,
    GraphSnapshotNode, GraphSnapshotNodeModel, GraphSnapshotUnresolved, GraphSnapshotUnresolvedModel,
};
use crate::table::Table;

verus! {

/// What was collected for one source file.
#[derive(Debug, Clone, PartialEq, Eq)]
pub struct MutableShard {
    pub source: String,
    pub nodes: Vec<GraphSnapshotNode>,
    pub edges: Vec<GraphSnapshotEdge>,
    pub diagnostics: Vec<GraphSnapshotDiagnostic>,
    pub unresolved: Vec<GraphSnapshotUnresolved>,
}

/// The content of a [`MutableShard`].
pub struct MutableShardModel {
    pub source: Seq<char>,
    pub nodes: Seq<GraphSnapshotNodeModel>,
    pub edges: Seq<GraphSnapshotEdgeModel>,
    pub diagnostics: Seq<GraphSnapshotDiagnosticModel>,
    pub unresolved: Seq<GraphSnapshotUnresolvedModel>,
}

impl DeepView for MutableShard {
    type V = MutableShardModel;

    open spec fn deep_view(&self) -> MutableShardModel {
        MutableShardModel {
            source: self.source.deep_view(),
            nodes: self.nodes.deep_view(),
            edges: self.edges.deep_view(),
            diagnostics: self.diagnostics.deep_view(),
            unresolved: self.unresolved.deep_view(),
        }
    }
}

impl Plain for MutableShard {
    fn duplicate(&self) -> (copy: Self) {
        MutableShard {
            source: self.source.duplicate(),
            nodes: self.nodes.duplicate(),
            edges: self.edges.duplicate(),
            diagnostics: self.diagnostics.duplicate(),
            unresolved: self.unresolved.duplicate(),
        }
    }

    fn same(&self, other: &Self) -> (equal: bool) {
        self.source.same(&other.source)
            && self.nodes.same(&other.nodes)
            && self.edges.same(&other.edges)
            && self.diagnostics.same(&other.diagnostics)
            && self.unresolved.same(&other.unresolved)
    }
}

/// A source file for which nothing was collected yet.
pub open spec fn empty_shard(source: Seq<char>) -> MutableShardModel {
    MutableShardModel {
        source,
        nodes: Seq::empty(),
        edges: Seq::empty(),
        diagnostics: Seq::empty(),
        unresolved: Seq::empty(),
    }
}

impl MutableShard {
    /// A source file for which nothing was collected yet.
    pub fn empty(source: String) -> (shard: Self)
        ensures
            shard.deep_view() == empty_shard(source@),
    {
        let shard = MutableShard {
            source,
            nodes: Vec::new(),
            edges: Vec::new(),
            diagnostics: Vec::new(),
            unresolved: Vec::new(),
        };
        proof {
            assert(shard.deep_view().nodes =~= Seq::empty());
            assert(shard.deep_view().edges =~= Seq::empty());
            assert(shard.deep_view().diagnostics =~= Seq::empty());
            assert(shard.deep_view().unresolved =~= Seq::empty());
        }
        shard
    }
}

/// What is collected: the source file that owns each node, and the shard of each source file.
pub struct GraphModel {
    pub owners: Map<Seq<char>, Seq<char>>,
    pub shards: Map<Seq<char>, MutableShardModel>,
}

/// The ends and the kind of an edge, and the source file it was found in.
pub type EdgeKey = ((String, String), (String, String));

/// Collects nodes and edges.
#[derive(Debug)]
pub struct Graph {
    pub owners: Table<String, String>,
    pub shards: Table<String, MutableShard>,
    /// The edges that were collected.
    pub edge_keys: Table<EdgeKey, ()>,
}

impl DeepView for Graph {
    type V = GraphModel;

    open spec fn deep_view(&self) -> GraphModel {
        GraphModel { owners: self.owners.deep_view(), shards: self.shards.deep_view() }
    }
}

/// Whether there is an edge of a kind between two nodes.
pub open spec fn has_edge(
    edges: Seq<GraphSnapshotEdgeModel>,
    from: Seq<char>,
    to: Seq<char>,
    kind: Seq<char>,
) -> bool {
    exists|i: int|
        0 <= i < edges.len() && (#[trigger] edges[i]).from == from && edges[i].to == to
            && edges[i].kind == kind
}

/// Whether no two edges are of the same kind between the same nodes.
pub open spec fn is_simple(edges: Seq<GraphSnapshotEdgeModel>) -> bool {
    forall|i: int, j: int|
        0 <= i < j < edges.len() ==> !((#[trigger] edges[i]).from == (#[trigger] edges[j]).from
            && edges[i].to == edges[j].to && edges[i].kind == edges[j].kind)
}

/// Makes a source file the owner of a node.
pub open spec fn claimed(graph: GraphModel, id: Seq<char>, source: Seq<char>) -> GraphModel {
    GraphModel { owners: graph.owners.insert(id, source), ..graph }
}

/// Makes a source file the owner of a node that has none.
pub open spec fn claimed_if_free(graph: GraphModel, id: Seq<char>, source: Seq<char>) -> GraphModel {
    if graph.owners.contains_key(id) {
        graph
    } else {
        claimed(graph, id, source)
    }
}

/// Replaces the shard of a source file.
pub open spec fn with_shard(
    graph: GraphModel,
    source: Seq<char>,
    shard: MutableShardModel,
) -> GraphModel {
    GraphModel { shards: graph.shards.insert(source, shard), ..graph }
}

/// Adds a node to the shard of a source file, where it has one.
pub open spec fn with_node(
    graph: GraphModel,
    source: Seq<char>,
    node: GraphSnapshotNodeModel,
) -> GraphModel {
    if graph.shards.contains_key(source) {
        let shard = graph.shards[source];
        with_shard(graph, source, MutableShardModel { nodes: shard.nodes.push(node), ..shard })
    } else {
        graph
    }
}

/// Adds an edge to the shard of a source file, unless there is one of that kind between the same
/// nodes.
pub open spec fn with_edge(
    graph: GraphModel,
    source: Seq<char>,
    edge: GraphSnapshotEdgeModel,
) -> GraphModel {
    let shard = graph.shards[source];
    if has_edge(shard.edges, edge.from, edge.to, edge.kind) {
        graph
    } else {
        with_shard(graph, source, MutableShardModel { edges: shard.edges.push(edge), ..shard })
    }
}

/// Adds a diagnostic to the shard of a source file.
pub open spec fn with_diagnostic(
    graph: GraphModel,
    source: Seq<char>,
    diagnostic: GraphSnapshotDiagnosticModel,
) -> GraphModel {
    let shard = graph.shards[source];
    with_shard(
        graph,
        source,
        MutableShardModel { diagnostics: shard.diagnostics.push(diagnostic), ..shard },
    )
}

/// Adds unresolved sites to the shard of a source file.
pub open spec fn with_unresolved(
    graph: GraphModel,
    source: Seq<char>,
    sites: Seq<GraphSnapshotUnresolvedModel>,
) -> GraphModel {
    let shard = graph.shards[source];
    with_shard(
        graph,
        source,
        MutableShardModel { unresolved: shard.unresolved + sites, ..shard },
    )
}

impl Graph {
    /// Whether the edges that were collected are exactly those in the shards, and no shard has an
    /// edge twice.
    pub open spec fn well_formed(self) -> bool {
        &&& forall|source: Seq<char>| #[trigger]
            self.shards.deep_view().contains_key(source) ==> is_simple(
                self.shards.deep_view()[source].edges,
            )
        &&& forall|from: Seq<char>, to: Seq<char>, kind: Seq<char>, source: Seq<char>|
            #![trigger self.edge_keys.deep_view().contains_key(((from, to), (kind, source)))]
            self.edge_keys.deep_view().contains_key(((from, to), (kind, source))) <==> {
                &&& self.shards.deep_view().contains_key(source)
                &&& has_edge(self.shards.deep_view()[source].edges, from, to, kind)
            }
    }

    /// Starts with the owners of nodes that are collected elsewhere, and with empty shards.
    pub fn new(owners: Table<String, String>, shards: Table<String, MutableShard>) -> (graph: Self)
        requires
            forall|source: Seq<char>| #[trigger]
                shards.deep_view().contains_key(source) ==> shards.deep_view()[source]
                    == empty_shard(source),
        ensures
            graph.well_formed(),
            graph.deep_view() == (GraphModel {
                owners: owners.deep_view(),
                shards: shards.deep_view(),
            }),
    {
        Graph { owners, shards, edge_keys: Table::new() }
    }

    /// Makes a source file the owner of a node.
    pub fn claim(&mut self, id: String, source: String)
        requires
            old(self).well_formed(),
        ensures
            final(self).well_formed(),
            final(self).deep_view() == claimed(old(self).deep_view(), id@, source@),
    {
        self.owners.insert(id, source);
    }

    /// Makes a source file the owner of a node that has none.
    pub fn claim_if_free(&mut self, id: String, source: String)
        requires
            old(self).well_formed(),
        ensures
            final(self).well_formed(),
            final(self).deep_view() == claimed_if_free(old(self).deep_view(), id@, source@),
    {
        if !self.owners.contains(&id) {
            self.claim(id, source);
        }
    }

    /// Adds a node to the shard of a source file, where it has one.
    pub fn add_node(&mut self, source: &String, node: GraphSnapshotNode)
        requires
            old(self).well_formed(),
        ensures
            final(self).well_formed(),
            final(self).deep_view() == with_node(old(self).deep_view(), source@, node.deep_view()),
    {
        if self.shards.contains(source) {
            let ghost before = self.deep_view();
            let ghost added = node.deep_view();
            let mut shard = self.shards.exchange(source, MutableShard::empty(String::new()));
            shard.nodes.push(node);
            proof {
                assert(shard.deep_view().nodes =~= before.shards[source@].nodes.push(added));
            }
            let _ = self.shards.exchange(source, shard);
            proof {
                assert(self.deep_view().shards =~= with_node(before, source@, added).shards);
            }
        }
    }

    /// Adds an edge to the shard of a source file, unless there is one of that kind between the
    /// same nodes.
    pub fn add_edge(&mut self, source: &String, edge: GraphSnapshotEdge)
        requires
            old(self).well_formed(),
            old(self).deep_view().shards.contains_key(source@),
        ensures
            final(self).well_formed(),
            final(self).deep_view() == with_edge(old(self).deep_view(), source@, edge.deep_view()),
    {
        let ghost before = self.deep_view();
        let ghost added = edge.deep_view();
        let ghost keys = self.edge_keys.deep_view();
        let key = ((edge.from.clone(), edge.to.clone()), (edge.kind.clone(), source.clone()));
        let ghost k = key.deep_view();
        assert(k == ((added.from, added.to), (added.kind, source@)));
        if self.edge_keys.insert(key, ()).is_none() {
            let mut shard = self.shards.exchange(source, MutableShard::empty(String::new()));
            shard.edges.push(edge);
            let ghost edges = before.shards[source@].edges;
            proof {
                assert(shard.deep_view().edges =~= edges.push(added));
            }
            let _ = self.shards.exchange(source, shard);
            proof {
                assert(!keys.contains_key(k));
                assert(is_simple(edges));
                assert(is_simple(edges.push(added))) by {
                    let longer = edges.push(added);
                    assert forall|i: int, j: int| 0 <= i < j < longer.len() implies !((
                    #[trigger] longer[i]).from == (#[trigger] longer[j]).from && longer[i].to
                        == longer[j].to && longer[i].kind == longer[j].kind) by {
                        assert(longer[i] == edges[i]);
                        if j < edges.len() {
                            assert(longer[j] == edges[j]);
                        }
                    }
                }
                assert(self.deep_view().shards =~= with_edge(before, source@, added).shards);
                lemma_edge_added(edges, added);
            }
        } else {
            proof {
                assert(keys.contains_key(k));
                assert(keys.insert(k, ()) =~= keys);
            }
        }
    }

    /// Adds a diagnostic to the shard of a source file.
    pub fn add_diagnostic(&mut self, source: &String, diagnostic: GraphSnapshotDiagnostic)
        requires
            old(self).well_formed(),
            old(self).deep_view().shards.contains_key(source@),
        ensures
            final(self).well_formed(),
            final(self).deep_view() == with_diagnostic(
                old(self).deep_view(),
                source@,
                diagnostic.deep_view(),
            ),
    {
        let ghost before = self.deep_view();
        let ghost added = diagnostic.deep_view();
        let mut shard = self.shards.exchange(source, MutableShard::empty(String::new()));
        shard.diagnostics.push(diagnostic);
        proof {
            assert(shard.deep_view().diagnostics =~= before.shards[source@].diagnostics.push(added));
        }
        let _ = self.shards.exchange(source, shard);
        proof {
            assert(self.deep_view().shards =~= with_diagnostic(before, source@, added).shards);
        }
    }

    /// Adds unresolved sites to the shard of a source file.
    pub fn add_unresolved(&mut self, source: &String, sites: Vec<GraphSnapshotUnresolved>)
        requires
            old(self).well_formed(),
            old(self).deep_view().shards.contains_key(source@),
        ensures
            final(self).well_formed(),
            final(self).deep_view() == with_unresolved(
                old(self).deep_view(),
                source@,
                sites.deep_view(),
            ),
    {
        let ghost before = self.deep_view();
        let ghost added = sites.deep_view();
        let mut shard = self.shards.exchange(source, MutableShard::empty(String::new()));
        let mut sites = sites;
        shard.unresolved.append(&mut sites);
        proof {
            assert(shard.deep_view().unresolved =~= before.shards[source@].unresolved + added);
        }
        let _ = self.shards.exchange(source, shard);
        proof {
            assert(self.deep_view().shards =~= with_unresolved(before, source@, added).shards);
        }
    }
}

proof fn lemma_edge_added(edges: Seq<GraphSnapshotEdgeModel>, edge: GraphSnapshotEdgeModel)
    ensures
        forall|from: Seq<char>, to: Seq<char>, kind: Seq<char>| #[trigger]
            has_edge(edges.push(edge), from, to, kind) <==> has_edge(edges, from, to, kind) || (
            edge.from == from && edge.to == to && edge.kind == kind),
{
    let longer = edges.push(edge);
    assert forall|from: Seq<char>, to: Seq<char>, kind: Seq<char>| #[trigger]
        has_edge(longer, from, to, kind) <==> has_edge(edges, from, to, kind) || (edge.from == from
            && edge.to == to && edge.kind == kind) by {
        if has_edge(edges, from, to, kind) {
            let i = choose|i: int|
                0 <= i < edges.len() && (#[trigger] edges[i]).from == from && edges[i].to == to
                    && edges[i].kind == kind;
            assert(longer[i] == edges[i]);
        }
        if edge.from == from && edge.to == to && edge.kind == kind {
            assert(longer[edges.len() as int] == edge);
        }
        if has_edge(longer, from, to, kind) {
            let i = choose|i: int|
                0 <= i < longer.len() && (#[trigger] longer[i]).from == from && longer[i].to == to
                    && longer[i].kind == kind;
            if i < edges.len() {
                assert(edges[i] == longer[i]);
            }
        }
    }
}

} // verus!
