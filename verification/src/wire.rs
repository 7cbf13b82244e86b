//! The parts of a snapshot as JSON.

use vstd::prelude::*;

use crate::json::{Json, JsonModel, canonical, json_model};
use crate::plain::Plain;
use crate::reading::{law_canonical_is_unambiguous, lemma_fields_unambiguous};
use crate::snapshot::{
    GraphSnapshotCoverage, GraphSnapshotCoverageModel, GraphSnapshotDiagnostic,
    GraphSnapshotDiagnosticModel, GraphSnapshotEdge, GraphSnapshotEdgeModel, GraphSnapshotEvidence,
    GraphSnapshotEvidenceModel, GraphSnapshotManifestEntry, GraphSnapshotManifestEntryModel,
    GraphSnapshotNode, GraphSnapshotNodeModel, GraphSnapshotProducer, GraphSnapshotProducerModel,
    GraphSnapshotUnresolved, GraphSnapshotUnresolvedModel,
};

verus! {

/// A plain value that has a JSON form.
pub trait Encoded: Plain {
    /// The JSON form of a value.
    spec fn encoding(value: Self::V) -> JsonModel;

    /// Encodes the value.
    fn encode(&self) -> (json: Json)
        ensures
            json.deep_view() == Self::encoding(self.deep_view()),
    ;

    /// Different values have different canonical texts.
    proof fn lemma_distinct(left: Self::V, right: Self::V)
        ensures
            canonical(Self::encoding(left)) == canonical(Self::encoding(right)) ==> left == right,
    ;
}

/// A plain value whose JSON form is never null.
pub trait Solid: Encoded {
    /// The JSON form of a value is not null.
    proof fn lemma_solid(value: Self::V)
        ensures
            Self::encoding(value) !is Null,
    ;
}

impl Encoded for bool {
    open spec fn encoding(value: bool) -> JsonModel {
        JsonModel::Bool(value)
    }

    fn encode(&self) -> (json: Json) {
        Json::Bool(*self)
    }

    proof fn lemma_distinct(left: bool, right: bool) {
        if canonical(Self::encoding(left)) == canonical(Self::encoding(right)) {
            law_canonical_is_unambiguous(Self::encoding(left), Self::encoding(right));
        }
    }
}

impl Encoded for u32 {
    open spec fn encoding(value: u32) -> JsonModel {
        JsonModel::Number(value as u64)
    }

    fn encode(&self) -> (json: Json) {
        Json::Number(*self as u64)
    }

    proof fn lemma_distinct(left: u32, right: u32) {
        if canonical(Self::encoding(left)) == canonical(Self::encoding(right)) {
            law_canonical_is_unambiguous(Self::encoding(left), Self::encoding(right));
        }
    }
}

impl Solid for u32 {
    proof fn lemma_solid(value: u32) {
    }
}

impl Encoded for String {
    open spec fn encoding(value: Seq<char>) -> JsonModel {
        JsonModel::Text(value)
    }

    fn encode(&self) -> (json: Json) {
        Json::Text(self.clone())
    }

    proof fn lemma_distinct(left: Seq<char>, right: Seq<char>) {
        if canonical(Self::encoding(left)) == canonical(Self::encoding(right)) {
            law_canonical_is_unambiguous(Self::encoding(left), Self::encoding(right));
        }
    }
}

impl Solid for String {
    proof fn lemma_solid(value: Seq<char>) {
    }
}

impl<T: Solid> Encoded for Option<T> {
    open spec fn encoding(value: Option<T::V>) -> JsonModel {
        match value {
            Some(value) => T::encoding(value),
            None => JsonModel::Null,
        }
    }

    fn encode(&self) -> (json: Json) {
        match self {
            Some(value) => value.encode(),
            None => Json::Null,
        }
    }

    proof fn lemma_distinct(left: Option<T::V>, right: Option<T::V>) {
        if canonical(Self::encoding(left)) == canonical(Self::encoding(right)) {
            law_canonical_is_unambiguous(Self::encoding(left), Self::encoding(right));
            match (left, right) {
                (Some(left), Some(right)) => {
                    T::lemma_distinct(left, right);
                },
                (Some(value), None) => {
                    T::lemma_solid(value);
                },
                (None, Some(value)) => {
                    T::lemma_solid(value);
                },
                (None, None) => {},
            }
        }
    }
}

impl<T: Encoded> Encoded for Vec<T> {
    open spec fn encoding(value: Seq<T::V>) -> JsonModel {
        JsonModel::Array(Seq::new(value.len(), |i: int| T::encoding(value[i])))
    }

    fn encode(&self) -> (json: Json) {
        let mut items: Vec<Json> = Vec::new();
        let mut index: usize = 0;
        while index < self.len()
            invariant
                index <= self.len(),
                items.len() == index,
                forall|i: int|
                    0 <= i < index ==> json_model(#[trigger] items@[i]) == T::encoding(
                        self@[i].deep_view(),
                    ),
            decreases self.len() - index,
        {
            items.push(self[index].encode());
            index += 1;
        }
        let json = Json::Array(items);
        assert(json.deep_view()->Array_0 =~= Self::encoding(self.deep_view())->Array_0);
        json
    }

    proof fn lemma_distinct(left: Seq<T::V>, right: Seq<T::V>) {
        if canonical(Self::encoding(left)) == canonical(Self::encoding(right)) {
            let one = Self::encoding(left)->Array_0;
            let other = Self::encoding(right)->Array_0;
            law_canonical_is_unambiguous(Self::encoding(left), Self::encoding(right));
            assert forall|i: int| 0 <= i < left.len() implies left[i] == right[i] by {
                assert(canonical(one[i]) == canonical(other[i]));
                T::lemma_distinct(left[i], right[i]);
            }
            assert(left =~= right);
        }
    }
}

/// Makes a field of an object.
pub fn field(key: &str, value: Json) -> (field: (String, Json))
    ensures
        field.0@ == key@,
        field.1 == value,
{
    (key.to_owned(), value)
}

impl Encoded for GraphSnapshotEvidence {
    open spec fn encoding(value: GraphSnapshotEvidenceModel) -> JsonModel {
        JsonModel::Object(
            seq![
                ("file"@, String::encoding(value.file)),
                ("startLine"@, u32::encoding(value.start_line)),
                ("startColumn"@, u32::encoding(value.start_column)),
                ("endLine"@, u32::encoding(value.end_line)),
                ("endColumn"@, u32::encoding(value.end_column)),
            ],
        )
    }

    fn encode(&self) -> (json: Json) {
        let fields: Vec<(String, Json)> = vec![
            field("file", self.file.encode()),
            field("startLine", self.start_line.encode()),
            field("startColumn", self.start_column.encode()),
            field("endLine", self.end_line.encode()),
            field("endColumn", self.end_column.encode()),
        ];
        let json = Json::Object(fields);
        assert(json.deep_view()->Object_0 =~= Self::encoding(self.deep_view())->Object_0);
        json
    }

    proof fn lemma_distinct(left: GraphSnapshotEvidenceModel, right: GraphSnapshotEvidenceModel) {
        if canonical(Self::encoding(left)) == canonical(Self::encoding(right)) {
            reveal_strlit("file");
            reveal_strlit("startLine");
            reveal_strlit("startColumn");
            reveal_strlit("endLine");
            reveal_strlit("endColumn");
            assert("startLine"@[0] != "endColumn"@[0]);
            let one = Self::encoding(left)->Object_0;
            let other = Self::encoding(right)->Object_0;
            assert(one[0].0 == "file"@);
            assert(one[1].0 == "startLine"@);
            assert(one[2].0 == "startColumn"@);
            assert(one[3].0 == "endLine"@);
            assert(one[4].0 == "endColumn"@);
            assert forall|i: int, j: int| 0 <= i < j < one.len() implies (#[trigger] one[i]).0
                != (#[trigger] one[j]).0 by {
                assert(i == 0 || i == 1 || i == 2 || i == 3);
                assert(j == 1 || j == 2 || j == 3 || j == 4);
            }
            lemma_fields_unambiguous(one, other);
            assert(canonical(one[0].1) == canonical(other[0].1));
            String::lemma_distinct(left.file, right.file);
            assert(canonical(one[1].1) == canonical(other[1].1));
            u32::lemma_distinct(left.start_line, right.start_line);
            assert(canonical(one[2].1) == canonical(other[2].1));
            u32::lemma_distinct(left.start_column, right.start_column);
            assert(canonical(one[3].1) == canonical(other[3].1));
            u32::lemma_distinct(left.end_line, right.end_line);
            assert(canonical(one[4].1) == canonical(other[4].1));
            u32::lemma_distinct(left.end_column, right.end_column);
        }
    }
}

impl Solid for GraphSnapshotEvidence {
    proof fn lemma_solid(value: GraphSnapshotEvidenceModel) {
    }
}

impl Encoded for GraphSnapshotNode {
    open spec fn encoding(value: GraphSnapshotNodeModel) -> JsonModel {
        JsonModel::Object(
            seq![
                ("id"@, String::encoding(value.id)),
                ("kind"@, String::encoding(value.kind)),
                ("name"@, String::encoding(value.name)),
                ("qualifiedName"@, <Option<String>>::encoding(value.qualified_name)),
                ("file"@, String::encoding(value.file)),
                ("external"@, bool::encoding(value.external)),
                ("exported"@, bool::encoding(value.exported)),
                ("signature"@, <Option<String>>::encoding(value.signature)),
                ("evidence"@, <Option<GraphSnapshotEvidence>>::encoding(value.evidence)),
            ],
        )
    }

    fn encode(&self) -> (json: Json) {
        let fields: Vec<(String, Json)> = vec![
            field("id", self.id.encode()),
            field("kind", self.kind.encode()),
            field("name", self.name.encode()),
            field("qualifiedName", self.qualified_name.encode()),
            field("file", self.file.encode()),
            field("external", self.external.encode()),
            field("exported", self.exported.encode()),
            field("signature", self.signature.encode()),
            field("evidence", self.evidence.encode()),
        ];
        let json = Json::Object(fields);
        assert(json.deep_view()->Object_0 =~= Self::encoding(self.deep_view())->Object_0);
        json
    }

    proof fn lemma_distinct(left: GraphSnapshotNodeModel, right: GraphSnapshotNodeModel) {
        if canonical(Self::encoding(left)) == canonical(Self::encoding(right)) {
            reveal_strlit("id");
            reveal_strlit("kind");
            reveal_strlit("name");
            reveal_strlit("qualifiedName");
            reveal_strlit("file");
            reveal_strlit("external");
            reveal_strlit("exported");
            reveal_strlit("signature");
            reveal_strlit("evidence");
            assert("kind"@[0] != "name"@[0]);
            assert("kind"@[0] != "file"@[0]);
            assert("name"@[0] != "file"@[0]);
            assert("external"@[2] != "exported"@[2]);
            assert("external"@[1] != "evidence"@[1]);
            assert("exported"@[1] != "evidence"@[1]);
            let one = Self::encoding(left)->Object_0;
            let other = Self::encoding(right)->Object_0;
            assert(one[0].0 == "id"@);
            assert(one[1].0 == "kind"@);
            assert(one[2].0 == "name"@);
            assert(one[3].0 == "qualifiedName"@);
            assert(one[4].0 == "file"@);
            assert(one[5].0 == "external"@);
            assert(one[6].0 == "exported"@);
            assert(one[7].0 == "signature"@);
            assert(one[8].0 == "evidence"@);
            assert forall|i: int, j: int| 0 <= i < j < one.len() implies (#[trigger] one[i]).0
                != (#[trigger] one[j]).0 by {
                assert(i == 0 || i == 1 || i == 2 || i == 3 || i == 4 || i == 5 || i == 6 || i == 7);
                assert(j == 1 || j == 2 || j == 3 || j == 4 || j == 5 || j == 6 || j == 7 || j == 8);
            }
            lemma_fields_unambiguous(one, other);
            assert(canonical(one[0].1) == canonical(other[0].1));
            String::lemma_distinct(left.id, right.id);
            assert(canonical(one[1].1) == canonical(other[1].1));
            String::lemma_distinct(left.kind, right.kind);
            assert(canonical(one[2].1) == canonical(other[2].1));
            String::lemma_distinct(left.name, right.name);
            assert(canonical(one[3].1) == canonical(other[3].1));
            <Option<String>>::lemma_distinct(left.qualified_name, right.qualified_name);
            assert(canonical(one[4].1) == canonical(other[4].1));
            String::lemma_distinct(left.file, right.file);
            assert(canonical(one[5].1) == canonical(other[5].1));
            bool::lemma_distinct(left.external, right.external);
            assert(canonical(one[6].1) == canonical(other[6].1));
            bool::lemma_distinct(left.exported, right.exported);
            assert(canonical(one[7].1) == canonical(other[7].1));
            <Option<String>>::lemma_distinct(left.signature, right.signature);
            assert(canonical(one[8].1) == canonical(other[8].1));
            <Option<GraphSnapshotEvidence>>::lemma_distinct(left.evidence, right.evidence);
        }
    }
}

impl Encoded for GraphSnapshotEdge {
    open spec fn encoding(value: GraphSnapshotEdgeModel) -> JsonModel {
        JsonModel::Object(
            seq![
                ("from"@, String::encoding(value.from)),
                ("to"@, String::encoding(value.to)),
                ("kind"@, String::encoding(value.kind)),
                ("evidence"@, <Option<GraphSnapshotEvidence>>::encoding(value.evidence)),
            ],
        )
    }

    fn encode(&self) -> (json: Json) {
        let fields: Vec<(String, Json)> = vec![
            field("from", self.from.encode()),
            field("to", self.to.encode()),
            field("kind", self.kind.encode()),
            field("evidence", self.evidence.encode()),
        ];
        let json = Json::Object(fields);
        assert(json.deep_view()->Object_0 =~= Self::encoding(self.deep_view())->Object_0);
        json
    }

    proof fn lemma_distinct(left: GraphSnapshotEdgeModel, right: GraphSnapshotEdgeModel) {
        if canonical(Self::encoding(left)) == canonical(Self::encoding(right)) {
            reveal_strlit("from");
            reveal_strlit("to");
            reveal_strlit("kind");
            reveal_strlit("evidence");
            assert("from"@[0] != "kind"@[0]);
            let one = Self::encoding(left)->Object_0;
            let other = Self::encoding(right)->Object_0;
            assert(one[0].0 == "from"@);
            assert(one[1].0 == "to"@);
            assert(one[2].0 == "kind"@);
            assert(one[3].0 == "evidence"@);
            assert forall|i: int, j: int| 0 <= i < j < one.len() implies (#[trigger] one[i]).0
                != (#[trigger] one[j]).0 by {
                assert(i == 0 || i == 1 || i == 2);
                assert(j == 1 || j == 2 || j == 3);
            }
            lemma_fields_unambiguous(one, other);
            assert(canonical(one[0].1) == canonical(other[0].1));
            String::lemma_distinct(left.from, right.from);
            assert(canonical(one[1].1) == canonical(other[1].1));
            String::lemma_distinct(left.to, right.to);
            assert(canonical(one[2].1) == canonical(other[2].1));
            String::lemma_distinct(left.kind, right.kind);
            assert(canonical(one[3].1) == canonical(other[3].1));
            <Option<GraphSnapshotEvidence>>::lemma_distinct(left.evidence, right.evidence);
        }
    }
}

impl Encoded for GraphSnapshotDiagnostic {
    open spec fn encoding(value: GraphSnapshotDiagnosticModel) -> JsonModel {
        JsonModel::Object(
            seq![
                ("file"@, String::encoding(value.file)),
                ("line"@, u32::encoding(value.line)),
                ("column"@, <Option<u32>>::encoding(value.column)),
                ("code"@, String::encoding(value.code)),
                ("message"@, String::encoding(value.message)),
                ("severity"@, <Option<String>>::encoding(value.severity)),
            ],
        )
    }

    fn encode(&self) -> (json: Json) {
        let fields: Vec<(String, Json)> = vec![
            field("file", self.file.encode()),
            field("line", self.line.encode()),
            field("column", self.column.encode()),
            field("code", self.code.encode()),
            field("message", self.message.encode()),
            field("severity", self.severity.encode()),
        ];
        let json = Json::Object(fields);
        assert(json.deep_view()->Object_0 =~= Self::encoding(self.deep_view())->Object_0);
        json
    }

    proof fn lemma_distinct(left: GraphSnapshotDiagnosticModel, right: GraphSnapshotDiagnosticModel) {
        if canonical(Self::encoding(left)) == canonical(Self::encoding(right)) {
            reveal_strlit("file");
            reveal_strlit("line");
            reveal_strlit("column");
            reveal_strlit("code");
            reveal_strlit("message");
            reveal_strlit("severity");
            assert("file"@[0] != "line"@[0]);
            assert("file"@[0] != "code"@[0]);
            assert("line"@[0] != "code"@[0]);
            let one = Self::encoding(left)->Object_0;
            let other = Self::encoding(right)->Object_0;
            assert(one[0].0 == "file"@);
            assert(one[1].0 == "line"@);
            assert(one[2].0 == "column"@);
            assert(one[3].0 == "code"@);
            assert(one[4].0 == "message"@);
            assert(one[5].0 == "severity"@);
            assert forall|i: int, j: int| 0 <= i < j < one.len() implies (#[trigger] one[i]).0
                != (#[trigger] one[j]).0 by {
                assert(i == 0 || i == 1 || i == 2 || i == 3 || i == 4);
                assert(j == 1 || j == 2 || j == 3 || j == 4 || j == 5);
            }
            lemma_fields_unambiguous(one, other);
            assert(canonical(one[0].1) == canonical(other[0].1));
            String::lemma_distinct(left.file, right.file);
            assert(canonical(one[1].1) == canonical(other[1].1));
            u32::lemma_distinct(left.line, right.line);
            assert(canonical(one[2].1) == canonical(other[2].1));
            <Option<u32>>::lemma_distinct(left.column, right.column);
            assert(canonical(one[3].1) == canonical(other[3].1));
            String::lemma_distinct(left.code, right.code);
            assert(canonical(one[4].1) == canonical(other[4].1));
            String::lemma_distinct(left.message, right.message);
            assert(canonical(one[5].1) == canonical(other[5].1));
            <Option<String>>::lemma_distinct(left.severity, right.severity);
        }
    }
}

impl Encoded for GraphSnapshotCoverage {
    open spec fn encoding(value: GraphSnapshotCoverageModel) -> JsonModel {
        JsonModel::Object(
            seq![
                ("family"@, String::encoding(value.family)),
                ("state"@, String::encoding(value.state)),
            ],
        )
    }

    fn encode(&self) -> (json: Json) {
        let fields: Vec<(String, Json)> = vec![
            field("family", self.family.encode()),
            field("state", self.state.encode()),
        ];
        let json = Json::Object(fields);
        assert(json.deep_view()->Object_0 =~= Self::encoding(self.deep_view())->Object_0);
        json
    }

    proof fn lemma_distinct(left: GraphSnapshotCoverageModel, right: GraphSnapshotCoverageModel) {
        if canonical(Self::encoding(left)) == canonical(Self::encoding(right)) {
            reveal_strlit("family");
            reveal_strlit("state");
            let one = Self::encoding(left)->Object_0;
            let other = Self::encoding(right)->Object_0;
            assert(one[0].0 == "family"@);
            assert(one[1].0 == "state"@);
            assert forall|i: int, j: int| 0 <= i < j < one.len() implies (#[trigger] one[i]).0
                != (#[trigger] one[j]).0 by {
                assert(i == 0);
                assert(j == 1);
            }
            lemma_fields_unambiguous(one, other);
            assert(canonical(one[0].1) == canonical(other[0].1));
            String::lemma_distinct(left.family, right.family);
            assert(canonical(one[1].1) == canonical(other[1].1));
            String::lemma_distinct(left.state, right.state);
        }
    }
}

impl Encoded for GraphSnapshotUnresolved {
    open spec fn encoding(value: GraphSnapshotUnresolvedModel) -> JsonModel {
        JsonModel::Object(
            seq![
                ("family"@, String::encoding(value.family)),
                ("evidence"@, GraphSnapshotEvidence::encoding(value.evidence)),
                ("reason"@, String::encoding(value.reason)),
                ("candidates"@, <Vec<String>>::encoding(value.candidates)),
            ],
        )
    }

    fn encode(&self) -> (json: Json) {
        let fields: Vec<(String, Json)> = vec![
            field("family", self.family.encode()),
            field("evidence", self.evidence.encode()),
            field("reason", self.reason.encode()),
            field("candidates", self.candidates.encode()),
        ];
        let json = Json::Object(fields);
        assert(json.deep_view()->Object_0 =~= Self::encoding(self.deep_view())->Object_0);
        json
    }

    proof fn lemma_distinct(left: GraphSnapshotUnresolvedModel, right: GraphSnapshotUnresolvedModel) {
        if canonical(Self::encoding(left)) == canonical(Self::encoding(right)) {
            reveal_strlit("family");
            reveal_strlit("evidence");
            reveal_strlit("reason");
            reveal_strlit("candidates");
            assert("family"@[0] != "reason"@[0]);
            let one = Self::encoding(left)->Object_0;
            let other = Self::encoding(right)->Object_0;
            assert(one[0].0 == "family"@);
            assert(one[1].0 == "evidence"@);
            assert(one[2].0 == "reason"@);
            assert(one[3].0 == "candidates"@);
            assert forall|i: int, j: int| 0 <= i < j < one.len() implies (#[trigger] one[i]).0
                != (#[trigger] one[j]).0 by {
                assert(i == 0 || i == 1 || i == 2);
                assert(j == 1 || j == 2 || j == 3);
            }
            lemma_fields_unambiguous(one, other);
            assert(canonical(one[0].1) == canonical(other[0].1));
            String::lemma_distinct(left.family, right.family);
            assert(canonical(one[1].1) == canonical(other[1].1));
            GraphSnapshotEvidence::lemma_distinct(left.evidence, right.evidence);
            assert(canonical(one[2].1) == canonical(other[2].1));
            String::lemma_distinct(left.reason, right.reason);
            assert(canonical(one[3].1) == canonical(other[3].1));
            <Vec<String>>::lemma_distinct(left.candidates, right.candidates);
        }
    }
}

impl Encoded for GraphSnapshotManifestEntry {
    open spec fn encoding(value: GraphSnapshotManifestEntryModel) -> JsonModel {
        JsonModel::Object(
            seq![
                ("key"@, String::encoding(value.key)),
                ("digest"@, String::encoding(value.digest)),
            ],
        )
    }

    fn encode(&self) -> (json: Json) {
        let fields: Vec<(String, Json)> = vec![
            field("key", self.key.encode()),
            field("digest", self.digest.encode()),
        ];
        let json = Json::Object(fields);
        assert(json.deep_view()->Object_0 =~= Self::encoding(self.deep_view())->Object_0);
        json
    }

    proof fn lemma_distinct(left: GraphSnapshotManifestEntryModel, right: GraphSnapshotManifestEntryModel) {
        if canonical(Self::encoding(left)) == canonical(Self::encoding(right)) {
            reveal_strlit("key");
            reveal_strlit("digest");
            let one = Self::encoding(left)->Object_0;
            let other = Self::encoding(right)->Object_0;
            assert(one[0].0 == "key"@);
            assert(one[1].0 == "digest"@);
            assert forall|i: int, j: int| 0 <= i < j < one.len() implies (#[trigger] one[i]).0
                != (#[trigger] one[j]).0 by {
                assert(i == 0);
                assert(j == 1);
            }
            lemma_fields_unambiguous(one, other);
            assert(canonical(one[0].1) == canonical(other[0].1));
            String::lemma_distinct(left.key, right.key);
            assert(canonical(one[1].1) == canonical(other[1].1));
            String::lemma_distinct(left.digest, right.digest);
        }
    }
}

impl Encoded for GraphSnapshotProducer {
    open spec fn encoding(value: GraphSnapshotProducerModel) -> JsonModel {
        JsonModel::Object(
            seq![
                ("name"@, String::encoding(value.name)),
                ("version"@, String::encoding(value.version)),
                ("commit"@, String::encoding(value.commit)),
            ],
        )
    }

    fn encode(&self) -> (json: Json) {
        let fields: Vec<(String, Json)> = vec![
            field("name", self.name.encode()),
            field("version", self.version.encode()),
            field("commit", self.commit.encode()),
        ];
        let json = Json::Object(fields);
        assert(json.deep_view()->Object_0 =~= Self::encoding(self.deep_view())->Object_0);
        json
    }

    proof fn lemma_distinct(left: GraphSnapshotProducerModel, right: GraphSnapshotProducerModel) {
        if canonical(Self::encoding(left)) == canonical(Self::encoding(right)) {
            reveal_strlit("name");
            reveal_strlit("version");
            reveal_strlit("commit");
            let one = Self::encoding(left)->Object_0;
            let other = Self::encoding(right)->Object_0;
            assert(one[0].0 == "name"@);
            assert(one[1].0 == "version"@);
            assert(one[2].0 == "commit"@);
            assert forall|i: int, j: int| 0 <= i < j < one.len() implies (#[trigger] one[i]).0
                != (#[trigger] one[j]).0 by {
                assert(i == 0 || i == 1);
                assert(j == 1 || j == 2);
            }
            lemma_fields_unambiguous(one, other);
            assert(canonical(one[0].1) == canonical(other[0].1));
            String::lemma_distinct(left.name, right.name);
            assert(canonical(one[1].1) == canonical(other[1].1));
            String::lemma_distinct(left.version, right.version);
            assert(canonical(one[2].1) == canonical(other[2].1));
            String::lemma_distinct(left.commit, right.commit);
        }
    }
}

} // verus!
