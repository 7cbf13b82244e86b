//! What the capture of external inputs depends on, whatever is found on disk.

use vstd::prelude::*;
use vstd::utf8::encode_utf8;

use crate::digest::digest_of;
use crate::external::{
    DiskStatus, ExternalGraphInputModel, with_missing, with_root, with_root_and_parent,
};
use crate::keys::{
    content_digest, frames, framed, input_key, law_content_is_unambiguous,
    law_frames_are_unambiguous, suffixed,
};
use crate::order::lemma_encoding_injective;
use crate::paths::{PathModel, watchable_parent};
use crate::symlinks::{
    CaptureModel, LinkTargetModel, LinkWalkModel, MAX_SYMLINK_HOPS, WalkEventModel, file_captured,
    input_begun, label, walk_begun, walked, with_content, with_link_parent,
};
use crate::table::{lemma_listed_maps, lemma_ordered_lists, lists, ordered};

verus! {

/// What was found below an external input.
pub enum FoundEntry {
    /// A file, its path relative to the input, and its bytes.
    File { relative: Seq<u8>, bytes: Seq<u8> },
    /// A link, its path relative to the input, what it is and holds, and what was met on the way
    /// from it.
    Link {
        relative: Seq<u8>,
        link: PathModel,
        target: LinkTargetModel,
        events: Seq<WalkEventModel>,
    },
}

/// What was found at an external input.
pub struct FoundInput {
    pub input: ExternalGraphInputModel,
    /// What is on disk, links not followed.
    pub status: DiskStatus,
    /// The nearest path that exists, where nothing is on disk.
    pub nearest: Option<PathModel>,
    pub entries: Seq<FoundEntry>,
}

/// A capture after what was met on the way from a link, until the way ends.
pub open spec fn way_captured(
    walk: LinkWalkModel,
    capture: CaptureModel,
    events: Seq<WalkEventModel>,
) -> CaptureModel
    decreases events.len(),
{
    if events.len() == 0 {
        capture
    } else {
        let (after, captured, action) = walked(walk, capture, events[0]);
        if action is Stop {
            captured
        } else {
            way_captured(after, captured, events.drop_first())
        }
    }
}

/// A capture after something that was found below an input.
pub open spec fn entry_captured(
    capture: CaptureModel,
    input: ExternalGraphInputModel,
    entry: FoundEntry,
) -> CaptureModel {
    match entry {
        FoundEntry::File { relative, bytes } => file_captured(capture, input, relative, bytes),
        FoundEntry::Link { relative, link, target, events } => {
            let (begun, walk, _) = walk_begun(capture, input, relative, link, target);
            way_captured(walk, begun, events)
        },
    }
}

/// A capture after the first things that were found below an input.
pub open spec fn entries_captured(
    capture: CaptureModel,
    input: ExternalGraphInputModel,
    entries: Seq<FoundEntry>,
    count: int,
) -> CaptureModel
    decreases count,
{
    if count <= 0 {
        capture
    } else {
        entry_captured(
            entries_captured(capture, input, entries, count - 1),
            input,
            entries[count - 1],
        )
    }
}

/// A capture after an input.
pub open spec fn input_captured(capture: CaptureModel, found: FoundInput) -> CaptureModel {
    let (begun, walk) = input_begun(capture, found.input, found.status, found.nearest);
    if walk {
        entries_captured(begun, found.input, found.entries, found.entries.len() as int)
    } else {
        begun
    }
}

/// A capture that holds nothing.
pub open spec fn no_capture() -> CaptureModel {
    CaptureModel { content: Map::empty(), roots: Map::empty() }
}

/// The capture of the first inputs.
pub open spec fn inputs_captured(inputs: Seq<FoundInput>, count: int) -> CaptureModel
    decreases count,
{
    if count <= 0 {
        no_capture()
    } else {
        input_captured(inputs_captured(inputs, count - 1), inputs[count - 1])
    }
}

/// The capture of all inputs.
pub open spec fn captured(inputs: Seq<FoundInput>) -> CaptureModel {
    inputs_captured(inputs, inputs.len() as int)
}

/// A key and what is captured under it.
pub type Write = (Seq<u8>, Seq<u8>);

/// A path to watch, and whether what is below it is watched too.
pub type Watch = (PathModel, bool);

/// Contents with others put in, the last ones prevailing.
pub open spec fn written(content: Map<Seq<u8>, Seq<u8>>, writes: Seq<Write>) -> Map<Seq<u8>, Seq<u8>>
    decreases writes.len(),
{
    if writes.len() == 0 {
        content
    } else {
        written(content, writes.drop_last()).insert(writes.last().0, writes.last().1)
    }
}

/// Paths to watch with others put in.
pub open spec fn watched(roots: Map<PathModel, bool>, watches: Seq<Watch>) -> Map<PathModel, bool>
    decreases watches.len(),
{
    if watches.len() == 0 {
        roots
    } else {
        with_root(watched(roots, watches.drop_last()), watches.last().0, watches.last().1)
    }
}

proof fn lemma_written_joined(content: Map<Seq<u8>, Seq<u8>>, first: Seq<Write>, second: Seq<Write>)
    ensures
        written(content, first + second) == written(written(content, first), second),
    decreases second.len(),
{
    if second.len() == 0 {
        assert(first + second =~= first);
    } else {
        lemma_written_joined(content, first, second.drop_last());
        assert((first + second).drop_last() =~= first + second.drop_last());
        assert((first + second).last() == second.last());
    }
}

proof fn lemma_watched_joined(roots: Map<PathModel, bool>, first: Seq<Watch>, second: Seq<Watch>)
    ensures
        watched(roots, first + second) == watched(watched(roots, first), second),
    decreases second.len(),
{
    if second.len() == 0 {
        assert(first + second =~= first);
    } else {
        lemma_watched_joined(roots, first, second.drop_last());
        assert((first + second).drop_last() =~= first + second.drop_last());
        assert((first + second).last() == second.last());
    }
}

/// What is put into a capture.
pub struct Effect {
    pub writes: Seq<Write>,
    pub watches: Seq<Watch>,
}

/// A capture with an effect put in.
pub open spec fn affected(capture: CaptureModel, effect: Effect) -> CaptureModel {
    CaptureModel {
        content: written(capture.content, effect.writes),
        roots: watched(capture.roots, effect.watches),
    }
}

/// One effect behind another.
pub open spec fn both(first: Effect, second: Effect) -> Effect {
    Effect {
        writes: first.writes + second.writes,
        watches: first.watches + second.watches,
    }
}

/// No effect.
pub open spec fn nothing() -> Effect {
    Effect { writes: Seq::empty(), watches: Seq::empty() }
}

proof fn lemma_both(capture: CaptureModel, first: Effect, second: Effect)
    ensures
        affected(capture, both(first, second)) == affected(affected(capture, first), second),
{
    lemma_written_joined(capture.content, first.writes, second.writes);
    lemma_watched_joined(capture.roots, first.watches, second.watches);
}

/// The directory of a link, to watch.
pub open spec fn link_watches(link: PathModel) -> Seq<Watch> {
    match watchable_parent(link) {
        Some(parent) => seq![(parent, false)],
        None => Seq::empty(),
    }
}

/// A path and its parent, to watch.
pub open spec fn root_watches(root: PathModel, recursive: bool) -> Seq<Watch> {
    match watchable_parent(root) {
        Some(parent) => seq![(root, recursive), (parent, false)],
        None => seq![(root, recursive)],
    }
}

/// The nearest path that exists in place of a missing one, to watch.
pub open spec fn missing_watches(nearest: Option<PathModel>) -> Seq<Watch> {
    match nearest {
        Some(root) => root_watches(root, false),
        None => Seq::empty(),
    }
}

/// What something that is met on the way from a link puts into a capture.
pub open spec fn event_effect(walk: LinkWalkModel, event: WalkEventModel) -> Effect {
    match event {
        WalkEventModel::Link { link, suffix } => Effect {
            writes: Seq::empty(),
            watches: if walk.hops >= MAX_SYMLINK_HOPS {
                Seq::empty()
            } else {
                link_watches(link)
            },
        },
        WalkEventModel::Read { link, link_bytes, suffix, target } => Effect {
            writes: seq![
                (suffixed(suffixed(walk.key, label("symlink-hop")), link_bytes), target.bytes),
            ],
            watches: Seq::empty(),
        },
        WalkEventModel::Existing { path, directory } => Effect {
            writes: Seq::empty(),
            watches: root_watches(path, directory),
        },
        WalkEventModel::Missing { nearest } => Effect {
            writes: Seq::empty(),
            watches: missing_watches(nearest),
        },
    }
}

/// What a way from a link puts into a capture.
pub open spec fn way_effect(walk: LinkWalkModel, events: Seq<WalkEventModel>) -> Effect
    decreases events.len(),
{
    if events.len() == 0 {
        nothing()
    } else {
        let (after, _, action) = walked(walk, no_capture(), events[0]);
        if action is Stop {
            event_effect(walk, events[0])
        } else {
            both(event_effect(walk, events[0]), way_effect(after, events.drop_first()))
        }
    }
}

/// What something below an input puts into a capture.
pub open spec fn entry_effect(input: ExternalGraphInputModel, entry: FoundEntry) -> Effect {
    match entry {
        FoundEntry::File { relative, bytes } => Effect {
            writes: seq![(suffixed(input_key(input, relative), label("file")), bytes)],
            watches: Seq::empty(),
        },
        FoundEntry::Link { relative, link, target, events } => both(
            Effect {
                writes: seq![
                    (suffixed(input_key(input, relative), label("symlink")), target.bytes),
                ],
                watches: link_watches(link),
            },
            way_effect(walk_begun(no_capture(), input, relative, link, target).1, events),
        ),
    }
}

/// What the first things below an input put into a capture.
pub open spec fn entries_effect(
    input: ExternalGraphInputModel,
    entries: Seq<FoundEntry>,
    count: int,
) -> Effect
    decreases count,
{
    if count <= 0 {
        nothing()
    } else {
        both(entries_effect(input, entries, count - 1), entry_effect(input, entries[count - 1]))
    }
}

/// Whether an input is captured as a missing one.
pub open spec fn is_missing(found: FoundInput) -> bool {
    found.input.optional && (found.status is NotFound || found.status is NotADirectory)
}

/// The key under which it is captured that an input is missing.
pub open spec fn missing_key(input: ExternalGraphInputModel) -> Seq<u8> {
    suffixed(input_key(input, Seq::empty()), label("missing"))
}

/// What an input puts into a capture.
pub open spec fn input_effect(found: FoundInput) -> Effect {
    if is_missing(found) {
        Effect {
            writes: seq![(missing_key(found.input), Seq::empty())],
            watches: missing_watches(found.nearest),
        }
    } else {
        entries_effect(found.input, found.entries, found.entries.len() as int)
    }
}

/// What the first inputs put into a capture.
pub open spec fn inputs_effect(inputs: Seq<FoundInput>, count: int) -> Effect
    decreases count,
{
    if count <= 0 {
        nothing()
    } else {
        both(inputs_effect(inputs, count - 1), input_effect(inputs[count - 1]))
    }
}

proof fn lemma_one_write(content: Map<Seq<u8>, Seq<u8>>, write: Write)
    ensures
        written(content, seq![write]) == content.insert(write.0, write.1),
{
    assert(seq![write].drop_last() =~= Seq::empty());
    assert(seq![write].last() == write);
    assert(written(content, seq![write].drop_last()) == content);
}

proof fn lemma_one_watch(roots: Map<PathModel, bool>, watch: Watch)
    ensures
        watched(roots, seq![watch]) == with_root(roots, watch.0, watch.1),
{
    assert(seq![watch].drop_last() =~= Seq::empty());
    assert(seq![watch].last() == watch);
    assert(watched(roots, seq![watch].drop_last()) == roots);
}

proof fn lemma_link_watches(capture: CaptureModel, link: PathModel)
    ensures
        with_link_parent(capture, link) == (CaptureModel {
            roots: watched(capture.roots, link_watches(link)),
            ..capture
        }),
{
    match watchable_parent(link) {
        Some(parent) => {
            lemma_one_watch(capture.roots, (parent, false));
        },
        None => {},
    }
}

proof fn lemma_root_watches(roots: Map<PathModel, bool>, root: PathModel, recursive: bool)
    ensures
        with_root_and_parent(roots, root, recursive) == watched(
            roots,
            root_watches(root, recursive),
        ),
{
    lemma_one_watch(roots, (root, recursive));
    match watchable_parent(root) {
        Some(parent) => {
            let first = seq![(root, recursive)];
            let second = seq![(parent, false)];
            lemma_watched_joined(roots, first, second);
            lemma_one_watch(watched(roots, first), (parent, false));
            assert(first + second =~= root_watches(root, recursive));
        },
        None => {},
    }
}

proof fn lemma_missing_watches(roots: Map<PathModel, bool>, nearest: Option<PathModel>)
    ensures
        with_missing(roots, nearest) == watched(roots, missing_watches(nearest)),
{
    match nearest {
        Some(root) => {
            lemma_root_watches(roots, root, false);
        },
        None => {},
    }
}

/// What becomes of a way does not depend on what was captured before.
proof fn lemma_event(walk: LinkWalkModel, capture: CaptureModel, event: WalkEventModel)
    ensures
        walked(walk, capture, event).0 == walked(walk, no_capture(), event).0,
        walked(walk, capture, event).1 == affected(capture, event_effect(walk, event)),
        walked(walk, capture, event).2 == walked(walk, no_capture(), event).2,
{
    match event {
        WalkEventModel::Link { link, suffix } => {
            lemma_link_watches(capture, link);
        },
        WalkEventModel::Read { link, link_bytes, suffix, target } => {
            lemma_one_write(
                capture.content,
                (suffixed(suffixed(walk.key, label("symlink-hop")), link_bytes), target.bytes),
            );
        },
        WalkEventModel::Existing { path, directory } => {
            lemma_root_watches(capture.roots, path, directory);
        },
        WalkEventModel::Missing { nearest } => {
            lemma_missing_watches(capture.roots, nearest);
        },
    }
}

proof fn lemma_way(walk: LinkWalkModel, capture: CaptureModel, events: Seq<WalkEventModel>)
    ensures
        way_captured(walk, capture, events) == affected(capture, way_effect(walk, events)),
    decreases events.len(),
{
    if events.len() > 0 {
        lemma_event(walk, capture, events[0]);
        let (after, between, action) = walked(walk, capture, events[0]);
        if !(action is Stop) {
            lemma_way(after, between, events.drop_first());
            lemma_both(
                capture,
                event_effect(walk, events[0]),
                way_effect(after, events.drop_first()),
            );
        }
    }
}

proof fn lemma_entry(capture: CaptureModel, input: ExternalGraphInputModel, entry: FoundEntry)
    ensures
        entry_captured(capture, input, entry) == affected(capture, entry_effect(input, entry)),
{
    match entry {
        FoundEntry::File { relative, bytes } => {
            lemma_one_write(
                capture.content,
                (suffixed(input_key(input, relative), label("file")), bytes),
            );
        },
        FoundEntry::Link { relative, link, target, events } => {
            let write = (suffixed(input_key(input, relative), label("symlink")), target.bytes);
            let first = Effect { writes: seq![write], watches: link_watches(link) };
            lemma_one_write(capture.content, write);
            lemma_link_watches(with_content(capture, write.0, write.1), link);
            let (begun, walk, _) = walk_begun(capture, input, relative, link, target);
            assert(begun == affected(capture, first));
            lemma_way(walk, begun, events);
            lemma_both(capture, first, way_effect(walk, events));
        },
    }
}

proof fn lemma_entries(
    capture: CaptureModel,
    input: ExternalGraphInputModel,
    entries: Seq<FoundEntry>,
    count: int,
)
    ensures
        entries_captured(capture, input, entries, count) == affected(
            capture,
            entries_effect(input, entries, count),
        ),
    decreases count,
{
    if count > 0 {
        lemma_entries(capture, input, entries, count - 1);
        let before = entries_captured(capture, input, entries, count - 1);
        lemma_entry(before, input, entries[count - 1]);
        lemma_both(
            capture,
            entries_effect(input, entries, count - 1),
            entry_effect(input, entries[count - 1]),
        );
    }
}

proof fn lemma_input(capture: CaptureModel, found: FoundInput)
    ensures
        input_captured(capture, found) == affected(capture, input_effect(found)),
{
    if is_missing(found) {
        lemma_one_write(capture.content, (missing_key(found.input), Seq::empty()));
        lemma_missing_watches(capture.roots, found.nearest);
    } else {
        lemma_entries(capture, found.input, found.entries, found.entries.len() as int);
    }
}

proof fn lemma_inputs(inputs: Seq<FoundInput>, count: int)
    ensures
        inputs_captured(inputs, count) == affected(no_capture(), inputs_effect(inputs, count)),
    decreases count,
{
    if count > 0 {
        lemma_inputs(inputs, count - 1);
        lemma_input(inputs_captured(inputs, count - 1), inputs[count - 1]);
        lemma_both(
            no_capture(),
            inputs_effect(inputs, count - 1),
            input_effect(inputs[count - 1]),
        );
    }
}

/// What all inputs put into a capture.
pub open spec fn effect_of(inputs: Seq<FoundInput>) -> Effect {
    inputs_effect(inputs, inputs.len() as int)
}

/// Whether what is captured twice is the same both times, as it is where the disk does not change
/// meanwhile.
pub open spec fn agree(writes: Seq<Write>) -> bool {
    forall|i: int, j: int|
        0 <= i < writes.len() && 0 <= j < writes.len() && (#[trigger] writes[i]).0 == (
        #[trigger] writes[j]).0 ==> writes[i].1 == writes[j].1
}

/// Contents that agree are exactly what was written.
proof fn lemma_written(writes: Seq<Write>)
    requires
        agree(writes),
    ensures
        ({
            let content = written(Map::empty(), writes);
            &&& content.dom().finite()
            &&& forall|i: int|
                0 <= i < writes.len() ==> content.contains_key((#[trigger] writes[i]).0)
                    && content[writes[i].0] == writes[i].1
            &&& forall|key: Seq<u8>| #[trigger]
                content.contains_key(key) ==> exists|i: int|
                    0 <= i < writes.len() && (#[trigger] writes[i]).0 == key
        }),
    decreases writes.len(),
{
    let content = written(Map::empty(), writes);
    if writes.len() > 0 {
        let shorter = writes.drop_last();
        assert forall|i: int, j: int|
            0 <= i < shorter.len() && 0 <= j < shorter.len() && (#[trigger] shorter[i]).0 == (
            #[trigger] shorter[j]).0 implies shorter[i].1 == shorter[j].1 by {
            assert(writes[i] == shorter[i] && writes[j] == shorter[j]);
        }
        lemma_written(shorter);
        let last = writes.last();
        assert(writes[writes.len() - 1] == last);
        assert forall|i: int| 0 <= i < writes.len() implies content.contains_key(
            (#[trigger] writes[i]).0,
        ) && content[writes[i].0] == writes[i].1 by {
            if i < shorter.len() {
                assert(shorter[i] == writes[i]);
            }
        }
        assert forall|key: Seq<u8>| #[trigger] content.contains_key(key) implies exists|i: int|
            0 <= i < writes.len() && (#[trigger] writes[i]).0 == key by {
            if key == last.0 {
                assert(writes[writes.len() - 1].0 == key);
            } else {
                assert(written(Map::empty(), shorter).contains_key(key));
                let i = choose|i: int| 0 <= i < shorter.len() && (#[trigger] shorter[i]).0 == key;
                assert(writes[i].0 == key);
            }
        }
    }
}

/// The paths that are watched are exactly those that were asked for, with what is below them if that
/// was asked for once.
proof fn lemma_watched(watches: Seq<Watch>)
    ensures
        ({
            let roots = watched(Map::empty(), watches);
            &&& forall|root: PathModel| #[trigger]
                roots.contains_key(root) <==> exists|i: int|
                    0 <= i < watches.len() && (#[trigger] watches[i]).0 == root
            &&& forall|root: PathModel| #[trigger]
                roots.contains_key(root) ==> (roots[root] <==> watches.contains((root, true)))
        }),
    decreases watches.len(),
{
    let roots = watched(Map::empty(), watches);
    if watches.len() > 0 {
        let shorter = watches.drop_last();
        let before = watched(Map::empty(), shorter);
        let last = watches.last();
        lemma_watched(shorter);
        assert(watches[watches.len() - 1] == last);
        assert forall|root: PathModel| #[trigger] roots.contains_key(root) <==> exists|i: int|
            0 <= i < watches.len() && (#[trigger] watches[i]).0 == root by {
            if before.contains_key(root) {
                let i = choose|i: int| 0 <= i < shorter.len() && (#[trigger] shorter[i]).0 == root;
                assert(watches[i].0 == root);
            }
            if exists|i: int| 0 <= i < watches.len() && (#[trigger] watches[i]).0 == root {
                let i = choose|i: int| 0 <= i < watches.len() && (#[trigger] watches[i]).0 == root;
                if i < shorter.len() {
                    assert(shorter[i].0 == root);
                }
            }
        }
        assert forall|root: PathModel| #[trigger] roots.contains_key(root) implies (roots[root]
            <==> watches.contains((root, true))) by {
            if shorter.contains((root, true)) {
                let i = choose|i: int| 0 <= i < shorter.len() && shorter[i] == (root, true);
                assert(watches[i] == (root, true));
                assert(shorter[i].0 == root);
                assert(before.contains_key(root));
            }
            if watches.contains((root, true)) {
                let i = choose|i: int| 0 <= i < watches.len() && watches[i] == (root, true);
                if i < shorter.len() {
                    assert(shorter[i] == (root, true));
                }
            }
        }
    }
}

proof fn lemma_inputs_effect(inputs: Seq<FoundInput>, count: int)
    requires
        0 <= count <= inputs.len(),
    ensures
        forall|write: Write| #[trigger]
            inputs_effect(inputs, count).writes.contains(write) <==> exists|i: int|
                0 <= i < count && input_effect(#[trigger] inputs[i]).writes.contains(write),
        forall|watch: Watch| #[trigger]
            inputs_effect(inputs, count).watches.contains(watch) <==> exists|i: int|
                0 <= i < count && input_effect(#[trigger] inputs[i]).watches.contains(watch),
    decreases count,
{
    if count > 0 {
        lemma_inputs_effect(inputs, count - 1);
        let before = inputs_effect(inputs, count - 1);
        let last = input_effect(inputs[count - 1]);
        let all = inputs_effect(inputs, count);
        assert forall|write: Write| #[trigger] all.writes.contains(write) <==> exists|i: int|
            0 <= i < count && input_effect(#[trigger] inputs[i]).writes.contains(write) by {
            lemma_joined_contains(before.writes, last.writes, write);
            if last.writes.contains(write) {
                assert(input_effect(inputs[count - 1]).writes.contains(write));
            }
        }
        assert forall|watch: Watch| #[trigger] all.watches.contains(watch) <==> exists|i: int|
            0 <= i < count && input_effect(#[trigger] inputs[i]).watches.contains(watch) by {
            lemma_joined_contains(before.watches, last.watches, watch);
            if last.watches.contains(watch) {
                assert(input_effect(inputs[count - 1]).watches.contains(watch));
            }
        }
    }
}

proof fn lemma_joined_contains<A>(first: Seq<A>, second: Seq<A>, value: A)
    ensures
        (first + second).contains(value) <==> first.contains(value) || second.contains(value),
{
    let all = first + second;
    if first.contains(value) {
        let i = choose|i: int| 0 <= i < first.len() && first[i] == value;
        assert(all[i] == value);
    }
    if second.contains(value) {
        let i = choose|i: int| 0 <= i < second.len() && second[i] == value;
        assert(all[first.len() + i] == value);
    }
}

/// Whether two lists hold the same inputs, in whichever order and however often.
pub open spec fn are_same_inputs(inputs: Seq<FoundInput>, others: Seq<FoundInput>) -> bool {
    forall|found: FoundInput| #[trigger] inputs.contains(found) <==> others.contains(found)
}

proof fn lemma_effects_among(inputs: Seq<FoundInput>, others: Seq<FoundInput>)
    requires
        forall|found: FoundInput| #[trigger] inputs.contains(found) ==> others.contains(found),
    ensures
        forall|write: Write| #[trigger]
            effect_of(inputs).writes.contains(write) ==> effect_of(others).writes.contains(write),
        forall|watch: Watch| #[trigger]
            effect_of(inputs).watches.contains(watch) ==> effect_of(others).watches.contains(watch),
{
    lemma_inputs_effect(inputs, inputs.len() as int);
    lemma_inputs_effect(others, others.len() as int);
    assert forall|write: Write| #[trigger] effect_of(inputs).writes.contains(write) implies effect_of(
        others,
    ).writes.contains(write) by {
        let i = choose|i: int|
            0 <= i < inputs.len() && input_effect(#[trigger] inputs[i]).writes.contains(write);
        assert(inputs.contains(inputs[i]));
        let j = choose|j: int| 0 <= j < others.len() && others[j] == inputs[i];
        assert(input_effect(others[j]).writes.contains(write));
    }
    assert forall|watch: Watch| #[trigger]
        effect_of(inputs).watches.contains(watch) implies effect_of(others).watches.contains(
        watch,
    ) by {
        let i = choose|i: int|
            0 <= i < inputs.len() && input_effect(#[trigger] inputs[i]).watches.contains(watch);
        assert(inputs.contains(inputs[i]));
        let j = choose|j: int| 0 <= j < others.len() && others[j] == inputs[i];
        assert(input_effect(others[j]).watches.contains(watch));
    }
}

/// The capture of inputs, and with it its digest and the paths that are watched, does not depend on
/// the order in which the inputs are listed, nor on how often each of them is, where the disk does
/// not change meanwhile.
pub proof fn law_input_order_is_ignored(inputs: Seq<FoundInput>, others: Seq<FoundInput>)
    requires
        are_same_inputs(inputs, others),
        agree(effect_of(inputs).writes),
    ensures
        captured(inputs) == captured(others),
        content_digest(captured(inputs).content) == content_digest(captured(others).content),
{
    lemma_inputs(inputs, inputs.len() as int);
    lemma_inputs(others, others.len() as int);
    lemma_effects_among(inputs, others);
    lemma_effects_among(others, inputs);
    let one = effect_of(inputs);
    let other = effect_of(others);
    assert forall|i: int, j: int|
        0 <= i < other.writes.len() && 0 <= j < other.writes.len() && (#[trigger] other.writes[i]).0
            == (#[trigger] other.writes[j]).0 implies other.writes[i].1 == other.writes[j].1 by {
        assert(other.writes.contains(other.writes[i]) && other.writes.contains(other.writes[j]));
        assert(one.writes.contains(other.writes[i]) && one.writes.contains(other.writes[j]));
        let k = choose|k: int| 0 <= k < one.writes.len() && one.writes[k] == other.writes[i];
        let l = choose|l: int| 0 <= l < one.writes.len() && one.writes[l] == other.writes[j];
        assert(one.writes[k].0 == one.writes[l].0);
    }
    lemma_written_among(one.writes, other.writes);
    lemma_written_among(other.writes, one.writes);
    assert(captured(inputs).content =~= captured(others).content);
    lemma_watched(one.watches);
    lemma_watched(other.watches);
    lemma_watched_among(one.watches, other.watches);
    lemma_watched_among(other.watches, one.watches);
    assert(captured(inputs).roots =~= captured(others).roots);
}

proof fn lemma_written_among(writes: Seq<Write>, others: Seq<Write>)
    requires
        agree(writes),
        agree(others),
        forall|write: Write| #[trigger] writes.contains(write) ==> others.contains(write),
    ensures
        ({
            let content = written(Map::empty(), writes);
            let other = written(Map::empty(), others);
            forall|key: Seq<u8>| #[trigger]
                content.contains_key(key) ==> other.contains_key(key) && other[key] == content[key]
        }),
{
    lemma_written(writes);
    lemma_written(others);
    let content = written(Map::empty(), writes);
    let other = written(Map::empty(), others);
    assert forall|key: Seq<u8>| #[trigger] content.contains_key(key) implies other.contains_key(key)
        && other[key] == content[key] by {
        let i = choose|i: int| 0 <= i < writes.len() && (#[trigger] writes[i]).0 == key;
        assert(writes.contains(writes[i]));
        let j = choose|j: int| 0 <= j < others.len() && others[j] == writes[i];
        assert(other.contains_key(others[j].0));
    }
}

proof fn lemma_watched_among(watches: Seq<Watch>, others: Seq<Watch>)
    requires
        forall|watch: Watch| #[trigger] watches.contains(watch) ==> others.contains(watch),
    ensures
        ({
            let roots = watched(Map::empty(), watches);
            let other = watched(Map::empty(), others);
            forall|root: PathModel| #[trigger]
                roots.contains_key(root) ==> other.contains_key(root) && (roots[root]
                    ==> other[root])
        }),
{
    lemma_watched(watches);
    lemma_watched(others);
    let roots = watched(Map::empty(), watches);
    let other = watched(Map::empty(), others);
    assert forall|root: PathModel| #[trigger] roots.contains_key(root) implies other.contains_key(
        root,
    ) && (roots[root] ==> other[root]) by {
        let i = choose|i: int| 0 <= i < watches.len() && (#[trigger] watches[i]).0 == root;
        assert(watches.contains(watches[i]));
        let j = choose|j: int| 0 <= j < others.len() && others[j] == watches[i];
        assert(others[j].0 == root);
        if watches.contains((root, true)) {
            assert(others.contains((root, true)));
        }
    }
}

/// Whether different bytes have one digest.
pub open spec fn bytes_collide(left: Seq<u8>, right: Seq<u8>) -> bool {
    left != right && digest_of(left) == digest_of(right)
}

/// Whether what is hashed for different captured contents has one digest.
pub open spec fn contents_collide(
    left: Map<Seq<u8>, Seq<u8>>,
    right: Map<Seq<u8>, Seq<u8>>,
) -> bool {
    bytes_collide(
        frames(ordered::<Vec<u8>, Seq<u8>>(left)),
        frames(ordered::<Vec<u8>, Seq<u8>>(right)),
    )
}

/// Whether the lengths of keys and contents fit into the numbers in front of them.
pub open spec fn fit(writes: Seq<Write>) -> bool {
    forall|i: int|
        0 <= i < writes.len() ==> (#[trigger] writes[i]).0.len() <= u64::MAX && writes[i].1.len()
            <= u64::MAX
}

/// Captures with the same digest hold the same, unless there is a collision.
pub proof fn law_capture_digest_identifies(inputs: Seq<FoundInput>, others: Seq<FoundInput>)
    requires
        agree(effect_of(inputs).writes),
        agree(effect_of(others).writes),
        fit(effect_of(inputs).writes),
        fit(effect_of(others).writes),
        content_digest(captured(inputs).content) == content_digest(captured(others).content),
        !contents_collide(captured(inputs).content, captured(others).content),
    ensures
        captured(inputs).content == captured(others).content,
{
    lemma_inputs(inputs, inputs.len() as int);
    lemma_inputs(others, others.len() as int);
    let left = captured(inputs).content;
    let right = captured(others).content;
    lemma_listed(effect_of(inputs).writes);
    lemma_listed(effect_of(others).writes);
    let one = ordered::<Vec<u8>, Seq<u8>>(left);
    let other = ordered::<Vec<u8>, Seq<u8>>(right);
    law_content_is_unambiguous(one, other);
    lemma_listed_maps::<Vec<u8>, Seq<u8>>(one, left, right);
}

proof fn lemma_listed(writes: Seq<Write>)
    requires
        agree(writes),
        fit(writes),
    ensures
        ({
            let content = written(Map::empty(), writes);
            let listing = ordered::<Vec<u8>, Seq<u8>>(content);
            &&& lists::<Vec<u8>, Seq<u8>>(listing, content)
            &&& forall|i: int|
                0 <= i < listing.len() ==> (#[trigger] listing[i]).0.len() <= u64::MAX
                    && listing[i].1.len() <= u64::MAX
        }),
{
    lemma_written(writes);
    let content = written(Map::empty(), writes);
    lemma_ordered_lists::<Vec<u8>, Seq<u8>>(content);
    let listing = ordered::<Vec<u8>, Seq<u8>>(content);
    assert forall|i: int| 0 <= i < listing.len() implies (#[trigger] listing[i]).0.len()
        <= u64::MAX && listing[i].1.len() <= u64::MAX by {
        assert(content.contains_key(listing[i].0));
        let j = choose|j: int| 0 <= j < writes.len() && (#[trigger] writes[j]).0 == listing[i].0;
        assert(content[writes[j].0] == writes[j].1);
    }
}

proof fn lemma_entries_effect(
    input: ExternalGraphInputModel,
    entries: Seq<FoundEntry>,
    count: int,
    write: Write,
)
    requires
        0 <= count <= entries.len(),
    ensures
        entries_effect(input, entries, count).writes.contains(write) <==> exists|i: int|
            0 <= i < count && entry_effect(input, #[trigger] entries[i]).writes.contains(write),
    decreases count,
{
    if count > 0 {
        lemma_entries_effect(input, entries, count - 1, write);
        let before = entries_effect(input, entries, count - 1);
        let last = entry_effect(input, entries[count - 1]);
        lemma_joined_contains(before.writes, last.writes, write);
        if last.writes.contains(write) {
            assert(entry_effect(input, entries[count - 1]).writes.contains(write));
        }
    }
}

/// What is found below one of the inputs is captured.
proof fn lemma_entry_written(inputs: Seq<FoundInput>, found: FoundInput, entry: FoundEntry, write: Write)
    requires
        inputs.contains(found),
        !is_missing(found),
        found.entries.contains(entry),
        entry_effect(found.input, entry).writes.contains(write),
    ensures
        effect_of(inputs).writes.contains(write),
{
    let i = choose|i: int| 0 <= i < inputs.len() && inputs[i] == found;
    let k = choose|k: int| 0 <= k < found.entries.len() && found.entries[k] == entry;
    lemma_entries_effect(found.input, found.entries, found.entries.len() as int, write);
    assert(entry_effect(found.input, found.entries[k]).writes.contains(write));
    lemma_inputs_effect(inputs, inputs.len() as int);
    assert(input_effect(inputs[i]).writes.contains(write));
}

/// Where something else is captured under a key, or nothing, the digest is another one, unless there
/// is a collision.
proof fn lemma_write_shows(inputs: Seq<FoundInput>, others: Seq<FoundInput>, write: Write)
    requires
        agree(effect_of(inputs).writes),
        agree(effect_of(others).writes),
        fit(effect_of(inputs).writes),
        fit(effect_of(others).writes),
        effect_of(inputs).writes.contains(write),
        !effect_of(others).writes.contains(write),
        !contents_collide(captured(inputs).content, captured(others).content),
    ensures
        content_digest(captured(inputs).content) != content_digest(captured(others).content),
{
    if content_digest(captured(inputs).content) == content_digest(captured(others).content) {
        law_capture_digest_identifies(inputs, others);
        lemma_inputs(inputs, inputs.len() as int);
        lemma_inputs(others, others.len() as int);
        let one = effect_of(inputs).writes;
        let other = effect_of(others).writes;
        lemma_written(one);
        lemma_written(other);
        let i = choose|i: int| 0 <= i < one.len() && one[i] == write;
        let content = captured(others).content;
        assert(captured(inputs).content.contains_key(one[i].0));
        assert(content.contains_key(write.0) && content[write.0] == write.1);
        let j = choose|j: int| 0 <= j < other.len() && (#[trigger] other[j]).0 == write.0;
        assert(content[other[j].0] == other[j].1);
        assert(other[j] == write);
        assert(other.contains(other[j]));
    }
}

/// Whether two inputs are the same but for whether they may be missing.
pub open spec fn is_same_input(
    input: ExternalGraphInputModel,
    other: ExternalGraphInputModel,
) -> bool {
    input.identity == other.identity && input.root_bytes == other.root_bytes
}

/// A file with other bytes changes the digest, unless there is a collision.
pub proof fn law_file_bytes_show(
    inputs: Seq<FoundInput>,
    found: FoundInput,
    others: Seq<FoundInput>,
    other: FoundInput,
    relative: Seq<u8>,
    bytes: Seq<u8>,
    other_bytes: Seq<u8>,
)
    requires
        agree(effect_of(inputs).writes),
        agree(effect_of(others).writes),
        fit(effect_of(inputs).writes),
        fit(effect_of(others).writes),
        inputs.contains(found),
        others.contains(other),
        is_same_input(found.input, other.input),
        !is_missing(found),
        !is_missing(other),
        found.entries.contains((FoundEntry::File { relative, bytes })),
        other.entries.contains((FoundEntry::File { relative, bytes: other_bytes })),
        bytes != other_bytes,
        !contents_collide(captured(inputs).content, captured(others).content),
    ensures
        content_digest(captured(inputs).content) != content_digest(captured(others).content),
{
    let entry = FoundEntry::File { relative, bytes };
    let other_entry = FoundEntry::File { relative, bytes: other_bytes };
    let key = suffixed(input_key(found.input, relative), label("file"));
    let write = (key, bytes);
    let other_write = (key, other_bytes);
    assert(entry_effect(found.input, entry).writes[0] == write);
    assert(entry_effect(other.input, other_entry).writes[0] == other_write);
    lemma_entry_written(inputs, found, entry, write);
    lemma_entry_written(others, other, other_entry, other_write);
    lemma_other_bytes(effect_of(others).writes, key, bytes, other_bytes);
    lemma_write_shows(inputs, others, write);
}

proof fn lemma_other_bytes(writes: Seq<Write>, key: Seq<u8>, bytes: Seq<u8>, other_bytes: Seq<u8>)
    requires
        agree(writes),
        writes.contains((key, other_bytes)),
        bytes != other_bytes,
    ensures
        !writes.contains((key, bytes)),
{
    if writes.contains((key, bytes)) {
        let i = choose|i: int| 0 <= i < writes.len() && writes[i] == (key, bytes);
        let j = choose|j: int| 0 <= j < writes.len() && writes[j] == (key, other_bytes);
        assert(writes[i].0 == writes[j].0);
    }
}

/// A link that holds another path changes the digest, unless there is a collision.
pub proof fn law_link_targets_show(
    inputs: Seq<FoundInput>,
    found: FoundInput,
    entry: FoundEntry,
    others: Seq<FoundInput>,
    other: FoundInput,
    other_entry: FoundEntry,
)
    requires
        agree(effect_of(inputs).writes),
        agree(effect_of(others).writes),
        fit(effect_of(inputs).writes),
        fit(effect_of(others).writes),
        inputs.contains(found),
        others.contains(other),
        is_same_input(found.input, other.input),
        !is_missing(found),
        !is_missing(other),
        found.entries.contains(entry),
        other.entries.contains(other_entry),
        entry is Link,
        other_entry is Link,
        entry->Link_relative == other_entry->Link_relative,
        entry->Link_target.bytes != other_entry->Link_target.bytes,
        !contents_collide(captured(inputs).content, captured(others).content),
    ensures
        content_digest(captured(inputs).content) != content_digest(captured(others).content),
{
    let key = suffixed(input_key(found.input, entry->Link_relative), label("symlink"));
    let write = (key, entry->Link_target.bytes);
    let other_write = (key, other_entry->Link_target.bytes);
    assert(entry_effect(found.input, entry).writes[0] == write);
    assert(entry_effect(other.input, other_entry).writes[0] == other_write);
    lemma_entry_written(inputs, found, entry, write);
    lemma_entry_written(others, other, other_entry, other_write);
    lemma_other_bytes(effect_of(others).writes, key, write.1, other_write.1);
    lemma_write_shows(inputs, others, write);
}

/// What every key of an input starts with.
spec fn prefix_of(input: ExternalGraphInputModel) -> Seq<u8> {
    framed(encode_utf8(input.identity)) + framed(input.root_bytes)
}

/// Whether a key is made of the start of those of an input, a path, a label and a rest.
spec fn is_key(
    input: ExternalGraphInputModel,
    relative: Seq<u8>,
    mark: Seq<u8>,
    rest: Seq<u8>,
    key: Seq<u8>,
) -> bool {
    key == prefix_of(input) + (framed(relative) + (framed(mark) + rest))
}

/// Whether a label is one of those of what is found below inputs.
spec fn is_mark(mark: Seq<u8>) -> bool {
    mark == label("file") || mark == label("symlink") || mark == label("symlink-hop")
}

/// Whether a key is that of something below an input.
spec fn is_below(input: ExternalGraphInputModel, key: Seq<u8>) -> bool {
    exists|relative: Seq<u8>, mark: Seq<u8>, rest: Seq<u8>|
        is_mark(mark) && #[trigger] is_key(input, relative, mark, rest, key)
}

proof fn lemma_way_below(
    input: ExternalGraphInputModel,
    relative: Seq<u8>,
    walk: LinkWalkModel,
    events: Seq<WalkEventModel>,
    write: Write,
)
    requires
        walk.key == input_key(input, relative),
        way_effect(walk, events).writes.contains(write),
    ensures
        is_below(input, write.0),
    decreases events.len(),
{
    if events.len() > 0 {
        let first = event_effect(walk, events[0]);
        let (after, _, action) = walked(walk, no_capture(), events[0]);
        let more = way_effect(after, events.drop_first());
        lemma_joined_contains(first.writes, more.writes, write);
        if first.writes.contains(write) {
            match events[0] {
                WalkEventModel::Read { link, link_bytes, suffix, target } => {
                    let key = suffixed(suffixed(walk.key, label("symlink-hop")), link_bytes);
                    assert(first.writes =~= seq![(key, target.bytes)]);
                    assert(write.0 == key);
                    assert(key =~= prefix_of(input) + (framed(relative) + (framed(
                        label("symlink-hop"),
                    ) + framed(link_bytes))));
                    assert(is_key(input, relative, label("symlink-hop"), framed(link_bytes), key));
                },
                _ => {
                    assert(first.writes.len() == 0);
                },
            }
        } else {
            assert(after.key == walk.key);
            lemma_way_below(input, relative, after, events.drop_first(), write);
        }
    }
}

proof fn lemma_entry_below(input: ExternalGraphInputModel, entry: FoundEntry, write: Write)
    requires
        entry_effect(input, entry).writes.contains(write),
    ensures
        is_below(input, write.0),
{
    let none = Seq::<u8>::empty();
    match entry {
        FoundEntry::File { relative, bytes } => {
            let key = suffixed(input_key(input, relative), label("file"));
            assert(entry_effect(input, entry).writes =~= seq![(key, bytes)]);
            assert(key =~= prefix_of(input) + (framed(relative) + (framed(label("file")) + none)));
            assert(is_key(input, relative, label("file"), none, key));
        },
        FoundEntry::Link { relative, link, target, events } => {
            let key = suffixed(input_key(input, relative), label("symlink"));
            let first = seq![(key, target.bytes)];
            let walk = walk_begun(no_capture(), input, relative, link, target).1;
            lemma_joined_contains(first, way_effect(walk, events).writes, write);
            if first.contains(write) {
                assert(write.0 == key);
                assert(key =~= prefix_of(input) + (framed(relative) + (framed(label("symlink"))
                    + none)));
                assert(is_key(input, relative, label("symlink"), none, key));
            } else {
                lemma_way_below(input, relative, walk, events, write);
            }
        },
    }
}

proof fn lemma_missing_key(input: ExternalGraphInputModel)
    ensures
        is_key(input, Seq::empty(), label("missing"), Seq::empty(), missing_key(input)),
{
    assert(missing_key(input) =~= prefix_of(input) + (framed(Seq::<u8>::empty()) + (framed(
        label("missing"),
    ) + Seq::<u8>::empty())));
}

/// What an input puts into a capture stands under keys that tell what it is.
proof fn lemma_input_keys(found: FoundInput, write: Write)
    requires
        input_effect(found).writes.contains(write),
    ensures
        is_missing(found) ==> write.0 == missing_key(found.input),
        !is_missing(found) ==> is_below(found.input, write.0),
{
    if is_missing(found) {
        assert(input_effect(found).writes =~= seq![(missing_key(found.input), Seq::<u8>::empty())]);
    } else {
        lemma_entries_effect(found.input, found.entries, found.entries.len() as int, write);
        let i = choose|i: int|
            0 <= i < found.entries.len() && entry_effect(
                found.input,
                #[trigger] found.entries[i],
            ).writes.contains(write);
        lemma_entry_below(found.input, found.entries[i], write);
    }
}

/// Keys tell inputs, paths and labels apart.
proof fn lemma_keys_tell(
    input: ExternalGraphInputModel,
    relative: Seq<u8>,
    mark: Seq<u8>,
    rest: Seq<u8>,
    other: ExternalGraphInputModel,
    other_relative: Seq<u8>,
    other_mark: Seq<u8>,
    other_rest: Seq<u8>,
    key: Seq<u8>,
)
    requires
        is_key(input, relative, mark, rest, key),
        is_key(other, other_relative, other_mark, other_rest, key),
        key.len() <= u64::MAX,
    ensures
        is_same_input(input, other),
        relative == other_relative,
        mark == other_mark,
        rest == other_rest,
{
    let end = framed(mark) + rest;
    let other_end = framed(other_mark) + other_rest;
    let middle = framed(relative) + end;
    let other_middle = framed(other_relative) + other_end;
    let start = encode_utf8(input.identity);
    let other_start = encode_utf8(other.identity);
    assert(key =~= framed(start) + (framed(input.root_bytes) + middle));
    assert(key =~= framed(other_start) + (framed(other.root_bytes) + other_middle));
    law_frames_are_unambiguous(
        start,
        other_start,
        framed(input.root_bytes) + middle,
        framed(other.root_bytes) + other_middle,
    );
    lemma_encoding_injective(input.identity, other.identity);
    law_frames_are_unambiguous(input.root_bytes, other.root_bytes, middle, other_middle);
    law_frames_are_unambiguous(relative, other_relative, end, other_end);
    law_frames_are_unambiguous(mark, other_mark, rest, other_rest);
}

proof fn lemma_marks_apart()
    ensures
        !is_mark(label("missing")),
{
    reveal_strlit("missing");
    reveal_strlit("file");
    reveal_strlit("symlink");
    reveal_strlit("symlink-hop");
    if is_mark(label("missing")) {
        if label("missing") == label("file") {
            lemma_encoding_injective("missing"@, "file"@);
            assert("missing"@.len() != "file"@.len());
        } else if label("missing") == label("symlink") {
            lemma_encoding_injective("missing"@, "symlink"@);
            assert("missing"@[0] != "symlink"@[0]);
        } else {
            lemma_encoding_injective("missing"@, "symlink-hop"@);
            assert("missing"@.len() != "symlink-hop"@.len());
        }
    }
}

proof fn lemma_writes_of(inputs: Seq<FoundInput>, write: Write) -> (found: FoundInput)
    requires
        effect_of(inputs).writes.contains(write),
    ensures
        inputs.contains(found),
        input_effect(found).writes.contains(write),
{
    lemma_inputs_effect(inputs, inputs.len() as int);
    let i = choose|i: int|
        0 <= i < inputs.len() && input_effect(#[trigger] inputs[i]).writes.contains(write);
    inputs[i]
}

/// An input under another identity, or at another place, changes the digest if anything is captured
/// for it, unless there is a collision.
pub proof fn law_identities_show(
    inputs: Seq<FoundInput>,
    found: FoundInput,
    others: Seq<FoundInput>,
)
    requires
        agree(effect_of(inputs).writes),
        agree(effect_of(others).writes),
        fit(effect_of(inputs).writes),
        fit(effect_of(others).writes),
        inputs.contains(found),
        is_missing(found) || found.entries.len() > 0,
        forall|other: FoundInput| #[trigger]
            others.contains(other) ==> !is_same_input(found.input, other.input),
        !contents_collide(captured(inputs).content, captured(others).content),
    ensures
        content_digest(captured(inputs).content) != content_digest(captured(others).content),
{
    let i = choose|i: int| 0 <= i < inputs.len() && inputs[i] == found;
    let writes = input_effect(found).writes;
    lemma_something_written(found);
    let write = writes[0];
    assert(writes.contains(write));
    lemma_inputs_effect(inputs, inputs.len() as int);
    assert(input_effect(inputs[i]).writes.contains(write));
    assert(effect_of(inputs).writes.contains(write));
    if effect_of(others).writes.contains(write) {
        let other = lemma_writes_of(others, write);
        let k = choose|k: int|
            0 <= k < effect_of(inputs).writes.len() && effect_of(inputs).writes[k] == write;
        assert(effect_of(inputs).writes[k].0.len() <= u64::MAX);
        lemma_key_of(found, write);
        lemma_key_of(other, write);
        let (relative, mark, rest) = choose|relative: Seq<u8>, mark: Seq<u8>, rest: Seq<u8>| #[trigger]
            is_key(found.input, relative, mark, rest, write.0);
        let (other_relative, other_mark, other_rest) = choose|
            relative: Seq<u8>,
            mark: Seq<u8>,
            rest: Seq<u8>,
        | #[trigger] is_key(other.input, relative, mark, rest, write.0);
        lemma_keys_tell(
            found.input,
            relative,
            mark,
            rest,
            other.input,
            other_relative,
            other_mark,
            other_rest,
            write.0,
        );
    }
    lemma_write_shows(inputs, others, write);
}

proof fn lemma_key_of(found: FoundInput, write: Write)
    requires
        input_effect(found).writes.contains(write),
    ensures
        exists|relative: Seq<u8>, mark: Seq<u8>, rest: Seq<u8>| #[trigger]
            is_key(found.input, relative, mark, rest, write.0),
{
    lemma_input_keys(found, write);
    if is_missing(found) {
        lemma_missing_key(found.input);
    }
}

proof fn lemma_something_written(found: FoundInput)
    requires
        is_missing(found) || found.entries.len() > 0,
    ensures
        input_effect(found).writes.len() > 0,
{
    if !is_missing(found) {
        let count = found.entries.len() as int;
        let before = entries_effect(found.input, found.entries, count - 1);
        let last = entry_effect(found.input, found.entries[count - 1]);
        assert(last.writes.len() > 0);
        assert(input_effect(found).writes == before.writes + last.writes);
    }
}

/// An input that may be missing, and is, has another digest than once it is there, unless there is a
/// collision.
pub proof fn law_created_inputs_show(
    inputs: Seq<FoundInput>,
    found: FoundInput,
    others: Seq<FoundInput>,
)
    requires
        agree(effect_of(inputs).writes),
        agree(effect_of(others).writes),
        fit(effect_of(inputs).writes),
        fit(effect_of(others).writes),
        inputs.contains(found),
        is_missing(found),
        forall|other: FoundInput| #[trigger]
            others.contains(other) && is_same_input(found.input, other.input) ==> !is_missing(
                other,
            ),
        !contents_collide(captured(inputs).content, captured(others).content),
    ensures
        content_digest(captured(inputs).content) != content_digest(captured(others).content),
{
    let i = choose|i: int| 0 <= i < inputs.len() && inputs[i] == found;
    let write = (missing_key(found.input), Seq::<u8>::empty());
    assert(input_effect(found).writes[0] == write);
    lemma_inputs_effect(inputs, inputs.len() as int);
    assert(input_effect(inputs[i]).writes.contains(write));
    assert(effect_of(inputs).writes.contains(write));
    if effect_of(others).writes.contains(write) {
        let other = lemma_writes_of(others, write);
        let none = Seq::<u8>::empty();
        let k = choose|k: int|
            0 <= k < effect_of(inputs).writes.len() && effect_of(inputs).writes[k] == write;
        assert(effect_of(inputs).writes[k].0.len() <= u64::MAX);
        lemma_missing_key(found.input);
        lemma_input_keys(other, write);
        lemma_marks_apart();
        if is_missing(other) {
            lemma_missing_key(other.input);
            lemma_keys_tell(
                found.input,
                none,
                label("missing"),
                none,
                other.input,
                none,
                label("missing"),
                none,
                write.0,
            );
        } else {
            let (relative, mark, rest) = choose|
                relative: Seq<u8>,
                mark: Seq<u8>,
                rest: Seq<u8>,
            |
                is_mark(mark) && #[trigger] is_key(other.input, relative, mark, rest, write.0);
            lemma_keys_tell(
                found.input,
                none,
                label("missing"),
                none,
                other.input,
                relative,
                mark,
                rest,
                write.0,
            );
        }
    }
    lemma_write_shows(inputs, others, write);
}

proof fn lemma_writes_alike(
    inputs: Seq<FoundInput>,
    others: Seq<FoundInput>,
    at: int,
    count: int,
)
    requires
        0 <= at < inputs.len(),
        inputs.len() == others.len(),
        forall|i: int| 0 <= i < inputs.len() && i != at ==> #[trigger] inputs[i] == others[i],
        inputs[at].input == others[at].input,
        is_missing(inputs[at]),
        is_missing(others[at]),
        0 <= count <= inputs.len(),
    ensures
        inputs_effect(inputs, count).writes == inputs_effect(others, count).writes,
        inputs[at].nearest == others[at].nearest ==> inputs_effect(inputs, count).watches
            == inputs_effect(others, count).watches,
    decreases count,
{
    if count > 0 {
        lemma_writes_alike(inputs, others, at, count - 1);
        if count - 1 != at {
            assert(inputs[count - 1] == others[count - 1]);
        }
    }
}

/// An input that may be missing is captured the same way whenever it is: after it was there and was
/// removed again, whatever was below it, as before it was created. What is watched in its place is
/// the same too, if the nearest path that exists is.
pub proof fn law_removed_inputs_are_missing(
    inputs: Seq<FoundInput>,
    others: Seq<FoundInput>,
    at: int,
)
    requires
        0 <= at < inputs.len(),
        inputs.len() == others.len(),
        forall|i: int| 0 <= i < inputs.len() && i != at ==> #[trigger] inputs[i] == others[i],
        inputs[at].input == others[at].input,
        is_missing(inputs[at]),
        is_missing(others[at]),
    ensures
        captured(inputs).content == captured(others).content,
        content_digest(captured(inputs).content) == content_digest(captured(others).content),
        inputs[at].nearest == others[at].nearest ==> captured(inputs) == captured(others),
{
    lemma_inputs(inputs, inputs.len() as int);
    lemma_inputs(others, others.len() as int);
    lemma_writes_alike(inputs, others, at, inputs.len() as int);
}

/// In place of an input that may be missing, and is, the nearest path that exists is watched, but
/// not what is below it, unless that is asked for by something else.
pub proof fn law_missing_inputs_are_watched(
    inputs: Seq<FoundInput>,
    found: FoundInput,
    root: PathModel,
)
    requires
        inputs.contains(found),
        is_missing(found),
        found.nearest == Some(root),
    ensures
        captured(inputs).roots.contains_key(root),
        captured(inputs).roots[root] <==> effect_of(inputs).watches.contains((root, true)),
        captured(seq![found]).roots[root] == false,
{
    let i = choose|i: int| 0 <= i < inputs.len() && inputs[i] == found;
    lemma_inputs(inputs, inputs.len() as int);
    lemma_inputs_effect(inputs, inputs.len() as int);
    let watch = (root, false);
    assert(input_effect(found).watches[0] == watch);
    assert(input_effect(inputs[i]).watches.contains(watch));
    let watches = effect_of(inputs).watches;
    lemma_watched(watches);
    assert(watches.contains(watch));
    let k = choose|k: int| 0 <= k < watches.len() && watches[k] == watch;
    assert(watches[k].0 == root);
    let roots = watched(Map::empty(), watches);
    assert(captured(inputs).roots == roots);
    assert(roots.contains_key(root));
    assert(roots[root] <==> watches.contains((root, true)));
    let one = seq![found];
    assert(inputs_captured(one, 0) == no_capture());
    assert(captured(one) == input_captured(inputs_captured(one, 0), one[0]));
    lemma_input(no_capture(), found);
    lemma_watched(missing_watches(found.nearest));
    assert(!missing_watches(found.nearest).contains((root, true)));
}

} // verus!
