//! Where links lead, and what is watched on the way.

use vstd::prelude::*;

use crate::error::GraphErrorModel;
use crate::external::DiskStatus;
use crate::paths::{ComponentModel, PathModel, joined, name_of, parent_of, watchable_parent};
use crate::symlinks::{
    CaptureModel, EntryFactsModel, InspectStepModel, InspectionModel, LinkTargetModel,
    LinkWalkModel, MAX_SYMLINK_HOPS, SymlinkPathModel, WalkActionModel, WalkEventModel,
    entry_planned, inspection_continued, link_identity, link_inspected, resolved_target, scanned,
    target_inspected, walk_begun, walked,
};

verus! {

/// A path has a parent unless it is empty or ends where a path starts: the path without its last
/// component. The parent is worth watching unless it is empty.
pub proof fn law_parents_are_one_shorter(path: PathModel)
    ensures
        parent_of(path) is Some <==> path.len() > 0 && !(path.last() is Prefix) && !(path.last()
            is RootDir),
        parent_of(path) matches Some(parent) ==> path == parent.push(path.last()),
        watchable_parent(path) is Some <==> parent_of(path) is Some && path.len() > 1,
        watchable_parent(path) is Some ==> watchable_parent(path) == parent_of(path),
{
    if parent_of(path) is Some {
        assert(path =~= path.drop_last().push(path.last()));
    }
}

/// A name below a directory has the directory as its parent. A path that starts with a name or with a
/// step up goes on from the one that it is joined to; one that starts at a prefix stands for itself,
/// and one that starts at the root keeps at most the prefix.
pub proof fn law_joined_paths_go_on(base: PathModel, path: PathModel)
    requires
        base.len() > 0,
        path.len() > 0,
    ensures
        path[0] is Normal || path[0] is ParentDir ==> joined(base, path) == base + path,
        path[0] is Normal && path.len() == 1 ==> parent_of(joined(base, path)) == Some(base),
        path[0] is CurDir ==> joined(base, path) == base + path.skip(1),
        path[0] is Prefix ==> joined(base, path) == path,
        path[0] is RootDir ==> joined(base, path) == if base[0] is Prefix {
            seq![base[0]] + path
        } else {
            path
        },
{
    if path[0] is Normal && path.len() == 1 {
        assert((base + path).drop_last() =~= base);
    }
    assert(path.drop_first() =~= path.skip(1));
}

/// The target of a link stands for itself where it is absolute, and lies below the directory of the
/// link where it is not.
pub proof fn law_targets_start_from_the_link(link: PathModel, target: LinkTargetModel)
    ensures
        target.is_absolute ==> resolved_target(link, target) == target.path,
        !target.is_absolute && parent_of(link) is Some ==> resolved_target(link, target) == joined(
            parent_of(link)->0,
            target.path,
        ),
        !target.is_absolute && parent_of(link) is None ==> resolved_target(link, target) == joined(
            link,
            target.path,
        ),
{
}

/// Whether a path is watched, and whether what is below it is.
pub open spec fn is_watched(capture: CaptureModel, path: PathModel, recursive: bool) -> bool {
    capture.roots.contains_key(path) && (recursive ==> capture.roots[path])
}

/// On the way from a link, the directory of every link that is followed is watched, so that a
/// replacement is noticed. What is found at the end is watched with its directory, and with what is
/// below it where it is a directory itself. Where nothing is found, the nearest path that exists is
/// watched. What was watched stays watched.
pub proof fn law_links_are_watched(
    walk: LinkWalkModel,
    capture: CaptureModel,
    event: WalkEventModel,
    path: PathModel,
)
    ensures
        ({
            let (after, captured, action) = walked(walk, capture, event);
            &&& capture.roots.contains_key(path) ==> captured.roots.contains_key(path) && (
            capture.roots[path] ==> captured.roots[path])
            &&& event matches WalkEventModel::Link { link, suffix } ==> walk.hops < MAX_SYMLINK_HOPS
                ==> (watchable_parent(link) matches Some(parent) ==> is_watched(
                captured,
                parent,
                false,
            ))
            &&& event matches WalkEventModel::Existing { path: found, directory } ==> {
                &&& is_watched(captured, found, directory)
                &&& watchable_parent(found) matches Some(parent) ==> is_watched(
                    captured,
                    parent,
                    false,
                )
            }
            &&& event matches WalkEventModel::Missing { nearest } ==> (nearest matches Some(root)
                ==> {
                &&& is_watched(captured, root, false)
                &&& watchable_parent(root) matches Some(parent) ==> is_watched(
                    captured,
                    parent,
                    false,
                )
            })
        }),
{
}

/// A link that was not met with the same rest of the path is followed, as long as not too many were:
/// it is counted and remembered, and what it holds decides where to go on, with the rest of the path
/// behind it. The way ends at what exists and at what is missing.
pub proof fn law_links_are_followed(
    walk: LinkWalkModel,
    capture: CaptureModel,
    event: WalkEventModel,
)
    ensures
        ({
            let (after, captured, action) = walked(walk, capture, event);
            &&& event matches WalkEventModel::Link { link, suffix } ==> {
                &&& action is ReadLink <==> walk.hops < MAX_SYMLINK_HOPS && !walk.seen.contains_key(
                    (link, suffix),
                )
                &&& action is ReadLink || action is Stop
                &&& action is ReadLink ==> after.hops == walk.hops + 1 && after.seen.contains_key(
                    (link, suffix),
                )
                &&& captured.content == capture.content
            }
            &&& event matches WalkEventModel::Read { link, link_bytes, suffix, target } ==> {
                &&& action == WalkActionModel::Inspect(
                    joined(resolved_target(link, target), suffix),
                )
                &&& exists|key: Seq<u8>| #[trigger]
                    captured.content.contains_key(key) && captured.content[key] == target.bytes
                        && captured.content.dom() == capture.content.dom().insert(key)
                &&& after == walk
            }
            &&& event is Existing || event is Missing ==> action is Stop && captured.content
                == capture.content
            &&& after.key == walk.key
        }),
{
    match event {
        WalkEventModel::Read { link, link_bytes, suffix, target } => {
            let captured = walked(walk, capture, event).1;
            let key = crate::keys::suffixed(
                crate::keys::suffixed(walk.key, crate::symlinks::label("symlink-hop")),
                link_bytes,
            );
            assert(captured.content.contains_key(key));
            assert(captured.content.dom() =~= capture.content.dom().insert(key));
        },
        _ => {},
    }
}

/// The way from a link starts with the link itself as the only one that was met, at its target.
pub proof fn law_ways_start_at_the_target(
    capture: CaptureModel,
    input: crate::external::ExternalGraphInputModel,
    relative: Seq<u8>,
    link: PathModel,
    target: LinkTargetModel,
)
    ensures
        ({
            let (begun, walk, start) = walk_begun(capture, input, relative, link, target);
            &&& start == resolved_target(link, target)
            &&& walk.hops == 0
            &&& forall|met: (PathModel, PathModel)| #[trigger]
                walk.seen.contains_key(met) <==> met == (link, Seq::<ComponentModel>::empty())
            &&& watchable_parent(link) matches Some(parent) ==> is_watched(begun, parent, false)
        }),
{
}

/// A link is followed whether or not what it leads to can be read. A file is read, be it behind a link
/// or not. An entry that could not be read fails, unless it is a link whose place is known.
pub proof fn law_entries_are_read_and_followed(entry: EntryFactsModel)
    ensures
        ({
            let plan = entry_planned(entry);
            &&& plan.follow <==> entry.is_link && (entry.failed ==> entry.has_path)
            &&& plan.read <==> !entry.failed && (entry.is_file || entry.is_link
                && entry.leads_to_file)
            &&& plan.fail <==> entry.failed && !(entry.has_path && entry.is_link)
        }),
{
}

/// Of a path whose next component is a name, that name is looked at next, below what was looked at
/// before. Steps that stay change nothing, and a step up leaves the last component behind.
pub proof fn law_names_are_looked_at_in_turn(path: PathModel, prefix: PathModel, next: int)
    requires
        0 <= next < path.len() <= usize::MAX,
    ensures
        path[next] is Normal ==> inspection_continued(path, prefix, next) == InspectStepModel::Link(
            InspectionModel { path, prefix: prefix.push(path[next]), next: (next + 1) as usize },
        ),
        path[next] is CurDir ==> inspection_continued(path, prefix, next) == inspection_continued(
            path,
            prefix,
            next + 1,
        ),
        path[next] is ParentDir && parent_of(prefix) is Some ==> inspection_continued(
            path,
            prefix,
            next,
        ) == inspection_continued(path, parent_of(prefix)->0, next + 1),
        path[next] is ParentDir && parent_of(prefix) is None ==> inspection_continued(
            path,
            prefix,
            next,
        ) == inspection_continued(path, prefix, next + 1),
        path[next] is RootDir || path[next] is Prefix ==> inspection_continued(path, prefix, next)
            == inspection_continued(path, prefix.push(path[next]), next + 1),
        inspection_continued(path, prefix, path.len() as int) is Target,
{
    reveal_with_fuel(scanned, 2);
}

/// A link on the way ends the look along a path, with what is behind it left over. A directory is
/// passed, and so is a file at the end of the path; a file before the end, and nothing at all, mean
/// that the path is missing. A failure is told.
pub proof fn law_links_end_an_inspection(
    inspection: InspectionModel,
    status: DiskStatus,
    error: Seq<char>,
)
    ensures
        ({
            let path = inspection.path;
            let next = inspection.next as int;
            let found = link_inspected(inspection, status, error);
            let on = inspection_continued(path, inspection.prefix, next);
            &&& status is Symlink ==> found == Ok::<_, GraphErrorModel>(
                InspectStepModel::Done(
                    SymlinkPathModel::Link { path: inspection.prefix, suffix: path.skip(next) },
                ),
            )
            &&& status is Directory ==> found == Ok::<_, GraphErrorModel>(on)
            &&& status is File && next >= path.len() ==> found == Ok::<_, GraphErrorModel>(on)
            &&& (status is File && next < path.len()) || status is NotFound || status
                is NotADirectory ==> found == Ok::<_, GraphErrorModel>(
                InspectStepModel::Done(SymlinkPathModel::Missing { path }),
            )
            &&& status is Failed ==> found == Err::<InspectStepModel, _>(
                GraphErrorModel::Failed(error),
            )
        }),
{
}

/// What is at the end of a path exists, as a directory where it is one, or is missing where nothing is
/// there. Anything else is told as a failure.
pub proof fn law_ends_exist_or_are_missing(
    inspection: InspectionModel,
    status: DiskStatus,
    error: Seq<char>,
)
    ensures
        ({
            let found = target_inspected(inspection, status, error);
            &&& status is Directory || status is File || status is Symlink ==> found == Ok::<
                _,
                GraphErrorModel,
            >(
                SymlinkPathModel::Existing {
                    path: inspection.prefix,
                    directory: status is Directory,
                },
            )
            &&& status is NotFound ==> found == Ok::<_, GraphErrorModel>(
                SymlinkPathModel::Missing { path: inspection.path },
            )
            &&& status is NotADirectory || status is Failed ==> found == Err::<SymlinkPathModel, _>(
                GraphErrorModel::Failed(error),
            )
        }),
{
}

/// A link is told by its name below the canonical path of its directory, so that a link that is
/// reached along different paths is the same. Where that path is not known, its directory as it was
/// reached takes its place.
pub proof fn law_links_are_told_by_their_directory(
    one: PathModel,
    other: PathModel,
    canonical: PathModel,
)
    requires
        parent_of(one) is Some,
        parent_of(other) is Some,
        name_of(one) == name_of(other),
    ensures
        link_identity(one, Some(canonical)) == link_identity(other, Some(canonical)),
        name_of(one) matches Some(name) ==> link_identity(one, Some(canonical)) == joined(
            canonical,
            seq![name],
        ) && link_identity(one, None) == joined(parent_of(one)->0, seq![name]),
{
}

} // verus!
