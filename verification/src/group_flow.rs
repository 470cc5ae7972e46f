//! The course of one asset group: fetch its index, download its objects,
//! copy them into the game directory. Each outcome decides the next stage.
use vstd::prelude::*;

verus! {

/// Where the processing of an asset group stands.
#[derive(PartialEq, Eq, Structural)]
pub enum GroupStage {
    /// Fetching the group's asset index.
    Fetch,
    /// Downloading the objects that are not stored yet.
    Download,
    /// Copying the objects into the game directory.
    Copy,
    /// Finished: the group's paths count for the cleanup.
    Done,
    /// The index lists no asset: finished, no path counts.
    Empty,
    /// A step failed: no path counts.
    Failed,
}

/// The outcome of a step.
#[derive(PartialEq, Eq, Structural)]
pub enum GroupEvent {
    /// The index was fetched; `empty` tells whether it lists no asset.
    Fetched { empty: bool },
    FetchFailed,
    Downloaded,
    DownloadFailed,
    Copied,
    CopyFailed,
}

/// The stage after `stage` when `event` happens. A finished stage stays; an
/// event that does not belong to the stage fails it.
pub open spec fn next_stage(stage: GroupStage, event: GroupEvent) -> GroupStage {
    match stage {
        GroupStage::Fetch => match event {
            GroupEvent::Fetched { empty } => if empty {
                GroupStage::Empty
            } else {
                GroupStage::Download
            },
            _ => GroupStage::Failed,
        },
        GroupStage::Download => match event {
            GroupEvent::Downloaded => GroupStage::Copy,
            _ => GroupStage::Failed,
        },
        GroupStage::Copy => match event {
            GroupEvent::Copied => GroupStage::Done,
            _ => GroupStage::Failed,
        },
        GroupStage::Done => GroupStage::Done,
        GroupStage::Empty => GroupStage::Empty,
        GroupStage::Failed => GroupStage::Failed,
    }
}

/// The stage reached from `Fetch` through `events`.
pub open spec fn stage_after(events: Seq<GroupEvent>) -> GroupStage
    decreases events.len(),
{
    if events.len() == 0 {
        GroupStage::Fetch
    } else {
        next_stage(stage_after(events.drop_last()), events.last())
    }
}

/// The next stage of an asset group.
pub fn group_step(stage: GroupStage, event: GroupEvent) -> (r: GroupStage)
    ensures
        r == next_stage(stage, event),
{
    match stage {
        GroupStage::Fetch => match event {
            GroupEvent::Fetched { empty } => if empty {
                GroupStage::Empty
            } else {
                GroupStage::Download
            },
            _ => GroupStage::Failed,
        },
        GroupStage::Download => match event {
            GroupEvent::Downloaded => GroupStage::Copy,
            _ => GroupStage::Failed,
        },
        GroupStage::Copy => match event {
            GroupEvent::Copied => GroupStage::Done,
            _ => GroupStage::Failed,
        },
        GroupStage::Done => GroupStage::Done,
        GroupStage::Empty => GroupStage::Empty,
        GroupStage::Failed => GroupStage::Failed,
    }
}

/// Whether a group in `stage` contributes its paths to the cleanup.
pub fn contributes_paths(stage: GroupStage) -> (r: bool)
    ensures
        r <==> stage == GroupStage::Done,
{
    match stage {
        GroupStage::Done => true,
        _ => false,
    }
}

/// A group's paths count for the cleanup only when its index was fetched and
/// listed assets, its download succeeded and then its copy succeeded, in
/// that order.
pub proof fn lemma_done_only_after_copy(events: Seq<GroupEvent>)
    requires
        stage_after(events) == GroupStage::Done,
    ensures
        events.len() >= 3,
        events[0] == (GroupEvent::Fetched { empty: false }),
        events[1] == GroupEvent::Downloaded,
        events[2] == GroupEvent::Copied,
    decreases events.len(),
{
    let prefix = events.drop_last();
    let prev = stage_after(prefix);
    if prev == GroupStage::Done {
        lemma_done_only_after_copy(prefix);
        assert(events[0] == prefix[0] && events[1] == prefix[1] && events[2] == prefix[2]);
    } else {
        assert(prev == GroupStage::Copy);
        lemma_copy_only_after_download(prefix);
        assert(events[0] == prefix[0] && events[1] == prefix[1]);
    }
}

proof fn lemma_copy_only_after_download(events: Seq<GroupEvent>)
    requires
        stage_after(events) == GroupStage::Copy,
    ensures
        events.len() == 2,
        events[0] == (GroupEvent::Fetched { empty: false }),
        events[1] == GroupEvent::Downloaded,
    decreases events.len(),
{
    let prefix = events.drop_last();
    assert(stage_after(prefix) == GroupStage::Download);
    lemma_download_only_after_fetch(prefix);
    assert(events[0] == prefix[0]);
}

proof fn lemma_download_only_after_fetch(events: Seq<GroupEvent>)
    requires
        stage_after(events) == GroupStage::Download,
    ensures
        events.len() == 1,
        events[0] == (GroupEvent::Fetched { empty: false }),
    decreases events.len(),
{
    let prefix = events.drop_last();
    assert(stage_after(prefix) == GroupStage::Fetch);
    lemma_fetch_only_at_start(prefix);
}

proof fn lemma_fetch_only_at_start(events: Seq<GroupEvent>)
    requires
        stage_after(events) == GroupStage::Fetch,
    ensures
        events.len() == 0,
    decreases events.len(),
{
    if events.len() > 0 {
        let prev = stage_after(events.drop_last());
        assert(next_stage(prev, events.last()) == GroupStage::Fetch);
    }
}

} // verus!
