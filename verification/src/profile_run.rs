//! The asset run of a profile as a sequence of decisions: which pack is
//! resolved, which asset groups are processed and in what order, what a
//! failure yields, and what the final cleanup deletes. Each outcome of the
//! outside work (resolving the pack, processing a group, listing and deleting
//! files) is an event; each decision is an action.
use vstd::prelude::*;
use crate::assets::{
    AssetSessionPlan, NoriskClientAssetsDownloadService, dedup_first, record_group_paths,
    unique_asset_ids,
};
use crate::asset_tree::{deletion_ordered, orphan_deletion_order, paths_view};
use crate::group_flow::GroupStage;
use crate::paths::{FsPath, PathView, strings_view};
use crate::text::str_concat;

verus! {

/// What a failed pack resolution reports, before the pack id.
pub const RESOLVE_FAILURE_PREFIX: &'static str = "Failed to resolve pack definition ";

/// What a failed asset group reports, before the group id.
pub const GROUP_FAILURE_PREFIX: &'static str = "Error processing asset group: ";

/// Where the asset run of a profile stands.
#[derive(PartialEq, Eq, Structural)]
pub enum ProfileRunStage {
    /// Nothing decided yet.
    NotStarted,
    /// Waiting for the pack definition of the main pack.
    ResolvingPack,
    /// Waiting for the outcome of the group at `next_group`.
    ProcessingGroups,
    /// Waiting for the list of files under the game's asset directory.
    ScanningOrphans,
    /// Waiting for the orphaned files to be deleted.
    DeletingOrphans,
    /// The run is over.
    Finished,
}

/// The state of the asset run of a profile.
pub struct ProfileRunState {
    pub stage: ProfileRunStage,
    /// The pack the profile selects.
    pub main_pack_id: String,
    /// Whether the profile keeps its local asset files (no cleanup).
    pub keep_local_assets: bool,
    /// The asset groups to process, in order.
    pub groups: Vec<String>,
    /// How many groups have been processed.
    pub next_group: usize,
    /// The paths that the successfully processed groups account for.
    pub expected: Vec<FsPath>,
}

/// The outcome of the outside work that the last action asked for.
pub enum ProfileRunEvent {
    /// The run begins with the session decided for the profile.
    Started(AssetSessionPlan),
    /// The main pack was resolved to its asset group ids, or its resolution
    /// failed with the given message.
    PackResolved(Result<Vec<String>, String>),
    /// The current group ended in `stage`; `paths` are the paths it accounts
    /// for when it finished.
    GroupProcessed { stage: GroupStage, paths: Vec<FsPath> },
    /// The files and directories found under the game's asset directory.
    OrphansFound(Vec<FsPath>),
    /// The orphaned files were deleted (each removal attempted).
    OrphansDeleted,
}

/// What the run does next.
pub enum ProfileRunAction {
    /// Nothing to do for this profile: the run ends with success.
    Skip,
    /// Resolve the pack definition of this pack.
    ResolvePack(String),
    /// Process the asset group at `index`.
    ProcessGroup { index: usize, asset_id: String },
    /// List the files under the game's asset directory.
    FindOrphans,
    /// Delete these paths, in this order.
    DeleteOrphans(Vec<FsPath>),
    /// The run ends with this error.
    Fail(String),
    /// The run ends with success, after reporting its completion.
    Complete,
    /// The event does not belong to the current stage: nothing changes.
    Ignore,
}

/// One decision of the run: the new state, the failure to report for the
/// group that just ended (if it failed), and the next action.
pub struct ProfileRunStep {
    pub state: ProfileRunState,
    pub group_failure: Option<String>,
    pub action: ProfileRunAction,
}

impl ProfileRunState {
    /// Every state the run passes through: the group counter stays within the
    /// groups, points at a group while one is processed, and no expected path
    /// is recorded twice.
    pub open spec fn wf(self) -> bool {
        &&& self.next_group <= self.groups@.len()
        &&& self.stage == ProfileRunStage::ProcessingGroups ==> self.next_group < self.groups@.len()
        &&& paths_view(self.expected@).no_duplicates()
    }

    /// The state before the first event.
    pub fn new() -> (r: Self)
        ensures
            r.wf(),
            r.stage == ProfileRunStage::NotStarted,
            r.main_pack_id@.len() == 0,
            !r.keep_local_assets,
            r.groups@.len() == 0,
            r.next_group == 0,
            r.expected@.len() == 0,
    {
        ProfileRunState {
            stage: ProfileRunStage::NotStarted,
            main_pack_id: String::new(),
            keep_local_assets: false,
            groups: Vec::new(),
            next_group: 0,
            expected: Vec::new(),
        }
    }
}

/// `a` holds the same run data as `b` (everything but the stage).
pub open spec fn same_run_data(a: ProfileRunState, b: ProfileRunState) -> bool {
    &&& a.main_pack_id == b.main_pack_id
    &&& a.keep_local_assets == b.keep_local_assets
    &&& a.groups == b.groups
    &&& a.next_group == b.next_group
    &&& a.expected == b.expected
}

/// What follows once the groups so far are done: the next group while one
/// is left; then, when the profile keeps its local assets, the end of the
/// run; otherwise the search for orphaned files.
pub open spec fn advance_ok(st: ProfileRunState, a: ProfileRunAction) -> bool {
    if st.next_group < st.groups@.len() {
        &&& st.stage == ProfileRunStage::ProcessingGroups
        &&& a matches ProfileRunAction::ProcessGroup { index, asset_id }
        &&& index == st.next_group
        &&& asset_id@ == st.groups@[st.next_group as int]@
    } else if st.keep_local_assets {
        st.stage == ProfileRunStage::Finished && a is Complete
    } else {
        st.stage == ProfileRunStage::ScanningOrphans && a is FindOrphans
    }
}

/// An event that does not belong to the stage changes nothing.
pub open spec fn ignored(s: ProfileRunState, r: ProfileRunStep) -> bool {
    r.state == s && r.group_failure is None && r.action is Ignore
}

/// The decision of the run in state `s` on event `e`.
pub open spec fn profile_step_ok(s: ProfileRunState, e: ProfileRunEvent, r: ProfileRunStep) -> bool {
    match e {
        ProfileRunEvent::Started(plan) => if s.stage == ProfileRunStage::NotStarted {
            match plan {
                AssetSessionPlan::Start(session) => {
                    &&& r.state.stage == ProfileRunStage::ResolvingPack
                    &&& r.state.main_pack_id@ == session.main_pack_id@
                    &&& r.state.keep_local_assets == session.keep_local_assets
                    &&& r.state.groups@.len() == 0
                    &&& r.state.next_group == 0
                    &&& r.state.expected@.len() == 0
                    &&& r.group_failure is None
                    &&& r.action matches ProfileRunAction::ResolvePack(id)
                    &&& id@ == session.main_pack_id@
                },
                _ => {
                    &&& r.state.stage == ProfileRunStage::Finished
                    &&& same_run_data(r.state, s)
                    &&& r.group_failure is None
                    &&& r.action is Skip
                },
            }
        } else {
            ignored(s, r)
        },
        ProfileRunEvent::PackResolved(res) => if s.stage == ProfileRunStage::ResolvingPack {
            match res {
                Err(msg) => {
                    &&& r.state.stage == ProfileRunStage::Finished
                    &&& same_run_data(r.state, s)
                    &&& r.group_failure is None
                    &&& r.action matches ProfileRunAction::Fail(m)
                    &&& m@ == RESOLVE_FAILURE_PREFIX@ + s.main_pack_id@ + ": "@ + msg@
                },
                Ok(ids) => {
                    &&& strings_view(r.state.groups@) == dedup_first(
                        seq![s.main_pack_id@] + strings_view(ids@),
                    )
                    &&& r.state.next_group == 0
                    &&& r.state.main_pack_id == s.main_pack_id
                    &&& r.state.keep_local_assets == s.keep_local_assets
                    &&& r.state.expected == s.expected
                    &&& r.group_failure is None
                    &&& advance_ok(r.state, r.action)
                },
            }
        } else {
            ignored(s, r)
        },
        ProfileRunEvent::GroupProcessed { stage, paths } => if s.stage
            == ProfileRunStage::ProcessingGroups {
            &&& r.state.main_pack_id == s.main_pack_id
            &&& r.state.keep_local_assets == s.keep_local_assets
            &&& r.state.groups == s.groups
            &&& r.state.next_group == s.next_group + 1
            &&& forall|p: PathView|
                #![trigger paths_view(r.state.expected@).contains(p)]
                paths_view(r.state.expected@).contains(p) <==> (paths_view(s.expected@).contains(p)
                    || (stage == GroupStage::Done && paths_view(paths@).contains(p)))
            &&& stage == GroupStage::Failed ==> (r.group_failure matches Some(m) && m@
                == GROUP_FAILURE_PREFIX@ + s.groups@[s.next_group as int]@)
            &&& stage != GroupStage::Failed ==> r.group_failure is None
            &&& advance_ok(r.state, r.action)
        } else {
            ignored(s, r)
        },
        ProfileRunEvent::OrphansFound(found) => if s.stage == ProfileRunStage::ScanningOrphans {
            &&& r.state.stage == ProfileRunStage::DeletingOrphans
            &&& same_run_data(r.state, s)
            &&& r.group_failure is None
            &&& r.action matches ProfileRunAction::DeleteOrphans(order)
            &&& forall|p: PathView|
                paths_view(order@).contains(p) <==> (paths_view(found@).contains(p)
                    && !paths_view(s.expected@).contains(p))
            &&& deletion_ordered(paths_view(order@))
            &&& paths_view(found@).no_duplicates() ==> paths_view(order@).no_duplicates()
        } else {
            ignored(s, r)
        },
        ProfileRunEvent::OrphansDeleted => if s.stage == ProfileRunStage::DeletingOrphans {
            &&& r.state.stage == ProfileRunStage::Finished
            &&& same_run_data(r.state, s)
            &&& r.group_failure is None
            &&& r.action is Complete
        } else {
            ignored(s, r)
        },
    }
}

fn ignore(state: ProfileRunState) -> (r: ProfileRunStep)
    ensures
        ignored(state, r),
{
    ProfileRunStep { state, group_failure: None, action: ProfileRunAction::Ignore }
}

/// Moves on after the groups so far: to the next group, or past the last one.
fn advance(st: ProfileRunState, group_failure: Option<String>) -> (r: ProfileRunStep)
    requires
        st.next_group <= st.groups@.len(),
    ensures
        same_run_data(r.state, st),
        r.group_failure == group_failure,
        advance_ok(r.state, r.action),
{
    let mut st = st;
    if st.next_group < st.groups.len() {
        let index = st.next_group;
        let asset_id = st.groups[index].clone();
        st.stage = ProfileRunStage::ProcessingGroups;
        ProfileRunStep { state: st, group_failure, action: ProfileRunAction::ProcessGroup { index, asset_id } }
    } else if st.keep_local_assets {
        st.stage = ProfileRunStage::Finished;
        ProfileRunStep { state: st, group_failure, action: ProfileRunAction::Complete }
    } else {
        st.stage = ProfileRunStage::ScanningOrphans;
        ProfileRunStep { state: st, group_failure, action: ProfileRunAction::FindOrphans }
    }
}

impl NoriskClientAssetsDownloadService {
    /// One decision of the asset run of a profile. The run starts from the
    /// session decided for the profile (no pack, no account or no token: it
    /// ends at once with success); it resolves the main pack, whose failure
    /// ends the run with "Failed to resolve pack definition <pack>: <error>"
    /// before anything else happens; it processes the main pack and the
    /// pack's asset groups, each once, in order of first mention; a failed
    /// group is reported and the run goes on with the next; the paths of the
    /// groups that finished are kept; then, unless the profile keeps its
    /// local assets, every other path found under the game's asset directory
    /// is deleted, children first; the run ends with success.
    pub fn download_nrc_assets_for_profile(&self, state: ProfileRunState, event: ProfileRunEvent) -> (r:
        ProfileRunStep)
        requires
            state.wf(),
        ensures
            r.state.wf(),
            profile_step_ok(state, event, r),
    {
        match event {
            ProfileRunEvent::Started(plan) => {
                if !(state.stage == ProfileRunStage::NotStarted) {
                    return ignore(state);
                }
                match plan {
                    AssetSessionPlan::Start(session) => {
                        let id = session.main_pack_id.clone();
                        ProfileRunStep {
                            state: ProfileRunState {
                                stage: ProfileRunStage::ResolvingPack,
                                main_pack_id: session.main_pack_id,
                                keep_local_assets: session.keep_local_assets,
                                groups: Vec::new(),
                                next_group: 0,
                                expected: Vec::new(),
                            },
                            group_failure: None,
                            action: ProfileRunAction::ResolvePack(id),
                        }
                    },
                    _ => {
                        let mut st = state;
                        st.stage = ProfileRunStage::Finished;
                        ProfileRunStep { state: st, group_failure: None, action: ProfileRunAction::Skip }
                    },
                }
            },
            ProfileRunEvent::PackResolved(res) => {
                if !(state.stage == ProfileRunStage::ResolvingPack) {
                    return ignore(state);
                }
                match res {
                    Err(msg) => {
                        let mut m = str_concat(RESOLVE_FAILURE_PREFIX, state.main_pack_id.as_str());
                        m.append(": ");
                        m.append(msg.as_str());
                        let mut st = state;
                        st.stage = ProfileRunStage::Finished;
                        ProfileRunStep { state: st, group_failure: None, action: ProfileRunAction::Fail(m) }
                    },
                    Ok(ids) => {
                        let ghost ids_view = strings_view(ids@);
                        let mut all = ids;
                        all.insert(0, state.main_pack_id.clone());
                        proof {
                            assert(strings_view(all@) =~= seq![state.main_pack_id@] + ids_view);
                        }
                        let groups = unique_asset_ids(&all);
                        let mut st = state;
                        st.groups = groups;
                        st.next_group = 0;
                        advance(st, None)
                    },
                }
            },
            ProfileRunEvent::GroupProcessed { stage, paths } => {
                if !(state.stage == ProfileRunStage::ProcessingGroups) {
                    return ignore(state);
                }
                let failed = stage == GroupStage::Failed;
                let group_failure = if failed {
                    Some(str_concat(GROUP_FAILURE_PREFIX, state.groups[state.next_group].as_str()))
                } else {
                    None
                };
                let count = state.groups.len();
                assert(state.next_group < count);
                let ProfileRunState {
                    stage: _,
                    main_pack_id,
                    keep_local_assets,
                    groups,
                    next_group,
                    expected,
                } = state;
                let expected = record_group_paths(expected, stage, &paths);
                let st = ProfileRunState {
                    stage: ProfileRunStage::ProcessingGroups,
                    main_pack_id,
                    keep_local_assets,
                    groups,
                    next_group: next_group + 1,
                    expected,
                };
                advance(st, group_failure)
            },
            ProfileRunEvent::OrphansFound(found) => {
                if !(state.stage == ProfileRunStage::ScanningOrphans) {
                    return ignore(state);
                }
                let order = orphan_deletion_order(&found, &state.expected);
                let mut st = state;
                st.stage = ProfileRunStage::DeletingOrphans;
                ProfileRunStep { state: st, group_failure: None, action: ProfileRunAction::DeleteOrphans(order) }
            },
            ProfileRunEvent::OrphansDeleted => {
                if !(state.stage == ProfileRunStage::DeletingOrphans) {
                    return ignore(state);
                }
                let mut st = state;
                st.stage = ProfileRunStage::Finished;
                ProfileRunStep { state: st, group_failure: None, action: ProfileRunAction::Complete }
            },
        }
    }
}

/// Whether `p` is a path of a group that finished, among the first `n`.
pub open spec fn finished_group_path(stages: Seq<GroupStage>, paths: Seq<Vec<FsPath>>, n: int, p: PathView) -> bool {
    exists|i: int| 0 <= i < n && stages[i] == GroupStage::Done && #[trigger] paths_view(paths[i]@).contains(p)
}

/// A run only fails when the pack cannot be resolved: no other event ends
/// the run with an error, so a failed group, an empty one or the cleanup
/// never does.
pub proof fn lemma_fails_only_on_resolution(s: ProfileRunState, e: ProfileRunEvent, r: ProfileRunStep)
    requires
        profile_step_ok(s, e, r),
        r.action is Fail,
    ensures
        s.stage == ProfileRunStage::ResolvingPack,
        e matches ProfileRunEvent::PackResolved(res) && res is Err,
{
}

/// Over a run of groups, starting with no expected path, the cleanup keeps
/// exactly the paths of the groups that finished: a path is expected after
/// the groups exactly when one of the finished groups accounts for it;
/// failed, empty and unfinished groups add nothing.
pub proof fn lemma_expected_paths_of_finished_groups(
    states: Seq<ProfileRunState>,
    stages: Seq<GroupStage>,
    paths: Seq<Vec<FsPath>>,
    steps: Seq<ProfileRunStep>,
)
    requires
        states.len() == stages.len() + 1,
        paths.len() == stages.len(),
        steps.len() == stages.len(),
        states[0].expected@.len() == 0,
        forall|i: int|
            0 <= i < stages.len() ==> #[trigger] states[i].stage == ProfileRunStage::ProcessingGroups,
        forall|i: int|
            0 <= i < stages.len() ==> profile_step_ok(
                states[i],
                ProfileRunEvent::GroupProcessed { stage: stages[i], paths: paths[i] },
                #[trigger] steps[i],
            ),
        forall|i: int| 0 <= i < stages.len() ==> #[trigger] steps[i].state == states[i + 1],
    ensures
        forall|p: PathView|
            paths_view(states[stages.len() as int].expected@).contains(p) <==> finished_group_path(
                stages,
                paths,
                stages.len() as int,
                p,
            ),
    decreases stages.len(),
{
    let n = stages.len() as int;
    if n == 0 {
        assert forall|p: PathView|
            paths_view(states[0].expected@).contains(p) <==> finished_group_path(stages, paths, 0, p) by {
            assert(paths_view(states[0].expected@).len() == 0);
        }
    } else {
        let m = n - 1;
        lemma_expected_paths_of_finished_groups(
            states.take(n),
            stages.take(m),
            paths.take(m),
            steps.take(m),
        );
        assert(states[m].stage == ProfileRunStage::ProcessingGroups);
        assert(steps[m].state == states[n]);
        assert(profile_step_ok(
            states[m],
            ProfileRunEvent::GroupProcessed { stage: stages[m], paths: paths[m] },
            steps[m],
        ));
        assert forall|p: PathView|
            paths_view(states[n].expected@).contains(p) <==> finished_group_path(stages, paths, n, p) by {
            assert(states.take(n)[m] == states[m]);
            assert(paths_view(states.take(n)[m].expected@).contains(p) <==> finished_group_path(
                stages.take(m),
                paths.take(m),
                m,
                p,
            ));
            let ev = ProfileRunEvent::GroupProcessed { stage: stages[m], paths: paths[m] };
            assert(profile_step_ok(states[m], ev, steps[m]));
            assert(paths_view(steps[m].state.expected@).contains(p) <==> (paths_view(states[m].expected@).contains(p)
                || (stages[m] == GroupStage::Done && paths_view(paths[m]@).contains(p))));
            assert(paths_view(states[n].expected@).contains(p) <==> (paths_view(states[m].expected@).contains(p)
                || (stages[m] == GroupStage::Done && paths_view(paths[m]@).contains(p))));
            if stages[m] == GroupStage::Done && paths_view(paths[m]@).contains(p) {
                assert(finished_group_path(stages, paths, n, p));
            }
            if finished_group_path(stages.take(m), paths.take(m), m, p) {
                let i = choose|i: int|
                    0 <= i < m && stages.take(m)[i] == GroupStage::Done && #[trigger] paths_view(
                        paths.take(m)[i]@,
                    ).contains(p);
                assert(paths.take(m)[i] == paths[i]);
                assert(stages.take(m)[i] == stages[i]);
                assert(paths_view(paths[i]@).contains(p));
                assert(finished_group_path(stages, paths, n, p));
            }
            if finished_group_path(stages, paths, n, p) {
                let i = choose|i: int|
                    0 <= i < n && stages[i] == GroupStage::Done && #[trigger] paths_view(paths[i]@).contains(p);
                if i < m {
                    assert(paths.take(m)[i] == paths[i]);
                    assert(stages.take(m)[i] == stages[i]);
                    assert(paths_view(paths.take(m)[i]@).contains(p));
                    assert(finished_group_path(stages.take(m), paths.take(m), m, p));
                }
            }
        }
    }
}

} // verus!
