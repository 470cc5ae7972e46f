//! Caching the mods of a NoRisk pack as a sequence of decisions: the pack is
//! resolved first (a failure ends the run before any transfer), then the file
//! name of each compatible mod is asked for, then every compatible mod is
//! fetched, and the outcomes combine into the result.
use vstd::prelude::*;
use crate::outcome::{DownloadRequest, first_failure, is_first_failure};
use crate::pack::{
    CompatibilityTarget, MOD_RETRIES, ModEntry, ModSource, NoriskPackDownloadService, PackDefinition,
    PackError, compatible_indices, find_entry, mod_cache_dir, mod_display_name, mod_url, target_for,
};
use crate::paths::{FsPath, join_path};

verus! {

/// Where the caching of a pack's mods stands.
#[derive(PartialEq, Eq, Structural)]
pub enum PackRunStage {
    /// Waiting for the pack definition.
    NotStarted,
    /// Waiting for the file names of the compatible mods.
    ResolvingFilenames,
    /// Waiting for the outcomes of the transfers.
    Fetching,
    /// The run is over.
    Finished,
}

/// A compatible mod: its index in the pack and its target for the
/// Minecraft version and loader.
pub struct ModFileQuery {
    pub index: usize,
    pub target: CompatibilityTarget,
}

/// The state of the caching of a pack's mods.
pub struct PackRunState {
    pub stage: PackRunStage,
    pub minecraft_version: String,
    pub loader: String,
    /// The mod cache directory.
    pub cache_dir: FsPath,
    /// The mods of the resolved pack.
    pub mods: Vec<ModEntry>,
    /// The Maven repositories of the pack configuration, by reference.
    pub repositories: Vec<(String, String)>,
    /// The compatible mods, in pack order.
    pub selected: Vec<ModFileQuery>,
}

/// The outcome of the outside work that the last action asked for.
pub enum PackRunEvent<E> {
    /// The pack definition (or why it could not be resolved) and the
    /// repositories of the configuration.
    PackResolved { pack: Result<PackDefinition, E>, repositories: Vec<(String, String)> },
    /// The file name of each selected mod, in the order asked for.
    FilenamesResolved(Vec<Result<String, E>>),
    /// The outcome of each transfer, in the order the transfers ended.
    ModsFetched(Vec<Result<(), E>>),
}

/// Why a mod is not fetched.
pub enum ModFetchError<E> {
    /// Its file name could not be determined.
    Filename(E),
    /// Its source cannot be reached.
    Repository(PackError),
}

/// The transfer of one compatible mod, or why there is none.
pub struct ModFetch<E> {
    /// The name the mod is reported under.
    pub display_name: String,
    pub request: Result<DownloadRequest, ModFetchError<E>>,
}

/// What the run does next.
pub enum PackRunAction<E> {
    /// The run ends with this error; nothing is fetched.
    Fail(E),
    /// Determine the file name of each of these mods.
    ResolveFilenames(Vec<ModFileQuery>),
    /// Run each of these transfers (each entry without a request counts as
    /// a failed transfer with its error).
    Fetch(Vec<ModFetch<E>>),
    /// The run ends with this result.
    Finish(Result<(), E>),
    /// The event does not belong to the current stage: nothing changes.
    Ignore,
}

/// One decision of the run.
pub struct PackRunStep<E> {
    pub state: PackRunState,
    pub action: PackRunAction<E>,
}

/// A target as plain values.
pub open spec fn target_view(t: CompatibilityTarget) -> (Seq<char>, Option<Seq<char>>) {
    (
        t.identifier@,
        match t.filename {
            Some(f) => Some(f@),
            None => None,
        },
    )
}

/// The name a mod is reported under.
pub open spec fn display_view(entry: ModEntry) -> Seq<char> {
    match entry.display_name {
        Some(d) => d@,
        None => entry.id@,
    }
}

/// `sel` lists the compatible mods of `mods`, in order, each with its target.
pub open spec fn selection_ok(
    mods: Seq<ModEntry>,
    minecraft_version: Seq<char>,
    loader: Seq<char>,
    sel: Seq<ModFileQuery>,
) -> bool {
    &&& sel.len() == compatible_indices(mods, minecraft_version, loader).len()
    &&& forall|k: int|
        0 <= k < sel.len() ==> {
            &&& #[trigger] sel[k].index as int == compatible_indices(mods, minecraft_version, loader)[k]
            &&& 0 <= sel[k].index < mods.len()
            &&& target_for(mods[sel[k].index as int], minecraft_version, loader) matches Some(t)
                && target_view(sel[k].target) == target_view(t)
        }
}

/// The transfer of a mod with target `target`, given the outcome of the
/// file-name lookup: the lookup's error; the repository error when the mod's
/// Maven repository is not configured; otherwise the streamed, thrice
/// retried transfer from the mod's URL to `cache_dir/filename`, without a
/// checksum.
pub open spec fn fetch_ok<E>(
    repositories: Seq<(String, String)>,
    cache_dir: FsPath,
    entry: ModEntry,
    target: CompatibilityTarget,
    filename: Result<String, E>,
    f: ModFetch<E>,
) -> bool {
    &&& f.display_name@ == display_view(entry)
    &&& match filename {
        Err(e) => f.request == Err::<DownloadRequest, ModFetchError<E>>(ModFetchError::Filename(e)),
        Ok(name) => match mod_url(repositories, entry.source, target.identifier@, name@) {
            Some(u) => f.request matches Ok(req) && {
                &&& req.url@ == u
                &&& req.target@ == join_path(cache_dir@, name@)
                &&& req.expected_size is None
                &&& req.expected_sha1 is None
                &&& req.streaming
                &&& req.retries == MOD_RETRIES
            },
            None => f.request matches Err(ModFetchError::Repository(err)) && err matches PackError::RepositoryNotFound {
                repository_ref: rr,
                display_name: d,
            } && entry.source matches ModSource::Maven { repository_ref, .. } && rr@ == repository_ref@
                && d@ == display_view(entry),
        },
    }
}

proof fn lemma_compatible_indices_exact(mods: Seq<ModEntry>, minecraft_version: Seq<char>, loader: Seq<char>)
    ensures
        forall|k: int|
            0 <= k < compatible_indices(mods, minecraft_version, loader).len() ==> {
                let i = #[trigger] compatible_indices(mods, minecraft_version, loader)[k];
                0 <= i < mods.len() && target_for(mods[i], minecraft_version, loader) is Some
            },
        forall|k1: int, k2: int|
            0 <= k1 < k2 < compatible_indices(mods, minecraft_version, loader).len() ==> #[trigger] compatible_indices(
                mods,
                minecraft_version,
                loader,
            )[k1] < #[trigger] compatible_indices(mods, minecraft_version, loader)[k2],
        forall|i: int|
            0 <= i < mods.len() && #[trigger] target_for(mods[i], minecraft_version, loader) is Some ==> exists|k: int|
                0 <= k < compatible_indices(mods, minecraft_version, loader).len() && #[trigger] compatible_indices(
                    mods,
                    minecraft_version,
                    loader,
                )[k] == i,
    decreases mods.len(),
{
    if mods.len() > 0 {
        let t = mods.drop_last();
        lemma_compatible_indices_exact(t, minecraft_version, loader);
        let d = compatible_indices(t, minecraft_version, loader);
        let c = compatible_indices(mods, minecraft_version, loader);
        assert forall|i: int| 0 <= i < t.len() implies t[i] == mods[i] by {}
        let n = mods.len() - 1;
        if target_for(mods.last(), minecraft_version, loader) is Some {
            assert(c == d.push(n));
            assert forall|i: int|
                0 <= i < mods.len() && #[trigger] target_for(mods[i], minecraft_version, loader) is Some implies exists|k: int|
                    0 <= k < c.len() && #[trigger] c[k] == i by {
                if i < n {
                    assert(t[i] == mods[i]);
                    assert(target_for(t[i], minecraft_version, loader) is Some);
                    let k = choose|k: int| 0 <= k < d.len() && #[trigger] d[k] == i;
                    assert(c[k] == i);
                } else {
                    assert(c[d.len() as int] == i);
                }
            }
            assert forall|k: int| 0 <= k < c.len() implies {
                let i = #[trigger] c[k];
                0 <= i < mods.len() && target_for(mods[i], minecraft_version, loader) is Some
            } by {
                if k < d.len() {
                    assert(c[k] == d[k]);
                    assert(t[d[k]] == mods[d[k]]);
                }
            }
            assert forall|k1: int, k2: int| 0 <= k1 < k2 < c.len() implies #[trigger] c[k1] < #[trigger] c[k2] by {
                assert(c[k1] == d[k1]);
                if k2 < d.len() {
                    assert(c[k2] == d[k2]);
                } else {
                    assert(d[k1] < n);
                }
            }
        } else {
            assert(c == d);
            assert forall|i: int|
                0 <= i < mods.len() && #[trigger] target_for(mods[i], minecraft_version, loader) is Some implies exists|k: int|
                    0 <= k < c.len() && #[trigger] c[k] == i by {
                assert(i < n);
                assert(t[i] == mods[i]);
                assert(target_for(t[i], minecraft_version, loader) is Some);
            }
            assert forall|k: int| 0 <= k < c.len() implies {
                let i = #[trigger] c[k];
                0 <= i < mods.len() && target_for(mods[i], minecraft_version, loader) is Some
            } by {
                assert(t[d[k]] == mods[d[k]]);
            }
        }
    }
}

/// The selection of a pack's mods is exact: a mod is selected exactly when it
/// has a target for the Minecraft version and loader, whatever its id,
/// display name or source; the selected mods come in pack order, each once,
/// each with its own target.
pub proof fn lemma_selection_exact(
    mods: Seq<ModEntry>,
    minecraft_version: Seq<char>,
    loader: Seq<char>,
    sel: Seq<ModFileQuery>,
)
    requires
        selection_ok(mods, minecraft_version, loader, sel),
    ensures
        forall|i: int|
            0 <= i < mods.len() ==> ((exists|k: int| 0 <= k < sel.len() && #[trigger] sel[k].index == i)
                <==> #[trigger] target_for(mods[i], minecraft_version, loader) is Some),
        forall|k1: int, k2: int| 0 <= k1 < k2 < sel.len() ==> #[trigger] sel[k1].index < #[trigger] sel[k2].index,
        forall|k: int|
            0 <= k < sel.len() ==> (target_for(mods[#[trigger] sel[k].index as int], minecraft_version, loader) matches Some(
                t,
            ) && target_view(sel[k].target) == target_view(t)),
{
    lemma_compatible_indices_exact(mods, minecraft_version, loader);
    let c = compatible_indices(mods, minecraft_version, loader);
    assert forall|i: int| 0 <= i < mods.len() implies ((exists|k: int| 0 <= k < sel.len() && #[trigger] sel[k].index == i)
        <==> #[trigger] target_for(mods[i], minecraft_version, loader) is Some) by {
        if target_for(mods[i], minecraft_version, loader) is Some {
            let k = choose|k: int| 0 <= k < c.len() && #[trigger] c[k] == i;
            assert(sel[k].index as int == c[k]);
        }
        if exists|k: int| 0 <= k < sel.len() && #[trigger] sel[k].index == i {
            let k = choose|k: int| 0 <= k < sel.len() && #[trigger] sel[k].index == i;
            assert(sel[k].index as int == c[k]);
        }
    }
    assert forall|k1: int, k2: int| 0 <= k1 < k2 < sel.len() implies #[trigger] sel[k1].index < #[trigger] sel[k2].index by {
        assert(sel[k1].index as int == c[k1]);
        assert(sel[k2].index as int == c[k2]);
    }
}

impl PackRunState {
    /// Every state the run passes through: each selected mod is a mod of
    /// the pack.
    pub open spec fn wf(self) -> bool {
        forall|k: int| 0 <= k < self.selected@.len() ==> #[trigger] self.selected@[k].index < self.mods@.len()
    }

    /// The state before the pack is resolved, for a Minecraft version and
    /// loader, with the mod cache under `meta_dir`.
    pub fn new(meta_dir: &FsPath, minecraft_version: &str, loader: &str) -> (r: Self)
        ensures
            r.wf(),
            r.stage == PackRunStage::NotStarted,
            r.minecraft_version@ == minecraft_version@,
            r.loader@ == loader@,
            r.cache_dir@ == join_path(meta_dir@, crate::pack::MOD_CACHE_DIR_NAME@),
            r.mods@.len() == 0,
            r.repositories@.len() == 0,
            r.selected@.len() == 0,
    {
        PackRunState {
            stage: PackRunStage::NotStarted,
            minecraft_version: minecraft_version.to_owned(),
            loader: loader.to_owned(),
            cache_dir: mod_cache_dir(meta_dir),
            mods: Vec::new(),
            repositories: Vec::new(),
            selected: Vec::new(),
        }
    }
}

impl CompatibilityTarget {
    /// A copy of the target.
    pub fn duplicate(&self) -> (r: Self)
        ensures
            target_view(r) == target_view(*self),
    {
        CompatibilityTarget {
            identifier: self.identifier.clone(),
            filename: match &self.filename {
                Some(f) => Some(f.clone()),
                None => None,
            },
        }
    }
}

/// The mods of `mods` that have a target for a Minecraft version and loader,
/// in order, each with that target; the others are skipped.
pub fn compatible_mod_targets(mods: &Vec<ModEntry>, minecraft_version: &str, loader: &str) -> (r: Vec<
    ModFileQuery,
>)
    ensures
        selection_ok(mods@, minecraft_version@, loader@, r@),
{
    let mut r: Vec<ModFileQuery> = Vec::new();
    let mut i: usize = 0;
    while i < mods.len()
        invariant
            i <= mods.len(),
            selection_ok(mods@.take(i as int), minecraft_version@, loader@, r@),
            forall|k: int| 0 <= k < r@.len() ==> #[trigger] r@[k].index < i,
        decreases mods.len() - i,
    {
        let entry = &mods[i];
        let ghost before = compatible_indices(mods@.take(i as int), minecraft_version@, loader@);
        let ghost r0 = r@;
        proof {
            assert(mods@.take(i + 1).drop_last() =~= mods@.take(i as int));
            assert(mods@.take(i + 1).last() == *entry);
            assert forall|k: int| 0 <= k < r0.len() implies mods@.take(i + 1)[r0[k].index as int] == mods@.take(
                i as int,
            )[r0[k].index as int] by {
                assert(r0[k].index < i);
            }
        }
        let found = match find_entry(&entry.compatibility, minecraft_version) {
            Some(loaders) => find_entry(loaders, loader),
            None => None,
        };
        match found {
            Some(t) => {
                let q = ModFileQuery { index: i, target: t.duplicate() };
                r.push(q);
                proof {
                    let after = compatible_indices(mods@.take(i + 1), minecraft_version@, loader@);
                    assert(after == before.push(i as int));
                    assert forall|k: int| 0 <= k < r@.len() implies {
                        &&& #[trigger] r@[k].index as int == after[k]
                        &&& 0 <= r@[k].index < mods@.take(i + 1).len()
                        &&& target_for(mods@.take(i + 1)[r@[k].index as int], minecraft_version@, loader@) matches Some(tt)
                            && target_view(r@[k].target) == target_view(tt)
                    } by {
                        if k < r0.len() {
                            assert(after[k] == before[k]);
                            assert(r@[k] == r0[k]);
                        }
                    }
                }
            },
            None => {
                proof {
                    assert(compatible_indices(mods@.take(i + 1), minecraft_version@, loader@) == before);
                }
            },
        }
        i = i + 1;
    }
    proof {
        assert(mods@.take(mods.len() as int) =~= mods@);
    }
    r
}

/// An event that does not belong to the stage changes nothing.
pub open spec fn pack_ignored<E>(s: PackRunState, r: PackRunStep<E>) -> bool {
    r.state == s && r.action is Ignore
}

/// The decision of the run in state `s` on event `e`.
pub open spec fn pack_step_ok<E>(s: PackRunState, e: PackRunEvent<E>, r: PackRunStep<E>) -> bool {
    match e {
        PackRunEvent::PackResolved { pack, repositories } => if s.stage == PackRunStage::NotStarted {
            match pack {
                Err(err) => {
                    &&& r.state == PackRunState { stage: PackRunStage::Finished, ..s }
                    &&& r.action == PackRunAction::<E>::Fail(err)
                },
                Ok(def) => {
                    &&& r.state.stage == PackRunStage::ResolvingFilenames
                    &&& r.state.minecraft_version == s.minecraft_version
                    &&& r.state.loader == s.loader
                    &&& r.state.cache_dir == s.cache_dir
                    &&& r.state.mods == def.mods
                    &&& r.state.repositories == repositories
                    &&& selection_ok(def.mods@, s.minecraft_version@, s.loader@, r.state.selected@)
                    &&& r.action matches PackRunAction::ResolveFilenames(queries)
                    &&& queries@.len() == r.state.selected@.len()
                    &&& forall|k: int|
                        0 <= k < queries@.len() ==> #[trigger] queries@[k].index == r.state.selected@[k].index
                            && target_view(queries@[k].target) == target_view(r.state.selected@[k].target)
                },
            }
        } else {
            pack_ignored(s, r)
        },
        PackRunEvent::FilenamesResolved(names) => if s.stage == PackRunStage::ResolvingFilenames
            && names@.len() == s.selected@.len() {
            &&& r.state == PackRunState { stage: PackRunStage::Fetching, ..s }
            &&& r.action matches PackRunAction::Fetch(fetches)
            &&& fetches@.len() == s.selected@.len()
            &&& forall|k: int|
                0 <= k < fetches@.len() ==> fetch_ok(
                    s.repositories@,
                    s.cache_dir,
                    s.mods@[s.selected@[k].index as int],
                    s.selected@[k].target,
                    names@[k],
                    #[trigger] fetches@[k],
                )
        } else {
            pack_ignored(s, r)
        },
        PackRunEvent::ModsFetched(outcomes) => if s.stage == PackRunStage::Fetching
            && outcomes@.len() == s.selected@.len() {
            &&& r.state == PackRunState { stage: PackRunStage::Finished, ..s }
            &&& r.action matches PackRunAction::Finish(res)
            &&& res is Ok <==> forall|i: int| 0 <= i < outcomes@.len() ==> outcomes@[i] is Ok
            &&& res matches Err(err) ==> exists|k: int|
                is_first_failure(outcomes@, k) && outcomes@[k] == Err::<(), E>(err)
        } else {
            pack_ignored(s, r)
        },
    }
}

/// The transfers of the selected mods, given their file names.
fn plan_fetches<E>(
    service: &NoriskPackDownloadService,
    state: &PackRunState,
    names: Vec<Result<String, E>>,
) -> (r: Vec<ModFetch<E>>)
    requires
        state.wf(),
        names@.len() == state.selected@.len(),
    ensures
        r@.len() == state.selected@.len(),
        forall|k: int|
            0 <= k < r@.len() ==> fetch_ok(
                state.repositories@,
                state.cache_dir,
                state.mods@[state.selected@[k].index as int],
                state.selected@[k].target,
                names@[k],
                #[trigger] r@[k],
            ),
{
    let ghost all = names@;
    let mut rest = names;
    let mut r: Vec<ModFetch<E>> = Vec::new();
    let mut k: usize = 0;
    while k < state.selected.len()
        invariant
            state.wf(),
            all.len() == state.selected@.len(),
            k <= state.selected@.len(),
            r@.len() == k,
            rest@ == all.subrange(k as int, all.len() as int),
            forall|j: int|
                0 <= j < k ==> fetch_ok(
                    state.repositories@,
                    state.cache_dir,
                    state.mods@[state.selected@[j].index as int],
                    state.selected@[j].target,
                    all[j],
                    #[trigger] r@[j],
                ),
        decreases state.selected@.len() - k,
    {
        let q = &state.selected[k];
        assert(q.index < state.mods@.len());
        let entry = &state.mods[q.index];
        let display_name = mod_display_name(entry);
        let name = rest.remove(0);
        proof {
            assert(name == all[k as int]);
            assert(rest@ =~= all.subrange(k + 1, all.len() as int));
        }
        let request = match name {
            Err(e) => Err(ModFetchError::Filename(e)),
            Ok(filename) => match service.mod_download_request(
                &state.repositories,
                &entry.source,
                q.target.identifier.as_str(),
                filename.as_str(),
                &state.cache_dir,
                display_name.as_str(),
            ) {
                Ok(req) => Ok(req),
                Err(e) => Err(ModFetchError::Repository(e)),
            },
        };
        r.push(ModFetch { display_name, request });
        k = k + 1;
    }
    r
}

impl NoriskPackDownloadService {
    /// One decision of the caching of a pack's mods. A pack that cannot be
    /// resolved ends the run with its error before any transfer. Otherwise
    /// the mods with a target for the Minecraft version and loader are
    /// selected, in pack order, and their file names asked for; then every
    /// selected mod gets its transfer (or the reason it has none: its file
    /// name's error, or a missing Maven repository), whatever happens to the
    /// others; finally the run's result is `Ok` exactly when every outcome
    /// is, and otherwise the first failure among the outcomes.
    pub fn download_pack_mods_to_cache<E>(&self, state: PackRunState, event: PackRunEvent<E>) -> (r:
        PackRunStep<E>)
        requires
            state.wf(),
        ensures
            r.state.wf(),
            pack_step_ok(state, event, r),
    {
        match event {
            PackRunEvent::PackResolved { pack, repositories } => {
                if !(state.stage == PackRunStage::NotStarted) {
                    return PackRunStep { state, action: PackRunAction::Ignore };
                }
                match pack {
                    Err(err) => {
                        let mut st = state;
                        st.stage = PackRunStage::Finished;
                        PackRunStep { state: st, action: PackRunAction::Fail(err) }
                    },
                    Ok(def) => {
                        let selected = compatible_mod_targets(
                            &def.mods,
                            state.minecraft_version.as_str(),
                            state.loader.as_str(),
                        );
                        let mut queries: Vec<ModFileQuery> = Vec::new();
                        let mut k: usize = 0;
                        while k < selected.len()
                            invariant
                                k <= selected@.len(),
                                queries@.len() == k,
                                forall|j: int|
                                    0 <= j < k ==> #[trigger] queries@[j].index == selected@[j].index
                                        && target_view(queries@[j].target) == target_view(
                                        selected@[j].target,
                                    ),
                            decreases selected@.len() - k,
                        {
                            let q = ModFileQuery {
                                index: selected[k].index,
                                target: selected[k].target.duplicate(),
                            };
                            queries.push(q);
                            k = k + 1;
                        }
                        let PackRunState { stage: _, minecraft_version, loader, cache_dir, mods: _, repositories: _, selected: _ } = state;
                        let st = PackRunState {
                            stage: PackRunStage::ResolvingFilenames,
                            minecraft_version,
                            loader,
                            cache_dir,
                            mods: def.mods,
                            repositories,
                            selected,
                        };
                        PackRunStep { state: st, action: PackRunAction::ResolveFilenames(queries) }
                    },
                }
            },
            PackRunEvent::FilenamesResolved(names) => {
                if !(state.stage == PackRunStage::ResolvingFilenames && names.len() == state.selected.len()) {
                    return PackRunStep { state, action: PackRunAction::Ignore };
                }
                let fetches = plan_fetches(self, &state, names);
                let mut st = state;
                st.stage = PackRunStage::Fetching;
                PackRunStep { state: st, action: PackRunAction::Fetch(fetches) }
            },
            PackRunEvent::ModsFetched(outcomes) => {
                if !(state.stage == PackRunStage::Fetching && outcomes.len() == state.selected.len()) {
                    return PackRunStep { state, action: PackRunAction::Ignore };
                }
                let res = first_failure(outcomes);
                let mut st = state;
                st.stage = PackRunStage::Finished;
                PackRunStep { state: st, action: PackRunAction::Finish(res) }
            },
        }
    }
}

/// The caching of a pack's mods ends with an error before any transfer only
/// when the pack cannot be resolved, and then with that very error; once
/// transfers are planned, the run ends only through the combined outcome.
pub proof fn lemma_pack_fails_only_on_resolution<E>(s: PackRunState, e: PackRunEvent<E>, r: PackRunStep<E>)
    requires
        pack_step_ok(s, e, r),
        r.action is Fail,
    ensures
        s.stage == PackRunStage::NotStarted,
        e matches PackRunEvent::PackResolved { pack, .. } && pack is Err && r.action == PackRunAction::<E>::Fail(
            pack->Err_0,
        ),
{
}

} // verus!
