use norisk_downloads::asset_tree::{
    contains_path, expected_paths_for_group, merge_expected_paths, orphan_deletion_order, shallower,
};
use norisk_downloads::assets::{
    asset_download_url, authorization_header, copy_after_compare, copy_batch_count, copy_check, copy_target,
    target_base_dir, unique_asset_ids, AssetObject, AssetSessionPlan, CopyCheck, Credentials,
    NoriskClientAssetsDownloadService, NoriskCredentials, NoriskInformation, NoriskToken, Profile,
};
use norisk_downloads::paths::FsPath;
use norisk_downloads::profile_run::{ProfileRunAction, ProfileRunEvent, ProfileRunStage, ProfileRunState};

fn show(p: &FsPath) -> String {
    let joined = p.components.join("/");
    if p.absolute {
        format!("/{}", joined)
    } else {
        joined
    }
}

fn shown(v: &Vec<FsPath>) -> Vec<String> {
    let mut s: Vec<String> = v.iter().map(show).collect();
    s.sort();
    s
}

fn meta() -> FsPath {
    FsPath::parse("/home/u/.norisk/meta")
}

fn strings(v: &[&str]) -> Vec<String> {
    v.iter().map(|s| s.to_string()).collect()
}

#[test]
fn assets_service_defaults() {
    let s = NoriskClientAssetsDownloadService::new(&meta());
    assert_eq!(show(&s.base_path), "/home/u/.norisk/meta/assets");
    assert_eq!(s.concurrent_downloads, 12);
    assert_eq!(s.with_concurrent_downloads(2).concurrent_downloads, 2);
}

fn profile(pack: Option<&str>, keep: Option<bool>) -> Profile {
    Profile {
        id: 7,
        selected_norisk_pack_id: pack.map(|p| p.to_string()),
        norisk_information: keep.map(|k| NoriskInformation { keep_local_assets: k }),
    }
}

fn creds(prod: Option<&str>, exp: Option<&str>) -> Credentials {
    Credentials {
        id: 0xa1a2a3a4b1b2c1c2d1d2d3d4d5d6d7d8,
        norisk_credentials: NoriskCredentials {
            production: prod.map(|v| NoriskToken { value: v.to_string() }),
            experimental: exp.map(|v| NoriskToken { value: v.to_string() }),
        },
    }
}

#[test]
fn session_skips_without_pack() {
    let s = NoriskClientAssetsDownloadService::new(&meta());
    let c = creds(Some("p"), None);
    assert!(matches!(s.plan_asset_session(&profile(None, None), Some(&c), false), AssetSessionPlan::NoPackSelected));
    assert!(matches!(s.plan_asset_session(&profile(Some(""), None), Some(&c), false), AssetSessionPlan::NoPackSelected));
}

#[test]
fn session_skips_without_credentials_or_token() {
    let s = NoriskClientAssetsDownloadService::new(&meta());
    let p = profile(Some("norisk-prod"), None);
    assert!(matches!(s.plan_asset_session(&p, None, false), AssetSessionPlan::NoCredentials));
    let c = creds(Some("prod-token"), None);
    assert!(matches!(s.plan_asset_session(&p, Some(&c), true), AssetSessionPlan::NoToken));
}

#[test]
fn session_starts_with_token_and_uuid() {
    let s = NoriskClientAssetsDownloadService::new(&meta());
    let c = creds(Some("prod-token"), Some("exp-token"));
    match s.plan_asset_session(&profile(Some("norisk-prod"), Some(true)), Some(&c), true) {
        AssetSessionPlan::Start(session) => {
            assert_eq!(session.main_pack_id, "norisk-prod");
            assert_eq!(session.norisk_token, "exp-token");
            assert_eq!(session.request_uuid, "a1a2a3a4-b1b2-c1c2-d1d2-d3d4d5d6d7d8");
            assert!(session.keep_local_assets);
        }
        _ => panic!("expected a session"),
    }
    match s.plan_asset_session(&profile(Some("p"), None), Some(&c), false) {
        AssetSessionPlan::Start(session) => {
            assert_eq!(session.norisk_token, "prod-token");
            assert!(!session.keep_local_assets);
        }
        _ => panic!("expected a session"),
    }
}

#[test]
fn asset_ids_are_deduplicated_in_order() {
    let ids = strings(&["nrc-cosmetics", "nrc-ui", "nrc-cosmetics", "nrc-sounds", "nrc-ui"]);
    assert_eq!(unique_asset_ids(&ids), strings(&["nrc-cosmetics", "nrc-ui", "nrc-sounds"]));
    assert!(unique_asset_ids(&vec![]).is_empty());
}

#[test]
fn urls_and_headers() {
    assert_eq!(
        asset_download_url("nrc-ui", "textures/logo.png"),
        "https://cdn.norisk.gg/assets/nrc-ui/assets/textures/logo.png"
    );
    assert_eq!(authorization_header("abc"), "Bearer abc");
}

#[test]
fn objects_are_stored_by_hash() {
    let s = NoriskClientAssetsDownloadService::new(&meta());
    assert_eq!(show(&s.asset_store_dir("nrc-ui")), "/home/u/.norisk/meta/assets/noriskclient/nrc-ui");
    assert_eq!(
        show(&s.asset_object_path("nrc-ui", "ab12cd")),
        "/home/u/.norisk/meta/assets/noriskclient/nrc-ui/objects/ab/ab12cd"
    );
    // A two-byte first character is the whole two-byte prefix.
    assert_eq!(
        show(&s.asset_object_path("g", "éx")),
        "/home/u/.norisk/meta/assets/noriskclient/g/objects/é/éx"
    );
}

#[test]
fn only_missing_assets_are_planned() {
    let s = NoriskClientAssetsDownloadService::new(&meta());
    let assets = vec![
        ("a.png".to_string(), AssetObject { hash: "aa11".to_string(), size: 1 }),
        ("b/c.ogg".to_string(), AssetObject { hash: "bb22".to_string(), size: 2 }),
        ("d.json".to_string(), AssetObject { hash: "cc33".to_string(), size: 3 }),
    ];
    let jobs = s.plan_asset_downloads("grp", &assets, &vec![false, true, false]);
    assert_eq!(jobs.len(), 2);
    assert_eq!(jobs[0].name, "a.png");
    assert_eq!(jobs[0].url, "https://cdn.norisk.gg/assets/grp/assets/a.png");
    assert_eq!(show(&jobs[0].target), "/home/u/.norisk/meta/assets/noriskclient/grp/objects/aa/aa11");
    assert_eq!(jobs[1].name, "d.json");
    assert!(s.plan_asset_downloads("grp", &assets, &vec![true, true, true]).is_empty());
}

#[test]
fn copy_targets() {
    let game = FsPath::parse("/games/p1");
    let base = target_base_dir(&game);
    assert_eq!(show(&base), "/games/p1/NoRiskClient/assets");
    let (t, o) = copy_target("overrides/options.txt", &base, &game);
    assert_eq!(show(&t), "/games/p1/options.txt");
    assert!(o);
    let (t, o) = copy_target("textures/a.png", &base, &game);
    assert_eq!(show(&t), "/games/p1/NoRiskClient/assets/textures/a.png");
    assert!(!o);
}

#[test]
fn copy_decisions() {
    assert!(matches!(copy_check(false, true, false, false), CopyCheck::SourceMissing));
    assert!(matches!(copy_check(true, false, true, true), CopyCheck::Copy));
    assert!(matches!(copy_check(true, true, true, false), CopyCheck::Keep));
    assert!(matches!(copy_check(true, true, false, true), CopyCheck::Keep));
    assert!(matches!(copy_check(true, true, false, false), CopyCheck::CompareWithSource));
    assert!(copy_after_compare(10, 11, false));
    assert!(!copy_after_compare(10, 10, false));
    assert!(copy_after_compare(10, 10, true));
    assert!(!copy_after_compare(u64::MAX, -1, false));
}

#[test]
fn expected_paths_cover_asset_directories() {
    let base = FsPath::parse("/g/NoRiskClient/assets");
    let names = strings(&["textures/cape/a.png", "textures/logo.png", "sounds.json", "textures/cape/b.png"]);
    let expected = expected_paths_for_group(&base, &names);
    assert_eq!(
        shown(&expected),
        vec![
            "/g/NoRiskClient/assets",
            "/g/NoRiskClient/assets/sounds.json",
            "/g/NoRiskClient/assets/textures",
            "/g/NoRiskClient/assets/textures/cape",
            "/g/NoRiskClient/assets/textures/cape/a.png",
            "/g/NoRiskClient/assets/textures/cape/b.png",
            "/g/NoRiskClient/assets/textures/logo.png",
        ]
    );
}

#[test]
fn expected_paths_of_escaping_names() {
    let base = FsPath::parse("/g/NoRiskClient/assets");
    let names = strings(&["overrides/options.txt", "/abs/x"]);
    let expected = expected_paths_for_group(&base, &names);
    assert_eq!(
        shown(&expected),
        vec![
            "/abs/x",
            "/g/NoRiskClient/assets",
            "/g/NoRiskClient/assets/overrides",
            "/g/NoRiskClient/assets/overrides/options.txt",
        ]
    );
    assert_eq!(shown(&expected_paths_for_group(&base, &vec![])), vec!["/g/NoRiskClient/assets"]);
}

#[test]
fn orphans_are_deleted_deepest_first() {
    let found: Vec<FsPath> = [
        "/b",
        "/b/old",
        "/b/old/x.png",
        "/b/keep.png",
        "/b/old/deep",
        "/b/old/deep/y.png",
    ]
    .iter()
    .map(|p| FsPath::parse(p))
    .collect();
    let expected: Vec<FsPath> = ["/b", "/b/keep.png"].iter().map(|p| FsPath::parse(p)).collect();
    let order = orphan_deletion_order(&found, &expected);
    let order_s: Vec<String> = order.iter().map(show).collect();
    assert_eq!(order_s, vec!["/b/old/deep/y.png", "/b/old/x.png", "/b/old/deep", "/b/old"]);
}

#[test]
fn merging_groups_is_a_union() {
    let a: Vec<FsPath> = ["/b", "/b/x"].iter().map(|p| FsPath::parse(p)).collect();
    let b: Vec<FsPath> = ["/b", "/b/y"].iter().map(|p| FsPath::parse(p)).collect();
    let m = merge_expected_paths(a, &b);
    assert_eq!(shown(&m), vec!["/b", "/b/x", "/b/y"]);
    assert!(contains_path(&m, &FsPath::parse("/b/y")));
    assert!(!contains_path(&m, &FsPath::parse("/b/z")));
}

#[test]
fn depth_comparison() {
    assert!(shallower(&FsPath::parse("/a"), &FsPath::parse("/a/b")));
    assert!(!shallower(&FsPath::parse("/a"), &FsPath::parse("a")));
    assert!(shallower(&FsPath::parse("a"), &FsPath::parse("/a")));
    assert!(!shallower(&FsPath::parse("/a"), &FsPath::parse("a/b")));
}

#[test]
fn copy_batches() {
    assert_eq!(copy_batch_count(0), 0);
    assert_eq!(copy_batch_count(1), 1);
    assert_eq!(copy_batch_count(50), 1);
    assert_eq!(copy_batch_count(51), 2);
    assert_eq!(copy_batch_count(250), 5);
}

#[test]
fn cleanup_spares_what_a_group_accounts_for() {
    let base = FsPath::parse("/g/NoRiskClient/assets");
    let names = strings(&["a/b/c.png", "d.txt"]);
    let expected = expected_paths_for_group(&base, &names);
    let found: Vec<FsPath> = [
        "/g/NoRiskClient/assets",
        "/g/NoRiskClient/assets/a",
        "/g/NoRiskClient/assets/a/b",
        "/g/NoRiskClient/assets/a/b/c.png",
        "/g/NoRiskClient/assets/a/b/stale.png",
        "/g/NoRiskClient/assets/d.txt",
        "/g/NoRiskClient/assets/old",
        "/g/NoRiskClient/assets/old/e.png",
    ]
    .iter()
    .map(|p| FsPath::parse(p))
    .collect();
    let order: Vec<String> = orphan_deletion_order(&found, &expected).iter().map(show).collect();
    assert_eq!(
        order,
        vec![
            "/g/NoRiskClient/assets/a/b/stale.png",
            "/g/NoRiskClient/assets/old/e.png",
            "/g/NoRiskClient/assets/old",
        ]
    );
}

use norisk_downloads::group_flow::{contributes_paths, group_step, GroupEvent, GroupStage};

#[test]
fn group_flow_success_path() {
    let s = group_step(GroupStage::Fetch, GroupEvent::Fetched { empty: false });
    assert!(s == GroupStage::Download);
    let s = group_step(s, GroupEvent::Downloaded);
    assert!(s == GroupStage::Copy);
    let s = group_step(s, GroupEvent::Copied);
    assert!(s == GroupStage::Done);
    assert!(contributes_paths(s));
}

#[test]
fn group_flow_failures_and_empty() {
    assert!(group_step(GroupStage::Fetch, GroupEvent::Fetched { empty: true }) == GroupStage::Empty);
    assert!(group_step(GroupStage::Fetch, GroupEvent::FetchFailed) == GroupStage::Failed);
    assert!(group_step(GroupStage::Download, GroupEvent::DownloadFailed) == GroupStage::Failed);
    assert!(group_step(GroupStage::Copy, GroupEvent::CopyFailed) == GroupStage::Failed);
    assert!(group_step(GroupStage::Copy, GroupEvent::Downloaded) == GroupStage::Failed);
    assert!(group_step(GroupStage::Done, GroupEvent::CopyFailed) == GroupStage::Done);
    assert!(!contributes_paths(GroupStage::Empty));
    assert!(!contributes_paths(GroupStage::Failed));
    assert!(!contributes_paths(GroupStage::Copy));
}

use norisk_downloads::assets::{has_hash_bucket, record_group_paths};

#[test]
fn hash_buckets() {
    assert!(has_hash_bucket("ab12"));
    assert!(has_hash_bucket("é"));
    assert!(!has_hash_bucket("a"));
    assert!(!has_hash_bucket(""));
    assert!(!has_hash_bucket("aé"));
    assert!(!has_hash_bucket("€x"));
}

#[test]
fn keeping_local_assets_deletes_nothing() {
    let s = NoriskClientAssetsDownloadService::new(&meta());
    for keep in [true, false] {
        let st = started(&s, Some(keep));
        let step = s.download_nrc_assets_for_profile(st, ProfileRunEvent::PackResolved(Ok(vec![])));
        let step = s.download_nrc_assets_for_profile(
            step.state,
            ProfileRunEvent::GroupProcessed { stage: GroupStage::Done, paths: paths(&["/b"]) },
        );
        if keep {
            assert!(matches!(step.action, ProfileRunAction::Complete));
        } else {
            assert!(matches!(step.action, ProfileRunAction::FindOrphans));
            let step = s.download_nrc_assets_for_profile(
                step.state,
                ProfileRunEvent::OrphansFound(paths(&["/b", "/b/old.png"])),
            );
            match &step.action {
                ProfileRunAction::DeleteOrphans(order) => {
                    assert_eq!(order.iter().map(show).collect::<Vec<_>>(), vec!["/b/old.png"])
                }
                _ => panic!("expected deletions"),
            }
        }
    }
}

#[test]
fn only_finished_groups_count_for_cleanup() {
    let group: Vec<FsPath> = ["/b", "/b/x"].iter().map(|p| FsPath::parse(p)).collect();
    let all = record_group_paths(Vec::new(), GroupStage::Failed, &group);
    assert!(all.is_empty());
    let all = record_group_paths(all, GroupStage::Empty, &group);
    assert!(all.is_empty());
    let all = record_group_paths(all, GroupStage::Done, &group);
    assert_eq!(shown(&all), vec!["/b", "/b/x"]);
}

fn started(s: &NoriskClientAssetsDownloadService, keep: Option<bool>) -> ProfileRunState {
    let c = creds(Some("prod-token"), None);
    let plan = s.plan_asset_session(&profile(Some("p"), keep), Some(&c), false);
    let step = s.download_nrc_assets_for_profile(ProfileRunState::new(), ProfileRunEvent::Started(plan));
    match &step.action {
        ProfileRunAction::ResolvePack(id) => assert_eq!(id, "p"),
        _ => panic!("expected the pack to be resolved"),
    }
    step.state
}

fn group_of(action: &ProfileRunAction) -> (usize, String) {
    match action {
        ProfileRunAction::ProcessGroup { index, asset_id } => (*index, asset_id.clone()),
        _ => panic!("expected a group"),
    }
}

fn paths(v: &[&str]) -> Vec<FsPath> {
    v.iter().map(|p| FsPath::parse(p)).collect()
}

#[test]
fn profile_run_skips_without_session() {
    let s = NoriskClientAssetsDownloadService::new(&meta());
    let plan = s.plan_asset_session(&profile(None, None), None, false);
    let step = s.download_nrc_assets_for_profile(ProfileRunState::new(), ProfileRunEvent::Started(plan));
    assert!(matches!(step.action, ProfileRunAction::Skip));
    assert!(step.state.stage == ProfileRunStage::Finished);
}

#[test]
fn profile_run_resolution_failure_message() {
    let s = NoriskClientAssetsDownloadService::new(&meta());
    let st = started(&s, None);
    let step = s.download_nrc_assets_for_profile(st, ProfileRunEvent::PackResolved(Err("no such pack".to_string())));
    match &step.action {
        ProfileRunAction::Fail(m) => assert_eq!(m, "Failed to resolve pack definition p: no such pack"),
        _ => panic!("expected a failure"),
    }
    assert!(step.state.stage == ProfileRunStage::Finished);
    assert!(step.group_failure.is_none());
}

#[test]
fn profile_run_processes_main_pack_then_groups_once_each() {
    let s = NoriskClientAssetsDownloadService::new(&meta());
    let st = started(&s, None);
    let step = s.download_nrc_assets_for_profile(st, ProfileRunEvent::PackResolved(Ok(strings(&["a", "b", "a", "p"]))));
    assert_eq!(step.state.groups, strings(&["p", "a", "b"]));
    assert_eq!(group_of(&step.action), (0, "p".to_string()));
    let step = s.download_nrc_assets_for_profile(
        step.state,
        ProfileRunEvent::GroupProcessed { stage: GroupStage::Done, paths: paths(&["/g/A", "/g/A/x"]) },
    );
    assert!(step.group_failure.is_none());
    assert_eq!(group_of(&step.action), (1, "a".to_string()));
    // A failed group is reported and the run goes on.
    let step = s.download_nrc_assets_for_profile(
        step.state,
        ProfileRunEvent::GroupProcessed { stage: GroupStage::Failed, paths: paths(&["/g/A/y"]) },
    );
    assert_eq!(step.group_failure.as_deref(), Some("Error processing asset group: a"));
    assert_eq!(group_of(&step.action), (2, "b".to_string()));
    let step = s.download_nrc_assets_for_profile(
        step.state,
        ProfileRunEvent::GroupProcessed { stage: GroupStage::Empty, paths: vec![] },
    );
    assert!(matches!(step.action, ProfileRunAction::FindOrphans));
    assert_eq!(shown(&step.state.expected), vec!["/g/A", "/g/A/x"]);
    // The cleanup keeps the finished group's paths; the failed group's file is an orphan.
    let step = s.download_nrc_assets_for_profile(
        step.state,
        ProfileRunEvent::OrphansFound(paths(&["/g/A", "/g/A/x", "/g/A/y", "/g/B", "/g/B/z"])),
    );
    match &step.action {
        ProfileRunAction::DeleteOrphans(order) => {
            let o: Vec<String> = order.iter().map(show).collect();
            assert_eq!(o.len(), 3);
            assert!(o.contains(&"/g/A/y".to_string()));
            let z = o.iter().position(|x| x == "/g/B/z").unwrap();
            let b = o.iter().position(|x| x == "/g/B").unwrap();
            assert!(z < b);
        }
        _ => panic!("expected deletions"),
    }
    let step = s.download_nrc_assets_for_profile(step.state, ProfileRunEvent::OrphansDeleted);
    assert!(matches!(step.action, ProfileRunAction::Complete));
    assert!(step.state.stage == ProfileRunStage::Finished);
}

#[test]
fn profile_run_keeping_local_assets_skips_cleanup() {
    let s = NoriskClientAssetsDownloadService::new(&meta());
    let st = started(&s, Some(true));
    let step = s.download_nrc_assets_for_profile(st, ProfileRunEvent::PackResolved(Ok(vec![])));
    assert_eq!(group_of(&step.action), (0, "p".to_string()));
    let step = s.download_nrc_assets_for_profile(
        step.state,
        ProfileRunEvent::GroupProcessed { stage: GroupStage::Failed, paths: vec![] },
    );
    assert_eq!(step.group_failure.as_deref(), Some("Error processing asset group: p"));
    assert!(matches!(step.action, ProfileRunAction::Complete));
}

#[test]
fn profile_run_ignores_out_of_order_events() {
    let s = NoriskClientAssetsDownloadService::new(&meta());
    let step = s.download_nrc_assets_for_profile(ProfileRunState::new(), ProfileRunEvent::OrphansDeleted);
    assert!(matches!(step.action, ProfileRunAction::Ignore));
    assert!(step.state.stage == ProfileRunStage::NotStarted);
}
