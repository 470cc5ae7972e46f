use norisk_downloads::libraries::{
    is_library_url, DownloadInfo, Library, LibraryDownloads, MinecraftLibrariesDownloadService,
};
use norisk_downloads::pack::{
    maven_artifact_url, mod_cache_dir, mod_display_name, CompatibilityTarget, ModEntry, ModSource,
    verified_file_request, NoriskPackDownloadService, PackDefinition, PackError,
};
use norisk_downloads::pack_run::{
    compatible_mod_targets, ModFetchError, PackRunAction, PackRunEvent, PackRunStage, PackRunState,
};
use norisk_downloads::paths::FsPath;
use norisk_downloads::quilt::{LoaderVersionsPlan, QuiltApi, QuiltLoaderVersion, QuiltVersionInfo};

fn show(p: &FsPath) -> String {
    let joined = p.components.join("/");
    if p.absolute {
        format!("/{}", joined)
    } else {
        joined
    }
}

fn meta() -> FsPath {
    FsPath::parse("/home/u/.norisk/meta")
}

fn info(url: &str, size: i64) -> DownloadInfo {
    DownloadInfo { url: url.to_string(), size }
}

#[test]
fn libraries_service_defaults() {
    let s = MinecraftLibrariesDownloadService::new(&meta());
    assert_eq!(show(&s.base_path), "/home/u/.norisk/meta/libraries");
    assert_eq!(s.concurrent_downloads, 12);
    assert_eq!(s.concurrent_libraries, 12);
    let s = s.with_concurrent_downloads(3);
    assert_eq!(s.concurrent_downloads, 3);
    assert_eq!(s.concurrent_libraries, 12);
}

#[test]
fn library_path_follows_host() {
    let s = MinecraftLibrariesDownloadService::new(&meta());
    let i = info(
        "https://libraries.minecraft.net/com/mojang/brigadier/1.0.18/brigadier-1.0.18.jar",
        77392,
    );
    assert_eq!(
        show(&s.get_library_path(&i)),
        "/home/u/.norisk/meta/libraries/com/mojang/brigadier/1.0.18/brigadier-1.0.18.jar"
    );
}

#[test]
fn library_path_stops_at_second_host() {
    let s = MinecraftLibrariesDownloadService::new(&meta());
    let i = info("https://libraries.minecraft.net/a/b/libraries.minecraft.net/c.jar", 1);
    assert_eq!(show(&s.get_library_path(&i)), "/home/u/.norisk/meta/libraries/a/b");
}

#[test]
fn library_requests_in_order() {
    let s = MinecraftLibrariesDownloadService::new(&meta());
    let lib = Library {
        downloads: LibraryDownloads {
            artifact: Some(info("https://libraries.minecraft.net/a/a.jar", 10)),
            classifiers: Some(vec![
                ("natives-linux".to_string(), info("https://libraries.minecraft.net/a/a-linux.jar", -1)),
                ("natives-windows".to_string(), info("https://libraries.minecraft.net/a/a-win.jar", 30)),
            ]),
        },
    };
    let reqs = s.library_download_requests(&lib);
    assert_eq!(reqs.len(), 3);
    assert_eq!(reqs[0].url, "https://libraries.minecraft.net/a/a.jar");
    assert_eq!(show(&reqs[0].target), "/home/u/.norisk/meta/libraries/a/a.jar");
    assert_eq!(reqs[0].expected_size, Some(10));
    assert_eq!(reqs[0].retries, 3);
    assert!(!reqs[0].streaming);
    assert!(reqs[0].expected_sha1.is_none());
    // A negative size wraps, as an `as u64` conversion does.
    assert_eq!(reqs[1].expected_size, Some(u64::MAX));
    assert_eq!(show(&reqs[2].target), "/home/u/.norisk/meta/libraries/a/a-win.jar");

    let none = Library { downloads: LibraryDownloads { artifact: None, classifiers: None } };
    let all = s.plan_library_downloads(&vec![lib, none]);
    assert_eq!(all.len(), 2);
    assert_eq!(all[0].len(), 3);
    assert!(all[1].is_empty());
}

fn target(id: &str) -> CompatibilityTarget {
    CompatibilityTarget { identifier: id.to_string(), filename: None }
}

fn entry(id: &str, source: ModSource, compat: Vec<(&str, Vec<(&str, &str)>)>) -> ModEntry {
    ModEntry {
        id: id.to_string(),
        display_name: None,
        source,
        compatibility: compat
            .into_iter()
            .map(|(mc, loaders)| {
                (
                    mc.to_string(),
                    loaders.into_iter().map(|(l, v)| (l.to_string(), target(v))).collect(),
                )
            })
            .collect(),
    }
}

#[test]
fn pack_service_constructors() {
    assert_eq!(NoriskPackDownloadService::new().concurrent_downloads, 4);
    assert_eq!(NoriskPackDownloadService::with_concurrency(9).concurrent_downloads, 9);
}

#[test]
fn pack_selects_compatible_mods() {
    let pack = PackDefinition {
        mods: vec![
            entry("sodium", ModSource::Url, vec![("1.21", vec![("fabric", "u1")])]),
            entry("iris", ModSource::Url, vec![("1.21", vec![("quilt", "u2")])]),
            entry("lithium", ModSource::Url, vec![("1.20", vec![("fabric", "u3")]), ("1.21", vec![("fabric", "u4")])]),
        ],
        assets: vec![],
    };
    let indices = |mc: &str, l: &str| -> Vec<usize> {
        compatible_mod_targets(&pack.mods, mc, l).iter().map(|q| q.index).collect()
    };
    assert_eq!(indices("1.21", "fabric"), vec![0, 2]);
    assert_eq!(indices("1.21", "quilt"), vec![1]);
    assert!(indices("1.19", "fabric").is_empty());
    let sel = compatible_mod_targets(&pack.mods, "1.21", "fabric");
    assert_eq!(sel[1].target.identifier, "u4");
}

#[test]
fn maven_url_layout() {
    assert_eq!(
        maven_artifact_url("https://maven.norisk.gg/repository/norisk-production", "gg.norisk", "nrc-client", "1.0.0", "nrc-client-1.0.0.jar"),
        "https://maven.norisk.gg/repository/norisk-production/gg/norisk/nrc-client/1.0.0/nrc-client-1.0.0.jar"
    );
}

#[test]
fn mod_requests_by_source() {
    let s = NoriskPackDownloadService::new();
    let cache = mod_cache_dir(&meta());
    assert_eq!(show(&cache), "/home/u/.norisk/meta/mod_cache");
    let repos = vec![("norisk".to_string(), "https://maven.norisk.gg/repo//".to_string())];

    let modrinth = ModSource::Modrinth { project_id: "AANobbMI".to_string(), project_slug: "sodium".to_string() };
    let r = s.mod_download_request(&repos, &modrinth, "mc1.21-0.6.0", "sodium.jar", &cache, "Sodium").ok().unwrap();
    assert_eq!(r.url, "https://api.modrinth.com/maven/maven/modrinth/sodium/mc1.21-0.6.0/sodium.jar");
    assert_eq!(show(&r.target), "/home/u/.norisk/meta/mod_cache/sodium.jar");
    assert!(r.streaming);
    assert_eq!(r.retries, 3);
    assert!(r.expected_sha1.is_none());
    assert!(r.expected_size.is_none());

    let maven = ModSource::Maven { repository_ref: "norisk".to_string(), group_id: "gg.norisk".to_string(), artifact_id: "core".to_string() };
    let r = s.mod_download_request(&repos, &maven, "2.0", "core-2.0.jar", &cache, "Core").ok().unwrap();
    assert_eq!(r.url, "https://maven.norisk.gg/repo/gg/norisk/core/2.0/core-2.0.jar");

    let url = ModSource::Url;
    let r = s.mod_download_request(&repos, &url, "https://cdn.example.org/x.jar", "x.jar", &cache, "X").ok().unwrap();
    assert_eq!(r.url, "https://cdn.example.org/x.jar");

    let missing = ModSource::Maven { repository_ref: "other".to_string(), group_id: "a".to_string(), artifact_id: "b".to_string() };
    match s.mod_download_request(&repos, &missing, "1", "b.jar", &cache, "B") {
        Err(e) => {
            assert_eq!(e.message(), "Repository reference 'other' not found for mod 'B'");
            match e {
                PackError::RepositoryNotFound { repository_ref, display_name } => {
                    assert_eq!(repository_ref, "other");
                    assert_eq!(display_name, "B");
                }
            }
        }
        Ok(_) => panic!("expected an error"),
    }
}

#[test]
fn display_name_falls_back_to_id() {
    let mut e = entry("sodium", ModSource::Url, vec![]);
    assert_eq!(mod_display_name(&e), "sodium");
    e.display_name = Some("Sodium".to_string());
    assert_eq!(mod_display_name(&e), "Sodium");
}

fn qv(build: i64, stable: bool) -> QuiltVersionInfo {
    QuiltVersionInfo { loader: QuiltLoaderVersion { build, stable } }
}

#[test]
fn quilt_paths_and_plan() {
    let q = QuiltApi::new(&meta());
    assert_eq!(q.base_url, "https://meta.quiltmc.org/v3");
    assert_eq!(show(&q.cache_dir), "/home/u/.norisk/meta/quilt_cache");
    let f = q.versions_fetch("1.21.1");
    assert_eq!(f.url, "https://meta.quiltmc.org/v3/versions/loader/1.21.1");
    assert_eq!(show(&f.cache_path), "/home/u/.norisk/meta/quilt_cache/quilt_versions_1.21.1.json");
    assert!(matches!(q.get_loader_versions("1.21.1", true), LoaderVersionsPlan::CachedThenRefresh(_)));
    match q.get_loader_versions("1.20", false) {
        LoaderVersionsPlan::Fetch(f) => assert_eq!(f.url, "https://meta.quiltmc.org/v3/versions/loader/1.20"),
        _ => panic!("expected a fetch"),
    }
}

#[test]
fn quilt_latest_stable_prefers_last_of_equal_builds() {
    let q = QuiltApi::new(&meta());
    let v = vec![qv(5, true), qv(9, false), qv(7, true), qv(7, true), qv(3, true)];
    assert_eq!(q.get_latest_stable_version(&v), Some(3));
    assert_eq!(q.get_latest_stable_version(&vec![qv(1, false)]), None);
    assert_eq!(q.get_latest_stable_version(&vec![]), None);
}

#[test]
fn library_url_check() {
    assert!(is_library_url("https://libraries.minecraft.net/a.jar"));
    assert!(!is_library_url("https://example.org/a.jar"));
    assert!(!is_library_url(""));
}

#[test]
fn verified_requests_carry_the_digest() {
    let r = verified_file_request("https://x/y.jar".to_string(), FsPath::parse("/c/y.jar"), Some("abc"));
    assert_eq!(r.expected_sha1, Some("abc".to_string()));
    assert!(r.streaming);
    assert_eq!(r.retries, 3);
    let r = verified_file_request("https://x/y.jar".to_string(), FsPath::parse("/c/y.jar"), None);
    assert!(r.expected_sha1.is_none());
}

#[test]
fn library_outcomes_combine_in_library_order() {
    let s = MinecraftLibrariesDownloadService::new(&meta());
    assert_eq!(s.download_libraries::<String>(vec![]), Ok(()));
    assert_eq!(s.download_libraries::<String>(vec![Ok(()), Ok(())]), Ok(()));
    assert_eq!(
        s.download_libraries(vec![Ok(()), Err("second".to_string()), Err("third".to_string())]),
        Err("second".to_string())
    );
}

fn sodium_pack() -> PackDefinition {
    PackDefinition {
        mods: vec![entry(
            "sodium",
            ModSource::Modrinth { project_id: "AANobbMI".to_string(), project_slug: "sodium".to_string() },
            vec![("1.21", vec![("fabric", "mc1.21-0.5.11")])],
        )],
        assets: vec![],
    }
}

#[test]
fn pack_run_caches_modrinth_mod() {
    let s = NoriskPackDownloadService::new();
    let st = PackRunState::new(&FsPath::parse("/m"), "1.21", "fabric");
    let step = s.download_pack_mods_to_cache::<String>(
        st,
        PackRunEvent::PackResolved { pack: Ok(sodium_pack()), repositories: vec![] },
    );
    assert!(step.state.stage == PackRunStage::ResolvingFilenames);
    match &step.action {
        PackRunAction::ResolveFilenames(q) => {
            assert_eq!(q.len(), 1);
            assert_eq!(q[0].index, 0);
            assert_eq!(q[0].target.identifier, "mc1.21-0.5.11");
        }
        _ => panic!("expected a file-name request"),
    }
    let step = s.download_pack_mods_to_cache::<String>(
        step.state,
        PackRunEvent::FilenamesResolved(vec![Ok("sodium.jar".to_string())]),
    );
    match &step.action {
        PackRunAction::Fetch(f) => {
            assert_eq!(f.len(), 1);
            assert_eq!(f[0].display_name, "sodium");
            let req = f[0].request.as_ref().ok().expect("a transfer");
            assert_eq!(req.url, "https://api.modrinth.com/maven/maven/modrinth/sodium/mc1.21-0.5.11/sodium.jar");
            assert_eq!(show(&req.target), "/m/mod_cache/sodium.jar");
            assert!(req.streaming);
            assert_eq!(req.retries, 3);
            assert!(req.expected_sha1.is_none());
            assert!(req.expected_size.is_none());
        }
        _ => panic!("expected transfers"),
    }
    let step = s.download_pack_mods_to_cache::<String>(step.state, PackRunEvent::ModsFetched(vec![Ok(())]));
    assert!(step.state.stage == PackRunStage::Finished);
    assert!(matches!(step.action, PackRunAction::Finish(Ok(()))));
}

#[test]
fn pack_run_resolution_error_fetches_nothing() {
    let s = NoriskPackDownloadService::new();
    let st = PackRunState::new(&FsPath::parse("/m"), "1.21", "fabric");
    let step = s.download_pack_mods_to_cache(
        st,
        PackRunEvent::PackResolved { pack: Err("unknown pack p".to_string()), repositories: vec![] },
    );
    assert!(step.state.stage == PackRunStage::Finished);
    assert!(matches!(step.action, PackRunAction::Fail(ref e) if e == "unknown pack p"));
    // Later events change nothing.
    let step = s.download_pack_mods_to_cache::<String>(step.state, PackRunEvent::ModsFetched(vec![]));
    assert!(matches!(step.action, PackRunAction::Ignore));
}

#[test]
fn pack_run_missing_repository_and_filename_errors() {
    let s = NoriskPackDownloadService::new();
    let pack = PackDefinition {
        mods: vec![
            entry(
                "nrc",
                ModSource::Maven {
                    repository_ref: "norisk".to_string(),
                    group_id: "gg.norisk".to_string(),
                    artifact_id: "nrc".to_string(),
                },
                vec![("1.21", vec![("fabric", "1.0")])],
            ),
            entry("lithium", ModSource::Url, vec![("1.21", vec![("fabric", "https://x/l.jar")])]),
            entry("iris", ModSource::Url, vec![("1.21", vec![("fabric", "https://x/i.jar")])]),
        ],
        assets: vec![],
    };
    let st = PackRunState::new(&FsPath::parse("/m"), "1.21", "fabric");
    let step = s.download_pack_mods_to_cache::<String>(
        st,
        PackRunEvent::PackResolved { pack: Ok(pack), repositories: vec![] },
    );
    let step = s.download_pack_mods_to_cache::<String>(
        step.state,
        PackRunEvent::FilenamesResolved(vec![
            Ok("nrc.jar".to_string()),
            Ok("l.jar".to_string()),
            Err("no file name".to_string()),
        ]),
    );
    match &step.action {
        PackRunAction::Fetch(f) => {
            assert_eq!(f.len(), 3);
            match &f[0].request {
                Err(ModFetchError::Repository(e)) => {
                    assert_eq!(e.message(), "Repository reference 'norisk' not found for mod 'nrc'")
                }
                _ => panic!("expected the repository error"),
            }
            let req = f[1].request.as_ref().ok().expect("the other mod is still fetched");
            assert_eq!(req.url, "https://x/l.jar");
            assert_eq!(show(&req.target), "/m/mod_cache/l.jar");
            assert!(matches!(&f[2].request, Err(ModFetchError::Filename(e)) if e == "no file name"));
        }
        _ => panic!("expected transfers"),
    }
    // Outcomes in the order the transfers ended: the first failure is the result.
    let step = s.download_pack_mods_to_cache(
        step.state,
        PackRunEvent::ModsFetched(vec![Ok(()), Err("repo".to_string()), Err("name".to_string())]),
    );
    assert!(matches!(step.action, PackRunAction::Finish(Err(ref e)) if e == "repo"));
}

#[test]
fn pack_run_ignores_mismatched_outcomes() {
    let s = NoriskPackDownloadService::new();
    let st = PackRunState::new(&FsPath::parse("/m"), "1.21", "fabric");
    let step = s.download_pack_mods_to_cache::<String>(
        st,
        PackRunEvent::PackResolved { pack: Ok(sodium_pack()), repositories: vec![] },
    );
    let step = s.download_pack_mods_to_cache::<String>(step.state, PackRunEvent::FilenamesResolved(vec![]));
    assert!(matches!(step.action, PackRunAction::Ignore));
    assert!(step.state.stage == PackRunStage::ResolvingFilenames);
}
