//! The NoRisk pack download service: which mods of a pack apply to a
//! Minecraft version and loader, and where each one is fetched from.
use vstd::prelude::*;
use vstd::string::*;
use crate::outcome::DownloadRequest;
use crate::paths::{FsPath, PathView, join_path};
use crate::text::{str_concat, dots_to_slashes, replace_dots_with_slashes, trim_end_len, trim_trailing_slashes};

verus! {

/// Mod transfers that run at the same time.
pub const DEFAULT_CONCURRENT_MOD_DOWNLOADS: usize = 4;

/// Name of the mod cache directory under the launcher's meta directory.
pub const MOD_CACHE_DIR_NAME: &'static str = "mod_cache";

/// Modrinth's Maven repository.
pub const MODRINTH_MAVEN_URL: &'static str = "https://api.modrinth.com/maven";

/// The group under which Modrinth publishes projects in its Maven repository.
pub const MODRINTH_GROUP_ID: &'static str = "maven.modrinth";

/// Retries of a failed mod transfer.
pub const MOD_RETRIES: u32 = 3;

/// Where a mod of a pack comes from.
pub enum ModSource {
    Modrinth { project_id: String, project_slug: String },
    Maven { repository_ref: String, group_id: String, artifact_id: String },
    Url,
}

/// The version of a mod for one Minecraft version and loader: its version
/// identifier (or, for a URL mod, its URL) and an optional file name.
pub struct CompatibilityTarget {
    pub identifier: String,
    pub filename: Option<String>,
}

/// A mod of a pack, with its targets by Minecraft version, then by loader.
pub struct ModEntry {
    pub id: String,
    pub display_name: Option<String>,
    pub source: ModSource,
    pub compatibility: Vec<(String, Vec<(String, CompatibilityTarget)>)>,
}

/// A pack with its inheritance resolved: its mods and its asset groups.
pub struct PackDefinition {
    pub mods: Vec<ModEntry>,
    pub assets: Vec<String>,
}

/// Why a mod cannot be fetched.
pub enum PackError {
    /// The mod names a Maven repository that the configuration lacks.
    RepositoryNotFound { repository_ref: String, display_name: String },
}

/// Downloads the mods of NoRisk packs into the launcher's mod cache.
#[derive(Clone)]
pub struct NoriskPackDownloadService {
    pub concurrent_downloads: usize,
}

/// The value of the first entry whose key is `key`.
pub open spec fn lookup_first<V>(entries: Seq<(String, V)>, key: Seq<char>) -> Option<V>
    decreases entries.len(),
{
    if entries.len() == 0 {
        None
    } else if entries[0].0@ == key {
        Some(entries[0].1)
    } else {
        lookup_first(entries.skip(1), key)
    }
}

/// The target of a mod for a Minecraft version and loader.
pub open spec fn target_for(entry: ModEntry, minecraft_version: Seq<char>, loader: Seq<char>) -> Option<
    CompatibilityTarget,
> {
    match lookup_first(entry.compatibility@, minecraft_version) {
        Some(loaders) => lookup_first(loaders@, loader),
        None => None,
    }
}

/// The indices of the mods that have a target, in order.
pub open spec fn compatible_indices(mods: Seq<ModEntry>, minecraft_version: Seq<char>, loader: Seq<char>) -> Seq<
    int,
>
    decreases mods.len(),
{
    if mods.len() == 0 {
        seq![]
    } else {
        let d = compatible_indices(mods.drop_last(), minecraft_version, loader);
        if target_for(mods.last(), minecraft_version, loader) is Some {
            d.push(mods.len() - 1)
        } else {
            d
        }
    }
}

/// The URL of a file in a Maven repository:
/// `repo/group-with-slashes/artifact/version/filename`.
pub open spec fn maven_url(
    repo: Seq<char>,
    group_id: Seq<char>,
    artifact_id: Seq<char>,
    version: Seq<char>,
    filename: Seq<char>,
) -> Seq<char> {
    repo + "/"@ + dots_to_slashes(group_id) + "/"@ + artifact_id + "/"@ + version + "/"@ + filename
}

/// The URL a mod is fetched from, or why it cannot be.
pub open spec fn mod_url(
    repositories: Seq<(String, String)>,
    source: ModSource,
    identifier: Seq<char>,
    filename: Seq<char>,
) -> Option<Seq<char>> {
    match source {
        ModSource::Modrinth { project_id, project_slug } => Some(
            maven_url(MODRINTH_MAVEN_URL@, MODRINTH_GROUP_ID@, project_slug@, identifier, filename),
        ),
        ModSource::Maven { repository_ref, group_id, artifact_id } => match lookup_first(
            repositories,
            repository_ref@,
        ) {
            Some(repo) => Some(
                maven_url(
                    repo@.take(trim_end_len(repo@, '/') as int),
                    group_id@,
                    artifact_id@,
                    identifier,
                    filename,
                ),
            ),
            None => None,
        },
        ModSource::Url => Some(identifier),
    }
}

/// A key lookup is exact: it finds a value only in an entry whose key equals
/// the key asked for, and then in the first such entry; it finds nothing
/// exactly when no entry has that key (a key that merely starts or ends like
/// another is a different key).
pub proof fn lemma_lookup_first_exact<V>(entries: Seq<(String, V)>, key: Seq<char>)
    ensures
        lookup_first(entries, key) matches Some(v) ==> exists|i: int|
            0 <= i < entries.len() && #[trigger] entries[i].0@ == key && entries[i].1 == v && forall|j: int|
                0 <= j < i ==> entries[j].0@ != key,
        lookup_first(entries, key) is None <==> forall|i: int|
            0 <= i < entries.len() ==> #[trigger] entries[i].0@ != key,
    decreases entries.len(),
{
    if entries.len() > 0 {
        let rest = entries.skip(1);
        lemma_lookup_first_exact(rest, key);
        assert forall|i: int| 0 < i < entries.len() implies entries[i] == rest[i - 1] by {}
        if entries[0].0@ == key {
            assert(entries[0].0@ == key);
        } else {
            match lookup_first(rest, key) {
                Some(v) => {
                    let i = choose|i: int|
                        0 <= i < rest.len() && #[trigger] rest[i].0@ == key && rest[i].1 == v && forall|j: int|
                            0 <= j < i ==> rest[j].0@ != key;
                    assert(entries[i + 1] == rest[i]);
                    assert forall|j: int| 0 <= j < i + 1 implies entries[j].0@ != key by {
                        if j > 0 {
                            assert(entries[j] == rest[j - 1]);
                        }
                    }
                    assert(entries[i + 1].0@ == key);
                },
                None => {
                    assert forall|i: int| 0 <= i < entries.len() implies #[trigger] entries[i].0@ != key by {
                        if i > 0 {
                            assert(entries[i] == rest[i - 1]);
                            assert(rest[i - 1].0@ != key);
                        }
                    }
                },
            }
            if lookup_first(entries, key) is None {
                assert forall|i: int| 0 <= i < rest.len() implies #[trigger] rest[i].0@ != key by {
                    assert(entries[i + 1] == rest[i]);
                    assert(entries[i + 1].0@ != key);
                }
            }
        }
    }
}

/// A mod's target for a Minecraft version and loader is taken from the
/// compatibility entry whose version is exactly that version (the first
/// one), and within it from the entry whose loader is exactly that loader
/// (the first one); the mod has no target exactly when that entry is
/// missing or lists no such loader.
pub proof fn lemma_target_for_exact(entry: ModEntry, minecraft_version: Seq<char>, loader: Seq<char>)
    ensures
        target_for(entry, minecraft_version, loader) matches Some(t) ==> exists|i: int, j: int|
            0 <= i < entry.compatibility@.len() && #[trigger] entry.compatibility@[i].0@ == minecraft_version
                && (forall|k: int|
                0 <= k < i ==> entry.compatibility@[k].0@ != minecraft_version) && 0 <= j
                < entry.compatibility@[i].1@.len() && #[trigger] entry.compatibility@[i].1@[j].0@ == loader
                && t == entry.compatibility@[i].1@[j].1,
        target_for(entry, minecraft_version, loader) is None <==> forall|i: int, j: int|
            0 <= i < entry.compatibility@.len() && #[trigger] entry.compatibility@[i].0@ == minecraft_version
                && (forall|k: int| 0 <= k < i ==> entry.compatibility@[k].0@ != minecraft_version) && 0 <= j
                < entry.compatibility@[i].1@.len() ==> #[trigger] entry.compatibility@[i].1@[j].0@ != loader,
{
    let c = entry.compatibility@;
    lemma_lookup_first_exact(c, minecraft_version);
    match lookup_first(c, minecraft_version) {
        Some(loaders) => {
            let i = choose|i: int|
                0 <= i < c.len() && #[trigger] c[i].0@ == minecraft_version && c[i].1 == loaders && forall|j: int|
                    0 <= j < i ==> c[j].0@ != minecraft_version;
            lemma_lookup_first_exact(loaders@, loader);
            assert forall|i2: int|
                0 <= i2 < c.len() && #[trigger] c[i2].0@ == minecraft_version && (forall|k: int|
                    0 <= k < i2 ==> c[k].0@ != minecraft_version) implies i2 == i by {
                if i2 < i {
                    assert(c[i2].0@ != minecraft_version);
                } else if i < i2 {
                    assert(c[i].0@ != minecraft_version);
                }
            }
            match lookup_first(loaders@, loader) {
                Some(t) => {
                    let j = choose|j: int|
                        0 <= j < loaders@.len() && #[trigger] loaders@[j].0@ == loader && loaders@[j].1 == t
                            && forall|k: int| 0 <= k < j ==> loaders@[k].0@ != loader;
                    assert(c[i].1@[j].0@ == loader);
                },
                None => {},
            }
        },
        None => {},
    }
}

/// Finds the value of the first entry whose key is `key`.
pub fn find_entry<'a, V>(entries: &'a Vec<(String, V)>, key: &str) -> (r: Option<&'a V>)
    ensures
        r matches Some(v) ==> lookup_first(entries@, key@) == Some(*v),
        r is None <==> lookup_first(entries@, key@) is None,
{
    let k = key.to_owned();
    let mut i: usize = 0;
    proof {
        assert(entries@.skip(0) =~= entries@);
    }
    while i < entries.len()
        invariant
            i <= entries.len(),
            k@ == key@,
            lookup_first(entries@, key@) == lookup_first(entries@.skip(i as int), key@),
        decreases entries.len() - i,
    {
        proof {
            assert(entries@.skip(i as int)[0] == entries@[i as int]);
            assert(entries@.skip(i as int).skip(1) =~= entries@.skip(i + 1));
        }
        if entries[i].0 == k {
            return Some(&entries[i].1);
        }
        i = i + 1;
    }
    proof {
        assert(entries@.skip(i as int).len() == 0);
    }
    None
}

/// The URL of a file in a Maven repository (`download_maven_mod`).
pub fn maven_artifact_url(
    repo_url: &str,
    group_id: &str,
    artifact_id: &str,
    version: &str,
    filename: &str,
) -> (r: String)
    ensures
        r@ == maven_url(repo_url@, group_id@, artifact_id@, version@, filename@),
{
    let group_path = replace_dots_with_slashes(group_id);
    let mut r = str_concat(repo_url, "/");
    r.append(group_path.as_str());
    r.append("/");
    r.append(artifact_id);
    r.append("/");
    r.append(version);
    r.append("/");
    r.append(filename);
    r
}

/// The mod cache directory: `meta_dir/mod_cache`.
pub fn mod_cache_dir(meta_dir: &FsPath) -> (r: FsPath)
    ensures
        r@ == join_path(meta_dir@, MOD_CACHE_DIR_NAME@),
{
    meta_dir.join_str(MOD_CACHE_DIR_NAME)
}

/// The name a mod is reported under: its display name, else its id.
pub fn mod_display_name(entry: &ModEntry) -> (r: String)
    ensures
        r@ == (match entry.display_name {
            Some(d) => d@,
            None => entry.id@,
        }),
{
    match &entry.display_name {
        Some(d) => d.clone(),
        None => entry.id.clone(),
    }
}

/// The transfer that `download_and_verify_file` configures: streamed,
/// retried three times, with a SHA-1 check exactly when a digest is given.
pub fn verified_file_request(url: String, target: FsPath, expected_sha1: Option<&str>) -> (r: DownloadRequest)
    ensures
        r.url@ == url@,
        r.target@ == target@,
        r.expected_size is None,
        match expected_sha1 {
            Some(h) => r.expected_sha1 matches Some(x) && x@ == h@,
            None => r.expected_sha1 is None,
        },
        r.streaming,
        r.retries == MOD_RETRIES,
{
    let expected_sha1 = match expected_sha1 {
        Some(h) => Some(h.to_owned()),
        None => None,
    };
    DownloadRequest { url, target, expected_size: None, expected_sha1, streaming: true, retries: MOD_RETRIES }
}

impl PackError {
    /// The text of the error.
    pub fn message(&self) -> (r: String)
        ensures
            r@ == (match self {
                PackError::RepositoryNotFound { repository_ref, display_name } => "Repository reference '"@
                    + repository_ref@ + "' not found for mod '"@ + display_name@ + "'"@,
            }),
    {
        match self {
            PackError::RepositoryNotFound { repository_ref, display_name } => {
                let mut r = str_concat("Repository reference '", repository_ref.as_str());
                r.append("' not found for mod '");
                r.append(display_name.as_str());
                r.append("'");
                r
            },
        }
    }
}

impl NoriskPackDownloadService {
    /// A service that runs four transfers at a time.
    pub fn new() -> (r: Self)
        ensures
            r.concurrent_downloads == DEFAULT_CONCURRENT_MOD_DOWNLOADS,
    {
        NoriskPackDownloadService { concurrent_downloads: DEFAULT_CONCURRENT_MOD_DOWNLOADS }
    }

    /// A service that runs `concurrent_downloads` transfers at a time.
    pub fn with_concurrency(concurrent_downloads: usize) -> (r: Self)
        ensures
            r.concurrent_downloads == concurrent_downloads,
    {
        NoriskPackDownloadService { concurrent_downloads }
    }

    /// The transfer that caches one mod as `cache_dir/filename`: streamed,
    /// retried three times, without a checksum (no pack mod gives one). Modrinth mods come from
    /// Modrinth's Maven repository, Maven mods from the configured repository
    /// (its trailing slashes trimmed), URL mods from their identifier.
    pub fn mod_download_request(
        &self,
        repositories: &Vec<(String, String)>,
        source: &ModSource,
        identifier: &str,
        filename: &str,
        cache_dir: &FsPath,
        display_name: &str,
    ) -> (r: Result<DownloadRequest, PackError>)
        ensures
            r is Ok <==> mod_url(repositories@, *source, identifier@, filename@) is Some,
            r matches Ok(req) ==> {
                &&& Some(req.url@) == mod_url(repositories@, *source, identifier@, filename@)
                &&& req.target@ == join_path(cache_dir@, filename@)
                &&& req.expected_size is None
                &&& req.expected_sha1 is None
                &&& req.streaming
                &&& req.retries == MOD_RETRIES
            },
            r matches Err(e) ==> source matches ModSource::Maven { repository_ref, .. } && e
                matches PackError::RepositoryNotFound { repository_ref: rr, display_name: d } && rr@
                == repository_ref@ && d@ == display_name@,
    {
        let target = cache_dir.join_str(filename);
        let url = match source {
            ModSource::Modrinth { project_id, project_slug } => maven_artifact_url(
                MODRINTH_MAVEN_URL,
                MODRINTH_GROUP_ID,
                project_slug.as_str(),
                identifier,
                filename,
            ),
            ModSource::Maven { repository_ref, group_id, artifact_id } => {
                let repo = match find_entry(repositories, repository_ref.as_str()) {
                    Some(repo) => repo,
                    None => {
                        return Err(
                            PackError::RepositoryNotFound {
                                repository_ref: repository_ref.clone(),
                                display_name: display_name.to_owned(),
                            },
                        );
                    },
                };
                let repo_url = trim_trailing_slashes(repo.as_str());
                maven_artifact_url(
                    repo_url.as_str(),
                    group_id.as_str(),
                    artifact_id.as_str(),
                    identifier,
                    filename,
                )
            },
            ModSource::Url => identifier.to_owned(),
        };
        Ok(verified_file_request(url, target, None))
    }
}

} // verus!
