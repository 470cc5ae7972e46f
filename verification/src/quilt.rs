//! The Quilt metadata client: where loader versions are fetched from and
//! cached, when the cache answers, and which loader version is the latest
//! stable one.
use vstd::prelude::*;
use vstd::string::*;
use crate::paths::{FsPath, join_path};
use crate::text::str_concat;

verus! {

/// The Quilt metadata service.
pub const QUILT_BASE_URL: &'static str = "https://meta.quiltmc.org/v3";

/// Name of the cache directory under the launcher's meta directory.
pub const QUILT_CACHE_DIR: &'static str = "quilt_cache";

/// The loader part of a Quilt version entry, as far as the choice of a
/// version reads it.
pub struct QuiltLoaderVersion {
    pub build: i64,
    pub stable: bool,
}

/// A Quilt loader version available for a Minecraft version.
pub struct QuiltVersionInfo {
    pub loader: QuiltLoaderVersion,
}

/// Where the loader versions of one Minecraft version are fetched from and
/// cached.
pub struct VersionsFetch {
    pub url: String,
    pub cache_path: FsPath,
}

/// How the loader versions of a Minecraft version are obtained.
pub enum LoaderVersionsPlan {
    /// Answer from the cache and refresh it in the background.
    CachedThenRefresh(VersionsFetch),
    /// Fetch now (and cache the answer).
    Fetch(VersionsFetch),
}

/// The client of the Quilt metadata service.
pub struct QuiltApi {
    pub base_url: String,
    pub cache_dir: FsPath,
}

/// `k` is the entry that `filter(stable).max_by_key(build)` picks: a stable
/// entry with the greatest build, the last one among equals.
pub open spec fn is_latest_stable(s: Seq<QuiltVersionInfo>, k: int) -> bool {
    &&& 0 <= k < s.len()
    &&& s[k].loader.stable
    &&& forall|j: int| 0 <= j < s.len() && s[j].loader.stable ==> s[j].loader.build <= s[k].loader.build
    &&& forall|j: int| k < j < s.len() && s[j].loader.stable ==> s[j].loader.build < s[k].loader.build
}

/// The file that caches the loader versions of `minecraft_version`.
pub open spec fn cache_file_name(minecraft_version: Seq<char>) -> Seq<char> {
    "quilt_versions_"@ + minecraft_version + ".json"@
}

impl QuiltApi {
    /// A client of the Quilt metadata service that caches under
    /// `meta_dir/quilt_cache`.
    pub fn new(meta_dir: &FsPath) -> (r: Self)
        ensures
            r.base_url@ == QUILT_BASE_URL@,
            r.cache_dir@ == join_path(meta_dir@, QUILT_CACHE_DIR@),
    {
        QuiltApi { base_url: QUILT_BASE_URL.to_owned(), cache_dir: meta_dir.join_str(QUILT_CACHE_DIR) }
    }

    /// Where the loader versions of `minecraft_version` are fetched from and
    /// cached.
    pub fn versions_fetch(&self, minecraft_version: &str) -> (r: VersionsFetch)
        ensures
            r.url@ == self.base_url@ + "/versions/loader/"@ + minecraft_version@,
            r.cache_path@ == join_path(self.cache_dir@, cache_file_name(minecraft_version@)),
    {
        let mut url = str_concat(self.base_url.as_str(), "/versions/loader/");
        url.append(minecraft_version);
        let mut name = str_concat("quilt_versions_", minecraft_version);
        name.append(".json");
        VersionsFetch { url, cache_path: self.cache_dir.join_str(name.as_str()) }
    }

    /// How the loader versions of `minecraft_version` are obtained: from the
    /// cache, refreshed in the background, when the cache file exists and
    /// reads and parses (`cache_usable`); otherwise fetched now.
    pub fn get_loader_versions(&self, minecraft_version: &str, cache_usable: bool) -> (r: LoaderVersionsPlan)
        ensures
            cache_usable <==> r is CachedThenRefresh,
            match r {
                LoaderVersionsPlan::CachedThenRefresh(f) | LoaderVersionsPlan::Fetch(f) => f.url@
                    == self.base_url@ + "/versions/loader/"@ + minecraft_version@ && f.cache_path@
                    == join_path(self.cache_dir@, cache_file_name(minecraft_version@)),
            },
    {
        let fetch = self.versions_fetch(minecraft_version);
        if cache_usable {
            LoaderVersionsPlan::CachedThenRefresh(fetch)
        } else {
            LoaderVersionsPlan::Fetch(fetch)
        }
    }

    /// The index of the latest stable loader version: the stable one with the
    /// greatest build, the last of several with that build; `None` when no
    /// version is stable.
    pub fn get_latest_stable_version(&self, versions: &Vec<QuiltVersionInfo>) -> (r: Option<usize>)
        ensures
            r is None <==> forall|j: int| 0 <= j < versions@.len() ==> !versions@[j].loader.stable,
            r matches Some(k) ==> is_latest_stable(versions@, k as int),
    {
        let mut best: Option<usize> = None;
        let mut i: usize = 0;
        while i < versions.len()
            invariant
                i <= versions.len(),
                best is None <==> forall|j: int| 0 <= j < i ==> !versions@[j].loader.stable,
                best matches Some(k) ==> {
                    &&& k < i
                    &&& versions@[k as int].loader.stable
                    &&& forall|j: int|
                        0 <= j < i && versions@[j].loader.stable ==> versions@[j].loader.build
                            <= versions@[k as int].loader.build
                    &&& forall|j: int|
                        k < j < i && versions@[j].loader.stable ==> versions@[j].loader.build
                            < versions@[k as int].loader.build
                },
            decreases versions.len() - i,
        {
            if versions[i].loader.stable {
                match best {
                    None => {
                        best = Some(i);
                    },
                    Some(k) => {
                        if versions[i].loader.build >= versions[k].loader.build {
                            best = Some(i);
                        }
                    },
                }
            }
            i = i + 1;
        }
        best
    }
}

} // verus!
