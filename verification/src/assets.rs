//! The NoRisk client assets service: whether a profile's assets are processed
//! at all, which asset groups, where each asset is stored and fetched from,
//! and where it is copied in the game directory.
use vstd::prelude::*;
use vstd::string::*;
use crate::ids::{uuid_hyphenated, uuid_to_string};
use crate::asset_tree::{merge_expected_paths, paths_view};
use crate::group_flow::{contributes_paths, GroupStage};
use crate::paths::{FsPath, PathView, join_path, strings_view};
use crate::text::{str_concat, has_prefix};

verus! {

/// Name of the assets directory under the launcher's meta directory.
pub const ASSETS_DIR: &'static str = "assets";

/// Name of the NoRisk client's directory inside the assets directory.
pub const NORISK_ASSETS_DIR: &'static str = "noriskclient";

/// Transfers that run at the same time.
pub const DEFAULT_CONCURRENT_DOWNLOADS: usize = 12;

/// Where the CDN serves the assets of a group.
pub const ASSETS_CDN_URL: &'static str = "https://cdn.norisk.gg/assets";

/// Asset names with this prefix are copied into the game directory itself.
pub const OVERRIDES_PREFIX: &'static str = "overrides/";

/// An asset file: its content hash (SHA-1, hexadecimal) and size.
pub struct AssetObject {
    pub hash: String,
    pub size: i64,
}

/// The NoRisk-specific settings of a profile.
pub struct NoriskInformation {
    pub keep_local_assets: bool,
}

/// The parts of a launcher profile that the assets service reads.
pub struct Profile {
    pub id: u128,
    pub selected_norisk_pack_id: Option<String>,
    pub norisk_information: Option<NoriskInformation>,
}

/// A NoRisk access token.
pub struct NoriskToken {
    pub value: String,
}

/// The NoRisk tokens of an account, one per environment.
pub struct NoriskCredentials {
    pub production: Option<NoriskToken>,
    pub experimental: Option<NoriskToken>,
}

/// The parts of a Minecraft account that the assets service reads.
pub struct Credentials {
    pub id: u128,
    pub norisk_credentials: NoriskCredentials,
}

/// What an asset run for a profile works with.
pub struct AssetSession {
    pub main_pack_id: String,
    pub norisk_token: String,
    pub request_uuid: String,
    pub keep_local_assets: bool,
}

/// Whether the assets of a profile are processed, and with what.
pub enum AssetSessionPlan {
    /// The profile selects no pack (or an empty pack id): nothing to do.
    NoPackSelected,
    /// No account was given: nothing to do.
    NoCredentials,
    /// The account has no token for the environment: nothing to do.
    NoToken,
    /// Process the assets of the pack.
    Start(AssetSession),
}

/// One asset to fetch.
pub struct AssetDownloadJob {
    pub name: String,
    pub url: String,
    pub target: FsPath,
}

/// Downloads the NoRisk client's assets and places them in a profile's game
/// directory.
pub struct NoriskClientAssetsDownloadService {
    pub base_path: FsPath,
    pub concurrent_downloads: usize,
}

/// Whether the profile keeps local asset files.
pub open spec fn keeps_local_assets(profile: Profile) -> bool {
    match profile.norisk_information {
        Some(info) => info.keep_local_assets,
        None => false,
    }
}

/// The token for the environment.
pub open spec fn token_for(credentials: Credentials, is_experimental: bool) -> Option<NoriskToken> {
    if is_experimental {
        credentials.norisk_credentials.experimental
    } else {
        credentials.norisk_credentials.production
    }
}

/// The characters that `&hash[0..2]` takes, when that slice is valid: two
/// one-byte characters, or one two-byte character.
pub open spec fn hash_prefix(h: Seq<char>) -> Option<Seq<char>> {
    if h.len() >= 1 && 0x80 <= (h[0] as u32) < 0x800 {
        Some(h.take(1))
    } else if h.len() >= 2 && (h[0] as u32) < 0x80 && (h[1] as u32) < 0x80 {
        Some(h.take(2))
    } else {
        None
    }
}

/// The ids with every repetition after the first occurrence removed.
pub open spec fn dedup_first(s: Seq<Seq<char>>) -> Seq<Seq<char>>
    decreases s.len(),
{
    if s.len() == 0 {
        seq![]
    } else {
        let d = dedup_first(s.drop_last());
        if s.drop_last().contains(s.last()) {
            d
        } else {
            d.push(s.last())
        }
    }
}

/// The indices of the assets that are not present yet, in order.
pub open spec fn pending_indices(present: Seq<bool>) -> Seq<int>
    decreases present.len(),
{
    if present.len() == 0 {
        seq![]
    } else {
        let d = pending_indices(present.drop_last());
        if present.last() {
            d
        } else {
            d.push(present.len() - 1)
        }
    }
}

/// The URL of asset `name` of group `asset_id`.
pub open spec fn asset_url(asset_id: Seq<char>, name: Seq<char>) -> Seq<char> {
    ASSETS_CDN_URL@ + "/"@ + asset_id + "/assets/"@ + name
}

/// Where the content of an asset of group `asset_id` is stored:
/// `<base>/noriskclient/<asset_id>/objects/<hash prefix>/<hash>`.
pub open spec fn asset_object_view(base: PathView, asset_id: Seq<char>, hash: Seq<char>) -> PathView {
    join_path(
        join_path(
            join_path(join_path(join_path(base, NORISK_ASSETS_DIR@), asset_id), "objects"@),
            hash_prefix(hash).unwrap(),
        ),
        hash,
    )
}

/// Where an asset named `name` is copied, and whether it is an override.
pub open spec fn copy_target_view(name: Seq<char>, target_base: PathView, minecraft_dir: PathView) -> (
    PathView,
    bool,
) {
    let p = OVERRIDES_PREFIX@;
    if p.len() <= name.len() && name.subrange(0, p.len() as int) == p {
        (join_path(minecraft_dir, name.subrange(p.len() as int, name.len() as int)), true)
    } else {
        (join_path(target_base, name), false)
    }
}

/// The download URL of an asset keeps the asset's full name: it ends with
/// `/assets/` and the name, unchanged, after the CDN prefix and the group id;
/// so two different names of a group never share a URL.
pub proof fn lemma_asset_url_keeps_name(asset_id: Seq<char>, name: Seq<char>, other: Seq<char>)
    ensures
        asset_url(asset_id, name).len() == "https://cdn.norisk.gg/assets"@.len() + asset_id.len() + name.len() + 9,
        asset_url(asset_id, name).take(("https://cdn.norisk.gg/assets"@.len() + 1 + asset_id.len()) as int)
            == "https://cdn.norisk.gg/assets"@ + "/"@ + asset_id,
        asset_url(asset_id, name).skip(asset_url(asset_id, name).len() - name.len() - 8) == "/assets/"@ + name,
        asset_url(asset_id, name) == asset_url(asset_id, other) ==> name == other,
{
    reveal_strlit("https://cdn.norisk.gg/assets");
    reveal_strlit("/");
    reveal_strlit("/assets/");
    let pre = ASSETS_CDN_URL@ + "/"@ + asset_id + "/assets/"@;
    assert(asset_url(asset_id, name) == pre + name);
    assert(asset_url(asset_id, other) == pre + other);
    assert((pre + name).take(("https://cdn.norisk.gg/assets"@.len() + 1 + asset_id.len()) as int)
        =~= "https://cdn.norisk.gg/assets"@ + "/"@ + asset_id);
    assert((pre + name).skip((pre + name).len() - name.len() - 8) =~= "/assets/"@ + name);
    if pre + name == pre + other {
        assert(name =~= (pre + name).skip(pre.len() as int));
        assert(other =~= (pre + other).skip(pre.len() as int));
    }
}

/// Where an asset is copied depends on its name's prefix alone: every name
/// that starts with `overrides/` is an override copied to the game directory
/// joined with the rest of the name (in a subdirectory or not); every other
/// name is copied, as a normal asset, to the asset directory joined with the
/// whole name.
pub proof fn lemma_copy_target_by_prefix(
    rest: Seq<char>,
    name: Seq<char>,
    target_base: PathView,
    minecraft_dir: PathView,
)
    ensures
        copy_target_view("overrides/"@ + rest, target_base, minecraft_dir) == (join_path(minecraft_dir, rest), true),
        !(exists|r: Seq<char>| name == "overrides/"@ + r) ==> copy_target_view(name, target_base, minecraft_dir) == (
            join_path(target_base, name),
            false,
        ),
{
    reveal_strlit("overrides/");
    let p = "overrides/"@;
    let n = p + rest;
    assert(n.subrange(0, p.len() as int) =~= p);
    assert(n.subrange(p.len() as int, n.len() as int) =~= rest);
    if p.len() <= name.len() && name.subrange(0, p.len() as int) == p {
        assert(name =~= p + name.subrange(p.len() as int, name.len() as int));
    }
}

proof fn lemma_dedup_contains(s: Seq<Seq<char>>)
    ensures
        forall|x: Seq<char>| dedup_first(s).contains(x) <==> s.contains(x),
    decreases s.len(),
{
    if s.len() > 0 {
        let t = s.drop_last();
        lemma_dedup_contains(t);
        assert forall|x: Seq<char>| dedup_first(s).contains(x) <==> s.contains(x) by {
            if s.contains(x) {
                let k = choose|k: int| 0 <= k < s.len() && s[k] == x;
                if k < t.len() {
                    assert(t[k] == x);
                }
            }
            if t.contains(x) {
                let k = choose|k: int| 0 <= k < t.len() && t[k] == x;
                assert(s[k] == x);
            }
            let d = dedup_first(t);
            if !t.contains(s.last()) {
                let dp = d.push(s.last());
                if dp.contains(x) {
                    let k = choose|k: int| 0 <= k < dp.len() && dp[k] == x;
                    if k < d.len() {
                        assert(d[k] == x);
                    }
                }
                if d.contains(x) {
                    let k = choose|k: int| 0 <= k < d.len() && d[k] == x;
                    assert(dp[k] == x);
                }
                assert(dp[d.len() as int] == s.last());
            }
        }
    }
}

/// The ids in order of first occurrence, each once.
pub proof fn lemma_dedup_no_duplicates(s: Seq<Seq<char>>)
    ensures
        dedup_first(s).no_duplicates(),
        forall|x: Seq<char>| dedup_first(s).contains(x) <==> s.contains(x),
    decreases s.len(),
{
    lemma_dedup_contains(s);
    if s.len() > 0 {
        let t = s.drop_last();
        lemma_dedup_no_duplicates(t);
        lemma_dedup_contains(t);
        let d = dedup_first(t);
        if !t.contains(s.last()) {
            let dp = d.push(s.last());
            assert forall|i: int, j: int| 0 <= i < dp.len() && 0 <= j < dp.len() && i != j implies dp[i]
                != dp[j] by {
                if i == d.len() {
                    assert(!d.contains(dp[j]) || dp[j] != s.last());
                    if dp[j] == s.last() {
                        assert(d[j] == s.last());
                        assert(d.contains(s.last()));
                    }
                } else if j == d.len() {
                    if dp[i] == s.last() {
                        assert(d[i] == s.last());
                        assert(d.contains(s.last()));
                    }
                } else {
                    assert(dp[i] == d[i] && dp[j] == d[j]);
                }
            }
        }
    }
}

/// Whether `v` holds a string equal to `x`.
fn contains_string(v: &Vec<String>, x: &String) -> (r: bool)
    ensures
        r == strings_view(v@).contains(x@),
{
    let mut i: usize = 0;
    while i < v.len()
        invariant
            i <= v.len(),
            forall|j: int| 0 <= j < i ==> v@[j]@ != x@,
        decreases v.len() - i,
    {
        if v[i] == *x {
            proof {
                assert(strings_view(v@)[i as int] == x@);
            }
            return true;
        }
        i = i + 1;
    }
    proof {
        if strings_view(v@).contains(x@) {
            let k = choose|k: int| 0 <= k < strings_view(v@).len() && strings_view(v@)[k] == x@;
            assert(v@[k]@ == x@);
        }
    }
    false
}

/// The asset groups of a pack, each once, in order of first mention.
pub fn unique_asset_ids(ids: &Vec<String>) -> (r: Vec<String>)
    ensures
        strings_view(r@) == dedup_first(strings_view(ids@)),
{
    let mut r: Vec<String> = Vec::new();
    let mut i: usize = 0;
    while i < ids.len()
        invariant
            i <= ids.len(),
            strings_view(r@) == dedup_first(strings_view(ids@.take(i as int))),
        decreases ids.len() - i,
    {
        let ghost t = strings_view(ids@.take(i as int));
        let ghost t1 = strings_view(ids@.take(i + 1));
        proof {
            assert(t1.drop_last() =~= t);
            assert(t1.last() == ids@[i as int]@);
            lemma_dedup_contains(t);
        }
        if !contains_string(&r, &ids[i]) {
            let x = ids[i].clone();
            proof {
                assert(strings_view(r@.push(x)) =~= strings_view(r@).push(x@));
            }
            r.push(x);
        }
        i = i + 1;
    }
    proof {
        assert(ids@.take(ids.len() as int) =~= ids@);
    }
    r
}

/// `"Bearer " + token`, the authorization header of asset requests.
pub fn authorization_header(token: &str) -> (r: String)
    ensures
        r@ == "Bearer "@ + token@,
{
    str_concat("Bearer ", token)
}

/// The URL of asset `name` of group `asset_id`.
pub fn asset_download_url(asset_id: &str, name: &str) -> (r: String)
    ensures
        r@ == asset_url(asset_id@, name@),
{
    let mut r = str_concat(ASSETS_CDN_URL, "/");
    r.append(asset_id);
    r.append("/assets/");
    r.append(name);
    r
}

/// The directory of the game directory that normal assets are copied into:
/// `<game>/NoRiskClient/assets`.
pub fn target_base_dir(game_directory: &FsPath) -> (r: FsPath)
    ensures
        r@ == join_path(join_path(game_directory@, "NoRiskClient"@), "assets"@),
{
    game_directory.join_str("NoRiskClient").join_str("assets")
}

/// Whether `&hash[0..2]` is a valid slice, i.e. whether the hash names a
/// bucket directory.
pub fn has_hash_bucket(hash: &str) -> (r: bool)
    ensures
        r == (hash_prefix(hash@) is Some),
{
    let n = hash.unicode_len();
    if n == 0 {
        return false;
    }
    let c0 = hash.get_char(0);
    if 0x80 <= (c0 as u32) && (c0 as u32) < 0x800 {
        return true;
    }
    n >= 2 && (c0 as u32) < 0x80 && (hash.get_char(1) as u32) < 0x80
}

/// The first characters of a content hash that name its bucket directory
/// (`&hash[0..2]`).
fn hash_bucket(hash: &str) -> (r: &str)
    requires
        hash_prefix(hash@) is Some,
    ensures
        r@ == hash_prefix(hash@).unwrap(),
{
    let c0 = hash.get_char(0);
    if 0x80 <= (c0 as u32) && (c0 as u32) < 0x800 {
        hash.substring_char(0, 1)
    } else {
        hash.substring_char(0, 2)
    }
}

/// Where an asset run stands before it touches any file: the profile must
/// select a pack, an account must be given, and the account must hold a
/// token for the environment. The request id is the account's UUID.
pub open spec fn session_plan_ok(
    r: AssetSessionPlan,
    profile: Profile,
    credentials: Option<Credentials>,
    is_experimental: bool,
) -> bool {
    match profile.selected_norisk_pack_id {
        None => r is NoPackSelected,
        Some(id) => if id@.len() == 0 {
            r is NoPackSelected
        } else {
            match credentials {
                None => r is NoCredentials,
                Some(c) => match token_for(c, is_experimental) {
                    None => r is NoToken,
                    Some(t) => r matches AssetSessionPlan::Start(s) && s.main_pack_id@ == id@
                        && s.norisk_token@ == t.value@ && s.request_uuid@ == uuid_hyphenated(c.id)
                        && s.keep_local_assets == keeps_local_assets(profile),
                },
            }
        },
    }
}

impl NoriskClientAssetsDownloadService {
    /// A service that stores assets under `meta_dir/assets`.
    pub fn new(meta_dir: &FsPath) -> (r: Self)
        ensures
            r.base_path@ == join_path(meta_dir@, ASSETS_DIR@),
            r.concurrent_downloads == DEFAULT_CONCURRENT_DOWNLOADS,
    {
        NoriskClientAssetsDownloadService {
            base_path: meta_dir.join_str(ASSETS_DIR),
            concurrent_downloads: DEFAULT_CONCURRENT_DOWNLOADS,
        }
    }

    /// The same service with `concurrent_downloads` transfers at a time.
    pub fn with_concurrent_downloads(self, concurrent_downloads: usize) -> (r: Self)
        ensures
            r.base_path == self.base_path,
            r.concurrent_downloads == concurrent_downloads,
    {
        let mut s = self;
        s.concurrent_downloads = concurrent_downloads;
        s
    }

    /// Whether and with what the assets of `profile` are processed.
    pub fn plan_asset_session(
        &self,
        profile: &Profile,
        credentials: Option<&Credentials>,
        is_experimental: bool,
    ) -> (r: AssetSessionPlan)
        ensures
            session_plan_ok(
                r,
                *profile,
                match credentials {
                    Some(c) => Some(*c),
                    None => None,
                },
                is_experimental,
            ),
    {
        let keep_local_assets = match &profile.norisk_information {
            Some(info) => info.keep_local_assets,
            None => false,
        };
        let main_pack_id = match &profile.selected_norisk_pack_id {
            Some(pack_id) => {
                if pack_id.as_str().is_empty() {
                    return AssetSessionPlan::NoPackSelected;
                }
                pack_id.clone()
            },
            None => {
                return AssetSessionPlan::NoPackSelected;
            },
        };
        let creds = match credentials {
            Some(c) => c,
            None => {
                return AssetSessionPlan::NoCredentials;
            },
        };
        let token_ref = if is_experimental {
            &creds.norisk_credentials.experimental
        } else {
            &creds.norisk_credentials.production
        };
        let norisk_token = match token_ref {
            Some(token) => token.value.clone(),
            None => {
                return AssetSessionPlan::NoToken;
            },
        };
        let request_uuid = uuid_to_string(creds.id);
        AssetSessionPlan::Start(
            AssetSession { main_pack_id, norisk_token, request_uuid, keep_local_assets },
        )
    }

    /// The directory that holds the content of asset group `asset_id`:
    /// `<base>/noriskclient/<asset_id>`.
    pub fn asset_store_dir(&self, asset_id: &str) -> (r: FsPath)
        ensures
            r@ == join_path(join_path(self.base_path@, NORISK_ASSETS_DIR@), asset_id@),
    {
        self.base_path.join_str(NORISK_ASSETS_DIR).join_str(asset_id)
    }

    /// Where the content of an asset with content hash `hash` is stored, by
    /// hash as Mojang stores objects: `.../objects/ab/abcdef...`.
    pub fn asset_object_path(&self, asset_id: &str, hash: &str) -> (r: FsPath)
        requires
            hash_prefix(hash@) is Some,
        ensures
            r@ == asset_object_view(self.base_path@, asset_id@, hash@),
    {
        let bucket = hash_bucket(hash);
        self.asset_store_dir(asset_id).join_str("objects").join_str(bucket).join_str(hash)
    }

    /// The assets of group `asset_id` that still have to be fetched, in
    /// order: those whose stored object is not `present`.
    pub fn plan_asset_downloads(
        &self,
        asset_id: &str,
        assets: &Vec<(String, AssetObject)>,
        present: &Vec<bool>,
    ) -> (r: Vec<AssetDownloadJob>)
        requires
            present@.len() == assets@.len(),
            forall|i: int| 0 <= i < assets@.len() ==> hash_prefix(#[trigger] assets@[i].1.hash@) is Some,
        ensures
            r@.len() == pending_indices(present@).len(),
            forall|k: int|
                #![trigger r@[k]]
                0 <= k < r@.len() ==> {
                    let j = pending_indices(present@)[k];
                    &&& 0 <= j && j < assets@.len()
                    &&& r@[k].name@ == assets@[j].0@
                    &&& r@[k].url@ == asset_url(asset_id@, assets@[j].0@)
                    &&& r@[k].target@ == asset_object_view(self.base_path@, asset_id@, assets@[j].1.hash@)
                },
    {
        let mut r: Vec<AssetDownloadJob> = Vec::new();
        let mut i: usize = 0;
        while i < assets.len()
            invariant
                i <= assets.len(),
                present@.len() == assets@.len(),
                forall|i: int| 0 <= i < assets@.len() ==> hash_prefix(#[trigger] assets@[i].1.hash@) is Some,
                r@.len() == pending_indices(present@.take(i as int)).len(),
                forall|k: int|
                    #![trigger r@[k]]
                    0 <= k < r@.len() ==> {
                        let j = pending_indices(present@.take(i as int))[k];
                        &&& 0 <= j && j < assets@.len()
                        &&& r@[k].name@ == assets@[j].0@
                        &&& r@[k].url@ == asset_url(asset_id@, assets@[j].0@)
                        &&& r@[k].target@ == asset_object_view(self.base_path@, asset_id@, assets@[j].1.hash@)
                    },
            decreases assets.len() - i,
        {
            let ghost before = pending_indices(present@.take(i as int));
            proof {
                assert(present@.take(i + 1).drop_last() =~= present@.take(i as int));
                lemma_pending_bounds(present@.take(i as int));
            }
            if !present[i] {
                let name = &assets[i].0;
                let hash = &assets[i].1.hash;
                let job = AssetDownloadJob {
                    name: name.clone(),
                    url: asset_download_url(asset_id, name.as_str()),
                    target: self.asset_object_path(asset_id, hash.as_str()),
                };
                r.push(job);
                proof {
                    let after = pending_indices(present@.take(i + 1));
                    assert(after == before.push(i as int));
                    assert forall|k: int| 0 <= k < r@.len() implies after[k] == if k < before.len() {
                        before[k]
                    } else {
                        i as int
                    } by {}
                }
            } else {
                proof {
                    assert(pending_indices(present@.take(i + 1)) == before);
                }
            }
            i = i + 1;
        }
        proof {
            assert(present@.take(assets.len() as int) =~= present@);
            assert(pending_indices(present@.take(assets.len() as int)) == pending_indices(present@));
            lemma_pending_bounds(present@);
        }
        r
    }
}

/// Exactly the assets that are not present are fetched, each once, in order.
pub proof fn lemma_pending_exactly_missing(present: Seq<bool>)
    ensures
        forall|i: int| 0 <= i < present.len() ==> (pending_indices(present).contains(i) <==> !present[i]),
        forall|a: int, b: int|
            0 <= a < b < pending_indices(present).len() ==> pending_indices(present)[a]
                < pending_indices(present)[b],
    decreases present.len(),
{
    lemma_pending_bounds(present);
    if present.len() > 0 {
        let t = present.drop_last();
        lemma_pending_exactly_missing(t);
        lemma_pending_bounds(t);
        let d = pending_indices(t);
        let n = present.len() - 1;
        assert forall|i: int| 0 <= i < present.len() implies (pending_indices(present).contains(i)
            <==> !present[i]) by {
            if i < n {
                assert(t[i] == present[i]);
                if d.contains(i) {
                    let k = choose|k: int| 0 <= k < d.len() && d[k] == i;
                    assert(pending_indices(present)[k] == i);
                }
                if pending_indices(present).contains(i) {
                    let k = choose|k: int|
                        0 <= k < pending_indices(present).len() && pending_indices(present)[k] == i;
                    if k < d.len() {
                        assert(d[k] == i);
                    }
                }
            } else {
                if !present[n] {
                    assert(pending_indices(present)[d.len() as int] == n);
                } else {
                    if d.contains(n) {
                        let k = choose|k: int| 0 <= k < d.len() && d[k] == n;
                        assert(d[k] < t.len());
                    }
                }
            }
        }
    }
}

/// When every object is present already, nothing is fetched.
pub proof fn lemma_all_present_plans_nothing(present: Seq<bool>)
    requires
        forall|i: int| 0 <= i < present.len() ==> present[i],
    ensures
        pending_indices(present).len() == 0,
{
    lemma_pending_exactly_missing(present);
    lemma_pending_bounds(present);
    if pending_indices(present).len() > 0 {
        let i = pending_indices(present)[0];
        assert(0 <= i < present.len());
        assert(pending_indices(present).contains(i));
        assert(!present[i]);
    }
}

proof fn lemma_pending_bounds(present: Seq<bool>)
    ensures
        pending_indices(present).len() <= present.len(),
        forall|k: int|
            0 <= k < pending_indices(present).len() ==> 0 <= #[trigger] pending_indices(present)[k]
                < present.len(),
    decreases present.len(),
{
    if present.len() > 0 {
        lemma_pending_bounds(present.drop_last());
    }
}

/// Assets are copied in batches of this size, with a progress report after
/// each batch.
pub const COPY_BATCH_SIZE: usize = 50;

/// The number of copy batches for `total_assets` assets (the last one may be
/// partial).
pub fn copy_batch_count(total_assets: usize) -> (r: usize)
    requires
        total_assets + COPY_BATCH_SIZE <= usize::MAX,
    ensures
        r == (total_assets + COPY_BATCH_SIZE - 1) / (COPY_BATCH_SIZE as int),
        r * COPY_BATCH_SIZE >= total_assets,
        r == 0 || (r - 1) * COPY_BATCH_SIZE < total_assets,
{
    let r = (total_assets + COPY_BATCH_SIZE - 1) / COPY_BATCH_SIZE;
    proof {
        let t = total_assets as int;
        assert(r * 50 >= t && (r == 0 || (r - 1) * 50 < t)) by (nonlinear_arith)
            requires
                r == (t + 49) / 50,
                t >= 0,
        ;
    }
    r
}

/// Where an asset named `name` is copied: assets under `overrides/` go to the
/// game directory itself (without the prefix), the others under the
/// NoRisk client's asset directory. The flag tells an override.
pub fn copy_target(name: &str, target_base_dir: &FsPath, minecraft_dir: &FsPath) -> (r: (
    FsPath,
    bool,
))
    ensures
        (r.0@, r.1) == copy_target_view(name@, target_base_dir@, minecraft_dir@),
{
    if has_prefix(name, OVERRIDES_PREFIX) {
        let p = OVERRIDES_PREFIX.unicode_len();
        let n = name.unicode_len();
        let rest = name.substring_char(p, n);
        (minecraft_dir.join_str(rest), true)
    } else {
        (target_base_dir.join_str(name), false)
    }
}

/// The first decision on copying one asset, from what exists.
pub enum CopyCheck {
    /// The stored object is missing: nothing to copy.
    SourceMissing,
    /// Copy the object.
    Copy,
    /// Leave the existing file.
    Keep,
    /// The existing file is compared with the object first.
    CompareWithSource,
}

/// Whether an asset is copied, from what exists: a missing object is skipped,
/// a missing target is copied, an existing override or (when the profile
/// keeps local assets) an existing file is left, and any other existing file
/// is compared with the object.
pub fn copy_check(
    source_exists: bool,
    target_exists: bool,
    is_override: bool,
    keep_local_assets: bool,
) -> (r: CopyCheck)
    ensures
        !source_exists ==> r is SourceMissing,
        source_exists && !target_exists ==> r is Copy,
        source_exists && target_exists && (is_override || keep_local_assets) ==> r is Keep,
        source_exists && target_exists && !is_override && !keep_local_assets ==> r is CompareWithSource,
{
    if !source_exists {
        CopyCheck::SourceMissing
    } else if target_exists {
        if is_override {
            CopyCheck::Keep
        } else if keep_local_assets {
            CopyCheck::Keep
        } else {
            CopyCheck::CompareWithSource
        }
    } else {
        CopyCheck::Copy
    }
}

/// Whether an existing file is replaced by the object: when its length,
/// read as a signed size, differs from the asset's size, or when the object
/// is newer than the file.
pub fn copy_after_compare(target_len: u64, asset_size: i64, source_newer: bool) -> (r: bool)
    ensures
        r == ((target_len as i64) != asset_size || source_newer),
{
    if target_len as i64 != asset_size {
        true
    } else {
        source_newer
    }
}

/// The paths that count for the cleanup after one more asset group: the
/// group's paths are added when it finished (`Done`); an empty, failed or
/// unfinished group adds nothing, so whatever it left counts as orphaned.
pub fn record_group_paths(all: Vec<FsPath>, stage: GroupStage, group: &Vec<FsPath>) -> (r: Vec<FsPath>)
    requires
        paths_view(all@).no_duplicates(),
    ensures
        paths_view(r@).no_duplicates(),
        forall|p: PathView|
            paths_view(r@).contains(p) <==> (paths_view(all@).contains(p) || (stage == GroupStage::Done
                && paths_view(group@).contains(p))),
{
    if contributes_paths(stage) {
        merge_expected_paths(all, group)
    } else {
        all
    }
}

} // verus!
