//! The Minecraft libraries download service: where each library file goes and
//! which transfers a library needs.
use vstd::prelude::*;
use vstd::string::*;
use crate::outcome::{DownloadRequest, first_failure, is_first_failure};
use crate::paths::{FsPath, PathView, join_path};
use crate::text::{find_from, first_occurrence_from, lemma_first_occurrence_unique, occurs_from};

verus! {

/// Name of the libraries directory under the launcher's meta directory.
pub const LIBRARIES_DIR: &'static str = "libraries";

/// Transfers of one library that run at the same time.
pub const DEFAULT_CONCURRENT_DOWNLOADS: usize = 12;

/// Libraries handled at the same time.
pub const DEFAULT_CONCURRENT_LIBRARIES: usize = 12;

/// Retries of a failed library transfer.
pub const LIBRARY_RETRIES: u32 = 3;

/// What precedes the relative path of a library in its URL.
pub const LIBRARY_HOST_MARKER: &'static str = "libraries.minecraft.net/";

/// One downloadable file of a library.
pub struct DownloadInfo {
    pub url: String,
    pub size: i64,
}

/// The downloadable files of a library: the main artifact and the
/// classifier-specific ones (natives), by classifier name.
pub struct LibraryDownloads {
    pub artifact: Option<DownloadInfo>,
    pub classifiers: Option<Vec<(String, DownloadInfo)>>,
}

/// A library of a Minecraft version.
pub struct Library {
    pub downloads: LibraryDownloads,
}

/// Downloads the libraries of a Minecraft version into the launcher's
/// library directory.
pub struct MinecraftLibrariesDownloadService {
    pub base_path: FsPath,
    pub concurrent_downloads: usize,
    pub concurrent_libraries: usize,
}

/// The first index of `p` in `s` (when there is one).
pub open spec fn first_index(s: Seq<char>, p: Seq<char>, from: int) -> int {
    choose|i: int| first_occurrence_from(s, p, from, i)
}

/// The relative path that a library URL names: what follows the first
/// `libraries.minecraft.net/`, up to the next one (the second piece of
/// `url.split("libraries.minecraft.net/")`).
pub open spec fn library_relative_path(url: Seq<char>, marker: Seq<char>) -> Seq<char> {
    let start = first_index(url, marker, 0) + marker.len();
    let end = if occurs_from(url, marker, start) {
        first_index(url, marker, start)
    } else {
        url.len() as int
    };
    url.subrange(start, end)
}

/// Whether `url` names a library's relative path (contains
/// `libraries.minecraft.net/`).
pub fn is_library_url(url: &str) -> (r: bool)
    ensures
        r == occurs_from(url@, LIBRARY_HOST_MARKER@, 0),
{
    find_from(url, LIBRARY_HOST_MARKER, 0).is_some()
}

/// The request that fetches one library file to `target`.
pub open spec fn library_request_ok(req: DownloadRequest, info: DownloadInfo, target: PathView) -> bool {
    &&& req.url@ == info.url@
    &&& req.target@ == target
    &&& req.expected_size == Some(info.size as u64)
    &&& req.expected_sha1 is None
    &&& !req.streaming
    &&& req.retries == LIBRARY_RETRIES
}

/// The files of a library in the order they are requested: the artifact,
/// then the classifier files.
pub open spec fn library_files(library: Library) -> Seq<DownloadInfo> {
    let artifact = match library.downloads.artifact {
        Some(a) => seq![a],
        None => seq![],
    };
    let classifiers = match library.downloads.classifiers {
        Some(v) => v@.map_values(|e: (String, DownloadInfo)| e.1),
        None => seq![],
    };
    artifact + classifiers
}

/// A library's files are its artifact, when it has one, followed by every
/// classifier file, when it has classifiers; the two are independent, so a
/// library with classifiers but no artifact still has all its classifier
/// files requested.
pub proof fn lemma_library_files_exact(library: Library)
    ensures
        library_files(library).len() == (if library.downloads.artifact is Some { 1int } else { 0int }) + (
        match library.downloads.classifiers {
            Some(v) => v@.len() as int,
            None => 0int,
        }),
        library.downloads.artifact matches Some(a) ==> library_files(library)[0] == a,
        library.downloads.classifiers matches Some(v) ==> forall|k: int|
            0 <= k < v@.len() ==> library_files(library)[(if library.downloads.artifact is Some {
                1int
            } else {
                0int
            }) + k] == (#[trigger] v@[k]).1,
{
}

/// Every file of the library has a URL that names its relative path.
pub open spec fn library_urls_valid(library: Library) -> bool {
    forall|i: int|
        0 <= i < library_files(library).len() ==> occurs_from(
            #[trigger] library_files(library)[i].url@,
            LIBRARY_HOST_MARKER@,
            0,
        )
}

impl MinecraftLibrariesDownloadService {
    /// A service that stores libraries under `meta_dir/libraries`.
    pub fn new(meta_dir: &FsPath) -> (r: Self)
        ensures
            r.base_path@ == join_path(meta_dir@, LIBRARIES_DIR@),
            r.concurrent_downloads == DEFAULT_CONCURRENT_DOWNLOADS,
            r.concurrent_libraries == DEFAULT_CONCURRENT_LIBRARIES,
    {
        MinecraftLibrariesDownloadService {
            base_path: meta_dir.join_str(LIBRARIES_DIR),
            concurrent_downloads: DEFAULT_CONCURRENT_DOWNLOADS,
            concurrent_libraries: DEFAULT_CONCURRENT_LIBRARIES,
        }
    }

    /// The same service with `concurrent_downloads` transfers per library.
    pub fn with_concurrent_downloads(self, concurrent_downloads: usize) -> (r: Self)
        ensures
            r.base_path == self.base_path,
            r.concurrent_downloads == concurrent_downloads,
            r.concurrent_libraries == self.concurrent_libraries,
    {
        let mut s = self;
        s.concurrent_downloads = concurrent_downloads;
        s
    }

    /// Where a library file goes: the library directory joined with the
    /// relative path that its URL names.
    pub fn get_library_path(&self, download_info: &DownloadInfo) -> (r: FsPath)
        requires
            occurs_from(download_info.url@, LIBRARY_HOST_MARKER@, 0),
        ensures
            r@ == join_path(
                self.base_path@,
                library_relative_path(download_info.url@, LIBRARY_HOST_MARKER@),
            ),
    {
        let url = download_info.url.as_str();
        let n = url.unicode_len();
        let m = LIBRARY_HOST_MARKER.unicode_len();
        let first = find_from(url, LIBRARY_HOST_MARKER, 0);
        let i1 = match first {
            Some(i) => i,
            None => {
                proof {
                    assert(false);
                }
                0
            },
        };
        proof {
            let k = first_index(url@, LIBRARY_HOST_MARKER@, 0);
            lemma_first_occurrence_unique(url@, LIBRARY_HOST_MARKER@, 0, i1 as int, k);
        }
        let start = i1 + m;
        let end = match find_from(url, LIBRARY_HOST_MARKER, start) {
            Some(i2) => {
                proof {
                    let k = first_index(url@, LIBRARY_HOST_MARKER@, start as int);
                    lemma_first_occurrence_unique(url@, LIBRARY_HOST_MARKER@, start as int, i2 as int, k);
                }
                i2
            },
            None => n,
        };
        let rel = url.substring_char(start, end);
        self.base_path.join_str(rel)
    }

    /// The transfer that fetches one library file: its size is checked, the
    /// body is not streamed, and a failure is retried three times.
    pub fn file_download_request(&self, download_info: &DownloadInfo) -> (r: DownloadRequest)
        requires
            occurs_from(download_info.url@, LIBRARY_HOST_MARKER@, 0),
        ensures
            library_request_ok(
                r,
                *download_info,
                join_path(
                    self.base_path@,
                    library_relative_path(download_info.url@, LIBRARY_HOST_MARKER@),
                ),
            ),
    {
        let target = self.get_library_path(download_info);
        DownloadRequest {
            url: download_info.url.clone(),
            target,
            expected_size: Some(download_info.size as u64),
            expected_sha1: None,
            streaming: false,
            retries: LIBRARY_RETRIES,
        }
    }

    /// The transfers that one library needs, in order: its artifact, then its
    /// classifier files.
    pub fn library_download_requests(&self, library: &Library) -> (r: Vec<DownloadRequest>)
        requires
            library_urls_valid(*library),
        ensures
            r@.len() == library_files(*library).len(),
            forall|i: int|
                0 <= i < r@.len() ==> library_request_ok(
                    #[trigger] r@[i],
                    library_files(*library)[i],
                    join_path(
                        self.base_path@,
                        library_relative_path(library_files(*library)[i].url@, LIBRARY_HOST_MARKER@),
                    ),
                ),
    {
        let ghost files = library_files(*library);
        let mut r: Vec<DownloadRequest> = Vec::new();
        let mut done: usize = 0;
        if let Some(artifact) = &library.downloads.artifact {
            proof {
                assert(files[0] == *artifact);
            }
            r.push(self.file_download_request(artifact));
            done = 1;
        }
        if let Some(classifiers) = &library.downloads.classifiers {
            let mut i: usize = 0;
            while i < classifiers.len()
                invariant
                    files == library_files(*library),
                    library_urls_valid(*library),
                    library.downloads.classifiers == Some(*classifiers),
                    done == (if library.downloads.artifact is Some { 1int } else { 0int }),
                    i <= classifiers.len(),
                    r@.len() == done + i,
                    forall|k: int|
                        0 <= k < r@.len() ==> library_request_ok(
                            #[trigger] r@[k],
                            files[k],
                            join_path(
                                self.base_path@,
                                library_relative_path(files[k].url@, LIBRARY_HOST_MARKER@),
                            ),
                        ),
                decreases classifiers.len() - i,
            {
                let info = &classifiers[i].1;
                proof {
                    assert(files[done + i] == classifiers@[i as int].1);
                    assert(occurs_from(files[done + i].url@, LIBRARY_HOST_MARKER@, 0));
                }
                r.push(self.file_download_request(info));
                i = i + 1;
            }
        }
        r
    }

    /// The transfers of each library, one list per library in the order given.
    pub fn plan_library_downloads(&self, libraries: &Vec<Library>) -> (r: Vec<Vec<DownloadRequest>>)
        requires
            forall|i: int| 0 <= i < libraries@.len() ==> library_urls_valid(#[trigger] libraries@[i]),
        ensures
            r@.len() == libraries@.len(),
            forall|i: int|
                0 <= i < r@.len() ==> (#[trigger] r@[i])@.len() == library_files(libraries@[i]).len()
                    && forall|j: int|
                    0 <= j < r@[i]@.len() ==> library_request_ok(
                        #[trigger] r@[i]@[j],
                        library_files(libraries@[i])[j],
                        join_path(
                            self.base_path@,
                            library_relative_path(
                                library_files(libraries@[i])[j].url@,
                                LIBRARY_HOST_MARKER@,
                            ),
                        ),
                    ),
    {
        let mut r: Vec<Vec<DownloadRequest>> = Vec::new();
        let mut i: usize = 0;
        while i < libraries.len()
            invariant
                i <= libraries.len(),
                forall|k: int| 0 <= k < libraries@.len() ==> library_urls_valid(#[trigger] libraries@[k]),
                r@.len() == i,
                forall|k: int|
                    0 <= k < r@.len() ==> (#[trigger] r@[k])@.len() == library_files(libraries@[k]).len()
                        && forall|j: int|
                        0 <= j < r@[k]@.len() ==> library_request_ok(
                            #[trigger] r@[k]@[j],
                            library_files(libraries@[k])[j],
                            join_path(
                                self.base_path@,
                                library_relative_path(
                                    library_files(libraries@[k])[j].url@,
                                    LIBRARY_HOST_MARKER@,
                                ),
                            ),
                        ),
            decreases libraries.len() - i,
        {
            let reqs = self.library_download_requests(&libraries[i]);
            r.push(reqs);
            i = i + 1;
        }
        r
    }

    /// The result of downloading every library, given the outcome of each
    /// library in the order of the list: every library is run to its end,
    /// the result is `Ok` exactly when every library succeeded, and
    /// otherwise it is the failure of the first library (in list order)
    /// that failed.
    pub fn download_libraries<E>(&self, library_outcomes: Vec<Result<(), E>>) -> (r: Result<(), E>)
        ensures
            r is Ok <==> forall|i: int| 0 <= i < library_outcomes@.len() ==> library_outcomes@[i] is Ok,
            r matches Err(e) ==> exists|k: int|
                is_first_failure(library_outcomes@, k) && library_outcomes@[k] == Err::<(), E>(e),
    {
        first_failure(library_outcomes)
    }
}

} // verus!
