//! How the outcomes of a batch of downloads combine into one result, and the
//! download requests that the services hand to the transfer layer.
use vstd::prelude::*;
use crate::paths::FsPath;

verus! {

/// One file transfer as the services configure it.
pub struct DownloadRequest {
    /// Where the file comes from.
    pub url: String,
    /// Where the file goes.
    pub target: FsPath,
    /// The size the downloaded file must have, when it is checked.
    pub expected_size: Option<u64>,
    /// The SHA-1 digest the downloaded file must have, when it is checked.
    pub expected_sha1: Option<String>,
    /// Whether the body is streamed to disk rather than buffered.
    pub streaming: bool,
    /// How many times a failed transfer is retried.
    pub retries: u32,
}

/// `k` is the index of the first failure in `s`.
pub open spec fn is_first_failure<E>(s: Seq<Result<(), E>>, k: int) -> bool {
    0 <= k < s.len() && s[k] is Err && forall|j: int| 0 <= j < k ==> s[j] is Ok
}

/// The result of a batch: `Ok` when every outcome is `Ok`, otherwise the
/// first failure in the order given (the order in which the outcomes were
/// collected).
#[verifier::loop_isolation(false)]
pub fn first_failure<E>(results: Vec<Result<(), E>>) -> (r: Result<(), E>)
    ensures
        r is Ok <==> forall|i: int| 0 <= i < results@.len() ==> results@[i] is Ok,
        r matches Err(e) ==> exists|k: int|
            is_first_failure(results@, k) && results@[k] == Err::<(), E>(e),
{
    let ghost all = results@;
    let mut rest = results;
    let mut done: usize = 0;
    let total = rest.len();
    while rest.len() > 0
        invariant
            done + rest@.len() == all.len(),
            all.len() == total,
            rest@ == all.subrange(done as int, all.len() as int),
            forall|j: int| 0 <= j < done ==> all[j] is Ok,
        decreases rest@.len(),
    {
        let x = rest.remove(0);
        proof {
            assert(x == all[done as int]);
        }
        match x {
            Ok(()) => {},
            Err(e) => {
                proof {
                    assert(is_first_failure(all, done as int));
                }
                return Err(e);
            },
        }
        proof {
            assert(rest@ =~= all.subrange(done + 1, all.len() as int));
        }
        done = done + 1;
    }
    Ok(())
}

} // verus!
