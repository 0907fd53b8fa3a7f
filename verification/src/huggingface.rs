//! Hugging Face Hub model downloading: endpoints, URLs, the native cache
//! location, and the plan of a snapshot download.

use vstd::prelude::*;

use crate::paths::{join_model, parse_model, partial_model, safe_path, safe_path_model, CachePath, PathError};
use crate::text::{chars_of, push_char, replace_all, replace_str, string_of, string_of_prefix, trim_end_char, trim_trailing};
use crate::unified::{concat, hf_file_url, hf_file_url_of};
use crate::urlenc::{encode_path, encode_path_spec};

verus! {

/// The official Hub endpoint.
pub const DEFAULT_ENDPOINT: &'static str = "https://huggingface.co";

/// The mirror tried first.
pub const MIRROR_ENDPOINT: &'static str = "https://hf-mirror.com";

/// How many files download at once by default.
pub const DEFAULT_CONCURRENCY: usize = 4;

/// LFS metadata of a listed file.
#[derive(Debug)]
pub struct LfsInfo {
    pub size: Option<u64>,
}

/// One file of a model listing.
#[derive(Debug)]
pub struct Sibling {
    pub rfilename: String,
    pub size: Option<u64>,
    pub lfs: Option<LfsInfo>,
}

/// A model listing.
#[derive(Debug)]
pub struct ModelInfo {
    pub sha: Option<String>,
    pub siblings: Vec<Sibling>,
}

/// The size a listed file should have: the stated size, else its LFS size.
pub open spec fn expected_size_spec(s: Sibling) -> Option<u64> {
    match s.size {
        Some(n) => Some(n),
        None => match s.lfs {
            Some(l) => l.size,
            None => None,
        },
    }
}

impl Sibling {
    /// The size this file should have, when the listing states one.
    pub fn expected_size(&self) -> (res: Option<u64>)
        ensures
            res == expected_size_spec(*self),
    {
        match self.size {
            Some(n) => Some(n),
            None => match &self.lfs {
                Some(l) => l.size,
                None => None,
            },
        }
    }
}

/// `value` cut to `max_chars` characters, the last one replaced by `…`
/// when it had to be cut.
pub open spec fn compact_label_spec(value: Seq<char>, max_chars: nat) -> Seq<char> {
    if value.len() <= max_chars {
        value
    } else {
        value.take(max_chars - 1).push('…')
    }
}

/// A label shortened for a progress line.
pub fn compact_label(value: &str, max_chars: usize) -> (res: String)
    requires
        max_chars > 0 || value@.len() == 0,
    ensures
        res@ == compact_label_spec(value@, max_chars as nat),
{
    let cs = chars_of(value);
    if cs.len() <= max_chars {
        string_of(cs.as_slice())
    } else {
        let mut s = string_of_prefix(cs.as_slice(), max_chars - 1);
        push_char(&mut s, '…');
        s
    }
}

/// The endpoints to try: the one `HF_ENDPOINT` names without trailing
/// slashes, else the mirror and then the official Hub.
pub fn endpoints(hf_endpoint: Option<&str>) -> (res: Vec<String>)
    ensures
        match hf_endpoint {
            Some(e) => res@.len() == 1 && res@[0]@ == trim_trailing(e@, '/'),
            None => res@.len() == 2 && res@[0]@ == MIRROR_ENDPOINT@ && res@[1]@ == DEFAULT_ENDPOINT@,
        },
{
    let mut res: Vec<String> = Vec::new();
    match hf_endpoint {
        Some(e) => {
            res.push(trim_end_char(e, '/'));
        },
        None => {
            res.push(String::from_str(MIRROR_ENDPOINT));
            res.push(String::from_str(DEFAULT_ENDPOINT));
        },
    }
    res
}

/// The Hub token requests carry: `HF_TOKEN` where it is set, else
/// `HUGGINGFACE_HUB_TOKEN` (`huggingface_hub_token`). The arguments are those
/// variables' values.
pub fn hub_token(hf_token: Option<String>, huggingface_hub_token: Option<String>) -> (res: Option<String>)
    ensures
        res == (if hf_token is Some {
            hf_token
        } else {
            huggingface_hub_token
        }),
{
    match hf_token {
        Some(t) => Some(t),
        None => huggingface_hub_token,
    }
}

/// What one endpoint answered when asked for a listing.
#[derive(Clone, Copy, Debug, PartialEq, Eq, Structural)]
pub enum EndpointAnswer {
    /// A success status with a listing that parses.
    Listing,
    /// A success status whose body is no listing.
    BadBody,
    /// Another status.
    BadStatus,
    /// No answer at all.
    Unreachable,
}

/// What to do after an endpoint's answer.
#[derive(Clone, Copy, Debug, PartialEq, Eq, Structural)]
pub enum EndpointStep {
    /// Use this endpoint's listing.
    Use,
    /// Record the failure and try the next endpoint; the listing fails
    /// when none is left.
    TryNext,
}

/// The endpoints are tried in turn until one gives a listing: the mirror
/// failing in any way falls back to the official Hub.
pub fn endpoint_step(answer: EndpointAnswer) -> (res: EndpointStep)
    ensures
        res == (if answer == EndpointAnswer::Listing {
            EndpointStep::Use
        } else {
            EndpointStep::TryNext
        }),
{
    match answer {
        EndpointAnswer::Listing => EndpointStep::Use,
        _ => EndpointStep::TryNext,
    }
}

/// What one endpoint answered when asked for a model.
#[derive(Clone, Copy, Debug, PartialEq, Eq, Structural)]
pub enum ProbeOutcome {
    /// It has the model.
    Found,
    /// It answered 404.
    NotFound,
    /// Another status, or no answer.
    Failed,
}

/// Whether a model exists, from what the endpoints answered in turn: yes
/// as soon as one has it; no when every one answered 404; unknown (`None`,
/// an error to report) when some endpoint failed otherwise.
pub open spec fn existence_spec(outcomes: Seq<ProbeOutcome>) -> Option<bool> {
    if outcomes.contains(ProbeOutcome::Found) {
        Some(true)
    } else if forall|i: int| 0 <= i < outcomes.len() ==> #[trigger] outcomes[i] == ProbeOutcome::NotFound {
        Some(false)
    } else {
        None
    }
}

/// Decides whether a model exists from the endpoints' answers.
pub fn model_exists_verdict(outcomes: &Vec<ProbeOutcome>) -> (res: Option<bool>)
    ensures
        res == existence_spec(outcomes@),
{
    let mut all_not_found = true;
    let mut i: usize = 0;
    while i < outcomes.len()
        invariant
            i <= outcomes@.len(),
            forall|k: int| 0 <= k < i ==> outcomes@[k] != ProbeOutcome::Found,
            all_not_found == (forall|k: int| 0 <= k < i ==> #[trigger] outcomes@[k] == ProbeOutcome::NotFound),
        decreases outcomes@.len() - i,
    {
        if outcomes[i] == ProbeOutcome::Found {
            assert(outcomes@.contains(ProbeOutcome::Found)) by {
                assert(outcomes@[i as int] == ProbeOutcome::Found);
            }
            return Some(true);
        }
        if outcomes[i] != ProbeOutcome::NotFound {
            all_not_found = false;
        }
        i += 1;
    }
    assert(!outcomes@.contains(ProbeOutcome::Found));
    if all_not_found {
        Some(false)
    } else {
        None
    }
}

/// The URL of a model listing, at a revision when one is given.
pub open spec fn model_info_url_spec(endpoint: Seq<char>, model_id: Seq<char>, revision: Option<Seq<char>>) -> Seq<char> {
    match revision {
        None => endpoint + "/api/models/"@ + encode_path_spec(model_id) + "/"@,
        Some(r) => endpoint + "/api/models/"@ + encode_path_spec(model_id) + "/revision/"@
            + encode_path_spec(r),
    }
}

/// The URL of a model listing.
pub fn model_info_url(endpoint: &str, model_id: &str, revision: Option<&str>) -> (res: String)
    ensures
        res@ == model_info_url_spec(
            endpoint@,
            model_id@,
            match revision {
                Some(r) => Some(r@),
                None => None,
            },
        ),
{
    let mut url = String::from_str(endpoint);
    url.append("/api/models/");
    url.append(encode_path(model_id).as_str());
    match revision {
        None => {
            url.append("/");
        },
        Some(r) => {
            url.append("/revision/");
            url.append(encode_path(r).as_str());
        },
    }
    url
}

/// `<cache>/models/<namespace--name>`.
pub fn repo_dir(cache_root: &CachePath, model_id: &str) -> (res: CachePath)
    ensures
        res@ == join_model(join_model(cache_root@, "models"@), replace_all(model_id@, "/"@, "--"@)),
{
    proof {
        reveal_strlit("/");
    }
    cache_root.join("models").join(replace_str(model_id, "/", "--").as_str())
}

/// A repository path placed under `root`.
pub fn safe_repo_path(root: &CachePath, path: &str) -> (res: Result<CachePath, PathError>)
    ensures
        match res {
            Ok(p) => safe_path_model(root@, path@) == Ok::<_, PathError>(p@),
            Err(e) => safe_path_model(root@, path@) == Err::<(bool, Seq<Seq<char>>), _>(e),
        },
{
    safe_path(root, path)
}

/// Why a revision could not name a directory.
#[derive(Clone, Copy, Debug, PartialEq, Eq)]
pub enum RevisionPathError {
    /// The revision is empty.
    Empty,
    /// The revision is not a safe relative path.
    Path(PathError),
}

/// What `safe_revision_path` gives.
pub open spec fn safe_revision_path_spec(root: (bool, Seq<Seq<char>>), revision: Seq<char>) -> Result<(bool, Seq<Seq<char>>), RevisionPathError> {
    if revision.len() == 0 {
        Err(RevisionPathError::Empty)
    } else {
        match safe_path_model(root, revision) {
            Ok(p) => Ok(p),
            Err(e) => Err(RevisionPathError::Path(e)),
        }
    }
}

/// The directory of a revision under `root`; an empty revision is refused.
pub fn safe_revision_path(root: &CachePath, revision: &str) -> (res: Result<CachePath, RevisionPathError>)
    ensures
        match res {
            Ok(p) => safe_revision_path_spec(root@, revision@) == Ok::<_, RevisionPathError>(p@),
            Err(e) => safe_revision_path_spec(root@, revision@) == Err::<(bool, Seq<Seq<char>>), _>(e),
        },
{
    if revision.is_empty() {
        return Err(RevisionPathError::Empty);
    }
    match safe_repo_path(root, revision) {
        Ok(p) => Ok(p),
        Err(e) => Err(RevisionPathError::Path(e)),
    }
}

/// The `.part` file a download is written to.
pub fn partial_path(file_path: &CachePath) -> (res: CachePath)
    ensures
        res@ == partial_model(file_path@),
{
    file_path.partial_path()
}

/// What the filesystem says of a path, where it exists.
#[derive(Clone, Copy, Debug, PartialEq, Eq)]
pub struct FileMeta {
    pub is_file: bool,
    pub len: u64,
}

/// Whether a download target is already complete: a file, of the expected
/// size where one is known.
pub fn complete(meta: Option<FileMeta>, expected: Option<u64>) -> (res: bool)
    ensures
        res == match meta {
            None => false,
            Some(m) => m.is_file && match expected {
                Some(n) => m.len == n,
                None => true,
            },
        },
{
    match meta {
        None => false,
        Some(m) => m.is_file && match expected {
            Some(n) => m.len == n,
            None => true,
        },
    }
}

/// The Hub's own cache directory: `HUGGINGFACE_HUB_CACHE`, else
/// `$HF_HOME/hub`, else `$HOME/.cache/huggingface/hub` (with `/tmp` for an
/// unset `HOME`).
pub open spec fn cache_dir_spec(hub_cache: Option<Seq<char>>, hf_home: Option<Seq<char>>, home: Option<Seq<char>>) -> (bool, Seq<Seq<char>>) {
    match hub_cache {
        Some(d) => parse_model(d),
        None => match hf_home {
            Some(h) => join_model(parse_model(h), "hub"@),
            None => join_model(
                join_model(
                    join_model(
                        parse_model(
                            match home {
                                Some(h) => h,
                                None => "/tmp"@,
                            },
                        ),
                        ".cache"@,
                    ),
                    "huggingface"@,
                ),
                "hub"@,
            ),
        },
    }
}

/// The model of an optional string slice.
pub open spec fn opt_str(o: Option<&str>) -> Option<Seq<char>> {
    match o {
        Some(s) => Some(s@),
        None => None,
    }
}

/// Return the cache directory used by the Hugging Face Hub client, from the
/// values of `HUGGINGFACE_HUB_CACHE`, `HF_HOME` and `HOME`.
pub fn cache_dir(hub_cache: Option<&str>, hf_home: Option<&str>, home: Option<&str>) -> (res: CachePath)
    ensures
        res@ == cache_dir_spec(opt_str(hub_cache), opt_str(hf_home), opt_str(home)),
{
    match hub_cache {
        Some(d) => CachePath::parse(d),
        None => match hf_home {
            Some(h) => CachePath::parse(h).join("hub"),
            None => {
                let base = match home {
                    Some(h) => CachePath::parse(h),
                    None => CachePath::parse("/tmp"),
                };
                base.join(".cache").join("huggingface").join("hub")
            },
        },
    }
}

/// The sum of the expected sizes, or `None` when one is unknown (the
/// running total as `try_fold` builds it, in unbounded integers).
pub open spec fn total_size_spec(sibs: Seq<Sibling>) -> Option<int>
    decreases sibs.len(),
{
    if sibs.len() == 0 {
        Some(0)
    } else {
        match total_size_spec(sibs.drop_last()) {
            None => None,
            Some(t) => match expected_size_spec(sibs.last()) {
                None => None,
                Some(n) => Some(t + n),
            },
        }
    }
}

/// Every running total of the sizes fits in a `u64`.
pub open spec fn totals_fit(sibs: Seq<Sibling>) -> bool {
    forall|n: int| 0 <= n <= sibs.len() ==> match #[trigger] total_size_spec(sibs.take(n)) {
        Some(t) => t <= u64::MAX,
        None => true,
    }
}

/// Whether every running total of the sizes fits in a `u64`.
pub fn sizes_fit(sibs: &Vec<Sibling>) -> (res: bool)
    ensures
        res == totals_fit(sibs@),
{
    let mut total: u64 = 0;
    let mut i: usize = 0;
    assert(sibs@.take(0) =~= Seq::<Sibling>::empty());
    while i < sibs.len()
        invariant
            i <= sibs@.len(),
            total_size_spec(sibs@.take(i as int)) == Some(total as int),
            forall|n: int| 0 <= n <= i ==> match #[trigger] total_size_spec(sibs@.take(n)) {
                Some(t) => t <= u64::MAX,
                None => true,
            },
        decreases sibs@.len() - i,
    {
        assert(sibs@.take(i + 1).drop_last() =~= sibs@.take(i as int));
        assert(sibs@.take(i + 1).last() == sibs@[i as int]);
        match sibs[i].expected_size() {
            None => {
                proof {
                    lemma_total_none_after(sibs@, i as int + 1);
                }
                return true;
            },
            Some(n) => {
                if n > u64::MAX - total {
                    return false;
                }
                total = total + n;
            },
        }
        i += 1;
    }
    assert(sibs@.take(i as int) =~= sibs@);
    true
}

proof fn lemma_total_none_after(sibs: Seq<Sibling>, k: int)
    requires
        0 <= k <= sibs.len(),
        total_size_spec(sibs.take(k)) is None,
    ensures
        forall|n: int| k <= n <= sibs.len() ==> #[trigger] total_size_spec(sibs.take(n)) is None,
    decreases sibs.len() - k,
{
    if k < sibs.len() {
        assert(sibs.take(k + 1).drop_last() =~= sibs.take(k));
        lemma_total_none_after(sibs, k + 1);
    }
}

/// The total expected size of a listing, when every size is known.
pub fn total_expected_size(sibs: &Vec<Sibling>) -> (res: Option<u64>)
    requires
        totals_fit(sibs@),
    ensures
        match res {
            Some(t) => total_size_spec(sibs@) == Some(t as int),
            None => total_size_spec(sibs@) is None,
        },
{
    let mut total: u64 = 0;
    let mut i: usize = 0;
    assert(sibs@.take(0) =~= Seq::<Sibling>::empty());
    while i < sibs.len()
        invariant
            i <= sibs@.len(),
            totals_fit(sibs@),
            total_size_spec(sibs@.take(i as int)) == Some(total as int),
        decreases sibs@.len() - i,
    {
        assert(sibs@.take(i + 1).drop_last() =~= sibs@.take(i as int));
        assert(sibs@.take(i + 1).last() == sibs@[i as int]);
        match sibs[i].expected_size() {
            None => {
                proof {
                    lemma_total_none_after(sibs@, i as int + 1);
                    assert(sibs@.take(sibs@.len() as int) =~= sibs@);
                }
                return None;
            },
            Some(n) => {
                assert(match total_size_spec(sibs@.take(i + 1)) {
                    Some(t) => t <= u64::MAX,
                    None => true,
                });
                total = total + n;
            },
        }
        i += 1;
    }
    assert(sibs@.take(i as int) =~= sibs@);
    Some(total)
}

/// One file of a snapshot download.
#[derive(Debug)]
pub struct FileJob {
    /// Where the file goes, or why its path was refused.
    pub target: Result<CachePath, PathError>,
    pub url: String,
    pub name: String,
    pub expected: Option<u64>,
}

/// What a snapshot download does, decided before any file is fetched.
#[derive(Debug)]
pub struct SnapshotPlan {
    /// `<cache>/models/<namespace--name>`, which the download returns.
    pub root: CachePath,
    /// The directory the files go to.
    pub snapshot: CachePath,
    /// The commit the files are fetched at.
    pub snapshot_revision: String,
    pub jobs: Vec<FileJob>,
    /// The file that records the commit for the requested revision.
    pub ref_path: Result<CachePath, RevisionPathError>,
}

/// The job for one listed file.
pub open spec fn job_spec(endpoint: Seq<char>, model_id: Seq<char>, snapshot_revision: Seq<char>, snapshot: (bool, Seq<Seq<char>>), s: Sibling, job: FileJob) -> bool {
    &&& match job.target {
        Ok(p) => safe_path_model(snapshot, s.rfilename@) == Ok::<_, PathError>(p@),
        Err(e) => safe_path_model(snapshot, s.rfilename@) == Err::<(bool, Seq<Seq<char>>), _>(e),
    }
    &&& job.url@ == hf_file_url(endpoint, model_id, snapshot_revision, s.rfilename@)
    &&& job.name@ == s.rfilename@
    &&& job.expected == expected_size_spec(s)
}

/// The plan of a snapshot download at `endpoint`: the revision requested
/// (`main` when none is) resolves to the listing's commit where it states
/// one; files go under `<cache>/models/<namespace--name>/snapshots/<commit>`;
/// `refs/<requested>` records the commit. Refused when the commit cannot
/// name a directory.
pub fn snapshot_plan(endpoint: &str, model_id: &str, revision: Option<&str>, cache_root: &CachePath, info: &ModelInfo) -> (res: Result<SnapshotPlan, RevisionPathError>)
    ensures
        ({
            let requested = match revision {
                Some(r) => r@,
                None => "main"@,
            };
            let snap_rev = match info.sha {
                Some(s) => s@,
                None => requested,
            };
            let root = join_model(join_model(cache_root@, "models"@), replace_all(model_id@, "/"@, "--"@));
            match safe_revision_path_spec(join_model(root, "snapshots"@), snap_rev) {
                Err(e) => res == Err::<SnapshotPlan, RevisionPathError>(e),
                Ok(snapshot) => res matches Ok(plan) && {
                    &&& plan.root@ == root
                    &&& plan.snapshot@ == snapshot
                    &&& plan.snapshot_revision@ == snap_rev
                    &&& plan.jobs@.len() == info.siblings@.len()
                    &&& forall|i: int| 0 <= i < plan.jobs@.len() ==> job_spec(endpoint@, model_id@, snap_rev, snapshot, #[trigger] info.siblings@[i], plan.jobs@[i])
                    &&& match plan.ref_path {
                        Ok(p) => safe_revision_path_spec(join_model(root, "refs"@), requested) == Ok::<_, RevisionPathError>(p@),
                        Err(e) => safe_revision_path_spec(join_model(root, "refs"@), requested) == Err::<(bool, Seq<Seq<char>>), _>(e),
                    }
                },
            }
        }),
{
    let requested: &str = match revision {
        Some(r) => r,
        None => "main",
    };
    let snapshot_revision: String = match &info.sha {
        Some(s) => s.clone(),
        None => String::from_str(requested),
    };
    let root = repo_dir(cache_root, model_id);
    let snapshot = match safe_revision_path(&root.join("snapshots"), snapshot_revision.as_str()) {
        Ok(p) => p,
        Err(e) => {
            return Err(e);
        },
    };
    let mut jobs: Vec<FileJob> = Vec::new();
    let mut i: usize = 0;
    while i < info.siblings.len()
        invariant
            i <= info.siblings@.len(),
            jobs@.len() == i,
            forall|k: int| 0 <= k < i ==> job_spec(endpoint@, model_id@, snapshot_revision@, snapshot@, #[trigger] info.siblings@[k], jobs@[k]),
        decreases info.siblings@.len() - i,
    {
        let s = &info.siblings[i];
        let job = FileJob {
            target: safe_repo_path(&snapshot, s.rfilename.as_str()),
            url: hf_file_url_of(endpoint, model_id, snapshot_revision.as_str(), s.rfilename.as_str()),
            name: s.rfilename.clone(),
            expected: s.expected_size(),
        };
        jobs.push(job);
        i += 1;
    }
    let ref_path = safe_revision_path(&root.join("refs"), requested);
    Ok(SnapshotPlan { root, snapshot, snapshot_revision, jobs, ref_path })
}

} // verus!
