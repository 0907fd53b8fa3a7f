//! `ModelScope` downloads: cache layout, URLs, listings and the jobs of a
//! repository snapshot.

use vstd::prelude::*;

use super::types::{ModelScopeResponse, RepoFile};
use crate::paths::{file_name_model, join_model, parse_model, partial_model, safe_path, safe_path_model, CachePath, PathError};
use crate::text::{decimal, replace_all, replace_str, str_eq, u64_to_decimal};
use crate::urlenc::{url_encode, url_encode_str};

verus! {

/// The listing URL template of a model.
pub const MODEL_FILES_URL: &'static str = "https://modelscope.cn/api/v1/models/<repo_id>/repo/files?Recursive=true&Revision=<revision>";

/// The listing URL template of one page of a dataset.
pub const DATASET_FILES_URL: &'static str = "https://modelscope.cn/api/v1/datasets/<repo_id>/repo/tree?Recursive=True&Revision=<revision>&PageNumber=<page>&PageSize=<page_size>";

/// The download URL template of one file.
pub const FILE_DOWNLOAD_URL: &'static str = "https://modelscope.cn/api/v1/<segment>/<repo_id>/repo?Revision=<revision>&FilePath=<path>";

/// The revision used when none is given.
pub const DEFAULT_REVISION: &'static str = "master";

/// How many entries one page of a dataset listing holds.
pub const DATASET_PAGE_SIZE: usize = 200;

/// The kinds of repository.
#[derive(Clone, Copy, Debug, PartialEq, Eq)]
pub enum RepoKind {
    Model,
    Dataset,
}

/// The URL and cache segment of a repository kind.
pub open spec fn segment_spec(kind: RepoKind) -> Seq<char> {
    match kind {
        RepoKind::Model => "models"@,
        RepoKind::Dataset => "datasets"@,
    }
}

/// The name of a repository kind in messages.
pub open spec fn label_spec(kind: RepoKind) -> Seq<char> {
    match kind {
        RepoKind::Model => "model"@,
        RepoKind::Dataset => "dataset"@,
    }
}

impl RepoKind {
    /// `models` or `datasets`.
    pub fn segment(self) -> (res: &'static str)
        ensures
            res@ == segment_spec(self),
    {
        match self {
            RepoKind::Model => "models",
            RepoKind::Dataset => "datasets",
        }
    }

    /// `model` or `dataset`.
    pub fn label(self) -> (res: &'static str)
        ensures
            res@ == label_spec(self),
    {
        match self {
            RepoKind::Model => "model",
            RepoKind::Dataset => "dataset",
        }
    }
}

/// `<cache>/<segment>/<namespace--name>/snapshots/<revision>`, the layout of
/// the `ModelScope` SDK.
pub open spec fn repo_cache_dir_spec(cache_root: (bool, Seq<Seq<char>>), kind: RepoKind, repo_id: Seq<char>, revision: Seq<char>) -> (bool, Seq<Seq<char>>) {
    join_model(
        join_model(join_model(join_model(cache_root, segment_spec(kind)), replace_all(repo_id, "/"@, "--"@)), "snapshots"@),
        revision,
    )
}

/// The snapshot directory of a repository revision.
pub fn repo_cache_dir(cache_root: &CachePath, kind: RepoKind, repo_id: &str, revision: &str) -> (res: CachePath)
    ensures
        res@ == repo_cache_dir_spec(cache_root@, kind, repo_id@, revision@),
{
    proof {
        reveal_strlit("/");
    }
    cache_root.join(kind.segment()).join(replace_str(repo_id, "/", "--").as_str()).join("snapshots").join(revision)
}

/// The `.part` file a download is written to.
pub fn partial_path_for(file_path: &CachePath) -> (res: CachePath)
    ensures
        res@ == partial_model(file_path@),
{
    file_path.partial_path()
}

/// A file is complete when its size is known, non-zero, and what is on disk.
pub fn file_is_complete(size: u64, len_on_disk: Option<u64>) -> (res: bool)
    ensures
        res == (size > 0 && len_on_disk == Some(size)),
{
    size > 0 && match len_on_disk {
        Some(n) => n == size,
        None => false,
    }
}

/// A repository path placed under `root`.
pub fn safe_repo_path(root: &CachePath, path: &str) -> (res: Result<CachePath, PathError>)
    ensures
        match res {
            Ok(p) => safe_path_model(root@, path@) == Ok::<_, PathError>(p@),
            Err(e) => safe_path_model(root@, path@) == Err::<(bool, Seq<Seq<char>>), _>(e),
        },
{
    safe_path(root, path)
}

/// The download URL of a file: the template with its placeholders replaced
/// in turn.
pub open spec fn download_url_spec(kind: RepoKind, repo_id: Seq<char>, revision: Seq<char>, path: Seq<char>) -> Seq<char> {
    replace_all(
        replace_all(
            replace_all(replace_all(FILE_DOWNLOAD_URL@, "<segment>"@, segment_spec(kind)), "<repo_id>"@, repo_id),
            "<revision>"@,
            url_encode(revision),
        ),
        "<path>"@,
        url_encode(path),
    )
}

/// The download URL of a file.
pub fn download_url(kind: RepoKind, repo_id: &str, revision: &str, path: &str) -> (res: String)
    ensures
        res@ == download_url_spec(kind, repo_id@, revision@, path@),
{
    proof {
        reveal_strlit("<segment>");
        reveal_strlit("<repo_id>");
        reveal_strlit("<revision>");
        reveal_strlit("<path>");
    }
    let a = replace_str(FILE_DOWNLOAD_URL, "<segment>", kind.segment());
    let b = replace_str(a.as_str(), "<repo_id>", repo_id);
    let c = replace_str(b.as_str(), "<revision>", url_encode_str(revision).as_str());
    replace_str(c.as_str(), "<path>", url_encode_str(path).as_str())
}

/// The listing URL of a model revision.
pub open spec fn model_files_url_spec(repo_id: Seq<char>, revision: Seq<char>) -> Seq<char> {
    replace_all(replace_all(MODEL_FILES_URL@, "<repo_id>"@, repo_id), "<revision>"@, url_encode(revision))
}

/// The listing URL of a model revision.
pub fn model_files_url(repo_id: &str, revision: &str) -> (res: String)
    ensures
        res@ == model_files_url_spec(repo_id@, revision@),
{
    proof {
        reveal_strlit("<repo_id>");
        reveal_strlit("<revision>");
    }
    let a = replace_str(MODEL_FILES_URL, "<repo_id>", repo_id);
    replace_str(a.as_str(), "<revision>", url_encode_str(revision).as_str())
}

/// The listing URL of one page of a dataset revision.
pub open spec fn dataset_files_url_spec(repo_id: Seq<char>, revision: Seq<char>, page: nat) -> Seq<char> {
    replace_all(
        replace_all(
            replace_all(replace_all(DATASET_FILES_URL@, "<repo_id>"@, repo_id), "<revision>"@, url_encode(revision)),
            "<page>"@,
            decimal(page),
        ),
        "<page_size>"@,
        decimal(DATASET_PAGE_SIZE as nat),
    )
}

/// The listing URL of one page of a dataset revision.
pub fn dataset_files_url(repo_id: &str, revision: &str, page: u64) -> (res: String)
    ensures
        res@ == dataset_files_url_spec(repo_id@, revision@, page as nat),
{
    proof {
        reveal_strlit("<repo_id>");
        reveal_strlit("<revision>");
        reveal_strlit("<page>");
        reveal_strlit("<page_size>");
    }
    let a = replace_str(DATASET_FILES_URL, "<repo_id>", repo_id);
    let b = replace_str(a.as_str(), "<revision>", url_encode_str(revision).as_str());
    let c = replace_str(b.as_str(), "<page>", u64_to_decimal(page).as_str());
    replace_str(c.as_str(), "<page_size>", u64_to_decimal(200).as_str())
}

/// Whether another page of a dataset listing follows one of `count` entries.
pub fn dataset_listing_continues(count: usize) -> (res: bool)
    ensures
        res == (count >= DATASET_PAGE_SIZE),
{
    count >= DATASET_PAGE_SIZE
}

/// What comes after one page of a dataset listing.
#[derive(Debug)]
pub enum ListingStep {
    /// The page was full: ask for page `page` next, with the files so far.
    Next { page: u64, files: Vec<RepoFile> },
    /// The page was the last: the listing is these files.
    Done(Vec<RepoFile>),
}

/// Takes in one page of a dataset listing: its files join the ones before,
/// in order; a full page is followed by the next page number.
pub fn dataset_listing_step(page: u64, so_far: Vec<RepoFile>, listed: Vec<RepoFile>) -> (res: ListingStep)
    requires
        page < u64::MAX,
    ensures
        listed@.len() >= DATASET_PAGE_SIZE ==> (res matches ListingStep::Next { page: p, files }
            && p == page + 1 && files@ == so_far@ + listed@),
        listed@.len() < DATASET_PAGE_SIZE ==> (res matches ListingStep::Done(files) && files@ == so_far@ + listed@),
{
    let count = listed.len();
    let mut files = so_far;
    let mut rest = listed;
    files.append(&mut rest);
    if dataset_listing_continues(count) {
        ListingStep::Next { page: page + 1, files }
    } else {
        ListingStep::Done(files)
    }
}

/// The pages of a dataset listing, joined in order.
pub open spec fn pages_joined(pages: Seq<Seq<RepoFile>>) -> Seq<RepoFile>
    decreases pages.len(),
{
    if pages.len() == 0 {
        seq![]
    } else {
        pages[0] + pages_joined(pages.drop_first())
    }
}

/// What a dataset listing does when page `page` and the ones after it
/// answer with `pages` in turn: the page numbers it asks for and the files
/// it ends with, or `None` when the pages run out before a short one.
pub open spec fn listing_run(pages: Seq<Seq<RepoFile>>, page: nat, so_far: Seq<RepoFile>) -> Option<(Seq<nat>, Seq<RepoFile>)>
    decreases pages.len(),
{
    if pages.len() == 0 {
        None
    } else if pages[0].len() >= DATASET_PAGE_SIZE {
        match listing_run(pages.drop_first(), page + 1, so_far + pages[0]) {
            Some((asked, files)) => Some((seq![page] + asked, files)),
            None => None,
        }
    } else {
        Some((seq![page], so_far + pages[0]))
    }
}

proof fn lemma_listing_run(pages: Seq<Seq<RepoFile>>, page: nat, so_far: Seq<RepoFile>)
    requires
        pages.len() > 0,
        forall|i: int| 0 <= i < pages.len() - 1 ==> (#[trigger] pages[i]).len() >= DATASET_PAGE_SIZE,
        pages.last().len() < DATASET_PAGE_SIZE,
    ensures
        listing_run(pages, page, so_far) == Some((
            Seq::new(pages.len(), |i: int| (page + i) as nat),
            so_far + pages_joined(pages),
        )),
    decreases pages.len(),
{
    if pages.len() == 1 {
        assert(pages[0] == pages.last());
        assert(pages.drop_first() =~= Seq::<Seq<RepoFile>>::empty());
        assert(pages_joined(pages.drop_first()) =~= Seq::<RepoFile>::empty());
        assert(pages[0] + Seq::<RepoFile>::empty() =~= pages[0]);
        assert(Seq::new(pages.len(), |i: int| (page + i) as nat) =~= seq![page]);
    } else {
        assert(pages[0].len() >= DATASET_PAGE_SIZE);
        let rest = pages.drop_first();
        assert forall|i: int| 0 <= i < rest.len() - 1 implies (#[trigger] rest[i]).len() >= DATASET_PAGE_SIZE by {
            assert(rest[i] == pages[i + 1]);
        }
        assert(rest.last() == pages.last());
        lemma_listing_run(rest, page + 1, so_far + pages[0]);
        assert(seq![page] + Seq::new(rest.len(), |i: int| (page + 1 + i) as nat) =~= Seq::new(
            pages.len(),
            |i: int| (page + i) as nat,
        ));
        assert(so_far + pages[0] + pages_joined(rest) =~= so_far + pages_joined(pages));
    }
}

/// A dataset listing whose pages are full up to a short last one asks for
/// pages `1..=k` in order and gives all their files, the pages joined in
/// order; each step of it is `dataset_listing_step`.
pub proof fn law_dataset_listing_pages(pages: Seq<Seq<RepoFile>>)
    requires
        pages.len() > 0,
        forall|i: int| 0 <= i < pages.len() - 1 ==> (#[trigger] pages[i]).len() >= DATASET_PAGE_SIZE,
        pages.last().len() < DATASET_PAGE_SIZE,
    ensures
        listing_run(pages, 1, seq![]) == Some((Seq::new(pages.len(), |i: int| (1 + i) as nat), pages_joined(pages))),
{
    lemma_listing_run(pages, 1, seq![]);
    assert(Seq::<RepoFile>::empty() + pages_joined(pages) =~= pages_joined(pages));
}

/// Why a listing gave no files.
#[derive(Debug, PartialEq, Eq)]
pub enum ListError {
    /// The backend answered that the listing failed, with its message.
    Rejected(String),
    /// The listing held no file data.
    MissingData,
}

/// The entries of a listing: refused when the backend says it failed, or
/// when it holds no data.
pub fn listed_files(resp: ModelScopeResponse) -> (res: Result<Vec<RepoFile>, ListError>)
    ensures
        !resp.success ==> (res matches Err(ListError::Rejected(m)) && m@ == resp.message@),
        resp.success && resp.data is None ==> (res matches Err(ListError::MissingData)),
        resp.success && resp.data is Some ==> (res matches Ok(files) && files@ == resp.data->0.files@),
{
    if !resp.success {
        return Err(ListError::Rejected(resp.message));
    }
    match resp.data {
        Some(d) => Ok(d.files),
        None => Err(ListError::MissingData),
    }
}

/// One file to download.
#[derive(Debug)]
pub struct RepoJob {
    /// Where the file goes, or why its path was refused.
    pub target: Result<CachePath, PathError>,
    pub url: String,
    pub name: String,
    pub expected: Option<u64>,
}

/// The entries of a listing that are files, in order.
pub open spec fn file_entries(files: Seq<RepoFile>) -> Seq<RepoFile>
    decreases files.len(),
{
    if files.len() == 0 {
        seq![]
    } else if files.last().file_type@ == "tree"@ {
        file_entries(files.drop_last())
    } else {
        file_entries(files.drop_last()).push(files.last())
    }
}

/// The job of one listed file of a snapshot.
pub open spec fn repo_job_spec(kind: RepoKind, repo_id: Seq<char>, revision: Seq<char>, snapshot: (bool, Seq<Seq<char>>), f: RepoFile, j: RepoJob) -> bool {
    &&& match j.target {
        Ok(p) => safe_path_model(snapshot, f.path@) == Ok::<_, PathError>(p@),
        Err(e) => safe_path_model(snapshot, f.path@) == Err::<(bool, Seq<Seq<char>>), _>(e),
    }
    &&& j.url@ == download_url_spec(kind, repo_id, revision, f.path@)
    &&& j.name@ == f.name@
    &&& j.expected == (if f.size > 0 {
        Some(f.size)
    } else {
        None
    })
}

/// The jobs of a snapshot: one for each listed file, directories left out.
pub fn snapshot_jobs(kind: RepoKind, repo_id: &str, revision: &str, snapshot_dir: &CachePath, files: &Vec<RepoFile>) -> (res: Vec<RepoJob>)
    ensures
        res@.len() == file_entries(files@).len(),
        forall|i: int| 0 <= i < res@.len() ==> repo_job_spec(kind, repo_id@, revision@, snapshot_dir@, #[trigger] file_entries(files@)[i], res@[i]),
{
    let mut jobs: Vec<RepoJob> = Vec::new();
    let mut i: usize = 0;
    while i < files.len()
        invariant
            i <= files@.len(),
            jobs@.len() == file_entries(files@.take(i as int)).len(),
            forall|k: int| 0 <= k < jobs@.len() ==> repo_job_spec(kind, repo_id@, revision@, snapshot_dir@, #[trigger] file_entries(files@.take(i as int))[k], jobs@[k]),
        decreases files@.len() - i,
    {
        let f = &files[i];
        proof {
            assert(files@.take(i + 1).drop_last() =~= files@.take(i as int));
            assert(files@.take(i + 1).last() == *f);
        }
        if !str_eq(f.file_type.as_str(), "tree") {
            let job = RepoJob {
                target: safe_repo_path(snapshot_dir, f.path.as_str()),
                url: download_url(kind, repo_id, revision, f.path.as_str()),
                name: f.name.clone(),
                expected: if f.size > 0 {
                    Some(f.size)
                } else {
                    None
                },
            };
            jobs.push(job);
            proof {
                let prev = file_entries(files@.take(i as int));
                assert forall|k: int| 0 <= k < jobs@.len() implies repo_job_spec(kind, repo_id@, revision@, snapshot_dir@, #[trigger] file_entries(files@.take(i + 1))[k], jobs@[k]) by {
                    if k < prev.len() {
                        assert(file_entries(files@.take(i + 1))[k] == prev[k]);
                    }
                }
            }
        }
        i += 1;
    }
    assert(files@.take(i as int) =~= files@);
    jobs
}

/// The name shown for a single file: the last component of its path, or
/// the path itself where there is none.
pub open spec fn display_name_spec(file_path: Seq<char>) -> Seq<char> {
    match file_name_model(parse_model(file_path)) {
        Some(n) => n,
        None => file_path,
    }
}

/// The job of a single file of a repository revision; refused when the file
/// path is not a safe relative path.
pub fn single_file_job(kind: RepoKind, repo_id: &str, file_path: &str, revision: &str, save_dir: &CachePath) -> (res: Result<RepoJob, PathError>)
    ensures
        match safe_path_model(repo_cache_dir_spec(save_dir@, kind, repo_id@, revision@), file_path@) {
            Err(e) => res == Err::<RepoJob, PathError>(e),
            Ok(t) => res matches Ok(j) && j.target matches Ok(p) && p@ == t
                && j.url@ == download_url_spec(kind, repo_id@, revision@, file_path@)
                && j.name@ == display_name_spec(file_path@) && j.expected is None,
        },
{
    let snapshot_dir = repo_cache_dir(save_dir, kind, repo_id, revision);
    let target = match safe_repo_path(&snapshot_dir, file_path) {
        Ok(t) => t,
        Err(e) => {
            return Err(e);
        },
    };
    let name = match CachePath::parse(file_path).file_name() {
        Some(n) => n,
        None => String::from_str(file_path),
    };
    Ok(RepoJob { target: Ok(target), url: download_url(kind, repo_id, revision, file_path), name, expected: None })
}

/// Whether a download wrote the bytes it should: the stated size, when one
/// is known.
pub fn written_matches(size: Option<u64>, written: u64) -> (res: bool)
    ensures
        res == match size {
            Some(n) => written == n,
            None => true,
        },
{
    match size {
        Some(n) => written == n,
        None => true,
    }
}

/// Whether an HTTP status lets a download go on: a success, or partial content.
pub fn download_status_ok(status: u16) -> (res: bool)
    ensures
        res == ((200 <= status < 300) || status == 206),
{
    (200 <= status && status < 300) || status == 206
}

} // verus!
