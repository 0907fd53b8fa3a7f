//! Verified, content-addressed downloads shared across model backends:
//! the manifests of both backends, the plan that decides which files are
//! stored once and which twice, and the checks on what was downloaded.

use vstd::prelude::*;

use crate::paths::{
    child_model, file_name_model, join_model, parse_model, partial_model, safe_path,
    safe_path_model, CachePath, PathError,
};
use crate::sorted::{
    lemma_key_index, lemma_less_asymmetric, lemma_less_irreflexive, seq_less, strictly_sorted, SortedMap,
};
use crate::text::{
    ascii_lower_seq, chars_end_with, ends_with, replace_all, replace_str, str_eq, string_of,
    to_ascii_lower,
};
use crate::urlenc::{encode_path, encode_path_spec, url_encode, url_encode_str};

verus! {

/// The backends a model can come from.
#[derive(Clone, Copy, Debug, PartialEq, Eq)]
pub enum Backend {
    HuggingFace,
    ModelScope,
}

/// The model of an optional string.
pub open spec fn opt_view(o: Option<String>) -> Option<Seq<char>> {
    match o {
        Some(s) => Some(s@),
        None => None,
    }
}

/// The model of a file that a backend lists.
pub struct RemoteFileView {
    pub backend: Backend,
    pub path: Seq<char>,
    pub size: u64,
    pub sha256: Option<Seq<char>>,
    pub git_blob_id: Option<Seq<char>>,
    pub url: Seq<char>,
}

/// A file that a backend lists: where it goes, how large it is, the hashes
/// the backend states for it, and where to fetch it.
#[derive(Debug)]
pub struct RemoteFile {
    pub backend: Backend,
    pub path: String,
    pub size: u64,
    pub sha256: Option<String>,
    pub git_blob_id: Option<String>,
    pub url: String,
}

impl View for RemoteFile {
    type V = RemoteFileView;

    open spec fn view(&self) -> RemoteFileView {
        RemoteFileView {
            backend: self.backend,
            path: self.path@,
            size: self.size,
            sha256: opt_view(self.sha256),
            git_blob_id: opt_view(self.git_blob_id),
            url: self.url@,
        }
    }
}

/// A copy of an optional string.
pub fn copy_opt(o: &Option<String>) -> (res: Option<String>)
    ensures
        opt_view(res) == opt_view(*o),
{
    match o {
        Some(s) => Some(s.clone()),
        None => None,
    }
}

impl RemoteFile {
    /// A field-for-field copy.
    pub fn duplicate(&self) -> (res: RemoteFile)
        ensures
            res@ == self@,
    {
        RemoteFile {
            backend: self.backend,
            path: self.path.clone(),
            size: self.size,
            sha256: copy_opt(&self.sha256),
            git_blob_id: copy_opt(&self.git_blob_id),
            url: self.url.clone(),
        }
    }
}

/// The files one backend lists for one revision, sorted by path.
pub struct Manifest {
    pub revision: String,
    pub files: SortedMap<RemoteFile>,
}

/// The paths of a manifest, in order.
pub open spec fn manifest_keys(m: Manifest) -> Seq<Seq<char>> {
    m.files.keys()
}

/// The files of a manifest, in the order of their paths.
pub open spec fn manifest_vals(m: Manifest) -> Seq<RemoteFileView> {
    m.files.vals().map_values(|f: RemoteFile| f@)
}

/// The files of a manifest by path.
pub open spec fn manifest_map(m: Manifest) -> Map<Seq<char>, RemoteFileView> {
    m.files.as_map().map_values(|f: RemoteFile| f@)
}

/// Files of one backend, each listed under its own path, the paths sorted.
pub open spec fn listing_from(ks: Seq<Seq<char>>, vs: Seq<RemoteFileView>, b: Backend) -> bool {
    &&& ks.len() == vs.len()
    &&& strictly_sorted(ks)
    &&& forall|i: int| 0 <= i < ks.len() ==> (#[trigger] vs[i]).path == ks[i] && vs[i].backend == b
}

/// A manifest as the listing of backend `b` builds it.
pub open spec fn manifest_from(m: Manifest, b: Backend) -> bool {
    listing_from(manifest_keys(m), manifest_vals(m), b)
}

/// Each file of a map of files sits under its own path, for backend `b`.
pub open spec fn files_of(fm: Map<Seq<char>, RemoteFileView>, b: Backend) -> bool {
    forall|k: Seq<char>| #[trigger] fm.dom().contains(k) ==> fm[k].path == k && fm[k].backend == b
}

proof fn lemma_manifest_from_map(m: Manifest, b: Backend)
    requires
        m.files.keys().len() == m.files.vals().len(),
        strictly_sorted(m.files.keys()),
        files_of(manifest_map(m), b),
    ensures
        manifest_from(m, b),
{
    let ks = manifest_keys(m);
    let vs = manifest_vals(m);
    assert forall|i: int| 0 <= i < ks.len() implies (#[trigger] vs[i]).path == ks[i] && vs[i].backend == b by {
        lemma_key_index(ks, i);
        assert(manifest_map(m).dom().contains(ks[i]));
        assert(manifest_map(m)[ks[i]] == vs[i]);
    }
}

// ---------------------------------------------------------------------------
// Critical files

/// Where the last `.` of `s` stands, or -1.
pub open spec fn last_dot(s: Seq<char>) -> int
    decreases s.len(),
{
    if s.len() == 0 {
        -1
    } else if s.last() == '.' {
        s.len() - 1
    } else {
        last_dot(s.drop_last())
    }
}

/// The extension of a file name (`Path::extension`): what follows the last
/// `.`, when something stands before that `.`.
pub open spec fn extension_of_name(name: Seq<char>) -> Option<Seq<char>> {
    if last_dot(name) > 0 {
        Some(name.skip(last_dot(name) + 1))
    } else {
        None
    }
}

/// The extension of a path string.
pub open spec fn path_extension(s: Seq<char>) -> Option<Seq<char>> {
    match file_name_model(parse_model(s)) {
        Some(name) => extension_of_name(name),
        None => None,
    }
}

/// A model configuration file name: `config.json`, `configuration.json`
/// (the `ModelScope` one), or one ending in `_config.json` such as
/// `generation_config.json` and `tokenizer_config.json`.
pub open spec fn is_config_name(name: Seq<char>) -> bool {
    ||| name == "config.json"@
    ||| name == "configuration.json"@
    ||| ends_with(name, "_config.json"@)
}

/// Files whose difference across backends matters: weights in the
/// `safetensors`, `bin`, `gguf` or `onnx` formats, model configuration
/// files and tokenizers, by the ASCII-lower-cased path.
pub open spec fn is_critical_spec(path: Seq<char>) -> bool {
    let lower = ascii_lower_seq(path);
    let ext = path_extension(lower);
    ||| ext == Some("safetensors"@)
    ||| ext == Some("bin"@)
    ||| ext == Some("gguf"@)
    ||| ext == Some("onnx"@)
    ||| (match file_name_model(parse_model(lower)) {
        Some(name) => is_config_name(name),
        None => false,
    })
    ||| ends_with(lower, "tokenizer.json"@)
    ||| ends_with(lower, "tokenizer.model"@)
}

proof fn lemma_last_dot_range(s: Seq<char>)
    ensures
        -1 <= last_dot(s) < s.len(),
        last_dot(s) >= 0 ==> s[last_dot(s)] == '.',
        forall|k: int| last_dot(s) < k < s.len() ==> s[k] != '.',
    decreases s.len(),
{
    if s.len() > 0 && s.last() != '.' {
        lemma_last_dot_range(s.drop_last());
        assert forall|k: int| last_dot(s) < k < s.len() implies s[k] != '.' by {
            if k < s.len() - 1 {
                assert(s.drop_last()[k] == s[k]);
            }
        }
    }
}

fn find_last_dot(s: &Vec<char>) -> (res: Option<usize>)
    ensures
        match res {
            Some(k) => k as int == last_dot(s@),
            None => last_dot(s@) == -1,
        },
{
    let mut n: usize = s.len();
    assert(s@.take(n as int) =~= s@);
    while n > 0
        invariant
            n <= s@.len(),
            last_dot(s@) == last_dot(s@.take(n as int)),
        decreases n,
    {
        assert(s@.take(n as int).drop_last() =~= s@.take(n - 1));
        assert(s@.take(n as int).last() == s@[n - 1]);
        if s[n - 1] == '.' {
            return Some(n - 1);
        }
        n -= 1;
    }
    None
}

/// The extension of a file name.
pub fn extension(name: &str) -> (res: Option<String>)
    ensures
        opt_view(res) == extension_of_name(name@),
{
    let cs = crate::text::chars_of(name);
    proof {
        lemma_last_dot_range(cs@);
    }
    match find_last_dot(&cs) {
        Some(k) => {
            if k == 0 {
                None
            } else {
                let mut tail: Vec<char> = Vec::new();
                let total = cs.len();
                assert(k < total);
                let mut i = k + 1;
                while i < cs.len()
                    invariant
                        k < i <= cs@.len(),
                        tail@ == cs@.subrange(k + 1, i as int),
                    decreases cs@.len() - i,
                {
                    tail.push(cs[i]);
                    assert(cs@.subrange(k + 1, i + 1) =~= cs@.subrange(k + 1, i as int).push(
                        cs@[i as int],
                    ));
                    i += 1;
                }
                assert(tail@ =~= name@.skip(k + 1));
                Some(string_of(tail.as_slice()))
            }
        },
        None => None,
    }
}

/// Whether a file is one whose difference across backends matters.
pub fn is_critical(path: &str) -> (res: bool)
    ensures
        res == is_critical_spec(path@),
{
    let lower = to_ascii_lower(path);
    let lower_str = string_of(lower.as_slice());
    let parsed = CachePath::parse(lower_str.as_str());
    let file_name = parsed.file_name();
    let critical_extension = match &file_name {
        Some(name) => match extension(name.as_str()) {
            Some(ext) => {
                str_eq(ext.as_str(), "safetensors") || str_eq(ext.as_str(), "bin") || str_eq(
                    ext.as_str(),
                    "gguf",
                ) || str_eq(ext.as_str(), "onnx")
            },
            None => false,
        },
        None => false,
    };
    let config = match &file_name {
        Some(name) => str_eq(name.as_str(), "config.json") || str_eq(name.as_str(), "configuration.json")
            || chars_end_with(&crate::text::chars_of(name.as_str()), "_config.json"),
        None => false,
    };
    critical_extension || config || chars_end_with(&lower, "tokenizer.json") || chars_end_with(
        &lower,
        "tokenizer.model",
    )
}


// ---------------------------------------------------------------------------
// Manifests

/// LFS metadata of a Hugging Face file.
#[derive(Debug)]
pub struct HfLfs {
    pub sha256: String,
    pub size: u64,
}

/// One file of a Hugging Face model listing.
#[derive(Debug)]
pub struct HfSibling {
    pub rfilename: String,
    pub size: Option<u64>,
    pub blob_id: Option<String>,
    pub lfs: Option<HfLfs>,
}

/// A Hugging Face model listing for one revision.
#[derive(Debug)]
pub struct HfInfo {
    pub sha: String,
    pub siblings: Vec<HfSibling>,
}

/// The URL of a Hugging Face file at a commit.
pub open spec fn hf_file_url(
    endpoint: Seq<char>,
    model_id: Seq<char>,
    sha: Seq<char>,
    path: Seq<char>,
) -> Seq<char> {
    endpoint + "/"@ + encode_path_spec(model_id) + "/resolve/"@ + encode_path_spec(sha) + "/"@
        + encode_path_spec(path)
}

/// The remote file a Hugging Face listing entry describes: its size is the
/// stated size, else the LFS size, else 0; LFS files carry their SHA-256
/// and other files their Git blob id.
pub open spec fn hf_remote_spec(
    endpoint: Seq<char>,
    model_id: Seq<char>,
    sha: Seq<char>,
    f: HfSibling,
) -> RemoteFileView {
    RemoteFileView {
        backend: Backend::HuggingFace,
        path: f.rfilename@,
        size: match f.size {
            Some(n) => n,
            None => match f.lfs {
                Some(l) => l.size,
                None => 0,
            },
        },
        sha256: match f.lfs {
            Some(l) => Some(l.sha256@),
            None => None,
        },
        git_blob_id: if f.lfs is Some {
            None
        } else {
            opt_view(f.blob_id)
        },
        url: hf_file_url(endpoint, model_id, sha, f.rfilename@),
    }
}

/// The files of a Hugging Face listing by path; a later entry for the same
/// path replaces an earlier one.
pub open spec fn hf_files_map(
    endpoint: Seq<char>,
    model_id: Seq<char>,
    sha: Seq<char>,
    sibs: Seq<HfSibling>,
) -> Map<Seq<char>, RemoteFileView>
    decreases sibs.len(),
{
    if sibs.len() == 0 {
        Map::empty()
    } else {
        hf_files_map(endpoint, model_id, sha, sibs.drop_last()).insert(
            sibs.last().rfilename@,
            hf_remote_spec(endpoint, model_id, sha, sibs.last()),
        )
    }
}

proof fn lemma_hf_files_of(endpoint: Seq<char>, model_id: Seq<char>, sha: Seq<char>, sibs: Seq<HfSibling>)
    ensures
        files_of(hf_files_map(endpoint, model_id, sha, sibs), Backend::HuggingFace),
    decreases sibs.len(),
{
    if sibs.len() > 0 {
        lemma_hf_files_of(endpoint, model_id, sha, sibs.drop_last());
    }
}

/// A string followed by another.
pub fn concat(a: &str, b: &str) -> (res: String)
    ensures
        res@ == a@ + b@,
{
    let mut s = String::from_str(a);
    s.append(b);
    s
}

/// The Hugging Face URL of a file at a commit.
pub fn hf_file_url_of(endpoint: &str, model_id: &str, sha: &str, path: &str) -> (res: String)
    ensures
        res@ == hf_file_url(endpoint@, model_id@, sha@, path@),
{
    let mut url = String::from_str(endpoint);
    url.append("/");
    url.append(encode_path(model_id).as_str());
    url.append("/resolve/");
    url.append(encode_path(sha).as_str());
    url.append("/");
    url.append(encode_path(path).as_str());
    url
}

/// The remote file one Hugging Face listing entry describes.
pub fn hf_remote_file(endpoint: &str, model_id: &str, sha: &str, f: &HfSibling) -> (res:
    RemoteFile)
    ensures
        res@ == hf_remote_spec(endpoint@, model_id@, sha@, *f),
{
    let size = match f.size {
        Some(n) => n,
        None => match &f.lfs {
            Some(l) => l.size,
            None => 0,
        },
    };
    let (sha256, git_blob_id) = match &f.lfs {
        Some(l) => (Some(l.sha256.clone()), None),
        None => (None, copy_opt(&f.blob_id)),
    };
    RemoteFile {
        backend: Backend::HuggingFace,
        path: f.rfilename.clone(),
        size,
        sha256,
        git_blob_id,
        url: hf_file_url_of(endpoint, model_id, sha, f.rfilename.as_str()),
    }
}

proof fn lemma_map_values_insert<V, W>(m: Map<Seq<char>, V>, k: Seq<char>, v: V, f: spec_fn(V) -> W)
    ensures
        m.insert(k, v).map_values(f) == m.map_values(f).insert(k, f(v)),
{
    assert(m.insert(k, v).map_values(f) =~= m.map_values(f).insert(k, f(v)));
}

/// The manifest of a Hugging Face listing: its commit and its files by path.
pub fn huggingface_manifest_from(endpoint: &str, model_id: &str, info: &HfInfo) -> (res: Manifest)
    ensures
        res.revision@ == info.sha@,
        manifest_map(res) == hf_files_map(endpoint@, model_id@, info.sha@, info.siblings@),
        manifest_from(res, Backend::HuggingFace),
{
    let mut files: SortedMap<RemoteFile> = SortedMap::new();
    proof {
        assert(files.as_map() =~= Map::empty());
        assert(files.as_map().map_values(|f: RemoteFile| f@) =~= Map::empty());
    }
    let mut i: usize = 0;
    while i < info.siblings.len()
        invariant
            i <= info.siblings@.len(),
            files.as_map().map_values(|f: RemoteFile| f@) == hf_files_map(
                endpoint@,
                model_id@,
                info.sha@,
                info.siblings@.take(i as int),
            ),
        decreases info.siblings@.len() - i,
    {
        let f = &info.siblings[i];
        let remote = hf_remote_file(endpoint, model_id, info.sha.as_str(), f);
        let ghost before = files.as_map();
        files.insert(f.rfilename.clone(), remote);
        proof {
            lemma_map_values_insert(before, f.rfilename@, remote, |f: RemoteFile| f@);
            assert(info.siblings@.take(i + 1).drop_last() =~= info.siblings@.take(i as int));
        }
        i += 1;
    }
    assert(info.siblings@.take(i as int) =~= info.siblings@);
    let _ = files.len();
    let res = Manifest { revision: info.sha.clone(), files };
    proof {
        lemma_hf_files_of(endpoint@, model_id@, info.sha@, info.siblings@);
        lemma_manifest_from_map(res, Backend::HuggingFace);
    }
    res
}

/// One file of a ModelScope repository listing.
#[derive(Debug)]
pub struct MsFile {
    pub path: String,
    pub size: u64,
    pub sha256: Option<String>,
    pub file_type: String,
}

/// The data of a ModelScope repository listing.
#[derive(Debug)]
pub struct MsData {
    pub files: Vec<MsFile>,
}

/// A ModelScope repository listing.
#[derive(Debug)]
pub struct MsResponse {
    pub success: bool,
    pub message: String,
    pub data: Option<MsData>,
}

/// Why a listing did not give a manifest.
#[derive(Debug, PartialEq, Eq)]
pub enum ManifestError {
    /// The backend answered that the listing failed, with its message.
    Rejected(String),
    /// The listing held no file data.
    MissingData,
}

/// The ModelScope URL of a file at a revision.
pub open spec fn ms_file_url(model_id: Seq<char>, revision: Seq<char>, path: Seq<char>) -> Seq<
    char,
> {
    "https://modelscope.cn/api/v1/models/"@ + model_id + "/repo?Revision="@ + url_encode(revision)
        + "&FilePath="@ + url_encode(path)
}

/// An empty hash counts as none.
pub open spec fn nonempty_hash(h: Option<Seq<char>>) -> Option<Seq<char>> {
    match h {
        Some(s) => if s.len() > 0 {
            Some(s)
        } else {
            None
        },
        None => None,
    }
}

/// The remote file a ModelScope listing entry describes.
pub open spec fn ms_remote_spec(model_id: Seq<char>, revision: Seq<char>, f: MsFile) -> RemoteFileView {
    RemoteFileView {
        backend: Backend::ModelScope,
        path: f.path@,
        size: f.size,
        sha256: nonempty_hash(opt_view(f.sha256)),
        git_blob_id: None,
        url: ms_file_url(model_id, revision, f.path@),
    }
}

/// The files of a ModelScope listing by path, directories (`tree`) left out;
/// a later entry for the same path replaces an earlier one.
pub open spec fn ms_files_map(model_id: Seq<char>, revision: Seq<char>, files: Seq<MsFile>) -> Map<
    Seq<char>,
    RemoteFileView,
>
    decreases files.len(),
{
    if files.len() == 0 {
        Map::empty()
    } else if files.last().file_type@ == "tree"@ {
        ms_files_map(model_id, revision, files.drop_last())
    } else {
        ms_files_map(model_id, revision, files.drop_last()).insert(
            files.last().path@,
            ms_remote_spec(model_id, revision, files.last()),
        )
    }
}

proof fn lemma_ms_files_of(model_id: Seq<char>, revision: Seq<char>, files: Seq<MsFile>)
    ensures
        files_of(ms_files_map(model_id, revision, files), Backend::ModelScope),
    decreases files.len(),
{
    if files.len() > 0 {
        lemma_ms_files_of(model_id, revision, files.drop_last());
    }
}

/// The ModelScope URL of a file at a revision.
pub fn ms_file_url_of(model_id: &str, revision: &str, path: &str) -> (res: String)
    ensures
        res@ == ms_file_url(model_id@, revision@, path@),
{
    let mut url = String::from_str("https://modelscope.cn/api/v1/models/");
    url.append(model_id);
    url.append("/repo?Revision=");
    url.append(url_encode_str(revision).as_str());
    url.append("&FilePath=");
    url.append(url_encode_str(path).as_str());
    url
}

/// The remote file one ModelScope listing entry describes.
pub fn ms_remote_file(model_id: &str, revision: &str, f: &MsFile) -> (res: RemoteFile)
    ensures
        res@ == ms_remote_spec(model_id@, revision@, *f),
{
    let sha256 = match &f.sha256 {
        Some(h) => if h.as_str().is_empty() {
            None
        } else {
            Some(h.clone())
        },
        None => None,
    };
    RemoteFile {
        backend: Backend::ModelScope,
        path: f.path.clone(),
        size: f.size,
        sha256,
        git_blob_id: None,
        url: ms_file_url_of(model_id, revision, f.path.as_str()),
    }
}

/// The manifest of a ModelScope listing: refused when the listing failed or
/// held no data, else its files by path at the requested revision.
pub fn modelscope_manifest_from(model_id: &str, revision: &str, resp: &MsResponse) -> (res: Result<
    Manifest,
    ManifestError,
>)
    ensures
        !resp.success ==> (res matches Err(ManifestError::Rejected(m)) && m@ == resp.message@),
        resp.success && resp.data is None ==> (res matches Err(ManifestError::MissingData)),
        resp.success && resp.data is Some ==> (res matches Ok(m) && m.revision@ == revision@
            && manifest_map(m) == ms_files_map(model_id@, revision@, resp.data->0.files@)
            && manifest_from(m, Backend::ModelScope)),
{
    if !resp.success {
        return Err(ManifestError::Rejected(resp.message.clone()));
    }
    let data = match &resp.data {
        Some(d) => d,
        None => {
            return Err(ManifestError::MissingData);
        },
    };
    let mut files: SortedMap<RemoteFile> = SortedMap::new();
    proof {
        assert(files.as_map() =~= Map::empty());
        assert(files.as_map().map_values(|f: RemoteFile| f@) =~= Map::empty());
    }
    let mut i: usize = 0;
    while i < data.files.len()
        invariant
            i <= data.files@.len(),
            files.as_map().map_values(|f: RemoteFile| f@) == ms_files_map(
                model_id@,
                revision@,
                data.files@.take(i as int),
            ),
        decreases data.files@.len() - i,
    {
        let f = &data.files[i];
        proof {
            assert(data.files@.take(i + 1).drop_last() =~= data.files@.take(i as int));
            assert(data.files@.take(i + 1).last() == *f);
        }
        if !str_eq(f.file_type.as_str(), "tree") {
            let remote = ms_remote_file(model_id, revision, f);
            let ghost before = files.as_map();
            files.insert(f.path.clone(), remote);
            proof {
                lemma_map_values_insert(before, f.path@, remote, |f: RemoteFile| f@);
            }
        }
        i += 1;
    }
    assert(data.files@.take(i as int) =~= data.files@);
    let _ = files.len();
    let res = Manifest { revision: String::from_str(revision), files };
    proof {
        lemma_ms_files_of(model_id@, revision@, data.files@);
        lemma_manifest_from_map(res, Backend::ModelScope);
    }
    Ok(res)
}

/// The URL of a Hugging Face listing with blob ids, for a revision.
pub open spec fn hf_manifest_url(endpoint: Seq<char>, model_id: Seq<char>, revision: Seq<char>) -> Seq<char> {
    endpoint + "/api/models/"@ + encode_path_spec(model_id) + "/revision/"@ + encode_path_spec(
        revision,
    ) + "?blobs=true"@
}

/// The URL of a Hugging Face listing with blob ids.
pub fn hf_manifest_url_of(endpoint: &str, model_id: &str, revision: &str) -> (res: String)
    ensures
        res@ == hf_manifest_url(endpoint@, model_id@, revision@),
{
    let mut url = String::from_str(endpoint);
    url.append("/api/models/");
    url.append(encode_path(model_id).as_str());
    url.append("/revision/");
    url.append(encode_path(revision).as_str());
    url.append("?blobs=true");
    url
}

/// The URL of a recursive ModelScope listing.
pub open spec fn ms_manifest_url(model_id: Seq<char>, revision: Seq<char>) -> Seq<char> {
    "https://modelscope.cn/api/v1/models/"@ + model_id + "/repo/files?Recursive=true&Revision="@
        + url_encode(revision)
}

/// The URL of a recursive ModelScope listing.
pub fn ms_manifest_url_of(model_id: &str, revision: &str) -> (res: String)
    ensures
        res@ == ms_manifest_url(model_id@, revision@),
{
    let mut url = String::from_str("https://modelscope.cn/api/v1/models/");
    url.append(model_id);
    url.append("/repo/files?Recursive=true&Revision=");
    url.append(url_encode_str(revision).as_str());
    url
}


// ---------------------------------------------------------------------------
// Planning

/// The model of a planned artifact.
pub struct ArtifactView {
    pub remote: RemoteFileView,
    pub targets: Seq<(Backend, Seq<char>)>,
}

/// One blob to fetch and the snapshot paths it is linked into.
#[derive(Debug)]
pub struct Artifact {
    pub remote: RemoteFile,
    pub targets: Vec<(Backend, String)>,
}

impl View for Artifact {
    type V = ArtifactView;

    open spec fn view(&self) -> ArtifactView {
        ArtifactView {
            remote: self.remote@,
            targets: self.targets@.map_values(|t: (Backend, String)| (t.0, t.1@)),
        }
    }
}

/// The model of a plan: what to fetch, which pairs to compare by their Git
/// hashes once fetched, and which critical paths differ.
pub struct PlanView {
    pub artifacts: Seq<ArtifactView>,
    pub comparisons: Seq<(RemoteFileView, RemoteFileView)>,
    pub mismatches: Seq<Seq<char>>,
}

/// Two plans, one after the other.
pub open spec fn plan_add(a: PlanView, b: PlanView) -> PlanView {
    PlanView {
        artifacts: a.artifacts + b.artifacts,
        comparisons: a.comparisons + b.comparisons,
        mismatches: a.mismatches + b.mismatches,
    }
}

/// The plan with nothing in it.
pub open spec fn plan_empty() -> PlanView {
    PlanView { artifacts: seq![], comparisons: seq![], mismatches: seq![] }
}

/// A file stored for its own backend only, at its own path.
pub open spec fn separate_spec(f: RemoteFileView) -> ArtifactView {
    ArtifactView { remote: f, targets: seq![(f.backend, f.path)] }
}

/// The backends state different sizes, or different SHA-256 hashes.
pub open spec fn files_differ(h: RemoteFileView, m: RemoteFileView) -> bool {
    h.size != m.size || (h.sha256 is Some && m.sha256 is Some && h.sha256 != m.sha256)
}

/// The plan for a path that both backends list: a critical file that
/// differs is a mismatch unless `allow` keeps both versions; another file
/// that differs is stored twice; the same SHA-256 on both sides is stored
/// once for both; otherwise the pair is compared by hash after fetching.
pub open spec fn step_both(path: Seq<char>, h: RemoteFileView, m: RemoteFileView, allow: bool) -> PlanView {
    if files_differ(h, m) {
        if is_critical_spec(path) && !allow {
            PlanView { artifacts: seq![], comparisons: seq![], mismatches: seq![path] }
        } else {
            PlanView {
                artifacts: seq![separate_spec(h), separate_spec(m)],
                comparisons: seq![],
                mismatches: seq![],
            }
        }
    } else if h.sha256 is Some && h.sha256 == m.sha256 {
        PlanView {
            artifacts: seq![
                ArtifactView {
                    remote: h,
                    targets: seq![(Backend::HuggingFace, path), (Backend::ModelScope, path)],
                },
            ],
            comparisons: seq![],
            mismatches: seq![],
        }
    } else {
        PlanView { artifacts: seq![], comparisons: seq![(h, m)], mismatches: seq![] }
    }
}

/// The plan for a path that only one backend lists.
pub open spec fn step_one(f: RemoteFileView) -> PlanView {
    PlanView { artifacts: seq![separate_spec(f)], comparisons: seq![], mismatches: seq![] }
}

/// The plan for every path of either listing, in path order.
pub open spec fn plan_walk(
    hk: Seq<Seq<char>>,
    hv: Seq<RemoteFileView>,
    mk: Seq<Seq<char>>,
    mv: Seq<RemoteFileView>,
    allow: bool,
) -> PlanView
    decreases hk.len() + mk.len(),
{
    if hk.len() == 0 && mk.len() == 0 {
        plan_empty()
    } else if mk.len() == 0 || (hk.len() > 0 && seq_less(hk[0], mk[0])) {
        plan_add(step_one(hv[0]), plan_walk(hk.drop_first(), hv.drop_first(), mk, mv, allow))
    } else if hk.len() == 0 || seq_less(mk[0], hk[0]) {
        plan_add(step_one(mv[0]), plan_walk(hk, hv, mk.drop_first(), mv.drop_first(), allow))
    } else {
        plan_add(
            step_both(hk[0], hv[0], mv[0], allow),
            plan_walk(hk.drop_first(), hv.drop_first(), mk.drop_first(), mv.drop_first(), allow),
        )
    }
}

/// The keys of an optional manifest.
pub open spec fn opt_keys(m: Option<Manifest>) -> Seq<Seq<char>> {
    match m {
        Some(x) => manifest_keys(x),
        None => seq![],
    }
}

/// The files of an optional manifest.
pub open spec fn opt_vals(m: Option<Manifest>) -> Seq<RemoteFileView> {
    match m {
        Some(x) => manifest_vals(x),
        None => seq![],
    }
}

/// The plan for two optional manifests.
pub open spec fn plan_spec(hf: Option<Manifest>, ms: Option<Manifest>, allow: bool) -> PlanView {
    plan_walk(opt_keys(hf), opt_vals(hf), opt_keys(ms), opt_vals(ms), allow)
}

/// The plan as it is built.
pub struct PlanAcc {
    pub artifacts: Vec<Artifact>,
    pub comparisons: Vec<(RemoteFile, RemoteFile)>,
    pub mismatches: Vec<String>,
}

impl View for PlanAcc {
    type V = PlanView;

    open spec fn view(&self) -> PlanView {
        PlanView {
            artifacts: self.artifacts@.map_values(|a: Artifact| a@),
            comparisons: self.comparisons@.map_values(|p: (RemoteFile, RemoteFile)| (p.0@, p.1@)),
            mismatches: self.mismatches@.map_values(|s: String| s@),
        }
    }
}

/// The artifact of a file stored for its own backend only.
pub fn separate(f: &RemoteFile) -> (res: Artifact)
    ensures
        res@ == separate_spec(f@),
{
    let mut targets: Vec<(Backend, String)> = Vec::new();
    targets.push((f.backend, f.path.clone()));
    let res = Artifact { remote: f.duplicate(), targets };
    assert(res@.targets =~= seq![(f.backend, f.path@)]);
    res
}

/// Adds the plan for a file that only one backend lists (`add_separate`).
pub fn add_separate(plans: &mut Vec<Artifact>, f: &RemoteFile)
    ensures
        final(plans)@.map_values(|a: Artifact| a@) == old(plans)@.map_values(|a: Artifact| a@).push(
            separate_spec(f@),
        ),
{
    let a = separate(f);
    plans.push(a);
    assert(plans@.map_values(|a: Artifact| a@) =~= old(plans)@.map_values(|a: Artifact| a@).push(
        separate_spec(f@),
    ));
}

/// Adds the plan for a path that both backends list.
fn add_both(acc: &mut PlanAcc, path: &String, h: &RemoteFile, m: &RemoteFile, allow: bool)
    ensures
        final(acc)@ == plan_add(old(acc)@, step_both(path@, h@, m@, allow)),
{
    let differ = h.size != m.size || match (&h.sha256, &m.sha256) {
        (Some(a), Some(b)) => !str_eq(a.as_str(), b.as_str()),
        _ => false,
    };
    proof {
        assert(differ == files_differ(h@, m@));
    }
    if differ {
        if is_critical(path.as_str()) && !allow {
            acc.mismatches.push(path.clone());
        } else {
            add_separate(&mut acc.artifacts, h);
            add_separate(&mut acc.artifacts, m);
        }
    } else {
        let same_hash = match (&h.sha256, &m.sha256) {
            (Some(a), Some(b)) => str_eq(a.as_str(), b.as_str()),
            _ => false,
        };
        proof {
            assert(same_hash == (h@.sha256 is Some && h@.sha256 == m@.sha256));
        }
        if same_hash {
            let mut targets: Vec<(Backend, String)> = Vec::new();
            targets.push((Backend::HuggingFace, path.clone()));
            targets.push((Backend::ModelScope, path.clone()));
            let a = Artifact { remote: h.duplicate(), targets };
            assert(a@.targets =~= seq![(Backend::HuggingFace, path@), (Backend::ModelScope, path@)]);
            acc.artifacts.push(a);
        } else {
            acc.comparisons.push((h.duplicate(), m.duplicate()));
        }
    }
    assert(acc@.artifacts =~= old(acc)@.artifacts + step_both(path@, h@, m@, allow).artifacts);
    assert(acc@.comparisons =~= old(acc)@.comparisons + step_both(path@, h@, m@, allow).comparisons);
    assert(acc@.mismatches =~= old(acc)@.mismatches + step_both(path@, h@, m@, allow).mismatches);
}

/// Adds the plan for a path that one backend lists.
fn add_one(acc: &mut PlanAcc, f: &RemoteFile)
    ensures
        final(acc)@ == plan_add(old(acc)@, step_one(f@)),
{
    add_separate(&mut acc.artifacts, f);
    assert(acc@.artifacts =~= old(acc)@.artifacts + step_one(f@).artifacts);
    assert(acc@.comparisons =~= old(acc)@.comparisons + step_one(f@).comparisons);
    assert(acc@.mismatches =~= old(acc)@.mismatches + step_one(f@).mismatches);
}

proof fn lemma_plan_add_assoc(a: PlanView, b: PlanView, c: PlanView)
    ensures
        plan_add(plan_add(a, b), c) == plan_add(a, plan_add(b, c)),
{
    assert(plan_add(plan_add(a, b), c).artifacts =~= plan_add(a, plan_add(b, c)).artifacts);
    assert(plan_add(plan_add(a, b), c).comparisons =~= plan_add(a, plan_add(b, c)).comparisons);
    assert(plan_add(plan_add(a, b), c).mismatches =~= plan_add(a, plan_add(b, c)).mismatches);
}

proof fn lemma_plan_add_empty(a: PlanView)
    ensures
        plan_add(a, plan_empty()) == a,
{
    assert(plan_add(a, plan_empty()).artifacts =~= a.artifacts);
    assert(plan_add(a, plan_empty()).comparisons =~= a.comparisons);
    assert(plan_add(a, plan_empty()).mismatches =~= a.mismatches);
}

/// The files of both manifests, paired by path and walked in path order.
pub fn plan_walk_exec(hf: Option<&Manifest>, ms: Option<&Manifest>, allow: bool) -> (res: PlanAcc)
    ensures
        res@ == plan_spec(
            match hf {
                Some(m) => Some(*m),
                None => None,
            },
            match ms {
                Some(m) => Some(*m),
                None => None,
            },
            allow,
        ),
{
    let ghost hfo = match hf {
        Some(m) => Some(*m),
        None => None,
    };
    let ghost mso = match ms {
        Some(m) => Some(*m),
        None => None,
    };
    let ghost hk = opt_keys(hfo);
    let ghost hv = opt_vals(hfo);
    let ghost mk = opt_keys(mso);
    let ghost mv = opt_vals(mso);
    let hn: usize = match hf {
        Some(m) => m.files.len(),
        None => 0,
    };
    let mn: usize = match ms {
        Some(m) => m.files.len(),
        None => 0,
    };
    let mut acc = PlanAcc { artifacts: Vec::new(), comparisons: Vec::new(), mismatches: Vec::new() };
    let mut i: usize = 0;
    let mut j: usize = 0;
    proof {
        assert(acc@.artifacts =~= seq![]);
        assert(acc@.comparisons =~= seq![]);
        assert(acc@.mismatches =~= seq![]);
        assert(hk.skip(0) =~= hk);
        assert(hv.skip(0) =~= hv);
        assert(mk.skip(0) =~= mk);
        assert(mv.skip(0) =~= mv);
        assert(plan_add(plan_empty(), plan_walk(hk, hv, mk, mv, allow)) == plan_walk(
            hk,
            hv,
            mk,
            mv,
            allow,
        )) by {
            let w = plan_walk(hk, hv, mk, mv, allow);
            assert(plan_add(plan_empty(), w).artifacts =~= w.artifacts);
            assert(plan_add(plan_empty(), w).comparisons =~= w.comparisons);
            assert(plan_add(plan_empty(), w).mismatches =~= w.mismatches);
        }
    }
    while i < hn || j < mn
        invariant
            i <= hn,
            j <= mn,
            hn == hk.len(),
            hn == hv.len(),
            mn == mk.len(),
            mn == mv.len(),
            hf is None ==> hn == 0,
            ms is None ==> mn == 0,
            hf is Some ==> hk == manifest_keys(*hf->0) && hv == manifest_vals(*hf->0),
            ms is Some ==> mk == manifest_keys(*ms->0) && mv == manifest_vals(*ms->0),
            plan_walk(hk, hv, mk, mv, allow) == plan_add(
                acc@,
                plan_walk(hk.skip(i as int), hv.skip(i as int), mk.skip(j as int), mv.skip(j as int), allow),
            ),
        decreases hn + mn - i - j,
    {
        let ghost hk2 = hk.skip(i as int);
        let ghost hv2 = hv.skip(i as int);
        let ghost mk2 = mk.skip(j as int);
        let ghost mv2 = mv.skip(j as int);
        proof {
            if i < hn {
                assert(hk2.drop_first() =~= hk.skip(i + 1));
                assert(hv2.drop_first() =~= hv.skip(i + 1));
            }
            if j < mn {
                assert(mk2.drop_first() =~= mk.skip(j + 1));
                assert(mv2.drop_first() =~= mv.skip(j + 1));
            }
        }
        // 0: hf only, 1: ms only, 2: both
        let which: u8 = if j >= mn {
            0
        } else if i >= hn {
            1
        } else {
            let hkey = crate::text::chars_of(hf.unwrap().files.key_at(i).as_str());
            let mkey = crate::text::chars_of(ms.unwrap().files.key_at(j).as_str());
            match crate::sorted::compare_chars(&hkey, &mkey) {
                crate::sorted::Order3::Less => 0,
                crate::sorted::Order3::Greater => 1,
                crate::sorted::Order3::Equal => 2,
            }
        };
        let ghost before = acc@;
        if which == 0 {
            let f = hf.unwrap().files.val_at(i);
            proof {
                assert(hv2[0] == f@);
                if j < mn {
                    assert(hk2[0] == hk[i as int]);
                    assert(mk2[0] == mk[j as int]);
                }
            }
            add_one(&mut acc, f);
            proof {
                lemma_plan_add_assoc(before, step_one(hv2[0]), plan_walk(hk2.drop_first(), hv2.drop_first(), mk2, mv2, allow));
            }
            i += 1;
        } else if which == 1 {
            let f = ms.unwrap().files.val_at(j);
            proof {
                assert(mv2[0] == f@);
                if i < hn {
                    assert(hk2[0] == hk[i as int]);
                    assert(mk2[0] == mk[j as int]);
                    lemma_less_asymmetric(mk[j as int], hk[i as int]);
                }
            }
            add_one(&mut acc, f);
            proof {
                lemma_plan_add_assoc(before, step_one(mv2[0]), plan_walk(hk2, hv2, mk2.drop_first(), mv2.drop_first(), allow));
            }
            j += 1;
        } else {
            let path = hf.unwrap().files.key_at(i);
            let h = hf.unwrap().files.val_at(i);
            let m = ms.unwrap().files.val_at(j);
            proof {
                assert(hk2[0] == hk[i as int]);
                assert(mk2[0] == mk[j as int]);
                lemma_less_irreflexive(hk[i as int]);
                assert(hv2[0] == h@);
                assert(mv2[0] == m@);
            }
            add_both(&mut acc, path, h, m, allow);
            proof {
                lemma_plan_add_assoc(before, step_both(hk2[0], hv2[0], mv2[0], allow), plan_walk(hk2.drop_first(), hv2.drop_first(), mk2.drop_first(), mv2.drop_first(), allow));
            }
            i += 1;
            j += 1;
        }
    }
    proof {
        assert(hk.skip(i as int).len() == 0);
        assert(mk.skip(j as int).len() == 0);
        lemma_plan_add_empty(acc@);
    }
    acc
}


/// A plan that can go ahead: the blobs to fetch, and the pairs to compare
/// once fetched.
#[derive(Debug)]
pub struct Planned {
    pub artifacts: Vec<Artifact>,
    pub comparisons: Vec<(RemoteFile, RemoteFile)>,
}

/// Plans the downloads of one model from the manifests that were found:
/// refused, with the paths in order, when critical files differ across
/// backends and `allow_weight_mismatch` is off.
pub fn plan_downloads(hf: Option<&Manifest>, ms: Option<&Manifest>, allow_weight_mismatch: bool) -> (res: Result<Planned, Vec<String>>)
    ensures
        ({
            let p = plan_spec(
                match hf {
                    Some(m) => Some(*m),
                    None => None,
                },
                match ms {
                    Some(m) => Some(*m),
                    None => None,
                },
                allow_weight_mismatch,
            );
            match res {
                Ok(pl) => p.mismatches.len() == 0
                    && pl.artifacts@.map_values(|a: Artifact| a@) == p.artifacts
                    && pl.comparisons@.map_values(|q: (RemoteFile, RemoteFile)| (q.0@, q.1@)) == p.comparisons,
                Err(paths) => p.mismatches.len() > 0 && paths@.map_values(|s: String| s@) == p.mismatches,
            }
        }),
{
    let acc = plan_walk_exec(hf, ms, allow_weight_mismatch);
    if acc.mismatches.len() > 0 {
        Err(acc.mismatches)
    } else {
        Ok(Planned { artifacts: acc.artifacts, comparisons: acc.comparisons })
    }
}

// ---------------------------------------------------------------------------
// Checks on what was fetched

/// What to do with the Hugging Face side of a pair compared by hash.
#[derive(Clone, Copy, Debug, PartialEq, Eq)]
pub enum ComparisonOutcome {
    /// The fetched ModelScope blob matches: link it for Hugging Face too.
    LinkBoth,
    /// The files differ; fetch the Hugging Face file on its own.
    KeepSeparate,
    /// A critical file differs across backends.
    Mismatch,
}

/// What a compared pair comes to, given the hashes of the fetched
/// ModelScope file: it matches when the Hugging Face side states the same
/// SHA-256 or the same Git blob id.
pub open spec fn comparison_outcome_spec(hf_file: RemoteFileView, sha256: Seq<char>, git: Seq<char>, allow: bool) -> ComparisonOutcome {
    if hf_file.sha256 == Some(sha256) || hf_file.git_blob_id == Some(git) {
        ComparisonOutcome::LinkBoth
    } else if is_critical_spec(hf_file.path) && !allow {
        ComparisonOutcome::Mismatch
    } else {
        ComparisonOutcome::KeepSeparate
    }
}

fn opt_eq(o: &Option<String>, s: &str) -> (res: bool)
    ensures
        res == (opt_view(*o) == Some(s@)),
{
    match o {
        Some(x) => str_eq(x.as_str(), s),
        None => false,
    }
}

/// Decides a compared pair once the ModelScope file is fetched.
pub fn comparison_outcome(hf_file: &RemoteFile, sha256: &str, git: &str, allow_weight_mismatch: bool) -> (res: ComparisonOutcome)
    ensures
        res == comparison_outcome_spec(hf_file@, sha256@, git@, allow_weight_mismatch),
{
    if opt_eq(&hf_file.sha256, sha256) || opt_eq(&hf_file.git_blob_id, git) {
        ComparisonOutcome::LinkBoth
    } else if is_critical(hf_file.path.as_str()) && !allow_weight_mismatch {
        ComparisonOutcome::Mismatch
    } else {
        ComparisonOutcome::KeepSeparate
    }
}

/// Why a fetched file was refused.
#[derive(Clone, Copy, Debug, PartialEq, Eq)]
pub enum FetchError {
    /// Fewer or more bytes arrived than the backend stated.
    Incomplete,
    /// The SHA-256 differs from the one the backend stated.
    Sha256Mismatch,
    /// The Git blob id differs from the one the backend stated.
    GitBlobMismatch,
}

/// The check on a fetched file: a stated non-zero size must match the bytes
/// written, then a stated SHA-256 and a stated Git blob id must match.
pub open spec fn check_fetched_spec(remote: RemoteFileView, written: u64, sha256: Seq<char>, git: Seq<char>) -> Result<(), FetchError> {
    if remote.size > 0 && written != remote.size {
        Err(FetchError::Incomplete)
    } else if remote.sha256 is Some && remote.sha256 != Some(sha256) {
        Err(FetchError::Sha256Mismatch)
    } else if remote.git_blob_id is Some && remote.git_blob_id != Some(git) {
        Err(FetchError::GitBlobMismatch)
    } else {
        Ok(())
    }
}

/// Checks a fetched file against what its backend stated.
pub fn check_fetched(remote: &RemoteFile, written: u64, sha256: &str, git: &str) -> (res: Result<(), FetchError>)
    ensures
        res == check_fetched_spec(remote@, written, sha256@, git@),
{
    if remote.size > 0 && written != remote.size {
        Err(FetchError::Incomplete)
    } else if remote.sha256.is_some() && !opt_eq(&remote.sha256, sha256) {
        Err(FetchError::Sha256Mismatch)
    } else if remote.git_blob_id.is_some() && !opt_eq(&remote.git_blob_id, git) {
        Err(FetchError::GitBlobMismatch)
    } else {
        Ok(())
    }
}

/// What becomes of a fetched file's staging copy: on a refused file it is
/// removed and nothing enters the store; otherwise it is moved to the blob
/// named by the SHA-256 computed of its content.
pub fn store_decision(cache_root: &CachePath, remote: &RemoteFile, written: u64, sha256: &str, git: &str) -> (res: Result<CachePath, FetchError>)
    ensures
        match check_fetched_spec(remote@, written, sha256@, git@) {
            Err(e) => res == Err::<CachePath, FetchError>(e),
            Ok(_) => res matches Ok(p) && p@ == blob_path_spec(cache_root@, sha256@),
        },
{
    match check_fetched(remote, written, sha256, git) {
        Err(e) => Err(e),
        Ok(()) => Ok(blob_path(cache_root, sha256)),
    }
}

/// Download concurrency must be at least one.
#[derive(Clone, Copy, Debug, PartialEq, Eq)]
pub struct ZeroConcurrency;

/// Refuses a concurrency of zero.
pub fn check_concurrency(concurrency: usize) -> (res: Result<usize, ZeroConcurrency>)
    ensures
        concurrency == 0 ==> res is Err,
        concurrency > 0 ==> res == Ok::<usize, ZeroConcurrency>(concurrency),
{
    if concurrency == 0 {
        Err(ZeroConcurrency)
    } else {
        Ok(concurrency)
    }
}

/// No backend had the model.
#[derive(Clone, Copy, Debug, PartialEq, Eq)]
pub struct NotOnAnyBackend;

/// A download goes on when at least one backend's manifest was found.
pub fn require_some_backend(has_huggingface: bool, has_modelscope: bool) -> (res: Result<(), NotOnAnyBackend>)
    ensures
        res is Ok <==> (has_huggingface || has_modelscope),
{
    if has_huggingface || has_modelscope {
        Ok(())
    } else {
        Err(NotOnAnyBackend)
    }
}

// ---------------------------------------------------------------------------
// Laws of fetching and listing

/// A fetched file passes its check exactly when a stated non-zero size is
/// the number of bytes written and every stated hash is the one computed;
/// a wrong size is reported first, then a wrong SHA-256, then a wrong Git
/// blob id.
pub proof fn law_fetched_file_check(remote: RemoteFileView, written: u64, sha256: Seq<char>, git: Seq<char>)
    ensures
        check_fetched_spec(remote, written, sha256, git) is Ok <==> ((remote.size == 0 || written == remote.size)
            && (remote.sha256 is None || remote.sha256 == Some(sha256))
            && (remote.git_blob_id is None || remote.git_blob_id == Some(git))),
        remote.size > 0 && written != remote.size ==> check_fetched_spec(remote, written, sha256, git)
            == Err::<(), FetchError>(FetchError::Incomplete),
        check_fetched_spec(remote, written, sha256, git) == Err::<(), FetchError>(FetchError::Sha256Mismatch) ==> (
            (remote.size == 0 || written == remote.size) && remote.sha256 is Some && remote.sha256 != Some(sha256)),
        check_fetched_spec(remote, written, sha256, git) == Err::<(), FetchError>(FetchError::GitBlobMismatch) ==> (
            (remote.size == 0 || written == remote.size) && (remote.sha256 is None || remote.sha256 == Some(sha256))
            && remote.git_blob_id is Some && remote.git_blob_id != Some(git)),
{
}

/// A compared pair is linked for both backends exactly when the Hugging
/// Face side states the SHA-256 or the Git blob id the fetched file has; a
/// pair that does not match is refused only when the file is critical and
/// both versions are not to be kept.
pub proof fn law_comparison_outcome(hf_file: RemoteFileView, sha256: Seq<char>, git: Seq<char>, allow: bool)
    ensures
        comparison_outcome_spec(hf_file, sha256, git, allow) == ComparisonOutcome::LinkBoth <==> (hf_file.sha256
            == Some(sha256) || hf_file.git_blob_id == Some(git)),
        comparison_outcome_spec(hf_file, sha256, git, allow) == ComparisonOutcome::Mismatch <==> (!(hf_file.sha256
            == Some(sha256) || hf_file.git_blob_id == Some(git)) && is_critical_spec(hf_file.path) && !allow),
        allow ==> comparison_outcome_spec(hf_file, sha256, git, allow) != ComparisonOutcome::Mismatch,
{
}

/// Every entry of a ModelScope listing that is not a directory is in its
/// files under its own path, whatever its size; the last entry for a path
/// gives that file's size and hashes; and nothing else is there.
pub proof fn law_modelscope_listing_keeps_files(model_id: Seq<char>, revision: Seq<char>, files: Seq<MsFile>)
    ensures
        forall|i: int| 0 <= i < files.len() && files[i].file_type@ != "tree"@ ==> ms_files_map(model_id, revision, files).dom().contains(
            #[trigger] files[i].path@,
        ),
        forall|i: int|
            0 <= i < files.len() && files[i].file_type@ != "tree"@ && (forall|k: int|
                i < k < files.len() ==> files[k].path@ != files[i].path@) ==> {
                let f = ms_files_map(model_id, revision, files)[#[trigger] files[i].path@];
                &&& f.backend == Backend::ModelScope
                &&& f.path == files[i].path@
                &&& f.size == files[i].size
                &&& f.git_blob_id is None
                &&& f.sha256 == (match files[i].sha256 {
                    Some(h) => if h@.len() > 0 {
                        Some(h@)
                    } else {
                        None
                    },
                    None => None,
                })
            },
        forall|p: Seq<char>| #[trigger] ms_files_map(model_id, revision, files).dom().contains(p) ==> exists|i: int|
            0 <= i < files.len() && files[i].file_type@ != "tree"@ && files[i].path@ == p,
    decreases files.len(),
{
    if files.len() > 0 {
        let init = files.drop_last();
        law_modelscope_listing_keeps_files(model_id, revision, init);
        let m = ms_files_map(model_id, revision, files);
        let last = files.last();
        assert forall|i: int| 0 <= i < files.len() && files[i].file_type@ != "tree"@ implies m.dom().contains(
            #[trigger] files[i].path@,
        ) by {
            if i < files.len() - 1 {
                assert(init[i] == files[i]);
            }
        }
        assert forall|i: int|
            0 <= i < files.len() && files[i].file_type@ != "tree"@ && (forall|k: int|
                i < k < files.len() ==> files[k].path@ != files[i].path@) implies {
                let f = m[#[trigger] files[i].path@];
                &&& f.backend == Backend::ModelScope
                &&& f.path == files[i].path@
                &&& f.size == files[i].size
                &&& f.git_blob_id is None
                &&& f.sha256 == (match files[i].sha256 {
                    Some(h) => if h@.len() > 0 {
                        Some(h@)
                    } else {
                        None
                    },
                    None => None,
                })
            } by {
            if i < files.len() - 1 {
                assert(init[i] == files[i]);
                assert(files[files.len() - 1].path@ != files[i].path@);
                assert forall|k: int| i < k < init.len() implies init[k].path@ != init[i].path@ by {
                    assert(init[k] == files[k]);
                }
            }
        }
        assert forall|p: Seq<char>| #[trigger] m.dom().contains(p) implies exists|i: int|
            0 <= i < files.len() && files[i].file_type@ != "tree"@ && files[i].path@ == p by {
            let n = files.len() - 1;
            if last.file_type@ != "tree"@ && p == last.path@ {
                assert(files[n] == last);
            } else {
                assert(ms_files_map(model_id, revision, init).dom().contains(p));
                let i = choose|i: int| 0 <= i < init.len() && init[i].file_type@ != "tree"@ && init[i].path@ == p;
                assert(files[i] == init[i]);
            }
        }
    }
}

/// Every file of a Hugging Face listing is in its files under its own path.
pub proof fn law_hub_listing_keeps_files(endpoint: Seq<char>, model_id: Seq<char>, sha: Seq<char>, sibs: Seq<HfSibling>)
    ensures
        forall|i: int| 0 <= i < sibs.len() ==> hf_files_map(endpoint, model_id, sha, sibs).dom().contains(
            #[trigger] sibs[i].rfilename@,
        ),
    decreases sibs.len(),
{
    if sibs.len() > 0 {
        let init = sibs.drop_last();
        law_hub_listing_keeps_files(endpoint, model_id, sha, init);
        assert forall|i: int| 0 <= i < sibs.len() implies hf_files_map(endpoint, model_id, sha, sibs).dom().contains(
            #[trigger] sibs[i].rfilename@,
        ) by {
            if i < sibs.len() - 1 {
                assert(init[i] == sibs[i]);
            }
        }
    }
}

// ---------------------------------------------------------------------------
// Layout of the content-addressed cache

/// The directory a backend's files live under.
pub open spec fn backend_dir(b: Backend) -> Seq<char> {
    match b {
        Backend::HuggingFace => "huggingface"@,
        Backend::ModelScope => "modelscope"@,
    }
}

fn backend_dir_str(b: Backend) -> (res: &'static str)
    ensures
        res@ == backend_dir(b),
{
    match b {
        Backend::HuggingFace => "huggingface",
        Backend::ModelScope => "modelscope",
    }
}

/// `<cache>/models/<namespace--name>`.
pub open spec fn model_root_spec(cache_root: (bool, Seq<Seq<char>>), model_id: Seq<char>) -> (bool, Seq<Seq<char>>) {
    join_model(join_model(cache_root, "models"@), replace_all(model_id, "/"@, "--"@))
}

/// The root of one model in the cache.
pub fn model_root(cache_root: &CachePath, model_id: &str) -> (res: CachePath)
    ensures
        res@ == model_root_spec(cache_root@, model_id@),
{
    proof {
        reveal_strlit("/");
    }
    let name = replace_str(model_id, "/", "--");
    cache_root.join("models").join(name.as_str())
}

/// `<model root>/<backend>/snapshots/<revision>`.
pub open spec fn snapshot_root_spec(model_root: (bool, Seq<Seq<char>>), backend: Backend, revision: Seq<char>) -> (bool, Seq<Seq<char>>) {
    join_model(join_model(join_model(model_root, backend_dir(backend)), "snapshots"@), revision)
}

/// The snapshot directory of one backend at one revision.
pub fn snapshot_root(model_root: &CachePath, backend: Backend, revision: &str) -> (res: CachePath)
    ensures
        res@ == snapshot_root_spec(model_root@, backend, revision@),
{
    model_root.join(backend_dir_str(backend)).join("snapshots").join(revision)
}

/// `<model root>/<backend>`.
pub fn backend_root(model_root: &CachePath, backend: Backend) -> (res: CachePath)
    ensures
        res@ == join_model(model_root@, backend_dir(backend)),
{
    model_root.join(backend_dir_str(backend))
}

/// `<cache>/blobs/sha256/<hash>`.
pub open spec fn blob_path_spec(cache_root: (bool, Seq<Seq<char>>), sha256: Seq<char>) -> (bool, Seq<Seq<char>>) {
    join_model(join_model(join_model(cache_root, "blobs"@), "sha256"@), sha256)
}

/// Where the blob with a SHA-256 is stored.
pub fn blob_path(cache_root: &CachePath, sha256: &str) -> (res: CachePath)
    ensures
        res@ == blob_path_spec(cache_root@, sha256@),
{
    cache_root.join("blobs").join("sha256").join(sha256)
}

/// The blob a file may already have in the cache: the one its stated
/// SHA-256 names, where it states one. A file stored there is reused.
pub fn cached_blob(cache_root: &CachePath, remote: &RemoteFile) -> (res: Option<CachePath>)
    ensures
        match remote@.sha256 {
            Some(h) => res matches Some(p) && p@ == blob_path_spec(cache_root@, h),
            None => res is None,
        },
{
    match &remote.sha256 {
        Some(h) => Some(blob_path(cache_root, h.as_str())),
        None => None,
    }
}

/// Where a file is written while it downloads:
/// `<cache>/staging/<backend>/<path>.part`.
pub open spec fn staging_path_spec(cache_root: (bool, Seq<Seq<char>>), remote: RemoteFileView) -> Result<(bool, Seq<Seq<char>>), PathError> {
    match safe_path_model(join_model(join_model(cache_root, "staging"@), backend_dir(remote.backend)), remote.path) {
        Ok(p) => Ok(partial_model(p)),
        Err(e) => Err(e),
    }
}

/// The staging file of a download.
pub fn staging_path(cache_root: &CachePath, remote: &RemoteFile) -> (res: Result<CachePath, PathError>)
    ensures
        match res {
            Ok(p) => staging_path_spec(cache_root@, remote@) == Ok::<_, PathError>(p@),
            Err(e) => staging_path_spec(cache_root@, remote@) == Err::<(bool, Seq<Seq<char>>), _>(e),
        },
{
    let dir = cache_root.join("staging").join(backend_dir_str(remote.backend));
    match safe_path(&dir, remote.path.as_str()) {
        Ok(target) => Ok(target.partial_path()),
        Err(e) => Err(e),
    }
}

/// Where a file appears in a backend snapshot.
pub fn link_target(model_root: &CachePath, backend: Backend, revision: &str, path: &str) -> (res: Result<CachePath, PathError>)
    ensures
        match res {
            Ok(p) => safe_path_model(snapshot_root_spec(model_root@, backend, revision@), path@) == Ok::<_, PathError>(p@),
            Err(e) => safe_path_model(snapshot_root_spec(model_root@, backend, revision@), path@) == Err::<(bool, Seq<Seq<char>>), _>(e),
        },
{
    safe_path(&snapshot_root(model_root, backend, revision), path)
}

/// `<model root>/huggingface/refs/<requested revision>`, which records the
/// commit a requested Hugging Face revision resolved to.
pub fn hf_ref_path(model_root: &CachePath, requested_revision: &str) -> (res: CachePath)
    ensures
        res@ == join_model(join_model(join_model(model_root@, "huggingface"@), "refs"@), requested_revision@),
{
    model_root.join("huggingface").join("refs").join(requested_revision)
}

/// Backend-specific snapshot roots created from one content-addressed blob store.
#[derive(Debug)]
pub struct DownloadedModel {
    pub model_root: CachePath,
    pub huggingface_root: Option<CachePath>,
    pub modelscope_root: Option<CachePath>,
}

/// The result of a download: the model root, and the root of each backend
/// that had the model.
pub fn downloaded_model(model_root: &CachePath, has_huggingface: bool, has_modelscope: bool) -> (res: DownloadedModel)
    ensures
        res.model_root@ == model_root@,
        has_huggingface ==> (res.huggingface_root matches Some(p) && p@ == join_model(model_root@, "huggingface"@)),
        !has_huggingface ==> res.huggingface_root is None,
        has_modelscope ==> (res.modelscope_root matches Some(p) && p@ == join_model(model_root@, "modelscope"@)),
        !has_modelscope ==> res.modelscope_root is None,
{
    DownloadedModel {
        model_root: model_root.clone(),
        huggingface_root: if has_huggingface {
            Some(model_root.join("huggingface"))
        } else {
            None
        },
        modelscope_root: if has_modelscope {
            Some(model_root.join("modelscope"))
        } else {
            None
        },
    }
}

/// The marker file that names the model a cache directory holds.
pub fn model_id_marker(model_root: &CachePath) -> (res: CachePath)
    ensures
        res@ == join_model(model_root@, ".modelhub-model-id"@),
{
    model_root.join(".modelhub-model-id")
}

/// The marker file that names the layout of a model directory, and its content.
pub fn layout_marker(model_root: &CachePath) -> (res: (CachePath, String))
    ensures
        res.0@ == join_model(model_root@, ".modelhub-layout"@),
        res.1@ == "cas-v1"@,
{
    (model_root.join(".modelhub-layout"), String::from_str("cas-v1"))
}

} // verus!
