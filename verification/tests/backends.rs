use modelhub::huggingface::{
    cache_dir as hf_cache_dir, compact_label, complete, endpoints, model_info_url, partial_path,
    repo_dir, safe_repo_path, safe_revision_path, sizes_fit, snapshot_plan, total_expected_size,
    FileMeta, LfsInfo, ModelInfo, RevisionPathError, Sibling, DEFAULT_CONCURRENCY,
    model_exists_verdict, ProbeOutcome, endpoint_step, hub_token, EndpointAnswer, EndpointStep,
};
use modelhub::modelscope::client::{cookie_header, CookieError};
use modelhub::modelscope::download::{
    dataset_files_url, dataset_listing_continues, download_status_ok, download_url,
    file_is_complete, listed_files, model_files_url, partial_path_for, repo_cache_dir,
    single_file_job, snapshot_jobs, written_matches, ListError, RepoKind, dataset_listing_step,
    ListingStep,
};
use modelhub::modelscope::types::{ModelScopeResponse, ModelScopeResponseData, RepoFile};
use modelhub::paths::{CachePath, PathError};
use modelhub::urlenc::encode_path;

fn p(s: &str) -> CachePath {
    CachePath::parse(s)
}

fn sibling(name: &str, size: Option<u64>, lfs: Option<Option<u64>>) -> Sibling {
    Sibling { rfilename: name.to_string(), size, lfs: lfs.map(|size| LfsInfo { size }) }
}

#[test]
fn hub_endpoints_and_urls() {
    assert_eq!(endpoints(None), vec!["https://hf-mirror.com".to_string(), "https://huggingface.co".to_string()]);
    assert_eq!(endpoints(Some("https://example.org//")), vec!["https://example.org".to_string()]);
    assert_eq!(
        model_info_url("https://huggingface.co", "acme/demo", None),
        "https://huggingface.co/api/models/acme/demo/"
    );
    assert_eq!(
        model_info_url("https://huggingface.co", "acme/demo", Some("refs/pr/1")),
        "https://huggingface.co/api/models/acme/demo/revision/refs/pr/1"
    );
    assert_eq!(encode_path("a b/c+d/é"), "a%20b/c%2Bd/%C3%A9");
    assert_eq!(DEFAULT_CONCURRENCY, 4);
}

#[test]
fn hub_cache_dir_priority() {
    assert_eq!(hf_cache_dir(Some("/hub"), Some("/hf"), Some("/home/u")).render(), "/hub");
    assert_eq!(hf_cache_dir(None, Some("/hf"), Some("/home/u")).render(), "/hf/hub");
    assert_eq!(hf_cache_dir(None, None, Some("/home/u")).render(), "/home/u/.cache/huggingface/hub");
    assert_eq!(hf_cache_dir(None, None, None).render(), "/tmp/.cache/huggingface/hub");
}

#[test]
fn labels_and_sizes() {
    assert_eq!(compact_label("abc", 5), "abc");
    assert_eq!(compact_label("abcdef", 4), "abc…");
    assert_eq!(compact_label("", 0), "");
    assert_eq!(sibling("a", Some(3), Some(Some(9))).expected_size(), Some(3));
    assert_eq!(sibling("a", None, Some(Some(9))).expected_size(), Some(9));
    assert_eq!(sibling("a", None, Some(None)).expected_size(), None);
    assert_eq!(sibling("a", None, None).expected_size(), None);
    let sibs = vec![sibling("a", Some(3), None), sibling("b", None, Some(Some(4)))];
    assert!(sizes_fit(&sibs));
    assert_eq!(total_expected_size(&sibs), Some(7));
    let unknown = vec![sibling("a", Some(3), None), sibling("b", None, None)];
    assert!(sizes_fit(&unknown));
    assert_eq!(total_expected_size(&unknown), None);
    let huge = vec![sibling("a", Some(u64::MAX), None), sibling("b", Some(1), None)];
    assert!(!sizes_fit(&huge));
    assert!(complete(Some(FileMeta { is_file: true, len: 5 }), Some(5)));
    assert!(!complete(Some(FileMeta { is_file: true, len: 4 }), Some(5)));
    assert!(complete(Some(FileMeta { is_file: true, len: 4 }), None));
    assert!(!complete(Some(FileMeta { is_file: false, len: 5 }), Some(5)));
    assert!(!complete(None, None));
}

#[test]
fn hub_snapshot_plan() {
    let info = ModelInfo {
        sha: Some("c0ffee".to_string()),
        siblings: vec![sibling("w/model.bin", None, Some(Some(10))), sibling("../evil", Some(1), None)],
    };
    let plan = snapshot_plan("https://hf-mirror.com", "acme/demo", None, &p("/hf"), &info).unwrap();
    assert_eq!(plan.root.render(), "/hf/models/acme--demo");
    assert_eq!(plan.snapshot.render(), "/hf/models/acme--demo/snapshots/c0ffee");
    assert_eq!(plan.snapshot_revision, "c0ffee");
    assert_eq!(plan.jobs.len(), 2);
    assert_eq!(plan.jobs[0].target.as_ref().unwrap().render(), "/hf/models/acme--demo/snapshots/c0ffee/w/model.bin");
    assert_eq!(plan.jobs[0].url, "https://hf-mirror.com/acme/demo/resolve/c0ffee/w/model.bin");
    assert_eq!(plan.jobs[0].expected, Some(10));
    assert_eq!(plan.jobs[1].target.as_ref().unwrap_err(), &PathError::EscapesRoot);
    assert_eq!(plan.ref_path.as_ref().unwrap().render(), "/hf/models/acme--demo/refs/main");
    let no_sha = ModelInfo { sha: None, siblings: vec![] };
    let plan = snapshot_plan("https://huggingface.co", "acme/demo", Some("v2"), &p("/hf"), &no_sha).unwrap();
    assert_eq!(plan.snapshot.render(), "/hf/models/acme--demo/snapshots/v2");
    let bad = ModelInfo { sha: Some(String::new()), siblings: vec![] };
    assert_eq!(
        snapshot_plan("https://huggingface.co", "acme/demo", None, &p("/hf"), &bad).unwrap_err(),
        RevisionPathError::Empty
    );
    assert_eq!(
        safe_revision_path(&p("/r"), "../x").unwrap_err(),
        RevisionPathError::Path(PathError::EscapesRoot)
    );
    assert_eq!(repo_dir(&p("/c"), "a/b").render(), "/c/models/a--b");
    assert_eq!(safe_repo_path(&p("/c"), "x/y").unwrap().render(), "/c/x/y");
    assert_eq!(partial_path(&p("/c/x.bin")).render(), "/c/x.bin.part");
}

#[test]
fn modelscope_urls_and_layout() {
    assert_eq!(
        download_url(RepoKind::Model, "iic/demo", "v1.0.0", "dir/a b.json"),
        "https://modelscope.cn/api/v1/models/iic/demo/repo?Revision=v1.0.0&FilePath=dir%2Fa%20b.json"
    );
    assert_eq!(
        download_url(RepoKind::Dataset, "modelscope/clue", "master", "README.md"),
        "https://modelscope.cn/api/v1/datasets/modelscope/clue/repo?Revision=master&FilePath=README.md"
    );
    assert_eq!(
        model_files_url("iic/demo", "master"),
        "https://modelscope.cn/api/v1/models/iic/demo/repo/files?Recursive=true&Revision=master"
    );
    assert_eq!(
        dataset_files_url("modelscope/clue", "master", 3),
        "https://modelscope.cn/api/v1/datasets/modelscope/clue/repo/tree?Recursive=True&Revision=master&PageNumber=3&PageSize=200"
    );
    assert!(dataset_listing_continues(200));
    assert!(!dataset_listing_continues(199));
    assert_eq!(
        repo_cache_dir(&p("/ms"), RepoKind::Model, "iic/demo", "master").render(),
        "/ms/models/iic--demo/snapshots/master"
    );
    assert_eq!(
        repo_cache_dir(&p("/ms"), RepoKind::Dataset, "modelscope/clue", "master").render(),
        "/ms/datasets/modelscope--clue/snapshots/master"
    );
    assert_eq!(RepoKind::Model.segment(), "models");
    assert_eq!(RepoKind::Dataset.label(), "dataset");
    assert_eq!(partial_path_for(&p("/ms/a.bin")).render(), "/ms/a.bin.part");
    assert!(file_is_complete(5, Some(5)));
    assert!(!file_is_complete(0, Some(0)));
    assert!(!file_is_complete(5, None));
    assert!(written_matches(Some(3), 3));
    assert!(!written_matches(Some(3), 2));
    assert!(written_matches(None, 7));
    assert!(download_status_ok(200));
    assert!(download_status_ok(206));
    assert!(!download_status_ok(404));
}

fn repo_file(name: &str, path: &str, size: u64, file_type: &str) -> RepoFile {
    RepoFile {
        name: name.to_string(),
        path: path.to_string(),
        size,
        sha256: String::new(),
        file_type: file_type.to_string(),
    }
}

#[test]
fn modelscope_listings_and_jobs() {
    let ok = ModelScopeResponse {
        code: 200,
        success: true,
        message: String::new(),
        data: Some(ModelScopeResponseData {
            files: vec![
                repo_file("sub", "sub", 0, "tree"),
                repo_file("a.bin", "sub/a.bin", 4, "blob"),
                repo_file("empty", "empty", 0, "blob"),
            ],
        }),
    };
    let files = listed_files(ok).unwrap();
    assert_eq!(files.len(), 3);
    let jobs = snapshot_jobs(RepoKind::Model, "iic/demo", "master", &p("/s"), &files);
    assert_eq!(jobs.len(), 2);
    assert_eq!(jobs[0].target.as_ref().unwrap().render(), "/s/sub/a.bin");
    assert_eq!(jobs[0].name, "a.bin");
    assert_eq!(jobs[0].expected, Some(4));
    assert_eq!(jobs[1].expected, None);
    let rejected = ModelScopeResponse { code: 500, success: false, message: "bad".to_string(), data: None };
    assert_eq!(listed_files(rejected).unwrap_err(), ListError::Rejected("bad".to_string()));
    let empty = ModelScopeResponse { code: 200, success: true, message: String::new(), data: None };
    assert_eq!(listed_files(empty).unwrap_err(), ListError::MissingData);
    let job = single_file_job(RepoKind::Model, "iic/demo", "conf/configuration.json", "v1", &p("/ms")).unwrap();
    assert_eq!(job.target.unwrap().render(), "/ms/models/iic--demo/snapshots/v1/conf/configuration.json");
    assert_eq!(job.name, "configuration.json");
    assert_eq!(job.expected, None);
    assert_eq!(
        single_file_job(RepoKind::Model, "iic/demo", "/abs", "v1", &p("/ms")).unwrap_err(),
        PathError::MustBeRelative
    );
}

#[test]
fn cookie_headers() {
    assert_eq!(
        cookie_header(r#"{"session":"abc","csrf":"x1","n":3}"#).unwrap(),
        "csrf=x1; n=; session=abc"
    );
    assert_eq!(cookie_header("{}").unwrap(), "");
    assert!(matches!(cookie_header("[1,2]"), Err(CookieError::NotObject)));
    assert!(matches!(cookie_header("not json"), Err(CookieError::Json(_))));
}

#[test]
fn model_existence_verdicts() {
    let (found, not_found, failed) = (ProbeOutcome::Found, ProbeOutcome::NotFound, ProbeOutcome::Failed);
    assert_eq!(model_exists_verdict(&vec![not_found, found]), Some(true));
    assert_eq!(model_exists_verdict(&vec![failed, found]), Some(true));
    assert_eq!(model_exists_verdict(&vec![not_found, not_found]), Some(false));
    assert_eq!(model_exists_verdict(&vec![not_found, failed]), None);
    assert_eq!(model_exists_verdict(&vec![]), Some(false));
}

#[test]
fn endpoint_fallback_steps() {
    assert_eq!(endpoint_step(EndpointAnswer::Listing), EndpointStep::Use);
    assert_eq!(endpoint_step(EndpointAnswer::BadBody), EndpointStep::TryNext);
    assert_eq!(endpoint_step(EndpointAnswer::BadStatus), EndpointStep::TryNext);
    assert_eq!(endpoint_step(EndpointAnswer::Unreachable), EndpointStep::TryNext);
}

#[test]
fn dataset_listing_pages() {
    let full: Vec<RepoFile> = (0..200).map(|i| repo_file("f", &format!("a/{i}"), 1, "blob")).collect();
    let step = dataset_listing_step(1, Vec::new(), full);
    let (page, files) = match step {
        ListingStep::Next { page, files } => (page, files),
        ListingStep::Done(_) => panic!("a full page is followed by another"),
    };
    assert_eq!(page, 2);
    assert_eq!(files.len(), 200);
    let last = vec![repo_file("g", "b/last", 2, "blob")];
    match dataset_listing_step(page, files, last) {
        ListingStep::Done(all) => {
            assert_eq!(all.len(), 201);
            assert_eq!(all[0].path, "a/0");
            assert_eq!(all[199].path, "a/199");
            assert_eq!(all[200].path, "b/last");
        }
        ListingStep::Next { .. } => panic!("a short page ends the listing"),
    }
    match dataset_listing_step(1, Vec::new(), Vec::new()) {
        ListingStep::Done(all) => assert!(all.is_empty()),
        ListingStep::Next { .. } => panic!("an empty page ends the listing"),
    }
}

#[test]
fn hub_token_choice() {
    assert_eq!(hub_token(Some("a".to_string()), Some("b".to_string())).as_deref(), Some("a"));
    assert_eq!(hub_token(None, Some("b".to_string())).as_deref(), Some("b"));
    assert_eq!(hub_token(None, None), None);
}
