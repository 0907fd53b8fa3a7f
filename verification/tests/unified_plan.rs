use modelhub::paths::{CachePath, PathError};
use modelhub::sorted::SortedMap;
use modelhub::unified::{
    blob_path, cached_blob, check_concurrency, require_some_backend, NotOnAnyBackend, store_decision, check_fetched, comparison_outcome, downloaded_model, extension,
    hf_manifest_url_of, huggingface_manifest_from, is_critical, layout_marker, link_target,
    model_root, modelscope_manifest_from, ms_manifest_url_of, plan_downloads, snapshot_root,
    staging_path, Backend, ComparisonOutcome, FetchError, HfInfo, HfLfs, HfSibling, Manifest,
    ManifestError, MsData, MsFile, MsResponse, RemoteFile,
};

fn remote(backend: Backend, path: &str, size: u64, sha256: Option<&str>, git: Option<&str>) -> RemoteFile {
    RemoteFile {
        backend,
        path: path.to_string(),
        size,
        sha256: sha256.map(|s| s.to_string()),
        git_blob_id: git.map(|s| s.to_string()),
        url: format!("https://example.invalid/{path}"),
    }
}

fn manifest(revision: &str, files: Vec<RemoteFile>) -> Manifest {
    let mut map = SortedMap::new();
    for f in files {
        map.insert(f.path.clone(), f);
    }
    Manifest { revision: revision.to_string(), files: map }
}

fn targets(plan: &modelhub::unified::Planned) -> Vec<Vec<(Backend, String)>> {
    plan.artifacts.iter().map(|a| a.targets.clone()).collect()
}

#[test]
fn agreeing_file_is_stored_once_for_both_backends() {
    let hf = manifest("abc", vec![remote(Backend::HuggingFace, "model.safetensors", 10, Some("aa"), None)]);
    let ms = manifest("master", vec![remote(Backend::ModelScope, "model.safetensors", 10, Some("aa"), None)]);
    let plan = plan_downloads(Some(&hf), Some(&ms), false).unwrap();
    assert_eq!(plan.artifacts.len(), 1);
    assert_eq!(plan.artifacts[0].remote.backend, Backend::HuggingFace);
    assert_eq!(
        targets(&plan),
        vec![vec![
            (Backend::HuggingFace, "model.safetensors".to_string()),
            (Backend::ModelScope, "model.safetensors".to_string()),
        ]]
    );
    assert!(plan.comparisons.is_empty());
}

#[test]
fn critical_difference_is_refused_unless_all_backends() {
    let hf = manifest(
        "abc",
        vec![
            remote(Backend::HuggingFace, "b/model.bin", 10, Some("aa"), None),
            remote(Backend::HuggingFace, "README.md", 3, None, Some("g1")),
            remote(Backend::HuggingFace, "tokenizer.json", 5, Some("t1"), None),
        ],
    );
    let ms = manifest(
        "master",
        vec![
            remote(Backend::ModelScope, "b/model.bin", 10, Some("bb"), None),
            remote(Backend::ModelScope, "README.md", 4, None, None),
            remote(Backend::ModelScope, "tokenizer.json", 6, None, None),
        ],
    );
    let refused = plan_downloads(Some(&hf), Some(&ms), false).unwrap_err();
    assert_eq!(refused, vec!["b/model.bin".to_string(), "tokenizer.json".to_string()]);

    let kept = plan_downloads(Some(&hf), Some(&ms), true).unwrap();
    assert_eq!(
        targets(&kept),
        vec![
            vec![(Backend::HuggingFace, "README.md".to_string())],
            vec![(Backend::ModelScope, "README.md".to_string())],
            vec![(Backend::HuggingFace, "b/model.bin".to_string())],
            vec![(Backend::ModelScope, "b/model.bin".to_string())],
            vec![(Backend::HuggingFace, "tokenizer.json".to_string())],
            vec![(Backend::ModelScope, "tokenizer.json".to_string())],
        ]
    );
}

#[test]
fn files_without_common_sha_are_compared_after_fetch() {
    let hf = manifest("abc", vec![remote(Backend::HuggingFace, "config.json", 7, None, Some("g1"))]);
    let ms = manifest("master", vec![remote(Backend::ModelScope, "config.json", 7, None, None)]);
    let plan = plan_downloads(Some(&hf), Some(&ms), false).unwrap();
    assert!(plan.artifacts.is_empty());
    assert_eq!(plan.comparisons.len(), 1);
    assert_eq!(plan.comparisons[0].0.backend, Backend::HuggingFace);
    assert_eq!(plan.comparisons[0].1.backend, Backend::ModelScope);
    assert_eq!(plan.comparisons[0].0.path, "config.json");
}

#[test]
fn single_backend_gets_only_its_own_snapshot() {
    let hf = manifest(
        "abc",
        vec![
            remote(Backend::HuggingFace, "a.txt", 1, None, Some("g")),
            remote(Backend::HuggingFace, "w.gguf", 2, Some("s"), None),
        ],
    );
    let plan = plan_downloads(Some(&hf), None, false).unwrap();
    assert_eq!(
        targets(&plan),
        vec![
            vec![(Backend::HuggingFace, "a.txt".to_string())],
            vec![(Backend::HuggingFace, "w.gguf".to_string())],
        ]
    );
    let ms = manifest("master", vec![remote(Backend::ModelScope, "x.onnx", 2, None, None)]);
    let plan = plan_downloads(None, Some(&ms), false).unwrap();
    assert_eq!(targets(&plan), vec![vec![(Backend::ModelScope, "x.onnx".to_string())]]);
    let plan = plan_downloads(None, None, false).unwrap();
    assert!(plan.artifacts.is_empty() && plan.comparisons.is_empty());
}

#[test]
fn every_listed_path_is_planned_in_path_order() {
    let hf = manifest(
        "abc",
        vec![
            remote(Backend::HuggingFace, "c", 1, Some("x"), None),
            remote(Backend::HuggingFace, "a", 1, Some("x"), None),
        ],
    );
    let ms = manifest(
        "master",
        vec![
            remote(Backend::ModelScope, "b", 1, None, None),
            remote(Backend::ModelScope, "c", 1, Some("x"), None),
        ],
    );
    let plan = plan_downloads(Some(&hf), Some(&ms), false).unwrap();
    assert_eq!(
        targets(&plan),
        vec![
            vec![(Backend::HuggingFace, "a".to_string())],
            vec![(Backend::ModelScope, "b".to_string())],
            vec![
                (Backend::HuggingFace, "c".to_string()),
                (Backend::ModelScope, "c".to_string()),
            ],
        ]
    );
}

#[test]
fn critical_files() {
    assert!(is_critical("model.safetensors"));
    assert!(is_critical("sub/Model.BIN"));
    assert!(is_critical("x.gguf"));
    assert!(is_critical("x.onnx"));
    assert!(is_critical("tokenizer.json"));
    assert!(is_critical("a/special_tokenizer.model"));
    assert!(is_critical("config.json"));
    assert!(is_critical("sub/Generation_Config.json"));
    assert!(is_critical("tokenizer_config.json"));
    assert!(is_critical("configuration.json"));
    assert!(!is_critical("myconfig.json"));
    assert!(!is_critical("config.json.md"));
    assert!(!is_critical(".bin"));
    assert!(!is_critical("README.md"));
    assert_eq!(extension("a.tar.gz").as_deref(), Some("gz"));
    assert_eq!(extension(".hidden"), None);
    assert_eq!(extension("noext"), None);
}

#[test]
fn comparison_outcomes() {
    let hf = remote(Backend::HuggingFace, "README.md", 7, None, Some("g1"));
    assert_eq!(comparison_outcome(&hf, "s", "g1", false), ComparisonOutcome::LinkBoth);
    assert_eq!(comparison_outcome(&hf, "s", "g2", false), ComparisonOutcome::KeepSeparate);
    let config = remote(Backend::HuggingFace, "config.json", 7, None, Some("g1"));
    assert_eq!(comparison_outcome(&config, "s", "g1", false), ComparisonOutcome::LinkBoth);
    assert_eq!(comparison_outcome(&config, "s", "g2", false), ComparisonOutcome::Mismatch);
    assert_eq!(comparison_outcome(&config, "s", "g2", true), ComparisonOutcome::KeepSeparate);
    let weights = remote(Backend::HuggingFace, "m.bin", 7, Some("s1"), None);
    assert_eq!(comparison_outcome(&weights, "s1", "g", false), ComparisonOutcome::LinkBoth);
    assert_eq!(comparison_outcome(&weights, "s2", "g", false), ComparisonOutcome::Mismatch);
    assert_eq!(comparison_outcome(&weights, "s2", "g", true), ComparisonOutcome::KeepSeparate);
}

#[test]
fn fetched_file_checks() {
    let f = remote(Backend::HuggingFace, "m.bin", 5, Some("s1"), Some("g1"));
    assert_eq!(check_fetched(&f, 5, "s1", "g1"), Ok(()));
    assert_eq!(check_fetched(&f, 4, "s1", "g1"), Err(FetchError::Incomplete));
    assert_eq!(check_fetched(&f, 5, "s2", "g1"), Err(FetchError::Sha256Mismatch));
    assert_eq!(check_fetched(&f, 5, "s1", "g2"), Err(FetchError::GitBlobMismatch));
    let unknown = remote(Backend::ModelScope, "x", 0, None, None);
    assert_eq!(check_fetched(&unknown, 123, "any", "any"), Ok(()));
    assert!(check_concurrency(0).is_err());
    assert_eq!(check_concurrency(4), Ok(4));
}

#[test]
fn huggingface_manifest_of_listing() {
    let info = HfInfo {
        sha: "c0ffee".to_string(),
        siblings: vec![
            HfSibling {
                rfilename: "dir/model weights.bin".to_string(),
                size: None,
                blob_id: Some("ignored".to_string()),
                lfs: Some(HfLfs { sha256: "beef".to_string(), size: 42 }),
            },
            HfSibling {
                rfilename: "config.json".to_string(),
                size: Some(7),
                blob_id: Some("b10b".to_string()),
                lfs: None,
            },
        ],
    };
    let m = huggingface_manifest_from("https://hf-mirror.com", "acme/demo", &info);
    assert_eq!(m.revision, "c0ffee");
    let w = m.files.get("dir/model weights.bin").unwrap();
    assert_eq!(w.size, 42);
    assert_eq!(w.sha256.as_deref(), Some("beef"));
    assert_eq!(w.git_blob_id, None);
    assert_eq!(
        w.url,
        "https://hf-mirror.com/acme/demo/resolve/c0ffee/dir/model%20weights.bin"
    );
    let c = m.files.get("config.json").unwrap();
    assert_eq!(c.size, 7);
    assert_eq!(c.sha256, None);
    assert_eq!(c.git_blob_id.as_deref(), Some("b10b"));
    assert_eq!(c.backend, Backend::HuggingFace);
    assert_eq!(
        hf_manifest_url_of("https://huggingface.co", "acme/demo", "v 1"),
        "https://huggingface.co/api/models/acme/demo/revision/v%201?blobs=true"
    );
}

#[test]
fn modelscope_manifest_of_listing() {
    let resp = MsResponse {
        success: true,
        message: String::new(),
        data: Some(MsData {
            files: vec![
                MsFile { path: "sub".to_string(), size: 0, sha256: None, file_type: "tree".to_string() },
                MsFile {
                    path: "sub/a b.bin".to_string(),
                    size: 9,
                    sha256: Some(String::new()),
                    file_type: "blob".to_string(),
                },
            ],
        }),
    };
    let m = modelscope_manifest_from("acme/demo", "v1.0", &resp).unwrap();
    assert_eq!(m.revision, "v1.0");
    assert!(m.files.get("sub").is_none());
    let f = m.files.get("sub/a b.bin").unwrap();
    assert_eq!(f.sha256, None);
    assert_eq!(f.size, 9);
    assert_eq!(
        f.url,
        "https://modelscope.cn/api/v1/models/acme/demo/repo?Revision=v1.0&FilePath=sub%2Fa%20b.bin"
    );
    let rejected = MsResponse { success: false, message: "nope".to_string(), data: None };
    match modelscope_manifest_from("acme/demo", "v1", &rejected) {
        Err(ManifestError::Rejected(m)) => assert_eq!(m, "nope"),
        _ => panic!("expected a rejected listing"),
    }
    let empty = MsResponse { success: true, message: String::new(), data: None };
    assert!(matches!(modelscope_manifest_from("acme/demo", "v1", &empty), Err(ManifestError::MissingData)));
    assert_eq!(
        ms_manifest_url_of("acme/demo", "v 1"),
        "https://modelscope.cn/api/v1/models/acme/demo/repo/files?Recursive=true&Revision=v%201"
    );
}

#[test]
fn cache_layout() {
    let cache = CachePath::parse("/data/cache");
    let root = model_root(&cache, "acme/demo");
    assert_eq!(root.render(), "/data/cache/models/acme--demo");
    assert_eq!(
        snapshot_root(&root, Backend::HuggingFace, "abc").render(),
        "/data/cache/models/acme--demo/huggingface/snapshots/abc"
    );
    assert_eq!(blob_path(&cache, "ff00").render(), "/data/cache/blobs/sha256/ff00");
    let f = remote(Backend::ModelScope, "sub/w.bin", 1, None, None);
    assert_eq!(
        staging_path(&cache, &f).unwrap().render(),
        "/data/cache/staging/modelscope/sub/w.bin.part"
    );
    let bad = remote(Backend::ModelScope, "../escape", 1, None, None);
    assert_eq!(staging_path(&cache, &bad).unwrap_err(), PathError::EscapesRoot);
    assert_eq!(
        link_target(&root, Backend::ModelScope, "master", "a/b.txt").unwrap().render(),
        "/data/cache/models/acme--demo/modelscope/snapshots/master/a/b.txt"
    );
    assert_eq!(
        link_target(&root, Backend::ModelScope, "master", "/etc/passwd").unwrap_err(),
        PathError::MustBeRelative
    );
    let d = downloaded_model(&root, true, false);
    assert_eq!(d.model_root.render(), "/data/cache/models/acme--demo");
    assert_eq!(d.huggingface_root.unwrap().render(), "/data/cache/models/acme--demo/huggingface");
    assert!(d.modelscope_root.is_none());
    let (marker, content) = layout_marker(&root);
    assert_eq!(marker.render(), "/data/cache/models/acme--demo/.modelhub-layout");
    assert_eq!(content, "cas-v1");
}

#[test]
fn differing_plain_file_is_kept_for_each_backend() {
    let hf = manifest("abc", vec![remote(Backend::HuggingFace, "README.md", 3, None, Some("g1"))]);
    let ms = manifest("master", vec![remote(Backend::ModelScope, "README.md", 4, None, None)]);
    let plan = plan_downloads(Some(&hf), Some(&ms), false).unwrap();
    assert_eq!(
        targets(&plan),
        vec![
            vec![(Backend::HuggingFace, "README.md".to_string())],
            vec![(Backend::ModelScope, "README.md".to_string())],
        ]
    );
    assert_eq!(plan.artifacts[0].remote.size, 3);
    assert_eq!(plan.artifacts[1].remote.size, 4);
}

#[test]
fn differing_config_is_refused_unless_all_backends() {
    let hf = manifest("abc", vec![remote(Backend::HuggingFace, "config.json", 3, None, Some("g1"))]);
    let ms = manifest("master", vec![remote(Backend::ModelScope, "config.json", 4, None, None)]);
    assert_eq!(plan_downloads(Some(&hf), Some(&ms), false).unwrap_err(), vec!["config.json".to_string()]);
    let kept = plan_downloads(Some(&hf), Some(&ms), true).unwrap();
    assert_eq!(kept.artifacts.len(), 2);
}

#[test]
fn backend_presence_and_cached_blobs() {
    assert_eq!(require_some_backend(true, false), Ok(()));
    assert_eq!(require_some_backend(false, true), Ok(()));
    assert_eq!(require_some_backend(false, false), Err(NotOnAnyBackend));
    let cache = CachePath::parse("/c");
    let with_hash = remote(Backend::HuggingFace, "w.bin", 1, Some("abcd"), None);
    assert_eq!(cached_blob(&cache, &with_hash).unwrap().render(), "/c/blobs/sha256/abcd");
    let without = remote(Backend::ModelScope, "w.bin", 1, None, None);
    assert!(cached_blob(&cache, &without).is_none());
}

#[test]
fn fetched_file_store_decision() {
    let cache = CachePath::parse("/c");
    let f = remote(Backend::HuggingFace, "m.bin", 5, Some("s1"), None);
    assert_eq!(store_decision(&cache, &f, 5, "s1", "g").unwrap().render(), "/c/blobs/sha256/s1");
    assert_eq!(store_decision(&cache, &f, 4, "s1", "g").unwrap_err(), FetchError::Incomplete);
    assert_eq!(store_decision(&cache, &f, 5, "s2", "g").unwrap_err(), FetchError::Sha256Mismatch);
    let plain = remote(Backend::ModelScope, "x", 0, None, None);
    assert_eq!(store_decision(&cache, &plain, 9, "d1", "g").unwrap().render(), "/c/blobs/sha256/d1");
}
