use modelhub::cache::{cache_dir, set_cache_dir, CacheDirOverride};
use modelhub::cli::{
    absolute_root, backend_cache_paths, blob_unreferenced, cached_models, find_model,
    link_action, link_points_into, merge_action, model_id_from_dir, requested_revisions,
    unsafe_clear_root, LinkAction, MergeAction, TargetKind,
};
use modelhub::modelscope_cache_dir;
use modelhub::paths::{safe_path, CachePath, PathError};
use modelhub::sorted::SortedMap;

fn p(s: &str) -> CachePath {
    CachePath::parse(s)
}

#[test]
fn paths_parse_render_join() {
    assert_eq!(p("/a//b/./c/").render(), "/a/b/c");
    assert_eq!(p("a/../b").render(), "a/../b");
    assert!(p("/x").is_absolute());
    assert!(!p("x").is_absolute());
    assert_eq!(p("/a").join("b/c").render(), "/a/b/c");
    assert_eq!(p("/a").join("/z").render(), "/z");
    assert_eq!(p("/a/b.txt").file_name().as_deref(), Some("b.txt"));
    assert_eq!(p("/a/..").file_name(), None);
    assert_eq!(p("/a/b.txt").partial_path().render(), "/a/b.txt.part");
    assert_eq!(p("/").partial_path().render(), "/download.part");
    assert!(p("/a/b/c").starts_with(&p("/a/b")));
    assert!(!p("/a/bc").starts_with(&p("/a/b")));
    assert!(p("/a/b").same_as(&p("/a//b/")));
}

#[test]
fn safe_paths_stay_under_root() {
    let root = p("/cache/snap");
    assert_eq!(safe_path(&root, "a/./b.txt").unwrap().render(), "/cache/snap/a/b.txt");
    assert_eq!(safe_path(&root, "/etc/passwd").unwrap_err(), PathError::MustBeRelative);
    assert_eq!(safe_path(&root, "a/../../x").unwrap_err(), PathError::EscapesRoot);
    assert_eq!(safe_path(&root, "").unwrap().render(), "/cache/snap");
}

#[test]
fn cache_root_priority() {
    assert_eq!(cache_dir(Some("/env/cache"), Some("/home/u")).render(), "/env/cache");
    assert_eq!(cache_dir(None, Some("/home/u")).render(), "/home/u/.cache/modelhub");
    assert_eq!(cache_dir(None, None).render(), "/tmp/.cache/modelhub");
    let mut over = CacheDirOverride::new();
    assert_eq!(
        modelscope_cache_dir(&over, Some("/ms"), Some("/home/u")).render(),
        "/ms"
    );
    assert_eq!(
        modelscope_cache_dir(&over, None, Some("/home/u")).render(),
        "/home/u/.cache/modelscope"
    );
    assert_eq!(modelscope_cache_dir(&over, None, None).render(), "/tmp/.cache/modelscope");
    set_cache_dir(&mut over, p("/data/modelscope-cache"));
    assert_eq!(
        modelscope_cache_dir(&over, Some("/ms"), Some("/home/u")).render(),
        "/data/modelscope-cache"
    );
    assert_eq!(
        modelhub::vasr::cache_dir(&over, Some("/v"), None).render(),
        "/data/modelscope-cache"
    );
    let fresh = CacheDirOverride::new();
    assert_eq!(modelhub::vasr::cache_dir(&fresh, Some("/v"), None).render(), "/v");
    assert_eq!(modelhub::vasr::cache_dir(&fresh, None, Some("/h")).render(), "/h/.cache/vasr");
    assert_eq!(modelhub::vasr::modelscope_cache_dir(&fresh, None, None).render(), "/tmp/.cache/vasr");
    assert_eq!(
        modelhub::modelscope::cache::cache_dir(&fresh, None, Some("/h")).render(),
        "/h/.cache/modelscope"
    );
}

#[test]
fn marker_file_wins_over_directory_name() {
    assert_eq!(
        model_id_from_dir(&p("/cache/whatever"), Some("  acme/demo\n"), false).as_deref(),
        Some("acme/demo")
    );
    assert_eq!(
        model_id_from_dir(&p("/cache/acme--demo"), Some("   "), false).as_deref(),
        Some("acme/demo")
    );
    assert_eq!(model_id_from_dir(&p("/cache/plain"), None, false), None);
    assert_eq!(model_id_from_dir(&p("/cache/acme--demo"), None, true), None);
    assert_eq!(model_id_from_dir(&p("/"), None, false), None);
}

#[test]
fn cached_models_are_grouped_and_sorted() {
    let models = cached_models(vec![
        ("b/m".to_string(), p("/c/models/b--m")),
        ("a/m".to_string(), p("/c/models/a--m")),
        ("b/m".to_string(), p("/c/huggingface/hub/models--b--m")),
    ]);
    assert_eq!(models.len(), 2);
    assert_eq!(models[0].model_id, "a/m");
    assert_eq!(models[1].model_id, "b/m");
    assert_eq!(models[1].paths.len(), 2);
    assert_eq!(models[1].paths[0].render(), "/c/models/b--m");
    assert_eq!(models[1].paths[1].render(), "/c/huggingface/hub/models--b--m");
    assert_eq!(find_model(&models, "b/m"), Some(1));
    assert_eq!(find_model(&models, "z/z"), None);
}

#[test]
fn backend_paths_and_revisions() {
    let paths = backend_cache_paths(&p("/h/.cache/modelscope"), &p("/h/.cache/huggingface/hub"), "acme/demo");
    assert_eq!(paths[0].render(), "/h/.cache/modelscope/models/acme--demo");
    assert_eq!(paths[1].render(), "/h/.cache/huggingface/hub/models--acme--demo");
    assert_eq!(requested_revisions(None), ("main".to_string(), "master".to_string()));
    assert_eq!(requested_revisions(Some("v1")), ("v1".to_string(), "v1".to_string()));
}

#[test]
fn linking_decisions() {
    assert_eq!(link_action(true, TargetKind::Directory { empty: false }), LinkAction::AlreadyLinked);
    assert_eq!(link_action(false, TargetKind::Missing), LinkAction::CreateLink);
    assert_eq!(link_action(false, TargetKind::Symlink), LinkAction::PreserveLink);
    assert_eq!(link_action(false, TargetKind::Directory { empty: true }), LinkAction::ReplaceEmptyDir);
    assert_eq!(link_action(false, TargetKind::Directory { empty: false }), LinkAction::MergeInto);
    assert_eq!(link_action(false, TargetKind::Other), LinkAction::PreservePath);
    assert_eq!(merge_action(".modelhub-model-id", None, false), MergeAction::Skip);
    assert_eq!(merge_action("snapshots", Some(true), true), MergeAction::Recurse);
    assert_eq!(merge_action("x", Some(false), false), MergeAction::Skip);
    assert_eq!(merge_action("dir", None, true), MergeAction::Symlink);
    assert_eq!(merge_action("file", None, false), MergeAction::Copy);
}

#[test]
fn clearing_decisions() {
    let root = p("/home/u/.cache/modelhub");
    let sources = vec![p("/elsewhere/models/a--b")];
    assert!(link_points_into(&p("/home/u/.cache/modelhub/models/a--b"), &root, &sources));
    assert!(link_points_into(&p("/elsewhere/models/a--b"), &root, &sources));
    assert!(!link_points_into(&p("/other/place"), &root, &sources));
    let cwd = p("/work");
    assert_eq!(absolute_root(&p("cache"), None, &cwd).render(), "/work/cache");
    assert_eq!(absolute_root(&p("/abs"), None, &cwd).render(), "/abs");
    assert_eq!(absolute_root(&p("x"), Some(&p("/real/x")), &cwd).render(), "/real/x");
    let home = p("/home/u");
    assert!(unsafe_clear_root(&p("/"), &cwd, Some(&home)));
    assert!(unsafe_clear_root(&p("/work"), &cwd, Some(&home)));
    assert!(unsafe_clear_root(&p("/home/u"), &cwd, Some(&home)));
    assert!(unsafe_clear_root(&p("/tmp"), &cwd, None));
    assert!(!unsafe_clear_root(&p("/home/u/.cache/modelhub"), &cwd, Some(&home)));
    assert!(blob_unreferenced(1));
    assert!(!blob_unreferenced(2));
}

#[test]
fn sorted_map_reads_back_writes() {
    let mut m: SortedMap<u32> = SortedMap::new();
    m.insert("b".to_string(), 2);
    m.insert("a".to_string(), 1);
    m.insert("b".to_string(), 3);
    assert_eq!(m.len(), 2);
    assert_eq!(m.key_at(0), "a");
    assert_eq!(m.get("b"), Some(&3));
    assert_eq!(m.get("c"), None);
    assert_eq!(m.find("a"), Ok(0));
    assert_eq!(m.find("ab"), Err(1));
}
