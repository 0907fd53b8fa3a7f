use modelhub::cli::{human_size, model_id_from_dir, parse_jobs};
use modelhub::command::{Cli, CliError, Command, Opt};
use modelhub::paths::CachePath;

#[test]
fn decodes_cache_directory_names() {
    assert_eq!(
        model_id_from_dir(&CachePath::parse("/cache/acme--demo--v2"), None, false).as_deref(),
        Some("acme/demo--v2")
    );
    assert_eq!(
        model_id_from_dir(&CachePath::parse("/cache/models--acme--demo"), None, true).as_deref(),
        Some("acme/demo")
    );
}

#[test]
fn formats_cache_sizes() {
    assert_eq!(human_size(999), "999 B");
    assert_eq!(human_size(1536), "1.5 KiB");
}

#[test]
fn clear_requires_a_model_or_all() {
    assert!(Cli::try_parse_from(&["modelhub", "clear"]).is_err());
    assert!(Cli::try_parse_from(&["modelhub", "clear", "acme/demo"]).is_ok());
    assert!(Cli::try_parse_from(&["modelhub", "clear", "--all"]).is_ok());
}

#[test]
fn download_jobs_must_be_positive() {
    assert!(Cli::try_parse_from(&["modelhub", "download", "acme/demo", "--jobs", "8"]).is_ok());
    assert!(Cli::try_parse_from(&["modelhub", "download", "acme/demo", "--jobs", "0"]).is_err());
}

#[test]
fn human_size_units_and_truncation() {
    assert_eq!(human_size(0), "0 B");
    assert_eq!(human_size(1023), "1023 B");
    assert_eq!(human_size(1024), "1.0 KiB");
    assert_eq!(human_size(1048575), "1023.9 KiB");
    assert_eq!(human_size(1048576), "1.0 MiB");
    assert_eq!(human_size(3 * 1073741824 + 536870912), "3.5 GiB");
    assert_eq!(human_size(1099511627776), "1.0 TiB");
    assert_eq!(human_size(u64::MAX), "16777215.9 TiB");
}

#[test]
fn parse_jobs_messages() {
    assert_eq!(parse_jobs("8"), Ok(8));
    assert_eq!(parse_jobs("0"), Err("jobs must be at least 1".to_string()));
    assert_eq!(parse_jobs("x"), Err("jobs must be a positive integer".to_string()));
    assert_eq!(parse_jobs(""), Err("jobs must be a positive integer".to_string()));
    assert_eq!(parse_jobs("-3"), Err("jobs must be a positive integer".to_string()));
    assert_eq!(parse_jobs("+3"), Ok(3));
    assert_eq!(
        parse_jobs("99999999999999999999999"),
        Err("jobs must be a positive integer".to_string())
    );
}

#[test]
fn download_defaults_and_options() {
    let cli = Cli::try_parse_from(&["modelhub", "download", "acme/demo"]).unwrap();
    match cli.command {
        Command::Download { model_id, revision, cache_dir, jobs, all_backends } => {
            assert_eq!(model_id, "acme/demo");
            assert_eq!(revision, None);
            assert_eq!(cache_dir, None);
            assert_eq!(jobs, 4);
            assert!(!all_backends);
        }
        other => panic!("unexpected {other:?}"),
    }
    let cli = Cli::try_parse_from(&[
        "modelhub",
        "download",
        "-r",
        "v1.0.0",
        "acme/demo",
        "--cache-dir=/data/cache",
        "-j3",
        "--all-backends",
    ])
    .unwrap();
    match cli.command {
        Command::Download { model_id, revision, cache_dir, jobs, all_backends } => {
            assert_eq!(model_id, "acme/demo");
            assert_eq!(revision.as_deref(), Some("v1.0.0"));
            assert_eq!(cache_dir.as_deref(), Some("/data/cache"));
            assert_eq!(jobs, 3);
            assert!(all_backends);
        }
        other => panic!("unexpected {other:?}"),
    }
}

#[test]
fn command_line_errors() {
    assert_eq!(Cli::try_parse_from(&["modelhub"]).unwrap_err(), CliError::MissingSubcommand);
    assert_eq!(
        Cli::try_parse_from(&["modelhub", "fetch"]).unwrap_err(),
        CliError::UnknownSubcommand("fetch".to_string())
    );
    assert_eq!(Cli::try_parse_from(&["modelhub", "--help"]).unwrap_err(), CliError::Help);
    assert_eq!(Cli::try_parse_from(&["modelhub", "-V"]).unwrap_err(), CliError::Version);
    assert_eq!(
        Cli::try_parse_from(&["modelhub", "clear", "acme/demo", "--all"]).unwrap_err(),
        CliError::Conflict
    );
    assert_eq!(
        Cli::try_parse_from(&["modelhub", "clear"]).unwrap_err(),
        CliError::MissingModelId
    );
    assert_eq!(
        Cli::try_parse_from(&["modelhub", "download", "acme/demo", "--jobs"]).unwrap_err(),
        CliError::MissingValue(Opt::Jobs)
    );
    assert_eq!(
        Cli::try_parse_from(&["modelhub", "download", "acme/demo", "--jobs", "0"]).unwrap_err(),
        CliError::InvalidJobs("jobs must be at least 1".to_string())
    );
    assert_eq!(
        Cli::try_parse_from(&["modelhub", "download", "a", "b"]).unwrap_err(),
        CliError::UnexpectedArgument("b".to_string())
    );
    assert_eq!(
        Cli::try_parse_from(&["modelhub", "list", "--all"]).unwrap_err(),
        CliError::UnknownArgument("--all".to_string())
    );
    assert_eq!(
        Cli::try_parse_from(&["modelhub", "clear", "--all=yes"]).unwrap_err(),
        CliError::UnexpectedValue(Opt::All)
    );
    assert_eq!(
        Cli::try_parse_from(&["modelhub", "list", "--cache-dir", "/a", "--cache-dir", "/b"])
            .unwrap_err(),
        CliError::Duplicate(Opt::CacheDir)
    );
    assert_eq!(
        Cli::try_parse_from(&["modelhub", "download"]).unwrap_err(),
        CliError::MissingModelId
    );
}

#[test]
fn list_and_clear_parse() {
    match Cli::try_parse_from(&["modelhub", "list"]).unwrap().command {
        Command::List { cache_dir } => assert_eq!(cache_dir, None),
        other => panic!("unexpected {other:?}"),
    }
    match Cli::try_parse_from(&["modelhub", "clear", "--all", "--cache-dir", "/c"]).unwrap().command {
        Command::Clear { model_id, all, cache_dir } => {
            assert_eq!(model_id, None);
            assert!(all);
            assert_eq!(cache_dir.as_deref(), Some("/c"));
        }
        other => panic!("unexpected {other:?}"),
    }
    match Cli::try_parse_from(&["modelhub", "clear", "--", "-odd-id"]).unwrap().command {
        Command::Clear { model_id, all, .. } => {
            assert_eq!(model_id.as_deref(), Some("-odd-id"));
            assert!(!all);
        }
        other => panic!("unexpected {other:?}"),
    }
}

#[test]
fn option_forms_follow_clap() {
    for form in [
        vec!["modelhub", "download", "acme/demo", "--jobs=2"],
        vec!["modelhub", "download", "acme/demo", "-j=2"],
        vec!["modelhub", "download", "acme/demo", "-j2"],
        vec!["modelhub", "download", "acme/demo", "-j", "2"],
        vec!["modelhub", "download", "-j", "2", "--", "acme/demo"],
    ] {
        match Cli::try_parse_from(&form).unwrap().command {
            Command::Download { model_id, jobs, .. } => {
                assert_eq!(model_id, "acme/demo");
                assert_eq!(jobs, 2);
            }
            other => panic!("unexpected {other:?}"),
        }
    }
    assert_eq!(
        Cli::try_parse_from(&["modelhub", "download", "acme/demo", "--revision", "--jobs", "2"]).unwrap_err(),
        CliError::MissingValue(Opt::Revision)
    );
    assert_eq!(Cli::try_parse_from(&["modelhub", "download", "-h"]).unwrap_err(), CliError::Help);
    assert_eq!(
        Cli::try_parse_from(&["modelhub", "list", "extra"]).unwrap_err(),
        CliError::UnexpectedArgument("extra".to_string())
    );
    assert_eq!(
        Cli::try_parse_from(&["modelhub", "download", "acme/demo", "-V"]).unwrap_err(),
        CliError::UnknownArgument("-V".to_string())
    );
}
