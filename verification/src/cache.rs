//! Where the caches live.

use vstd::prelude::*;

use crate::huggingface::opt_str;
use crate::paths::{join_model, parse_model, CachePath};

verus! {

/// A cache root: an override where one was set, else the directory an
/// environment variable names, else `<home>/.cache/<leaf>` with `/tmp`
/// standing in for an unset home.
pub open spec fn resolve_cache_dir_spec(
    override_dir: Option<(bool, Seq<Seq<char>>)>,
    env_dir: Option<Seq<char>>,
    home: Option<Seq<char>>,
    leaf: Seq<char>,
) -> (bool, Seq<Seq<char>>) {
    match override_dir {
        Some(d) => d,
        None => match env_dir {
            Some(d) => parse_model(d),
            None => join_model(
                join_model(
                    parse_model(
                        match home {
                            Some(h) => h,
                            None => "/tmp"@,
                        },
                    ),
                    ".cache"@,
                ),
                leaf,
            ),
        },
    }
}

/// The model of an optional path.
pub open spec fn opt_path(o: Option<&CachePath>) -> Option<(bool, Seq<Seq<char>>)> {
    match o {
        Some(p) => Some(p@),
        None => None,
    }
}

/// Resolves a cache root.
pub fn resolve_cache_dir(
    override_dir: Option<&CachePath>,
    env_dir: Option<&str>,
    home: Option<&str>,
    leaf: &str,
) -> (res: CachePath)
    ensures
        res@ == resolve_cache_dir_spec(opt_path(override_dir), opt_str(env_dir), opt_str(home), leaf@),
{
    match override_dir {
        Some(d) => d.clone(),
        None => match env_dir {
            Some(d) => CachePath::parse(d),
            None => {
                let base = match home {
                    Some(h) => CachePath::parse(h),
                    None => CachePath::parse("/tmp"),
                };
                base.join(".cache").join(leaf)
            },
        },
    }
}

/// Return the root directory owned by `modelhub` itself: `MODELHUB_CACHE`
/// when set, else `$HOME/.cache/modelhub` (or `/tmp/.cache/modelhub` when
/// `HOME` is unset). The arguments are the values of those variables.
pub fn cache_dir(modelhub_cache: Option<&str>, home: Option<&str>) -> (res: CachePath)
    ensures
        res@ == resolve_cache_dir_spec(None, opt_str(modelhub_cache), opt_str(home), "modelhub"@),
{
    resolve_cache_dir(None, modelhub_cache, home, "modelhub")
}

/// A cache directory set for the current process, which takes precedence
/// over the environment.
#[derive(Debug)]
pub struct CacheDirOverride {
    pub dir: Option<CachePath>,
}

impl CacheDirOverride {
    /// No override.
    pub fn new() -> (res: CacheDirOverride)
        ensures
            res.dir is None,
    {
        CacheDirOverride { dir: None }
    }
}

/// Override the cache directory for the current process.
pub fn set_cache_dir(over: &mut CacheDirOverride, dir: CachePath)
    ensures
        final(over).dir matches Some(d) && d@ == dir@,
{
    over.dir = Some(dir);
}

/// The override as an optional path.
pub fn override_path(o: &CacheDirOverride) -> (res: Option<&CachePath>)
    ensures
        opt_path(res) == match o.dir {
            Some(d) => Some(d@),
            None => None::<(bool, Seq<Seq<char>>)>,
        },
{
    match &o.dir {
        Some(d) => Some(d),
        None => None,
    }
}

/// A directory set with `set_cache_dir` is what the cache root resolves to,
/// whatever the environment says.
pub proof fn law_override_wins(dir: (bool, Seq<Seq<char>>), env_dir: Option<Seq<char>>, home: Option<Seq<char>>, leaf: Seq<char>)
    ensures
        resolve_cache_dir_spec(Some(dir), env_dir, home, leaf) == dir,
{
}

} // verus!
