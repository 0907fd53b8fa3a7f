//! Model cache and download helpers.

pub mod cache;
pub mod cli;
pub mod command;
pub mod digest;
pub mod huggingface;
pub mod modelscope;
pub mod paths;
pub mod plan_laws;
pub mod sorted;
pub mod text;
pub mod unified;
pub mod urlenc;
pub mod vasr;

use vstd::prelude::*;

use crate::cache::{resolve_cache_dir_spec, CacheDirOverride};
use crate::huggingface::opt_str;
use crate::paths::CachePath;

verus! {

/// Backward-compatible name for the `ModelScope` cache directory.
pub fn modelscope_cache_dir(over: &CacheDirOverride, modelscope_cache: Option<&str>, home: Option<&str>) -> (res: CachePath)
    ensures
        res@ == resolve_cache_dir_spec(
            match over.dir {
                Some(d) => Some(d@),
                None => None,
            },
            opt_str(modelscope_cache),
            opt_str(home),
            "modelscope"@,
        ),
{
    modelscope::cache::cache_dir(over, modelscope_cache, home)
}

} // verus!
