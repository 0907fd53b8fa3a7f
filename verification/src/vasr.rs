//! The vASR model cache root.

use vstd::prelude::*;

pub use crate::cache::set_cache_dir;
use crate::cache::{override_path, resolve_cache_dir, resolve_cache_dir_spec, CacheDirOverride};
use crate::huggingface::opt_str;
use crate::paths::CachePath;

verus! {

/// Directory where vASR models are cached: the directory set with
/// `set_cache_dir`, else `VASR_MODEL_DIR` used directly, else
/// `$HOME/.cache/vasr` (or `/tmp/.cache/vasr` when `HOME` is unset). The
/// arguments are the process override and the values of those variables.
pub fn cache_dir(over: &CacheDirOverride, vasr_model_dir: Option<&str>, home: Option<&str>) -> (res: CachePath)
    ensures
        res@ == resolve_cache_dir_spec(
            match over.dir {
                Some(d) => Some(d@),
                None => None,
            },
            opt_str(vasr_model_dir),
            opt_str(home),
            "vasr"@,
        ),
{
    resolve_cache_dir(override_path(over), vasr_model_dir, home, "vasr")
}

/// Backward-compatible name for the model cache directory.
pub fn modelscope_cache_dir(over: &CacheDirOverride, vasr_model_dir: Option<&str>, home: Option<&str>) -> (res: CachePath)
    ensures
        res@ == resolve_cache_dir_spec(
            match over.dir {
                Some(d) => Some(d@),
                None => None,
            },
            opt_str(vasr_model_dir),
            opt_str(home),
            "vasr"@,
        ),
{
    cache_dir(over, vasr_model_dir, home)
}

} // verus!
