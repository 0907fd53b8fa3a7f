//! The `ModelScope` cache root.

use vstd::prelude::*;

pub use crate::cache::set_cache_dir;
use crate::cache::{override_path, resolve_cache_dir, resolve_cache_dir_spec, CacheDirOverride};
use crate::huggingface::opt_str;
use crate::paths::CachePath;

verus! {

/// The `ModelScope` cache root: the directory set with `set_cache_dir`,
/// else `MODELSCOPE_CACHE`, else `$HOME/.cache/modelscope` (or
/// `/tmp/.cache/modelscope` when `HOME` is unset). The arguments are the
/// process override and the values of those variables.
pub fn cache_dir(over: &CacheDirOverride, modelscope_cache: Option<&str>, home: Option<&str>) -> (res: CachePath)
    ensures
        res@ == resolve_cache_dir_spec(
            match over.dir {
                Some(d) => Some(d@),
                None => None,
            },
            opt_str(modelscope_cache),
            opt_str(home),
            "modelscope"@,
        ),
{
    resolve_cache_dir(override_path(over), modelscope_cache, home, "modelscope")
}

} // verus!
