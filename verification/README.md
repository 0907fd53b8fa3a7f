# modelhub

Downloads model repositories from ModelScope and Hugging Face into one
content-addressed cache, and links each backend's native cache to the
snapshots built from it.

The crate is written in Verus. `src/` is the verified library: the downloader's
decisions (layouts, URLs, the download plan, the checks on fetched files, the
command line, what listing, linking and clearing do) are stated in
`requires`/`ensures` contracts and proved.

- `paths` — cache paths as a root flag and a list of components, with the
  joining, splitting and `..`-refusing rules of Unix paths.
- `sorted` — a map kept sorted by string keys.
- `urlenc`, `digest` — URL encoding (`urlencoding`) and the SHA-256 / Git blob
  hashes of a download (`sha2`, `sha1`), behind trusted wrappers.
- `unified` — both backends' listings turned into manifests, the download plan
  that decides which files are stored once and which twice, and the checks on
  fetched files; `plan_laws` proves what every plan keeps.
- `huggingface`, `modelscope` — URLs, cache layouts and download jobs of each
  backend's own downloader.
- `cache`, `vasr` — where the cache roots are.
- `cli`, `command` — the decisions of the `modelhub` command and its command
  line.

`app/` is the unverified code around the library, a library (`lib.rs`, the
async download API) and the `modelhub` program (`main.rs`): environment,
filesystem, HTTP transfers and the loops that run them, progress bars and
printing. `tests/` exercises the library.
