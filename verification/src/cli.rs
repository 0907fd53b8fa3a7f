//! The decisions of the `modelhub` command: its numbers and sizes, how cache
//! directories are named and grouped, and what listing, linking and clearing
//! do with what the filesystem reports.

use vstd::prelude::*;

use crate::paths::{
    file_name_model, join_model, parse_model, starts_with_model, CachePath,
};
use crate::sorted::{strictly_sorted, SortedMap};
use crate::text::{chars_of, decimal, push_char, replace_all, replace_str, str_eq, string_of, u64_to_decimal, occurs_at, matches_at};

verus! {

/// The marker file that names the model a cache directory holds.
pub const MODEL_ID_FILE: &'static str = ".modelhub-model-id";

// ---------------------------------------------------------------------------
// Numbers

/// The decimal value of a digit string.
pub open spec fn digits_value(s: Seq<char>) -> nat
    decreases s.len(),
{
    if s.len() == 0 {
        0
    } else {
        digits_value(s.drop_last()) * 10 + ((s.last() as int - 48) as nat)
    }
}

/// Every character is an ASCII digit.
pub open spec fn all_digits(s: Seq<char>) -> bool {
    forall|i: int| 0 <= i < s.len() ==> '0' <= #[trigger] s[i] <= '9'
}

/// What `str::parse::<usize>` accepts: an optional `+` and at least one
/// digit, of a value that fits in a `usize`.
pub open spec fn parse_usize_spec(s: Seq<char>) -> Option<nat> {
    let body = if s.len() > 0 && s[0] == '+' {
        s.drop_first()
    } else {
        s
    };
    if body.len() > 0 && all_digits(body) && digits_value(body) <= usize::MAX {
        Some(digits_value(body))
    } else {
        None
    }
}

proof fn lemma_digits_value_grows(s: Seq<char>, i: int)
    requires
        0 <= i <= s.len(),
        all_digits(s),
    ensures
        digits_value(s.take(i)) <= digits_value(s),
    decreases s.len() - i,
{
    if i < s.len() {
        lemma_digits_value_grows(s, i + 1);
        assert(s.take(i + 1).drop_last() =~= s.take(i));
        assert('0' <= s[i] <= '9');
    } else {
        assert(s.take(i) =~= s);
    }
}

/// Parses an unsigned decimal the way `str::parse::<usize>` does.
pub fn parse_usize(s: &str) -> (res: Option<usize>)
    ensures
        match res {
            Some(n) => parse_usize_spec(s@) == Some(n as nat),
            None => parse_usize_spec(s@) is None,
        },
{
    let cs = chars_of(s);
    let start: usize = if cs.len() > 0 && cs[0] == '+' {
        1
    } else {
        0
    };
    let ghost body = if s@.len() > 0 && s@[0] == '+' {
        s@.drop_first()
    } else {
        s@
    };
    assert(body =~= s@.skip(start as int));
    if start >= cs.len() {
        return None;
    }
    let mut value: usize = 0;
    let mut i: usize = start;
    while i < cs.len()
        invariant
            start <= i <= cs@.len(),
            cs@ == s@,
            body == s@.skip(start as int),
            body == (if s@.len() > 0 && s@[0] == '+' {
                s@.drop_first()
            } else {
                s@
            }),
            all_digits(body.take(i - start)),
            value as nat == digits_value(body.take(i - start)),
        decreases cs@.len() - i,
    {
        let c = cs[i];
        assert(body.take(i - start + 1).drop_last() =~= body.take(i - start));
        assert(body.take(i - start + 1).last() == c);
        if c < '0' || c > '9' {
            proof {
                assert(body[i - start] == c);
                assert(!('0' <= body[i - start] <= '9'));
                assert(!all_digits(body));
            }
            return None;
        }
        let d: usize = (c as u32 - 48) as usize;
        assert(d == c as int - 48);
        assert(digits_value(body.take(i - start + 1)) == value * 10 + d);
        let next = match value.checked_mul(10) {
            Some(v) => v.checked_add(d),
            None => None,
        };
        match next {
            Some(v) => {
                value = v;
            },
            None => {
                proof {
                    assert(value * 10 + d > usize::MAX);
                    assert(all_digits(body.take(i - start + 1))) by {
                        assert forall|k: int| 0 <= k < body.take(i - start + 1).len() implies '0' <= #[trigger] body.take(i - start + 1)[k] <= '9' by {
                            if k < i - start {
                                assert(body.take(i - start + 1)[k] == body.take(i - start)[k]);
                            }
                        }
                    }
                    if all_digits(body) {
                        lemma_digits_value_grows(body, i - start + 1);
                    }
                }
                return None;
            },
        }
        proof {
            assert forall|k: int| 0 <= k < body.take(i - start + 1).len() implies '0' <= #[trigger] body.take(i - start + 1)[k] <= '9' by {
                if k < i - start {
                    assert(body.take(i - start + 1)[k] == body.take(i - start)[k]);
                }
            }
        }
        i += 1;
    }
    assert(body.take(i - start) =~= body);
    Some(value)
}

/// What `parse_jobs` accepts: a positive integer.
pub open spec fn parse_jobs_spec(value: Seq<char>) -> Result<nat, Seq<char>> {
    match parse_usize_spec(value) {
        None => Err("jobs must be a positive integer"@),
        Some(n) => if n == 0 {
            Err("jobs must be at least 1"@)
        } else {
            Ok(n)
        },
    }
}

/// Parses the number of concurrent downloads: a positive integer.
pub fn parse_jobs(value: &str) -> (res: Result<usize, String>)
    ensures
        match res {
            Ok(n) => parse_jobs_spec(value@) == Ok::<nat, Seq<char>>(n as nat),
            Err(m) => parse_jobs_spec(value@) == Err::<nat, Seq<char>>(m@),
        },
{
    match parse_usize(value) {
        None => Err(String::from_str("jobs must be a positive integer")),
        Some(0) => Err(String::from_str("jobs must be at least 1")),
        Some(n) => Ok(n),
    }
}

/// The binary unit a size is shown in: the largest of KiB, MiB, GiB, TiB
/// that it reaches, else bytes.
pub open spec fn size_unit(size: nat) -> nat {
    if size >= 1099511627776 {
        4
    } else if size >= 1073741824 {
        3
    } else if size >= 1048576 {
        2
    } else if size >= 1024 {
        1
    } else {
        0
    }
}

/// The divisor of a unit.
pub open spec fn unit_divisor(unit: nat) -> nat {
    if unit == 4 {
        1099511627776
    } else if unit == 3 {
        1073741824
    } else if unit == 2 {
        1048576
    } else if unit == 1 {
        1024
    } else {
        1
    }
}

/// The name of a unit.
pub open spec fn unit_name(unit: nat) -> Seq<char> {
    if unit == 4 {
        "TiB"@
    } else if unit == 3 {
        "GiB"@
    } else if unit == 2 {
        "MiB"@
    } else if unit == 1 {
        "KiB"@
    } else {
        "B"@
    }
}

/// A size for people: whole bytes, or the unit value with one decimal
/// truncated (`1536` is `1.5 KiB`).
pub open spec fn human_size_spec(size: nat) -> Seq<char> {
    let unit = size_unit(size);
    let div = unit_divisor(unit);
    if unit == 0 {
        decimal(size) + " "@ + unit_name(unit)
    } else {
        decimal(size / div) + "."@ + decimal((size % div) * 10 / div) + " "@ + unit_name(unit)
    }
}

/// Formats a byte count.
pub fn human_size(size: u64) -> (res: String)
    ensures
        res@ == human_size_spec(size as nat),
{
    let (unit_divisor_value, name): (u64, &str) = if size >= 1099511627776 {
        (1099511627776, "TiB")
    } else if size >= 1073741824 {
        (1073741824, "GiB")
    } else if size >= 1048576 {
        (1048576, "MiB")
    } else if size >= 1024 {
        (1024, "KiB")
    } else {
        (1, "B")
    };
    if unit_divisor_value == 1 {
        let mut s = u64_to_decimal(size);
        s.append(" ");
        s.append(name);
        s
    } else {
        let whole = size / unit_divisor_value;
        assert((size % unit_divisor_value) * 10 < 10 * 1099511627776) by {
            assert(size % unit_divisor_value < unit_divisor_value);
        }
        let decimal_digit = (size % unit_divisor_value) * 10 / unit_divisor_value;
        let mut s = u64_to_decimal(whole);
        s.append(".");
        s.append(u64_to_decimal(decimal_digit).as_str());
        s.append(" ");
        s.append(name);
        s
    }
}

// ---------------------------------------------------------------------------
// Cache directory names

/// The Unicode white space that `str::trim` removes.
pub open spec fn is_white_space(c: char) -> bool {
    ('\u{9}' <= c <= '\u{d}') || c == ' ' || c == '\u{85}' || c == '\u{a0}' || c == '\u{1680}'
        || ('\u{2000}' <= c <= '\u{200a}') || c == '\u{2028}' || c == '\u{2029}' || c == '\u{202f}'
        || c == '\u{205f}' || c == '\u{3000}'
}

/// Where the text after the leading white space starts.
pub open spec fn trim_start_index(s: Seq<char>, i: int) -> int
    decreases s.len() - i,
{
    if 0 <= i < s.len() && is_white_space(s[i]) {
        trim_start_index(s, i + 1)
    } else {
        i
    }
}

/// Where the text before the trailing white space ends.
pub open spec fn trim_end_index(s: Seq<char>, j: int, lo: int) -> int
    decreases j - lo,
{
    if lo < j && is_white_space(s[j - 1]) {
        trim_end_index(s, j - 1, lo)
    } else {
        j
    }
}

/// `str::trim`: the text without leading and trailing white space.
pub open spec fn trim_spec(s: Seq<char>) -> Seq<char> {
    let a = trim_start_index(s, 0);
    s.subrange(a, trim_end_index(s, s.len() as int, a))
}

fn white_space(c: char) -> (res: bool)
    ensures
        res == is_white_space(c),
{
    ('\u{9}' <= c && c <= '\u{d}') || c == ' ' || c == '\u{85}' || c == '\u{a0}' || c == '\u{1680}'
        || ('\u{2000}' <= c && c <= '\u{200a}') || c == '\u{2028}' || c == '\u{2029}' || c == '\u{202f}'
        || c == '\u{205f}' || c == '\u{3000}'
}

/// Trims white space from both ends.
pub fn trim(s: &str) -> (res: String)
    ensures
        res@ == trim_spec(s@),
{
    let cs = chars_of(s);
    let mut a: usize = 0;
    while a < cs.len() && white_space(cs[a])
        invariant
            a <= cs@.len(),
            cs@ == s@,
            trim_start_index(s@, 0) == trim_start_index(s@, a as int),
        decreases cs@.len() - a,
    {
        a += 1;
    }
    let mut b: usize = cs.len();
    while b > a && white_space(cs[b - 1])
        invariant
            a <= b <= cs@.len(),
            cs@ == s@,
            trim_start_index(s@, 0) == a,
            trim_end_index(s@, s@.len() as int, a as int) == trim_end_index(s@, b as int, a as int),
        decreases b - a,
    {
        b -= 1;
    }
    let mut out: Vec<char> = Vec::new();
    let mut k: usize = a;
    while k < b
        invariant
            a <= k <= b <= cs@.len(),
            cs@ == s@,
            out@ == s@.subrange(a as int, k as int),
        decreases b - k,
    {
        out.push(cs[k]);
        assert(s@.subrange(a as int, k + 1) =~= s@.subrange(a as int, k as int).push(s@[k as int]));
        k += 1;
    }
    string_of(out.as_slice())
}

/// Where `pat` first occurs in `s` at or after `i`, or -1.
pub open spec fn find_from(s: Seq<char>, pat: Seq<char>, i: int) -> int
    decreases s.len() + 1 - i,
{
    if i < 0 || i + pat.len() > s.len() {
        -1
    } else if occurs_at(s, i, pat) {
        i
    } else {
        find_from(s, pat, i + 1)
    }
}

/// `str::split_once`: the text before and after the first occurrence.
pub open spec fn split_once_spec(s: Seq<char>, pat: Seq<char>) -> Option<(Seq<char>, Seq<char>)> {
    let k = find_from(s, pat, 0);
    if k >= 0 {
        Some((s.take(k), s.skip(k + pat.len())))
    } else {
        None
    }
}

pub proof fn lemma_find_from_range_pub(s: Seq<char>, pat: Seq<char>, i: int)
    requires
        i >= 0,
    ensures
        find_from(s, pat, i) == -1 || (i <= find_from(s, pat, i) && find_from(s, pat, i) + pat.len() <= s.len()),
    decreases s.len() + 1 - i,
{
    if i + pat.len() <= s.len() && !occurs_at(s, i, pat) {
        lemma_find_from_range_pub(s, pat, i + 1);
    }
}

/// Splits at the first occurrence of a non-empty pattern.
pub fn split_once(s: &str, pat: &str) -> (res: Option<(String, String)>)
    ensures
        match res {
            Some(p) => split_once_spec(s@, pat@) == Some((p.0@, p.1@)),
            None => split_once_spec(s@, pat@) is None,
        },
{
    let cs = chars_of(s);
    let ps = chars_of(pat);
    let mut i: usize = 0;
    while i < cs.len() && ps.len() <= cs.len() - i
        invariant
            i <= cs@.len(),
            cs@ == s@,
            ps@ == pat@,
            find_from(s@, pat@, 0) == find_from(s@, pat@, i as int),
        decreases cs@.len() - i,
    {
        if matches_at(&cs, i, &ps) {
            let before = string_of_range(&cs, 0, i);
            let after = string_of_range(&cs, i + ps.len(), cs.len());
            proof {
                assert(before@ =~= s@.take(i as int));
                assert(after@ =~= s@.skip(i + pat@.len()));
            }
            return Some((before, after));
        }
        i += 1;
    }
    proof {
        if i < cs.len() {
            assert(find_from(s@, pat@, i as int) == -1);
        } else if pat@.len() == 0 && i == cs.len() {
            assert(occurs_at(s@, i as int, pat@)) by {
                assert(s@.subrange(i as int, i as int) =~= pat@);
            }
        }
    }
    if ps.len() == 0 {
        let before = string_of_range(&cs, 0, cs.len());
        let after = String::new();
        proof {
            assert(before@ =~= s@.take(i as int));
            assert(after@ =~= s@.skip(i + pat@.len()));
        }
        return Some((before, after));
    }
    None
}

/// The characters of `cs` from `a` up to `b`.
pub fn string_of_range(cs: &Vec<char>, a: usize, b: usize) -> (res: String)
    requires
        a <= b <= cs@.len(),
    ensures
        res@ == cs@.subrange(a as int, b as int),
{
    let mut res = String::new();
    let mut k = a;
    while k < b
        invariant
            a <= k <= b <= cs@.len(),
            res@ == cs@.subrange(a as int, k as int),
        decreases b - k,
    {
        push_char(&mut res, cs[k]);
        assert(cs@.subrange(a as int, k + 1) =~= cs@.subrange(a as int, k as int).push(cs@[k as int]));
        k += 1;
    }
    res
}

/// The model id a cache directory holds: the trimmed content of its marker
/// file when that is not empty, else read from the directory name,
/// `<namespace>--<name>` (after a `models--` prefix in the Hugging Face
/// layout) standing for `<namespace>/<name>`.
pub open spec fn model_id_from_dir_spec(dir: (bool, Seq<Seq<char>>), marker: Option<Seq<char>>, huggingface_layout: bool) -> Option<Seq<char>> {
    if marker is Some && trim_spec(marker->0).len() > 0 {
        Some(trim_spec(marker->0))
    } else {
        match file_name_model(dir) {
            None => None,
            Some(name) => {
                let rest = if huggingface_layout {
                    if name.len() >= 8 && name.take(8) == "models--"@ {
                        Some(name.skip(8))
                    } else {
                        None
                    }
                } else {
                    Some(name)
                };
                match rest {
                    None => None,
                    Some(r) => match split_once_spec(r, "--"@) {
                        None => None,
                        Some((ns, model)) => Some(ns + "/"@ + model),
                    },
                }
            },
        }
    }
}

/// The model id of a cache directory, given the content of its marker file
/// where one could be read.
pub fn model_id_from_dir(dir: &CachePath, marker: Option<&str>, huggingface_layout: bool) -> (res: Option<String>)
    ensures
        match res {
            Some(id) => model_id_from_dir_spec(dir@, crate::huggingface::opt_str(marker), huggingface_layout) == Some(id@),
            None => model_id_from_dir_spec(dir@, crate::huggingface::opt_str(marker), huggingface_layout) is None,
        },
{
    if let Some(text) = marker {
        let t = trim(text);
        if !t.as_str().is_empty() {
            return Some(t);
        }
    }
    let name = match dir.file_name() {
        Some(n) => n,
        None => {
            return None;
        },
    };
    let rest: String = if huggingface_layout {
        let nc = chars_of(name.as_str());
        let prefix = chars_of("models--");
        proof {
            reveal_strlit("models--");
        }
        if nc.len() >= 8 && matches_at(&nc, 0, &prefix) {
            proof {
                assert(name@.subrange(0, 8) =~= name@.take(8));
            }
            let r = string_of_range(&nc, 8, nc.len());
            assert(r@ =~= name@.skip(8));
            r
        } else {
            proof {
                if name@.len() >= 8 && name@.take(8) == "models--"@ {
                    assert(name@.subrange(0, 8) =~= name@.take(8));
                }
            }
            return None;
        }
    } else {
        name
    };
    match split_once(rest.as_str(), "--") {
        None => None,
        Some((ns, model)) => {
            let mut id = ns;
            id.append("/");
            id.append(model.as_str());
            Some(id)
        },
    }
}

/// The directories of a cache that hold models, each with whether it uses
/// the Hugging Face layout: `models`, and the `modelscope/models` and
/// `huggingface/hub` layouts of earlier versions.
pub fn cache_parents(cache_root: &CachePath) -> (res: Vec<(CachePath, bool)>)
    ensures
        res@.len() == 3,
        res@[0].0@ == join_model(cache_root@, "models"@) && !res@[0].1,
        res@[1].0@ == join_model(join_model(cache_root@, "modelscope"@), "models"@) && !res@[1].1,
        res@[2].0@ == join_model(join_model(cache_root@, "huggingface"@), "hub"@) && res@[2].1,
{
    let mut res: Vec<(CachePath, bool)> = Vec::new();
    res.push((cache_root.join("models"), false));
    res.push((cache_root.join("modelscope").join("models"), false));
    res.push((cache_root.join("huggingface").join("hub"), true));
    res
}

/// A model in the cache and the directories that hold it.
#[derive(Debug)]
pub struct CachedModel {
    pub model_id: String,
    pub paths: Vec<CachePath>,
}

/// The models of path views.
pub open spec fn path_views(v: Seq<CachePath>) -> Seq<(bool, Seq<Seq<char>>)> {
    v.map_values(|p: CachePath| p@)
}

/// Directories grouped by model id, each group in the order found.
pub open spec fn grouped_spec(entries: Seq<(String, CachePath)>) -> Map<Seq<char>, Seq<(bool, Seq<Seq<char>>)>>
    decreases entries.len(),
{
    if entries.len() == 0 {
        Map::empty()
    } else {
        let m = grouped_spec(entries.drop_last());
        let k = entries.last().0@;
        let prev = if m.contains_key(k) {
            m[k]
        } else {
            seq![]
        };
        m.insert(k, prev.push(entries.last().1@))
    }
}

/// Groups found directories by model id, sorted by id (`cached_models`).
pub fn cached_models(entries: Vec<(String, CachePath)>) -> (res: Vec<CachedModel>)
    ensures
        strictly_sorted(res@.map_values(|m: CachedModel| m.model_id@)),
        forall|i: int| 0 <= i < res@.len() ==> grouped_spec(entries@).contains_key(#[trigger] res@[i].model_id@)
            && grouped_spec(entries@)[res@[i].model_id@] == path_views(res@[i].paths@),
        forall|k: Seq<char>| grouped_spec(entries@).contains_key(k) ==> exists|i: int| 0 <= i < res@.len() && #[trigger] res@[i].model_id@ == k,
{
    let mut groups: SortedMap<Vec<CachePath>> = SortedMap::new();
    let mut i: usize = 0;
    proof {
        assert(groups.as_map().map_values(|v: Vec<CachePath>| path_views(v@)) =~= Map::empty());
        assert(entries@.take(0) =~= Seq::<(String, CachePath)>::empty());
    }
    while i < entries.len()
        invariant
            i <= entries@.len(),
            groups.as_map().map_values(|v: Vec<CachePath>| path_views(v@)) == grouped_spec(entries@.take(i as int)),
        decreases entries@.len() - i,
    {
        let (id, path) = (&entries[i].0, &entries[i].1);
        let ghost before = groups.as_map();
        let mut list: Vec<CachePath> = match groups.get(id.as_str()) {
            Some(v) => clone_paths(v),
            None => Vec::new(),
        };
        list.push(path.clone());
        groups.insert(id.clone(), list);
        proof {
            assert(entries@.take(i + 1).drop_last() =~= entries@.take(i as int));
            assert(entries@.take(i + 1).last() == entries@[i as int]);
            let f = |v: Vec<CachePath>| path_views(v@);
            assert(groups.as_map().map_values(f) =~= grouped_spec(entries@.take(i + 1))) by {
                let prev = if before.contains_key(id@) {
                    path_views(before[id@]@)
                } else {
                    seq![]
                };
                assert(path_views(list@) =~= prev.push(path@));
            }
        }
        i += 1;
    }
    assert(entries@.take(i as int) =~= entries@);
    let n = groups.len();
    let mut res: Vec<CachedModel> = Vec::new();
    let mut k: usize = 0;
    while k < n
        invariant
            k <= n,
            n == groups.keys().len(),
            n == groups.vals().len(),
            strictly_sorted(groups.keys()),
            groups.as_map().map_values(|v: Vec<CachePath>| path_views(v@)) == grouped_spec(entries@),
            res@.len() == k,
            forall|j: int| 0 <= j < k ==> #[trigger] res@[j].model_id@ == groups.keys()[j] && path_views(res@[j].paths@) == path_views(groups.vals()[j]@),
        decreases n - k,
    {
        let id = groups.key_at(k).clone();
        let paths = clone_paths(groups.val_at(k));
        res.push(CachedModel { model_id: id, paths });
        k += 1;
    }
    proof {
        let ks = groups.keys();
        assert(res@.map_values(|m: CachedModel| m.model_id@) =~= ks);
        assert forall|i: int| 0 <= i < res@.len() implies grouped_spec(entries@).contains_key(#[trigger] res@[i].model_id@)
            && grouped_spec(entries@)[res@[i].model_id@] == path_views(res@[i].paths@) by {
            crate::sorted::lemma_key_index(ks, i);
            assert(ks.contains(ks[i]));
            assert(groups.as_map().contains_key(ks[i]));
        }
        assert forall|key: Seq<char>| grouped_spec(entries@).contains_key(key) implies exists|i: int| 0 <= i < res@.len() && #[trigger] res@[i].model_id@ == key by {
            assert(groups.as_map().contains_key(key));
            let i = choose|i: int| 0 <= i < ks.len() && ks[i] == key;
            assert(res@[i].model_id@ == key);
        }
    }
    res
}

/// A copy of a list of paths.
pub fn clone_paths(v: &Vec<CachePath>) -> (res: Vec<CachePath>)
    ensures
        path_views(res@) == path_views(v@),
{
    let mut res: Vec<CachePath> = Vec::new();
    let mut i: usize = 0;
    while i < v.len()
        invariant
            i <= v@.len(),
            path_views(res@) == path_views(v@.take(i as int)),
        decreases v@.len() - i,
    {
        res.push(v[i].clone());
        assert(path_views(v@.take(i + 1)) =~= path_views(v@.take(i as int)).push(v@[i as int]@));
        assert(path_views(res@) =~= path_views(v@.take(i as int)).push(v@[i as int]@));
        i += 1;
    }
    assert(v@.take(i as int) =~= v@);
    res
}


// ---------------------------------------------------------------------------
// Backend caches

/// `<modelscope cache>/models/<namespace--name>`.
pub open spec fn modelscope_cache_path_spec(modelscope_root: (bool, Seq<Seq<char>>), model_id: Seq<char>) -> (bool, Seq<Seq<char>>) {
    join_model(join_model(modelscope_root, "models"@), replace_all(model_id, "/"@, "--"@))
}

/// `<hub cache>/models--<namespace--name>`.
pub open spec fn huggingface_cache_path_spec(hub_root: (bool, Seq<Seq<char>>), model_id: Seq<char>) -> (bool, Seq<Seq<char>>) {
    join_model(hub_root, "models--"@ + replace_all(model_id, "/"@, "--"@))
}

/// Where the `ModelScope` cache keeps a model.
pub fn modelscope_cache_path(modelscope_root: &CachePath, model_id: &str) -> (res: CachePath)
    ensures
        res@ == modelscope_cache_path_spec(modelscope_root@, model_id@),
{
    proof {
        reveal_strlit("/");
    }
    modelscope_root.join("models").join(replace_str(model_id, "/", "--").as_str())
}

/// Where the Hugging Face Hub cache keeps a model.
pub fn huggingface_cache_path(hub_root: &CachePath, model_id: &str) -> (res: CachePath)
    ensures
        res@ == huggingface_cache_path_spec(hub_root@, model_id@),
{
    proof {
        reveal_strlit("/");
    }
    let mut name = String::from_str("models--");
    name.append(replace_str(model_id, "/", "--").as_str());
    hub_root.join(name.as_str())
}

/// The backend cache paths of a model: the `ModelScope` one, then the
/// Hugging Face one.
pub fn backend_cache_paths(modelscope_root: &CachePath, hub_root: &CachePath, model_id: &str) -> (res: Vec<CachePath>)
    ensures
        res@.len() == 2,
        res@[0]@ == modelscope_cache_path_spec(modelscope_root@, model_id@),
        res@[1]@ == huggingface_cache_path_spec(hub_root@, model_id@),
{
    let mut res: Vec<CachePath> = Vec::new();
    res.push(modelscope_cache_path(modelscope_root, model_id));
    res.push(huggingface_cache_path(hub_root, model_id));
    res
}

/// The revisions a download requests: the one given for both backends, else
/// `main` on Hugging Face and `master` on `ModelScope`.
pub fn requested_revisions(revision: Option<&str>) -> (res: (String, String))
    ensures
        res.0@ == match revision {
            Some(r) => r@,
            None => "main"@,
        },
        res.1@ == match revision {
            Some(r) => r@,
            None => "master"@,
        },
{
    match revision {
        Some(r) => (String::from_str(r), String::from_str(r)),
        None => (String::from_str("main"), String::from_str("master")),
    }
}

// ---------------------------------------------------------------------------
// Linking backend caches to snapshots

/// What is found at the path a backend cache link should take.
#[derive(Clone, Copy, Debug, PartialEq, Eq)]
pub enum TargetKind {
    /// Nothing is there.
    Missing,
    /// A symbolic link.
    Symlink,
    /// A directory, empty or not.
    Directory { empty: bool },
    /// Something else.
    Other,
}

/// What linking a backend cache does.
#[derive(Clone, Copy, Debug, PartialEq, Eq)]
pub enum LinkAction {
    /// The path already leads to the snapshot: warn and keep it.
    AlreadyLinked,
    /// Another link is there: warn and keep it.
    PreserveLink,
    /// An empty directory is there: remove it, then link.
    ReplaceEmptyDir,
    /// A backend cache with content is there: warn, keep it, and add what it lacks.
    MergeInto,
    /// Something else is there: warn and keep it.
    PreservePath,
    /// Nothing is there: create the parent and link.
    CreateLink,
}

/// The action for a target path, given whether it already resolves to the
/// snapshot and what is there.
pub open spec fn link_action_spec(resolves_to_source: bool, kind: TargetKind) -> LinkAction {
    if resolves_to_source {
        LinkAction::AlreadyLinked
    } else {
        match kind {
            TargetKind::Missing => LinkAction::CreateLink,
            TargetKind::Symlink => LinkAction::PreserveLink,
            TargetKind::Directory { empty } => if empty {
                LinkAction::ReplaceEmptyDir
            } else {
                LinkAction::MergeInto
            },
            TargetKind::Other => LinkAction::PreservePath,
        }
    }
}

/// Decides how to link a backend cache path to a snapshot.
pub fn link_action(resolves_to_source: bool, kind: TargetKind) -> (res: LinkAction)
    ensures
        res == link_action_spec(resolves_to_source, kind),
{
    if resolves_to_source {
        LinkAction::AlreadyLinked
    } else {
        match kind {
            TargetKind::Missing => LinkAction::CreateLink,
            TargetKind::Symlink => LinkAction::PreserveLink,
            TargetKind::Directory { empty } => if empty {
                LinkAction::ReplaceEmptyDir
            } else {
                LinkAction::MergeInto
            },
            TargetKind::Other => LinkAction::PreservePath,
        }
    }
}

/// What merging does with one entry of the snapshot.
#[derive(Clone, Copy, Debug, PartialEq, Eq)]
pub enum MergeAction {
    /// Leave it out.
    Skip,
    /// Both sides are directories: merge their entries.
    Recurse,
    /// Link the snapshot directory in.
    Symlink,
    /// Copy the snapshot file in.
    Copy,
}

/// The action for one snapshot entry: the model-id marker is left out; an
/// entry the backend cache already has is left alone unless both are
/// directories; a missing directory is linked and a missing file copied.
pub open spec fn merge_action_spec(name: Seq<char>, target_is_dir: Option<bool>, source_is_dir: bool) -> MergeAction {
    if name == MODEL_ID_FILE@ {
        MergeAction::Skip
    } else {
        match target_is_dir {
            Some(d) => if d && source_is_dir {
                MergeAction::Recurse
            } else {
                MergeAction::Skip
            },
            None => if source_is_dir {
                MergeAction::Symlink
            } else {
                MergeAction::Copy
            },
        }
    }
}

/// Decides what to do with one snapshot entry when merging into an
/// existing backend cache; `target_is_dir` is `None` where the cache lacks
/// the entry.
pub fn merge_action(name: &str, target_is_dir: Option<bool>, source_is_dir: bool) -> (res: MergeAction)
    ensures
        res == merge_action_spec(name@, target_is_dir, source_is_dir),
{
    if str_eq(name, MODEL_ID_FILE) {
        MergeAction::Skip
    } else {
        match target_is_dir {
            Some(d) => if d && source_is_dir {
                MergeAction::Recurse
            } else {
                MergeAction::Skip
            },
            None => if source_is_dir {
                MergeAction::Symlink
            } else {
                MergeAction::Copy
            },
        }
    }
}

// ---------------------------------------------------------------------------
// Clearing

/// Whether a backend cache link leads into the modelhub cache or to one of
/// the model's own directories, and so goes when the model is cleared.
pub open spec fn link_points_into_spec(target: (bool, Seq<Seq<char>>), cache_root: (bool, Seq<Seq<char>>), sources: Seq<(bool, Seq<Seq<char>>)>) -> bool {
    starts_with_model(target, cache_root) || sources.contains(target)
}

/// Decides whether a backend cache link is removed.
pub fn link_points_into(target: &CachePath, cache_root: &CachePath, sources: &Vec<CachePath>) -> (res: bool)
    ensures
        res == link_points_into_spec(target@, cache_root@, path_views(sources@)),
{
    if target.starts_with(cache_root) {
        return true;
    }
    let mut i: usize = 0;
    while i < sources.len()
        invariant
            i <= sources@.len(),
            forall|k: int| 0 <= k < i ==> sources@[k]@ != target@,
        decreases sources@.len() - i,
    {
        if sources[i].same_as(target) {
            proof {
                assert(path_views(sources@)[i as int] == target@);
            }
            return true;
        }
        i += 1;
    }
    proof {
        if path_views(sources@).contains(target@) {
            let k = choose|k: int| 0 <= k < sources@.len() && path_views(sources@)[k] == target@;
            assert(sources@[k]@ == target@);
        }
    }
    false
}

/// The absolute form of a cache root: where it resolves when it exists,
/// itself when absolute, else under the working directory.
pub open spec fn absolute_root_spec(cache_root: (bool, Seq<Seq<char>>), resolved: Option<(bool, Seq<Seq<char>>)>, cwd: (bool, Seq<Seq<char>>)) -> (bool, Seq<Seq<char>>) {
    match resolved {
        Some(r) => r,
        None => if cache_root.0 {
            cache_root
        } else {
            (cwd.0, cwd.1 + cache_root.1)
        },
    }
}

/// The absolute form of a cache root, given where it resolves when it exists.
pub fn absolute_root(cache_root: &CachePath, resolved: Option<&CachePath>, cwd: &CachePath) -> (res: CachePath)
    ensures
        res@ == absolute_root_spec(cache_root@, crate::cache::opt_path(resolved), cwd@),
{
    match resolved {
        Some(r) => r.clone(),
        None => if cache_root.is_absolute() {
            cache_root.clone()
        } else {
            let s = cache_root.render();
            let r = cwd.join(s.as_str());
            r
        },
    }
}

/// A cache root that must not be cleared whole: the filesystem root, the
/// working directory, the home directory, or anything with fewer than three
/// components.
pub open spec fn unsafe_clear_root_spec(absolute: (bool, Seq<Seq<char>>), cwd: (bool, Seq<Seq<char>>), home: Option<(bool, Seq<Seq<char>>)>) -> bool {
    ||| absolute.1.len() == 0
    ||| absolute == cwd
    ||| home == Some(absolute)
    ||| (if absolute.0 {
        1int
    } else {
        0int
    }) + absolute.1.len() < 3
}

/// Whether clearing a whole cache root is refused.
pub fn unsafe_clear_root(absolute: &CachePath, cwd: &CachePath, home: Option<&CachePath>) -> (res: bool)
    ensures
        res == unsafe_clear_root_spec(absolute@, cwd@, crate::cache::opt_path(home)),
{
    let no_parent = absolute.fewer_components_than(if absolute.is_absolute() { 2 } else { 1 });
    no_parent || absolute.same_as(cwd) || match home {
        Some(h) => h.same_as(absolute),
        None => false,
    } || absolute.fewer_components_than(3)
}

/// The index of the cached model with an id.
pub fn find_model(models: &Vec<CachedModel>, model_id: &str) -> (res: Option<usize>)
    ensures
        match res {
            Some(i) => i < models@.len() && models@[i as int].model_id@ == model_id@ && forall|k: int| 0 <= k < i ==> models@[k].model_id@ != model_id@,
            None => forall|k: int| 0 <= k < models@.len() ==> models@[k].model_id@ != model_id@,
        },
{
    let mut i: usize = 0;
    while i < models.len()
        invariant
            i <= models@.len(),
            forall|k: int| 0 <= k < i ==> models@[k].model_id@ != model_id@,
        decreases models@.len() - i,
    {
        if str_eq(models[i].model_id.as_str(), model_id) {
            return Some(i);
        }
        i += 1;
    }
    None
}

/// A blob that no snapshot links to any more: one link left, its own.
pub fn blob_unreferenced(link_count: u64) -> (res: bool)
    ensures
        res == (link_count <= 1),
{
    link_count <= 1
}

// ---------------------------------------------------------------------------
// Directory names read back

/// A namespace that its encoding can be told apart in: no `--` in it, and
/// no `-` at its end.
pub open spec fn namespace_separable(ns: Seq<char>) -> bool {
    &&& forall|k: int| 0 <= k < ns.len() - 1 ==> !(#[trigger] ns[k] == '-' && ns[k + 1] == '-')
    &&& (ns.len() == 0 || ns.last() != '-')
}

proof fn lemma_replace_slash(a: Seq<char>, b: Seq<char>)
    requires
        !a.contains('/'),
        !b.contains('/'),
    ensures
        replace_all(a + "/"@ + b, "/"@, "--"@) == a + "--"@ + b,
    decreases a.len() + b.len() + 1,
{
    reveal_strlit("/");
    reveal_strlit("--");
    let s = a + "/"@ + b;
    if a.len() == 0 {
        assert(s.take(1) =~= "/"@);
        assert(s.skip(1) =~= b);
        lemma_replace_none(b);
        assert(a + "--"@ + b =~= "--"@ + b);
    } else {
        assert(s[0] == a[0]);
        assert(s.take(1) != "/"@) by {
            if s.take(1) == "/"@ {
                assert(s.take(1)[0] == '/');
                assert(a.contains(a[0]));
            }
        }
        assert(!a.skip(1).contains('/')) by {
            if a.skip(1).contains('/') {
                let k = choose|k: int| 0 <= k < a.skip(1).len() && a.skip(1)[k] == '/';
                assert(a[k + 1] == '/');
            }
        }
        assert(s.skip(1) =~= a.skip(1) + "/"@ + b);
        lemma_replace_slash(a.skip(1), b);
        assert(a + "--"@ + b =~= seq![a[0]] + (a.skip(1) + "--"@ + b));
    }
}

proof fn lemma_replace_none(b: Seq<char>)
    requires
        !b.contains('/'),
    ensures
        replace_all(b, "/"@, "--"@) == b,
    decreases b.len(),
{
    reveal_strlit("/");
    if b.len() > 0 {
        assert(b.take(1) != "/"@) by {
            if b.take(1) == "/"@ {
                assert(b.take(1)[0] == '/');
                assert(b.contains(b[0]));
            }
        }
        assert(!b.skip(1).contains('/')) by {
            if b.skip(1).contains('/') {
                let k = choose|k: int| 0 <= k < b.skip(1).len() && b.skip(1)[k] == '/';
                assert(b[k + 1] == '/');
            }
        }
        lemma_replace_none(b.skip(1));
        assert(b =~= seq![b[0]] + b.skip(1));
    }
}

proof fn lemma_split_state_plain(s: Seq<char>)
    requires
        !s.contains('/'),
    ensures
        crate::paths::split_state(s, '/') == (Seq::<Seq<char>>::empty(), s),
    decreases s.len(),
{
    if s.len() > 0 {
        assert(!s.drop_last().contains('/')) by {
            if s.drop_last().contains('/') {
                let k = choose|k: int| 0 <= k < s.drop_last().len() && s.drop_last()[k] == '/';
                assert(s[k] == '/');
            }
        }
        lemma_split_state_plain(s.drop_last());
        assert(s.contains(s.last()));
        assert(s.drop_last().push(s.last()) =~= s);
    }
}

proof fn lemma_single_part(s: Seq<char>)
    requires
        crate::paths::is_part(s),
    ensures
        crate::paths::path_parts(s) == seq![s],
        !crate::paths::is_absolute(s),
{
    lemma_split_state_plain(s);
    assert(crate::paths::split_on(s, '/') =~= seq![s]);
    assert(seq![s].drop_last() =~= Seq::<Seq<char>>::empty());
    assert(crate::paths::only_parts(Seq::<Seq<char>>::empty()) =~= Seq::<Seq<char>>::empty());
    assert(Seq::<Seq<char>>::empty().push(s) =~= seq![s]);
    assert(s.contains(s[0]));
}

proof fn lemma_find_dashes(ns: Seq<char>, name: Seq<char>, i: int)
    requires
        namespace_separable(ns),
        0 <= i <= ns.len(),
    ensures
        find_from(ns + "--"@ + name, "--"@, i) == ns.len(),
    decreases ns.len() - i,
{
    reveal_strlit("--");
    let s = ns + "--"@ + name;
    if i < ns.len() {
        assert(!occurs_at(s, i, "--"@)) by {
            if occurs_at(s, i, "--"@) {
                assert(s.subrange(i, i + 2)[0] == s[i]);
                assert(s.subrange(i, i + 2)[1] == s[i + 1]);
                assert(s[i] == ns[i]);
                if i + 1 < ns.len() {
                    assert(s[i + 1] == ns[i + 1]);
                    assert(!(ns[i] == '-' && ns[i + 1] == '-'));
                } else {
                    assert(ns.last() == ns[i]);
                }
            }
        }
        lemma_find_dashes(ns, name, i + 1);
    } else {
        assert(s.subrange(i, i + 2) =~= "--"@);
    }
}

proof fn lemma_split_encoded(ns: Seq<char>, name: Seq<char>)
    requires
        namespace_separable(ns),
    ensures
        split_once_spec(ns + "--"@ + name, "--"@) == Some((ns, name)),
{
    reveal_strlit("--");
    lemma_find_dashes(ns, name, 0);
    assert((ns + "--"@ + name).take(ns.len() as int) =~= ns);
    assert((ns + "--"@ + name).skip(ns.len() as int + 2) =~= name);
}

proof fn lemma_encoded_part(ns: Seq<char>, name: Seq<char>, lead: Seq<char>)
    requires
        !ns.contains('/'),
        !name.contains('/'),
        !lead.contains('/'),
    ensures
        crate::paths::is_part(lead + ns + "--"@ + name),
        lead + ns + "--"@ + name != seq!['.', '.'],
{
    reveal_strlit("--");
    let e = lead + ns + "--"@ + name;
    assert(e[lead.len() as int + ns.len()] == '-');
    assert(!e.contains('/')) by {
        if e.contains('/') {
            let k = choose|k: int| 0 <= k < e.len() && e[k] == '/';
            if k < lead.len() {
                assert(lead[k] == '/');
            } else if k < lead.len() + ns.len() {
                assert(ns[k - lead.len()] == '/');
            } else if k >= lead.len() + ns.len() + 2 {
                assert(name[k - lead.len() - ns.len() - 2] == '/');
            }
        }
    }
    if e == seq!['.'] || e == seq!['.', '.'] {
        assert(e.len() <= 2);
        assert(e[lead.len() as int + ns.len()] == '.');
    }
}

/// A model `<namespace>/<name>` kept under `<cache>/models/<namespace--name>`,
/// the layout of the modelhub and `ModelScope` caches, is read back from the
/// directory name alone, when neither part holds a `/` and the namespace
/// holds no `--` and does not end in `-`.
pub proof fn law_model_dir_name_round_trip(cache_root: (bool, Seq<Seq<char>>), ns: Seq<char>, name: Seq<char>)
    requires
        !ns.contains('/'),
        !name.contains('/'),
        namespace_separable(ns),
    ensures
        model_id_from_dir_spec(modelscope_cache_path_spec(cache_root, ns + "/"@ + name), None, false)
            == Some(ns + "/"@ + name),
{
    reveal_strlit("models");
    let encoded = ns + "--"@ + name;
    lemma_replace_slash(ns, name);
    lemma_encoded_part(ns, name, Seq::<char>::empty());
    assert(Seq::<char>::empty() + ns + "--"@ + name =~= encoded);
    lemma_single_part(encoded);
    assert("models"@.len() > 0 && !"models"@.contains('/') && "models"@ != seq!['.']) by {
        assert("models"@ =~= seq!['m', 'o', 'd', 'e', 'l', 's']);
    }
    lemma_single_part("models"@);
    lemma_split_encoded(ns, name);
}

/// A model `<namespace>/<name>` kept under `<hub>/models--<namespace--name>`,
/// the layout of the Hugging Face Hub cache, is read back from the
/// directory name alone, on the same condition.
pub proof fn law_hub_dir_name_round_trip(hub_root: (bool, Seq<Seq<char>>), ns: Seq<char>, name: Seq<char>)
    requires
        !ns.contains('/'),
        !name.contains('/'),
        namespace_separable(ns),
    ensures
        model_id_from_dir_spec(huggingface_cache_path_spec(hub_root, ns + "/"@ + name), None, true)
            == Some(ns + "/"@ + name),
{
    reveal_strlit("models--");
    let encoded = ns + "--"@ + name;
    let dir_name = "models--"@ + encoded;
    lemma_replace_slash(ns, name);
    assert(!"models--"@.contains('/')) by {
        assert("models--"@ =~= seq!['m', 'o', 'd', 'e', 'l', 's', '-', '-']);
    }
    lemma_encoded_part(ns, name, "models--"@);
    assert("models--"@ + ns + "--"@ + name =~= dir_name);
    lemma_single_part(dir_name);
    assert(dir_name.take(8) =~= "models--"@);
    assert(dir_name.skip(8) =~= encoded);
    lemma_split_encoded(ns, name);
}

/// The model id written to a directory's marker file is read back as it
/// was, whatever the directory is named, when it is not empty and neither
/// starts nor ends with white space.
pub proof fn law_marker_round_trip(dir: (bool, Seq<Seq<char>>), id: Seq<char>, huggingface_layout: bool)
    requires
        id.len() > 0,
        !is_white_space(id[0]),
        !is_white_space(id.last()),
    ensures
        model_id_from_dir_spec(dir, Some(id), huggingface_layout) == Some(id),
{
    assert(trim_start_index(id, 0) == 0);
    assert(trim_end_index(id, id.len() as int, 0) == id.len());
    assert(id.subrange(0, id.len() as int) =~= id);
}

// ---------------------------------------------------------------------------
// Laws of the numbers and of clearing

proof fn lemma_decimal_digits(n: nat)
    ensures
        decimal(n).len() > 0,
        all_digits(decimal(n)),
        digits_value(decimal(n)) == n,
    decreases n,
{
    if n >= 10 {
        lemma_decimal_digits(n / 10);
        let d = decimal(n / 10);
        let s = decimal(n);
        assert(s == d.push(crate::text::digit_char(n % 10)));
        assert(s.drop_last() =~= d);
        assert forall|i: int| 0 <= i < s.len() implies '0' <= #[trigger] s[i] <= '9' by {
            if i < d.len() {
                assert(s[i] == d[i]);
            }
        }
        assert(n == (n / 10) * 10 + n % 10) by (nonlinear_arith);
        assert(s.last() == crate::text::digit_char(n % 10));
        assert((s.last() as int) == n % 10 + 48);
        assert(digits_value(s) == digits_value(d) * 10 + ((s.last() as int - 48) as nat));
        assert(digits_value(s) == (n / 10) * 10 + n % 10);
        assert(digits_value(s) == n);
    } else {
        let s = decimal(n);
        assert(s.drop_last() =~= Seq::<char>::empty());
        assert(digits_value(s.drop_last()) == 0);
        assert((s.last() as int) == n + 48);
        assert(digits_value(s) == n);
    }
}

/// The decimal form of a number that fits in a `usize` is read back as that
/// number.
pub proof fn law_usize_reads_decimal(n: nat)
    requires
        n <= usize::MAX,
    ensures
        parse_usize_spec(decimal(n)) == Some(n),
{
    lemma_decimal_digits(n);
    assert('0' <= decimal(n)[0] <= '9');
}

/// `--jobs` takes exactly the positive integers that fit in a `usize`, as
/// their value: the decimal form of any such number is that many jobs, a
/// value read as zero is refused, and whatever is accepted is positive and
/// is the number the text reads as.
pub proof fn law_jobs_value(v: Seq<char>, n: nat)
    ensures
        0 < n <= usize::MAX ==> parse_jobs_spec(decimal(n)) == Ok::<nat, Seq<char>>(n),
        parse_jobs_spec(decimal(0)) is Err,
        parse_usize_spec(v) == Some(n) && n > 0 ==> parse_jobs_spec(v) == Ok::<nat, Seq<char>>(n),
        parse_usize_spec(v) == Some(0nat) ==> parse_jobs_spec(v) is Err,
        parse_usize_spec(v) is None ==> parse_jobs_spec(v) is Err,
        parse_jobs_spec(v) matches Ok(k) ==> k > 0 && parse_usize_spec(v) == Some(k),
{
    if n <= usize::MAX {
        law_usize_reads_decimal(n);
    }
    law_usize_reads_decimal(0);
}

/// The number of components a path counts, its root among them.
pub open spec fn component_count(p: (bool, Seq<Seq<char>>)) -> int {
    (if p.0 {
        1int
    } else {
        0int
    }) + p.1.len()
}

/// Clearing a whole cache root is refused exactly for the working
/// directory, the home directory, and roots of fewer than three components
/// (which takes in the filesystem root); any other root may be cleared.
pub proof fn law_clear_root_safety(
    absolute: (bool, Seq<Seq<char>>),
    cwd: (bool, Seq<Seq<char>>),
    home: Option<(bool, Seq<Seq<char>>)>,
)
    ensures
        unsafe_clear_root_spec(absolute, cwd, home) <==> (absolute == cwd || home == Some(absolute)
            || component_count(absolute) < 3),
        absolute != cwd && home != Some(absolute) && component_count(absolute) >= 3 ==> !unsafe_clear_root_spec(
            absolute,
            cwd,
            home,
        ),
        absolute.1.len() == 0 ==> unsafe_clear_root_spec(absolute, cwd, home),
{
}

/// A backend cache link is removed when it leads anywhere under the cache
/// root or to one of the model's own directories, and kept when it leads
/// to a place of the other kind of root (absolute or relative) that is
/// none of those directories.
pub proof fn law_links_removed_into_cache(
    cache_root: (bool, Seq<Seq<char>>),
    below: Seq<Seq<char>>,
    target: (bool, Seq<Seq<char>>),
    sources: Seq<(bool, Seq<Seq<char>>)>,
    k: int,
)
    ensures
        link_points_into_spec((cache_root.0, cache_root.1 + below), cache_root, sources),
        0 <= k < sources.len() ==> link_points_into_spec(sources[k], cache_root, sources),
        target.0 != cache_root.0 && !sources.contains(target) ==> !link_points_into_spec(target, cache_root, sources),
{
    assert((cache_root.1 + below).take(cache_root.1.len() as int) =~= cache_root.1);
    if 0 <= k < sources.len() {
        assert(sources.contains(sources[k]));
    }
}

/// A cache root resolves to where the filesystem says it is, when it
/// exists; an absolute root stands for itself; a relative one sits under
/// the working directory, its components after the working directory's.
pub proof fn law_absolute_root(
    cache_root: (bool, Seq<Seq<char>>),
    resolved: Option<(bool, Seq<Seq<char>>)>,
    cwd: (bool, Seq<Seq<char>>),
)
    ensures
        resolved matches Some(r) ==> absolute_root_spec(cache_root, resolved, cwd) == r,
        resolved is None && cache_root.0 ==> absolute_root_spec(cache_root, resolved, cwd) == cache_root,
        resolved is None && !cache_root.0 ==> {
            let a = absolute_root_spec(cache_root, resolved, cwd);
            &&& a.0 == cwd.0
            &&& a.1.take(cwd.1.len() as int) == cwd.1
            &&& a.1.skip(cwd.1.len() as int) == cache_root.1
        },
{
    assert((cwd.1 + cache_root.1).take(cwd.1.len() as int) =~= cwd.1);
    assert((cwd.1 + cache_root.1).skip(cwd.1.len() as int) =~= cache_root.1);
}

} // verus!
