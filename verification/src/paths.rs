//! Cache paths as the library sees them: an optional root and a list of
//! normal components, with the splitting, joining and checking rules of
//! Unix paths.

use vstd::prelude::*;

use crate::text::{chars_of, push_char, string_of};

verus! {

/// A component that a path keeps: non-empty, without a separator, and not `.`.
pub open spec fn is_part(p: Seq<char>) -> bool {
    p.len() > 0 && !p.contains('/') && p != seq!['.']
}

/// Every element is a component that a path keeps.
pub open spec fn valid_parts(ps: Seq<Seq<char>>) -> bool {
    forall|i: int| 0 <= i < ps.len() ==> is_part(#[trigger] ps[i])
}

/// The segments finished so far and the segment being read, after
/// splitting `s` at every `sep`.
pub open spec fn split_state(s: Seq<char>, sep: char) -> (Seq<Seq<char>>, Seq<char>)
    decreases s.len(),
{
    if s.len() == 0 {
        (seq![], seq![])
    } else {
        let st = split_state(s.drop_last(), sep);
        if s.last() == sep {
            (st.0.push(st.1), seq![])
        } else {
            (st.0, st.1.push(s.last()))
        }
    }
}

/// All the segments of `s` between occurrences of `sep` (the meaning of
/// `str::split(sep)`), empty ones included.
pub open spec fn split_on(s: Seq<char>, sep: char) -> Seq<Seq<char>> {
    split_state(s, sep).0.push(split_state(s, sep).1)
}

/// The segments that are components a path keeps, in order.
pub open spec fn only_parts(segs: Seq<Seq<char>>) -> Seq<Seq<char>>
    decreases segs.len(),
{
    if segs.len() == 0 {
        seq![]
    } else if is_part(segs.last()) {
        only_parts(segs.drop_last()).push(segs.last())
    } else {
        only_parts(segs.drop_last())
    }
}

/// The normal and parent components of a path string, as `Path::components`
/// yields them on Unix once the root and `.` components are set aside.
pub open spec fn path_parts(s: Seq<char>) -> Seq<Seq<char>> {
    only_parts(split_on(s, '/'))
}

/// Whether a path string starts at the root.
pub open spec fn is_absolute(s: Seq<char>) -> bool {
    s.len() > 0 && s[0] == '/'
}

/// The model of a parsed path string.
pub open spec fn parse_model(s: Seq<char>) -> (bool, Seq<Seq<char>>) {
    (is_absolute(s), path_parts(s))
}

/// `parts` joined with `sep` between neighbours.
pub open spec fn join_with(parts: Seq<Seq<char>>, sep: Seq<char>) -> Seq<char>
    decreases parts.len(),
{
    if parts.len() == 0 {
        seq![]
    } else if parts.len() == 1 {
        parts[0]
    } else {
        join_with(parts.drop_last(), sep) + sep + parts.last()
    }
}

/// The string form of a path model.
pub open spec fn render_model(m: (bool, Seq<Seq<char>>)) -> Seq<char> {
    if m.0 {
        seq!['/'] + join_with(m.1, seq!['/'])
    } else {
        join_with(m.1, seq!['/'])
    }
}

/// `Path::join`: an absolute argument replaces the path, a relative one
/// adds its components.
pub open spec fn join_model(m: (bool, Seq<Seq<char>>), s: Seq<char>) -> (bool, Seq<Seq<char>>) {
    if is_absolute(s) {
        parse_model(s)
    } else {
        (m.0, m.1 + path_parts(s))
    }
}

/// A model with one more component.
pub open spec fn child_model(m: (bool, Seq<Seq<char>>), name: Seq<char>) -> (bool, Seq<Seq<char>>) {
    (m.0, m.1.push(name))
}

/// The last component, when it is a file name (`Path::file_name`).
pub open spec fn file_name_model(m: (bool, Seq<Seq<char>>)) -> Option<Seq<char>> {
    if m.1.len() > 0 && m.1.last() != seq!['.', '.'] {
        Some(m.1.last())
    } else {
        None
    }
}

/// `Path::with_file_name`: the file name replaced, or added where there is none.
pub open spec fn with_file_name_model(m: (bool, Seq<Seq<char>>), name: Seq<char>) -> (bool, Seq<Seq<char>>) {
    if file_name_model(m) is Some {
        (m.0, m.1.drop_last().push(name))
    } else {
        (m.0, m.1.push(name))
    }
}

/// The `.part` staging path that sits beside a download target.
pub open spec fn partial_model(m: (bool, Seq<Seq<char>>)) -> (bool, Seq<Seq<char>>) {
    let name = match file_name_model(m) {
        Some(n) => n,
        None => seq!['d', 'o', 'w', 'n', 'l', 'o', 'a', 'd'],
    };
    with_file_name_model(m, name + seq!['.', 'p', 'a', 'r', 't'])
}

/// Component-wise prefix (`Path::starts_with`).
pub open spec fn starts_with_model(m: (bool, Seq<Seq<char>>), base: (bool, Seq<Seq<char>>)) -> bool {
    m.0 == base.0 && base.1.len() <= m.1.len() && m.1.take(base.1.len() as int) == base.1
}

/// Why a repository path was refused.
#[derive(Clone, Copy, Debug, PartialEq, Eq)]
pub enum PathError {
    /// The path starts at the root.
    MustBeRelative,
    /// The path climbs out of its root through `..`.
    EscapesRoot,
}

/// What `safe_path` gives for a root model and a repository path.
pub open spec fn safe_path_model(root: (bool, Seq<Seq<char>>), path: Seq<char>) -> Result<
    (bool, Seq<Seq<char>>),
    PathError,
> {
    if is_absolute(path) {
        Err(PathError::MustBeRelative)
    } else if path_parts(path).contains(seq!['.', '.']) {
        Err(PathError::EscapesRoot)
    } else {
        Ok((root.0, root.1 + path_parts(path)))
    }
}

/// A filesystem path: whether it starts at the root, and its components.
#[derive(Debug)]
pub struct CachePath {
    absolute: bool,
    parts: Vec<String>,
}

/// The models of a list of strings.
pub open spec fn string_views(v: Seq<String>) -> Seq<Seq<char>> {
    v.map_values(|p: String| p@)
}

impl View for CachePath {
    type V = (bool, Seq<Seq<char>>);

    closed spec fn view(&self) -> (bool, Seq<Seq<char>>) {
        (self.absolute, string_views(self.parts@))
    }
}

proof fn lemma_split_state_cur(s: Seq<char>, sep: char)
    ensures
        !split_state(s, sep).1.contains(sep),
    decreases s.len(),
{
    if s.len() > 0 {
        lemma_split_state_cur(s.drop_last(), sep);
        let st = split_state(s.drop_last(), sep);
        if s.last() != sep {
            assert forall|i: int| 0 <= i < st.1.push(s.last()).len() implies st.1.push(
                s.last(),
            )[i] != sep by {
                if i < st.1.len() {
                    assert(st.1[i] != sep) by {
                        if st.1[i] == sep {
                            assert(st.1.contains(sep));
                        }
                    }
                }
            }
        }
    }
}

proof fn lemma_only_parts_add(a: Seq<Seq<char>>, b: Seq<Seq<char>>)
    ensures
        only_parts(a + b) == only_parts(a) + only_parts(b),
    decreases b.len(),
{
    if b.len() == 0 {
        assert(a + b =~= a);
        assert(only_parts(a) + only_parts(b) =~= only_parts(a));
    } else {
        assert((a + b).drop_last() =~= a + b.drop_last());
        lemma_only_parts_add(a, b.drop_last());
        if is_part(b.last()) {
            assert(only_parts(a) + only_parts(b.drop_last()).push(b.last()) =~= (only_parts(a)
                + only_parts(b.drop_last())).push(b.last()));
        }
    }
}

proof fn lemma_only_parts_valid(segs: Seq<Seq<char>>)
    ensures
        valid_parts(only_parts(segs)),
    decreases segs.len(),
{
    if segs.len() > 0 {
        lemma_only_parts_valid(segs.drop_last());
    }
}

proof fn lemma_only_parts_of_valid(ps: Seq<Seq<char>>)
    requires
        valid_parts(ps),
    ensures
        only_parts(ps) == ps,
    decreases ps.len(),
{
    if ps.len() > 0 {
        assert(valid_parts(ps.drop_last())) by {
            assert forall|i: int| 0 <= i < ps.drop_last().len() implies is_part(
                #[trigger] ps.drop_last()[i],
            ) by {
                assert(ps.drop_last()[i] == ps[i]);
            }
        }
        lemma_only_parts_of_valid(ps.drop_last());
        assert(is_part(ps[ps.len() - 1]));
        assert(ps.drop_last().push(ps.last()) =~= ps);
    }
}

/// Every component of a parsed path string is kept.
pub proof fn lemma_path_parts_valid(s: Seq<char>)
    ensures
        valid_parts(path_parts(s)),
{
    lemma_only_parts_valid(split_on(s, '/'));
}

impl Clone for CachePath {
    fn clone(&self) -> (res: Self)
        ensures
            res@ == self@,
    {
        proof {
            use_type_invariant(self);
        }
        let parts = self.parts.clone();
        proof {
            assert(string_views(parts@) =~= string_views(self.parts@)) by {
                assert forall|k: int| 0 <= k < parts@.len() implies parts@[k]@ == self.parts@[
                    k
                ]@ by {
                    assert(cloned::<String>(self.parts@[k], parts@[k]));
                }
            }
        }
        CachePath { absolute: self.absolute, parts }
    }
}

impl CachePath {
    #[verifier::type_invariant]
    spec fn well_formed(self) -> bool {
        valid_parts(string_views(self.parts@))
    }

    /// Parses a path string the way `Path::new(s).components()` reads it on Unix.
    pub fn parse(s: &str) -> (res: CachePath)
        ensures
            res@ == parse_model(s@),
    {
        let cs = chars_of(s);
        let mut parts: Vec<String> = Vec::new();
        let mut cur: Vec<char> = Vec::new();
        let mut i: usize = 0;
        while i < cs.len()
            invariant
                i <= cs@.len(),
                cs@ == s@,
                string_views(parts@) == only_parts(split_state(s@.take(i as int), '/').0),
                cur@ == split_state(s@.take(i as int), '/').1,
            decreases cs@.len() - i,
        {
            let c = cs[i];
            let ghost pre = s@.take(i as int);
            assert(s@.take(i + 1).drop_last() =~= pre);
            assert(s@.take(i + 1).last() == c);
            if c == '/' {
                proof {
                    lemma_split_state_cur(pre, '/');
                }
                let keep = cur.len() > 0 && !(cur.len() == 1 && cur[0] == '.');
                proof {
                    let st = split_state(pre, '/');
                    assert(st.0.push(st.1).drop_last() =~= st.0);
                    if keep {
                        assert(cur@ != seq!['.']) by {
                            if cur@ == seq!['.'] {
                                assert(cur@[0] == '.');
                            }
                        }
                    } else {
                        assert(!is_part(cur@)) by {
                            if cur@.len() == 1 {
                                assert(cur@ =~= seq!['.']);
                            }
                        }
                    }
                }
                if keep {
                    let part = string_of(cur.as_slice());
                    let ghost before = parts@;
                    parts.push(part);
                    assert(string_views(parts@) =~= string_views(before).push(part@));
                }
                cur = Vec::new();
            } else {
                cur.push(c);
            }
            i += 1;
        }
        assert(s@.take(i as int) =~= s@);
        proof {
            lemma_split_state_cur(s@, '/');
        }
        let keep = cur.len() > 0 && !(cur.len() == 1 && cur[0] == '.');
        proof {
            let st = split_state(s@, '/');
            assert(st.0.push(st.1).drop_last() =~= st.0);
            if !keep {
                assert(!is_part(cur@)) by {
                    if cur@.len() == 1 {
                        assert(cur@ =~= seq!['.']);
                    }
                }
            } else {
                assert(cur@ != seq!['.']) by {
                    if cur@ == seq!['.'] {
                        assert(cur@[0] == '.');
                    }
                }
            }
        }
        if keep {
            let part = string_of(cur.as_slice());
            let ghost before = parts@;
            parts.push(part);
            assert(string_views(parts@) =~= string_views(before).push(part@));
        }
        let absolute = cs.len() > 0 && cs[0] == '/';
        proof {
            lemma_path_parts_valid(s@);
        }
        CachePath { absolute, parts }
    }

    /// The path as a string: `/` before the components of an absolute path,
    /// `/` between components.
    pub fn render(&self) -> (res: String)
        ensures
            res@ == render_model(self@),
            parse_model(res@) == self@,
    {
        proof {
            use_type_invariant(self);
            law_render_then_parse(self@);
        }
        let mut res = String::new();
        if self.absolute {
            push_char(&mut res, '/');
        }
        let ghost lead = res@;
        let mut i: usize = 0;
        while i < self.parts.len()
            invariant
                i <= self.parts@.len(),
                lead == (if self.absolute {
                    seq!['/']
                } else {
                    seq![]
                }),
                res@ == lead + join_with(string_views(self.parts@).take(i as int), seq!['/']),
            decreases self.parts@.len() - i,
        {
            let ghost ps = string_views(self.parts@);
            if i > 0 {
                push_char(&mut res, '/');
            }
            res.append(self.parts[i].as_str());
            proof {
                assert(ps.take(i + 1).drop_last() =~= ps.take(i as int));
                assert(ps.take(i + 1).last() == self.parts@[i as int]@);
                if i == 0 {
                    assert(join_with(ps.take(1), seq!['/']) == ps.take(1)[0]);
                    assert(join_with(ps.take(0), seq!['/']) =~= seq![]);
                }
                assert(res@ =~= lead + join_with(ps.take(i + 1), seq!['/']));
            }
            i += 1;
        }
        assert(string_views(self.parts@).take(i as int) =~= string_views(self.parts@));
        res
    }

    /// Whether the path starts at the root.
    pub fn is_absolute(&self) -> (res: bool)
        ensures
            res == self@.0,
    {
        self.absolute
    }

    /// Whether the path has fewer than `n` components, the root counted as
    /// one (`components().count() < n`).
    pub fn fewer_components_than(&self, n: usize) -> (res: bool)
        ensures
            res == ((if self@.0 {
                1int
            } else {
                0int
            }) + self@.1.len() < n),
    {
        if self.absolute {
            n > 0 && self.parts.len() < n - 1
        } else {
            self.parts.len() < n
        }
    }

    /// `Path::join`.
    pub fn join(&self, s: &str) -> (res: CachePath)
        ensures
            res@ == join_model(self@, s@),
    {
        proof {
            use_type_invariant(self);
        }
        let other = CachePath::parse(s);
        proof {
            use_type_invariant(&other);
        }
        if other.absolute {
            other
        } else {
            let mut parts = self.parts.clone();
            let mut i: usize = 0;
            let ghost base = self.parts@;
            assert(parts@ =~= base);
            while i < other.parts.len()
                invariant
                    i <= other.parts@.len(),
                    parts@ == base + other.parts@.take(i as int),
                    valid_parts(string_views(parts@)),
                    valid_parts(string_views(other.parts@)),
                decreases other.parts@.len() - i,
            {
                let p = other.parts[i].clone();
                let ghost before = parts@;
                parts.push(p);
                proof {
                    assert(other.parts@.take(i + 1) =~= other.parts@.take(i as int).push(
                        other.parts@[i as int],
                    ));
                    assert(string_views(parts@)[parts@.len() - 1] == string_views(
                        other.parts@,
                    )[i as int]);
                    assert forall|k: int| 0 <= k < string_views(parts@).len() implies is_part(
                        #[trigger] string_views(parts@)[k],
                    ) by {
                        if k < parts@.len() - 1 {
                            assert(string_views(parts@)[k] == string_views(before)[k]);
                        }
                    }
                }
                i += 1;
            }
            proof {
                assert(other.parts@.take(i as int) =~= other.parts@);
                assert(string_views(base + other.parts@) =~= string_views(base) + string_views(
                    other.parts@,
                ));
            }
            CachePath { absolute: self.absolute, parts }
        }
    }

    /// The last component when it is a file name.
    pub fn file_name(&self) -> (res: Option<String>)
        ensures
            match res {
                Some(n) => file_name_model(self@) == Some(n@),
                None => file_name_model(self@) is None,
            },
    {
        let n = self.parts.len();
        if n == 0 {
            return None;
        }
        let last = self.parts[n - 1].clone();
        let is_parent = crate::text::str_eq(last.as_str(), "..");
        proof {
            reveal_strlit("..");
            assert(".."@ =~= seq!['.', '.']);
            assert(string_views(self.parts@).last() == last@);
        }
        if is_parent {
            None
        } else {
            Some(last)
        }
    }

    /// `Path::with_file_name` for a name that is a single component.
    pub fn with_file_name(&self, name: String) -> (res: CachePath)
        requires
            is_part(name@),
        ensures
            res@ == with_file_name_model(self@, name@),
    {
        proof {
            use_type_invariant(self);
        }
        let has_name = self.file_name().is_some();
        let mut parts = self.parts.clone();
        let ghost base = self.parts@;
        if has_name {
            parts.pop();
        }
        parts.push(name);
        proof {
            if has_name {
                assert(string_views(parts@) =~= string_views(base).drop_last().push(name@));
            } else {
                assert(string_views(parts@) =~= string_views(base).push(name@));
            }
            assert forall|k: int| 0 <= k < string_views(parts@).len() implies is_part(
                #[trigger] string_views(parts@)[k],
            ) by {
                if k < parts@.len() - 1 {
                    assert(string_views(parts@)[k] == string_views(base)[k]);
                }
            }
        }
        CachePath { absolute: self.absolute, parts }
    }

    /// The staging path beside a download target: the file name with
    /// `.part` appended, or `download.part` where there is no file name.
    pub fn partial_path(&self) -> (res: CachePath)
        ensures
            res@ == partial_model(self@),
    {
        proof {
            use_type_invariant(self);
        }
        let mut name = match self.file_name() {
            Some(n) => n,
            None => String::from_str("download"),
        };
        name.append(".part");
        proof {
            reveal_strlit("download");
            reveal_strlit(".part");
            let n = name@;
            assert(!n.contains('/')) by {
                if n.contains('/') {
                    let k = choose|k: int| 0 <= k < n.len() && n[k] == '/';
                    if let Some(f) = file_name_model(self@) {
                        assert(is_part(string_views(self.parts@).last()));
                        assert(f[k] == '/');
                        assert(f.contains('/'));
                    }
                }
            }
            assert(n != seq!['.']) by {
                assert(n.len() >= 5);
            }
            assert(n =~= match file_name_model(self@) {
                Some(f) => f,
                None => seq!['d', 'o', 'w', 'n', 'l', 'o', 'a', 'd'],
            } + seq!['.', 'p', 'a', 'r', 't']);
        }
        self.with_file_name(name)
    }

    /// Component-wise prefix test.
    pub fn starts_with(&self, base: &CachePath) -> (res: bool)
        ensures
            res == starts_with_model(self@, base@),
    {
        if self.absolute != base.absolute || base.parts.len() > self.parts.len() {
            proof {
                if base.parts.len() > self.parts.len() {
                    assert(string_views(base.parts@).len() > string_views(self.parts@).len());
                }
            }
            return false;
        }
        let mut i: usize = 0;
        while i < base.parts.len()
            invariant
                i <= base.parts@.len() <= self.parts@.len(),
                forall|k: int| 0 <= k < i ==> self.parts@[k]@ == base.parts@[k]@,
            decreases base.parts@.len() - i,
        {
            if !crate::text::str_eq(self.parts[i].as_str(), base.parts[i].as_str()) {
                proof {
                    assert(string_views(self.parts@).take(base.parts@.len() as int)[i as int]
                        != string_views(base.parts@)[i as int]);
                }
                return false;
            }
            i += 1;
        }
        assert(string_views(self.parts@).take(base.parts@.len() as int) =~= string_views(
            base.parts@,
        ));
        true
    }

    /// Whether two paths have the same root and components.
    pub fn same_as(&self, other: &CachePath) -> (res: bool)
        ensures
            res == (self@ == other@),
    {
        if self.parts.len() != other.parts.len() {
            proof {
                if self@ == other@ {
                    assert(string_views(self.parts@).len() == string_views(other.parts@).len());
                }
            }
            return false;
        }
        let r = self.starts_with(other);
        proof {
            assert(string_views(self.parts@).len() == string_views(other.parts@).len());
            assert(string_views(self.parts@).take(other.parts@.len() as int) =~= string_views(
                self.parts@,
            ));
        }
        r
    }
}

/// `safe_path`: a repository path placed under `root`, refused when it is
/// absolute or climbs out through `..`; `.` and empty components drop out.
pub fn safe_path(root: &CachePath, path: &str) -> (res: Result<CachePath, PathError>)
    ensures
        res matches Ok(p) ==> safe_path_model(root@, path@) == Ok::<_, PathError>(p@),
        res matches Err(e) ==> safe_path_model(root@, path@) == Err::<(bool, Seq<Seq<char>>), _>(e),
{
    let rel = CachePath::parse(path);
    assert(string_views(rel.parts@) == path_parts(path@));
    if rel.absolute {
        return Err(PathError::MustBeRelative);
    }
    let mut i: usize = 0;
    while i < rel.parts.len()
        invariant
            i <= rel.parts@.len(),
            string_views(rel.parts@) == path_parts(path@),
            !is_absolute(path@),
            forall|k: int| 0 <= k < i ==> rel.parts@[k]@ != seq!['.', '.'],
        decreases rel.parts@.len() - i,
    {
        let up = crate::text::str_eq(rel.parts[i].as_str(), "..");
        proof {
            reveal_strlit("..");
            assert(".."@ =~= seq!['.', '.']);
            assert(string_views(rel.parts@)[i as int] == rel.parts@[i as int]@);
        }
        if up {
            proof {
                assert(path_parts(path@)[i as int] == seq!['.', '.']);
                assert(path_parts(path@).contains(seq!['.', '.']));
            }
            return Err(PathError::EscapesRoot);
        }
        i += 1;
    }
    assert(!path_parts(path@).contains(seq!['.', '.'])) by {
        if path_parts(path@).contains(seq!['.', '.']) {
            let k = choose|k: int|
                0 <= k < path_parts(path@).len() && path_parts(path@)[k] == seq!['.', '.'];
            assert(string_views(rel.parts@)[k] == rel.parts@[k]@);
        }
    }
    Ok(root.join(path))
}


proof fn lemma_state_append_plain(u: Seq<char>, v: Seq<char>, sep: char)
    requires
        !v.contains(sep),
    ensures
        split_state(u + v, sep) == (split_state(u, sep).0, split_state(u, sep).1 + v),
    decreases v.len(),
{
    if v.len() == 0 {
        assert(u + v =~= u);
        assert(split_state(u, sep).1 + v =~= split_state(u, sep).1);
    } else {
        assert((u + v).drop_last() =~= u + v.drop_last());
        assert(!v.drop_last().contains(sep)) by {
            if v.drop_last().contains(sep) {
                let k = choose|k: int| 0 <= k < v.drop_last().len() && v.drop_last()[k] == sep;
                assert(v[k] == sep);
            }
        }
        lemma_state_append_plain(u, v.drop_last(), sep);
        assert(v.last() != sep) by {
            assert(v[v.len() - 1] == v.last());
        }
        assert((split_state(u, sep).1 + v.drop_last()).push(v.last()) =~= split_state(u, sep).1
            + v);
    }
}

proof fn lemma_state_join(u: Seq<char>, ps: Seq<Seq<char>>)
    requires
        split_state(u, '/').1.len() == 0,
        ps.len() > 0,
        valid_parts(ps),
    ensures
        split_state(u + join_with(ps, seq!['/']), '/') == (
            split_state(u, '/').0 + ps.drop_last(),
            ps.last(),
        ),
    decreases ps.len(),
{
    let d = split_state(u, '/').0;
    if ps.len() == 1 {
        assert(is_part(ps[0]));
        lemma_state_append_plain(u, ps[0], '/');
        assert(split_state(u, '/').1 + ps[0] =~= ps[0]);
        assert(d + ps.drop_last() =~= d);
    } else {
        let init = ps.drop_last();
        assert(valid_parts(init)) by {
            assert forall|i: int| 0 <= i < init.len() implies is_part(#[trigger] init[i]) by {
                assert(init[i] == ps[i]);
            }
        }
        lemma_state_join(u, init);
        let a = u + join_with(init, seq!['/']);
        let b = a + seq!['/'];
        assert(b.drop_last() =~= a);
        assert(b.last() == '/');
        assert(split_state(b, '/') == (d + init.drop_last() + seq![init.last()], Seq::<char>::empty()));
        assert(d + init.drop_last() + seq![init.last()] =~= d + init) by {
            assert(init.drop_last().push(init.last()) =~= init);
        }
        assert(is_part(ps[ps.len() - 1]));
        lemma_state_append_plain(b, ps.last(), '/');
        assert(u + join_with(ps, seq!['/']) =~= b + ps.last());
        assert(Seq::<char>::empty() + ps.last() =~= ps.last());
    }
}

proof fn lemma_join_first(ps: Seq<Seq<char>>)
    requires
        ps.len() > 0,
        valid_parts(ps),
    ensures
        join_with(ps, seq!['/']).len() > 0,
        join_with(ps, seq!['/'])[0] == ps[0][0],
    decreases ps.len(),
{
    assert(is_part(ps[0]));
    if ps.len() > 1 {
        let init = ps.drop_last();
        assert(valid_parts(init)) by {
            assert forall|i: int| 0 <= i < init.len() implies is_part(#[trigger] init[i]) by {
                assert(init[i] == ps[i]);
            }
        }
        lemma_join_first(init);
        assert(init[0] == ps[0]);
    }
}

/// A repository path that `safe_path` accepts stays under its root: the
/// result is the root followed by the path's own components, in order, and
/// none of them climbs up with `..`.
pub proof fn law_safe_path_stays_under_root(root: (bool, Seq<Seq<char>>), path: Seq<char>)
    requires
        safe_path_model(root, path) is Ok,
    ensures
        safe_path_model(root, path) == Ok::<_, PathError>((root.0, root.1 + path_parts(path))),
        starts_with_model((root.0, root.1 + path_parts(path)), root),
        forall|i: int| 0 <= i < path_parts(path).len() ==> #[trigger] path_parts(path)[i] != seq!['.', '.'],
{
    assert((root.1 + path_parts(path)).take(root.1.len() as int) =~= root.1);
    assert forall|i: int| 0 <= i < path_parts(path).len() implies #[trigger] path_parts(path)[i] != seq!['.', '.'] by {
        if path_parts(path)[i] == seq!['.', '.'] {
            assert(path_parts(path).contains(seq!['.', '.']));
        }
    }
}

/// Rendering a path and parsing the result gives the same path back.
pub proof fn law_render_then_parse(m: (bool, Seq<Seq<char>>))
    requires
        valid_parts(m.1),
    ensures
        parse_model(render_model(m)) == m,
{
    let ps = m.1;
    let slash = seq!['/'];
    let e = Seq::<char>::empty();
    assert(split_state(e, '/') == (Seq::<Seq<char>>::empty(), e));
    assert(slash.drop_last() =~= e);
    assert(split_state(slash, '/') == (seq![e], e));
    assert(!is_part(e));
    assert(seq![e].last() == e);
    assert(seq![e, e].last() == e);
    reveal_with_fuel(only_parts, 3);
    if ps.len() == 0 {
        assert(join_with(ps, slash) =~= e);
        if m.0 {
            assert(render_model(m) =~= slash);
            assert(split_on(slash, '/') =~= seq![e, e]);
            assert(seq![e, e].drop_last() =~= seq![e]);
            assert(seq![e].drop_last() =~= Seq::<Seq<char>>::empty());
            assert(only_parts(seq![e, e]) =~= Seq::<Seq<char>>::empty());
        } else {
            assert(render_model(m) =~= e);
            assert(split_on(e, '/') =~= seq![e]);
            assert(seq![e].drop_last() =~= Seq::<Seq<char>>::empty());
            assert(only_parts(seq![e]) =~= Seq::<Seq<char>>::empty());
        }
        assert(path_parts(render_model(m)) =~= ps);
    } else {
        lemma_only_parts_of_valid(ps);
        assert(ps.drop_last().push(ps.last()) =~= ps);
        if m.0 {
            lemma_state_join(slash, ps);
            assert(split_on(render_model(m), '/') =~= seq![e] + ps);
            lemma_only_parts_add(seq![e], ps);
            assert(seq![e].drop_last() =~= Seq::<Seq<char>>::empty());
            assert(only_parts(seq![e]) =~= Seq::<Seq<char>>::empty());
            assert(only_parts(seq![e]) + ps =~= ps);
        } else {
            lemma_state_join(e, ps);
            assert(e + join_with(ps, slash) =~= join_with(ps, slash));
            assert(split_on(render_model(m), '/') =~= ps);
            lemma_join_first(ps);
            assert(is_part(ps[0]));
            assert(ps[0][0] != '/') by {
                assert(!ps[0].contains('/'));
            }
        }
    }
}

} // verus!
