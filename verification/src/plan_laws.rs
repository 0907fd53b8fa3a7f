//! What every download plan keeps, whatever the two backends list: which
//! backends get links, that every listed file is accounted for, when a plan
//! is refused, and that a file both backends agree on is stored once.

use vstd::prelude::*;

use crate::sorted::{
    lemma_key_index, lemma_less_asymmetric, lemma_less_irreflexive, lemma_less_total,
    lemma_less_transitive, seq_less, strictly_sorted,
};
use crate::unified::{
    files_differ, is_critical_spec, listing_from, manifest_map, opt_keys, opt_vals, plan_add,
    plan_spec, plan_walk, separate_spec, step_both, step_one, ArtifactView, Backend, Manifest,
    PlanView, RemoteFileView,
};

verus! {

// ---------------------------------------------------------------------------
// Vocabulary

/// An optional manifest, when there is one, as the listing of backend `b` builds it.
pub open spec fn opt_listing_from(m: Option<Manifest>, b: Backend) -> bool {
    listing_from(opt_keys(m), opt_vals(m), b)
}

/// The files of an optional manifest by path.
pub open spec fn opt_map(m: Option<Manifest>) -> Map<Seq<char>, RemoteFileView> {
    match m {
        Some(x) => manifest_map(x),
        None => Map::empty(),
    }
}

/// An artifact is linked at path `p`, for some backend.
pub open spec fn links_path(a: ArtifactView, p: Seq<char>) -> bool {
    exists|t: int| 0 <= t < a.targets.len() && (#[trigger] a.targets[t]).1 == p
}

/// The artifacts linked at path `p`, in order.
pub open spec fn artifacts_at(arts: Seq<ArtifactView>, p: Seq<char>) -> Seq<ArtifactView>
    decreases arts.len(),
{
    if arts.len() == 0 {
        seq![]
    } else {
        (if links_path(arts[0], p) {
            seq![arts[0]]
        } else {
            seq![]
        }) + artifacts_at(arts.drop_first(), p)
    }
}

/// The plan links path `p` for backend `b`.
pub open spec fn plan_links(plan: PlanView, b: Backend, p: Seq<char>) -> bool {
    exists|k: int, t: int|
        0 <= k < plan.artifacts.len() && 0 <= t < plan.artifacts[k].targets.len()
            && #[trigger] plan.artifacts[k].targets[t] == (b, p)
}

/// The plan compares the files at path `p` once the ModelScope one is fetched.
pub open spec fn plan_compares(plan: PlanView, p: Seq<char>) -> bool {
    exists|k: int| 0 <= k < plan.comparisons.len() && (#[trigger] plan.comparisons[k]).0.path == p
}

/// Path `p` of backend `b` is linked, compared or refused by the plan.
pub open spec fn accounted(plan: PlanView, b: Backend, p: Seq<char>) -> bool {
    plan_links(plan, b, p) || plan_compares(plan, p) || plan.mismatches.contains(p)
}

/// A link target of a path that its backend lists.
pub open spec fn target_within(tg: (Backend, Seq<char>), hk: Seq<Seq<char>>, mk: Seq<Seq<char>>) -> bool {
    (tg.0 == Backend::HuggingFace && hk.contains(tg.1)) || (tg.0 == Backend::ModelScope && mk.contains(tg.1))
}

/// A compared pair: the Hugging Face and the ModelScope file at one path both list.
pub open spec fn pair_within(
    c: (RemoteFileView, RemoteFileView),
    hk: Seq<Seq<char>>,
    mk: Seq<Seq<char>>,
) -> bool {
    &&& c.0.backend == Backend::HuggingFace
    &&& c.1.backend == Backend::ModelScope
    &&& c.0.path == c.1.path
    &&& hk.contains(c.0.path)
    &&& mk.contains(c.0.path)
}

/// Everything a plan links, compares or refuses comes from the listings.
pub open spec fn within(plan: PlanView, hk: Seq<Seq<char>>, mk: Seq<Seq<char>>) -> bool {
    &&& forall|k: int, t: int|
        0 <= k < plan.artifacts.len() && 0 <= t < plan.artifacts[k].targets.len() ==> target_within(
            #[trigger] plan.artifacts[k].targets[t],
            hk,
            mk,
        )
    &&& forall|k: int| 0 <= k < plan.comparisons.len() ==> pair_within(#[trigger] plan.comparisons[k], hk, mk)
    &&& forall|k: int|
        0 <= k < plan.mismatches.len() ==> hk.contains(#[trigger] plan.mismatches[k]) && mk.contains(
            plan.mismatches[k],
        )
}

/// The artifact that stores one file for both backends.
pub open spec fn shared_artifact(f: RemoteFileView, p: Seq<char>) -> ArtifactView {
    ArtifactView { remote: f, targets: seq![(Backend::HuggingFace, p), (Backend::ModelScope, p)] }
}

// ---------------------------------------------------------------------------
// Lemmas on listings and plans

proof fn lemma_listing_rest(ks: Seq<Seq<char>>, vs: Seq<RemoteFileView>, b: Backend)
    requires
        listing_from(ks, vs, b),
        ks.len() > 0,
    ensures
        listing_from(ks.drop_first(), vs.drop_first(), b),
        !ks.drop_first().contains(ks[0]),
        forall|x: Seq<char>| ks.drop_first().contains(x) ==> ks.contains(x),
{
    let r = ks.drop_first();
    assert forall|i: int, j: int| 0 <= i < j < r.len() implies seq_less(#[trigger] r[i], #[trigger] r[j]) by {
        assert(r[i] == ks[i + 1]);
        assert(r[j] == ks[j + 1]);
    }
    assert forall|i: int| 0 <= i < r.len() implies (#[trigger] vs.drop_first()[i]).path == r[i]
        && vs.drop_first()[i].backend == b by {
        assert(vs.drop_first()[i] == vs[i + 1]);
    }
    if r.contains(ks[0]) {
        let i = choose|i: int| 0 <= i < r.len() && r[i] == ks[0];
        assert(seq_less(ks[0], ks[i + 1]));
        lemma_less_irreflexive(ks[0]);
    }
    assert forall|x: Seq<char>| r.contains(x) implies ks.contains(x) by {
        let i = choose|i: int| 0 <= i < r.len() && r[i] == x;
        assert(ks[i + 1] == x);
    }
}

proof fn lemma_sorted_head(ks: Seq<Seq<char>>, i: int)
    requires
        strictly_sorted(ks),
        0 < i < ks.len(),
    ensures
        seq_less(ks[0], ks[i]),
        ks[0] != ks[i],
{
    lemma_less_irreflexive(ks[0]);
}

proof fn lemma_heads_equal(a: Seq<char>, b: Seq<char>)
    requires
        !seq_less(a, b),
        !seq_less(b, a),
    ensures
        a == b,
{
    if a != b {
        lemma_less_total(a, b);
    }
}

proof fn lemma_within_add(a: PlanView, b: PlanView, hk: Seq<Seq<char>>, mk: Seq<Seq<char>>)
    requires
        within(a, hk, mk),
        within(b, hk, mk),
    ensures
        within(plan_add(a, b), hk, mk),
{
    let p = plan_add(a, b);
    assert forall|k: int, t: int| 0 <= k < p.artifacts.len() && 0 <= t < p.artifacts[k].targets.len() implies target_within(
        #[trigger] p.artifacts[k].targets[t],
        hk,
        mk,
    ) by {
        if k < a.artifacts.len() {
            assert(p.artifacts[k] == a.artifacts[k]);
            assert(a.artifacts[k].targets[t] == p.artifacts[k].targets[t]);
        } else {
            assert(p.artifacts[k] == b.artifacts[k - a.artifacts.len()]);
            assert(b.artifacts[k - a.artifacts.len()].targets[t] == p.artifacts[k].targets[t]);
        }
    }
    assert forall|k: int| 0 <= k < p.comparisons.len() implies pair_within(#[trigger] p.comparisons[k], hk, mk) by {
        if k < a.comparisons.len() {
            assert(p.comparisons[k] == a.comparisons[k]);
        } else {
            assert(p.comparisons[k] == b.comparisons[k - a.comparisons.len()]);
        }
    }
    assert forall|k: int| 0 <= k < p.mismatches.len() implies hk.contains(#[trigger] p.mismatches[k])
        && mk.contains(p.mismatches[k]) by {
        if k < a.mismatches.len() {
            assert(p.mismatches[k] == a.mismatches[k]);
        } else {
            assert(p.mismatches[k] == b.mismatches[k - a.mismatches.len()]);
        }
    }
}

proof fn lemma_within_widen(
    plan: PlanView,
    hk2: Seq<Seq<char>>,
    mk2: Seq<Seq<char>>,
    hk: Seq<Seq<char>>,
    mk: Seq<Seq<char>>,
)
    requires
        within(plan, hk2, mk2),
        forall|x: Seq<char>| hk2.contains(x) ==> hk.contains(x),
        forall|x: Seq<char>| mk2.contains(x) ==> mk.contains(x),
    ensures
        within(plan, hk, mk),
{
    assert forall|k: int, t: int| 0 <= k < plan.artifacts.len() && 0 <= t < plan.artifacts[k].targets.len() implies target_within(
        #[trigger] plan.artifacts[k].targets[t],
        hk,
        mk,
    ) by {
        assert(target_within(plan.artifacts[k].targets[t], hk2, mk2));
    }
    assert forall|k: int| 0 <= k < plan.comparisons.len() implies pair_within(#[trigger] plan.comparisons[k], hk, mk) by {
        assert(pair_within(plan.comparisons[k], hk2, mk2));
    }
    assert forall|k: int| 0 <= k < plan.mismatches.len() implies hk.contains(#[trigger] plan.mismatches[k])
        && mk.contains(plan.mismatches[k]) by {
        assert(hk2.contains(plan.mismatches[k]));
        assert(mk2.contains(plan.mismatches[k]));
    }
}

/// Everything the walk over two listings links, compares or refuses comes
/// from the listings, for the right backend.
proof fn lemma_walk_within(
    hk: Seq<Seq<char>>,
    hv: Seq<RemoteFileView>,
    mk: Seq<Seq<char>>,
    mv: Seq<RemoteFileView>,
    allow: bool,
)
    requires
        listing_from(hk, hv, Backend::HuggingFace),
        listing_from(mk, mv, Backend::ModelScope),
    ensures
        within(plan_walk(hk, hv, mk, mv, allow), hk, mk),
    decreases hk.len() + mk.len(),
{
    if hk.len() == 0 && mk.len() == 0 {
    } else if mk.len() == 0 || (hk.len() > 0 && seq_less(hk[0], mk[0])) {
        lemma_listing_rest(hk, hv, Backend::HuggingFace);
        lemma_walk_within(hk.drop_first(), hv.drop_first(), mk, mv, allow);
        let head = step_one(hv[0]);
        assert(hv[0].path == hk[0]);
        assert(hk.contains(hk[0]));
        assert(head.artifacts[0].targets[0] == (Backend::HuggingFace, hk[0]));
        assert(within(head, hk, mk));
        lemma_within_widen(plan_walk(hk.drop_first(), hv.drop_first(), mk, mv, allow), hk.drop_first(), mk, hk, mk);
        lemma_within_add(head, plan_walk(hk.drop_first(), hv.drop_first(), mk, mv, allow), hk, mk);
    } else if hk.len() == 0 || seq_less(mk[0], hk[0]) {
        lemma_listing_rest(mk, mv, Backend::ModelScope);
        lemma_walk_within(hk, hv, mk.drop_first(), mv.drop_first(), allow);
        let head = step_one(mv[0]);
        assert(mv[0].path == mk[0]);
        assert(mk.contains(mk[0]));
        assert(head.artifacts[0].targets[0] == (Backend::ModelScope, mk[0]));
        assert(within(head, hk, mk));
        lemma_within_widen(plan_walk(hk, hv, mk.drop_first(), mv.drop_first(), allow), hk, mk.drop_first(), hk, mk);
        lemma_within_add(head, plan_walk(hk, hv, mk.drop_first(), mv.drop_first(), allow), hk, mk);
    } else {
        lemma_heads_equal(hk[0], mk[0]);
        lemma_listing_rest(hk, hv, Backend::HuggingFace);
        lemma_listing_rest(mk, mv, Backend::ModelScope);
        let rest = plan_walk(hk.drop_first(), hv.drop_first(), mk.drop_first(), mv.drop_first(), allow);
        lemma_walk_within(hk.drop_first(), hv.drop_first(), mk.drop_first(), mv.drop_first(), allow);
        let head = step_both(hk[0], hv[0], mv[0], allow);
        assert(hv[0].path == hk[0]);
        assert(mv[0].path == mk[0]);
        assert(hk.contains(hk[0]));
        assert(mk.contains(mk[0]));
        assert(within(head, hk, mk)) by {
            assert forall|k: int, t: int| 0 <= k < head.artifacts.len() && 0 <= t < head.artifacts[k].targets.len() implies target_within(
                #[trigger] head.artifacts[k].targets[t],
                hk,
                mk,
            ) by {
                if files_differ(hv[0], mv[0]) {
                    if k == 0 {
                        assert(head.artifacts[k] == separate_spec(hv[0]));
                    } else {
                        assert(head.artifacts[k] == separate_spec(mv[0]));
                    }
                }
            }
        }
        lemma_within_widen(rest, hk.drop_first(), mk.drop_first(), hk, mk);
        lemma_within_add(head, rest, hk, mk);
    }
}

proof fn lemma_accounted_left(a: PlanView, c: PlanView, b: Backend, p: Seq<char>)
    requires
        accounted(a, b, p),
    ensures
        accounted(plan_add(a, c), b, p),
{
    let q = plan_add(a, c);
    if plan_links(a, b, p) {
        let (k, t) = choose|k: int, t: int|
            0 <= k < a.artifacts.len() && 0 <= t < a.artifacts[k].targets.len() && #[trigger] a.artifacts[k].targets[t] == (b, p);
        assert(q.artifacts[k] == a.artifacts[k]);
        assert(q.artifacts[k].targets[t] == (b, p));
    } else if plan_compares(a, p) {
        let k = choose|k: int| 0 <= k < a.comparisons.len() && (#[trigger] a.comparisons[k]).0.path == p;
        assert(q.comparisons[k] == a.comparisons[k]);
    } else {
        let k = choose|k: int| 0 <= k < a.mismatches.len() && a.mismatches[k] == p;
        assert(q.mismatches[k] == p);
    }
}

proof fn lemma_accounted_right(a: PlanView, c: PlanView, b: Backend, p: Seq<char>)
    requires
        accounted(c, b, p),
    ensures
        accounted(plan_add(a, c), b, p),
{
    let q = plan_add(a, c);
    if plan_links(c, b, p) {
        let (k, t) = choose|k: int, t: int|
            0 <= k < c.artifacts.len() && 0 <= t < c.artifacts[k].targets.len() && #[trigger] c.artifacts[k].targets[t] == (b, p);
        let n = a.artifacts.len() as int;
        assert(q.artifacts[k + n] == c.artifacts[k]);
        assert(q.artifacts[k + n].targets[t] == (b, p));
    } else if plan_compares(c, p) {
        let k = choose|k: int| 0 <= k < c.comparisons.len() && (#[trigger] c.comparisons[k]).0.path == p;
        let n = a.comparisons.len() as int;
        assert(q.comparisons[k + n] == c.comparisons[k]);
    } else {
        let k = choose|k: int| 0 <= k < c.mismatches.len() && c.mismatches[k] == p;
        let n = a.mismatches.len() as int;
        assert(q.mismatches[k + n] == p);
    }
}

proof fn lemma_step_both_accounts(k: Seq<char>, h: RemoteFileView, m: RemoteFileView, allow: bool)
    requires
        h.path == k,
        m.path == k,
        h.backend == Backend::HuggingFace,
        m.backend == Backend::ModelScope,
    ensures
        accounted(step_both(k, h, m, allow), Backend::HuggingFace, k),
        accounted(step_both(k, h, m, allow), Backend::ModelScope, k),
{
    let s = step_both(k, h, m, allow);
    if files_differ(h, m) {
        if is_critical_spec(k) && !allow {
            assert(s.mismatches[0] == k);
        } else {
            assert(s.artifacts[0].targets[0] == (Backend::HuggingFace, k));
            assert(s.artifacts[1].targets[0] == (Backend::ModelScope, k));
        }
    } else if h.sha256 is Some && h.sha256 == m.sha256 {
        assert(s.artifacts[0].targets[0] == (Backend::HuggingFace, k));
        assert(s.artifacts[0].targets[1] == (Backend::ModelScope, k));
    } else {
        assert(s.comparisons[0].0.path == k);
    }
}

/// Every path of either listing is linked for its backend, compared, or refused.
proof fn lemma_walk_covers(
    hk: Seq<Seq<char>>,
    hv: Seq<RemoteFileView>,
    mk: Seq<Seq<char>>,
    mv: Seq<RemoteFileView>,
    allow: bool,
)
    requires
        listing_from(hk, hv, Backend::HuggingFace),
        listing_from(mk, mv, Backend::ModelScope),
    ensures
        forall|i: int| 0 <= i < hk.len() ==> accounted(plan_walk(hk, hv, mk, mv, allow), Backend::HuggingFace, #[trigger] hk[i]),
        forall|j: int| 0 <= j < mk.len() ==> accounted(plan_walk(hk, hv, mk, mv, allow), Backend::ModelScope, #[trigger] mk[j]),
    decreases hk.len() + mk.len(),
{
    let w = plan_walk(hk, hv, mk, mv, allow);
    if hk.len() == 0 && mk.len() == 0 {
    } else if mk.len() == 0 || (hk.len() > 0 && seq_less(hk[0], mk[0])) {
        lemma_listing_rest(hk, hv, Backend::HuggingFace);
        let hk2 = hk.drop_first();
        let hv2 = hv.drop_first();
        lemma_walk_covers(hk2, hv2, mk, mv, allow);
        let head = step_one(hv[0]);
        let rest = plan_walk(hk2, hv2, mk, mv, allow);
        assert forall|i: int| 0 <= i < hk.len() implies accounted(w, Backend::HuggingFace, #[trigger] hk[i]) by {
            if i == 0 {
                assert(head.artifacts[0].targets[0] == (Backend::HuggingFace, hk[0]));
                lemma_accounted_left(head, rest, Backend::HuggingFace, hk[0]);
            } else {
                assert(hk2[i - 1] == hk[i]);
                lemma_accounted_right(head, rest, Backend::HuggingFace, hk[i]);
            }
        }
        assert forall|j: int| 0 <= j < mk.len() implies accounted(w, Backend::ModelScope, #[trigger] mk[j]) by {
            lemma_accounted_right(head, rest, Backend::ModelScope, mk[j]);
        }
    } else if hk.len() == 0 || seq_less(mk[0], hk[0]) {
        lemma_listing_rest(mk, mv, Backend::ModelScope);
        let mk2 = mk.drop_first();
        let mv2 = mv.drop_first();
        lemma_walk_covers(hk, hv, mk2, mv2, allow);
        let head = step_one(mv[0]);
        let rest = plan_walk(hk, hv, mk2, mv2, allow);
        assert forall|j: int| 0 <= j < mk.len() implies accounted(w, Backend::ModelScope, #[trigger] mk[j]) by {
            if j == 0 {
                assert(head.artifacts[0].targets[0] == (Backend::ModelScope, mk[0]));
                lemma_accounted_left(head, rest, Backend::ModelScope, mk[0]);
            } else {
                assert(mk2[j - 1] == mk[j]);
                lemma_accounted_right(head, rest, Backend::ModelScope, mk[j]);
            }
        }
        assert forall|i: int| 0 <= i < hk.len() implies accounted(w, Backend::HuggingFace, #[trigger] hk[i]) by {
            lemma_accounted_right(head, rest, Backend::HuggingFace, hk[i]);
        }
    } else {
        lemma_heads_equal(hk[0], mk[0]);
        lemma_listing_rest(hk, hv, Backend::HuggingFace);
        lemma_listing_rest(mk, mv, Backend::ModelScope);
        let hk2 = hk.drop_first();
        let hv2 = hv.drop_first();
        let mk2 = mk.drop_first();
        let mv2 = mv.drop_first();
        lemma_walk_covers(hk2, hv2, mk2, mv2, allow);
        let head = step_both(hk[0], hv[0], mv[0], allow);
        let rest = plan_walk(hk2, hv2, mk2, mv2, allow);
        assert(hv[0].path == hk[0]);
        assert(mv[0].path == mk[0]);
        lemma_step_both_accounts(hk[0], hv[0], mv[0], allow);
        assert forall|i: int| 0 <= i < hk.len() implies accounted(w, Backend::HuggingFace, #[trigger] hk[i]) by {
            if i == 0 {
                lemma_accounted_left(head, rest, Backend::HuggingFace, hk[0]);
            } else {
                assert(hk2[i - 1] == hk[i]);
                lemma_accounted_right(head, rest, Backend::HuggingFace, hk[i]);
            }
        }
        assert forall|j: int| 0 <= j < mk.len() implies accounted(w, Backend::ModelScope, #[trigger] mk[j]) by {
            if j == 0 {
                lemma_accounted_left(head, rest, Backend::ModelScope, mk[0]);
            } else {
                assert(mk2[j - 1] == mk[j]);
                lemma_accounted_right(head, rest, Backend::ModelScope, mk[j]);
            }
        }
    }
}

proof fn lemma_walk_allow(
    hk: Seq<Seq<char>>,
    hv: Seq<RemoteFileView>,
    mk: Seq<Seq<char>>,
    mv: Seq<RemoteFileView>,
)
    ensures
        plan_walk(hk, hv, mk, mv, true).mismatches.len() == 0,
    decreases hk.len() + mk.len(),
{
    if hk.len() == 0 && mk.len() == 0 {
    } else if mk.len() == 0 || (hk.len() > 0 && seq_less(hk[0], mk[0])) {
        lemma_walk_allow(hk.drop_first(), hv.drop_first(), mk, mv);
    } else if hk.len() == 0 || seq_less(mk[0], hk[0]) {
        lemma_walk_allow(hk, hv, mk.drop_first(), mv.drop_first());
    } else {
        lemma_walk_allow(hk.drop_first(), hv.drop_first(), mk.drop_first(), mv.drop_first());
    }
}

/// A refused path is critical, listed by both backends, and the two files differ.
proof fn lemma_walk_refusal_sound(
    hk: Seq<Seq<char>>,
    hv: Seq<RemoteFileView>,
    mk: Seq<Seq<char>>,
    mv: Seq<RemoteFileView>,
    allow: bool,
    p: Seq<char>,
) -> (ij: (int, int))
    requires
        listing_from(hk, hv, Backend::HuggingFace),
        listing_from(mk, mv, Backend::ModelScope),
        plan_walk(hk, hv, mk, mv, allow).mismatches.contains(p),
    ensures
        0 <= ij.0 < hk.len(),
        0 <= ij.1 < mk.len(),
        hk[ij.0] == p,
        mk[ij.1] == p,
        !allow,
        is_critical_spec(p),
        files_differ(hv[ij.0], mv[ij.1]),
    decreases hk.len() + mk.len(),
{
    let w = plan_walk(hk, hv, mk, mv, allow);
    let k = choose|k: int| 0 <= k < w.mismatches.len() && w.mismatches[k] == p;
    if hk.len() == 0 && mk.len() == 0 {
        assert(false);
        (0, 0)
    } else if mk.len() == 0 || (hk.len() > 0 && seq_less(hk[0], mk[0])) {
        lemma_listing_rest(hk, hv, Backend::HuggingFace);
        let rest = plan_walk(hk.drop_first(), hv.drop_first(), mk, mv, allow);
        assert(rest.mismatches[k] == p);
        let (i, j) = lemma_walk_refusal_sound(hk.drop_first(), hv.drop_first(), mk, mv, allow, p);
        assert(hk.drop_first()[i] == hk[i + 1]);
        assert(hv.drop_first()[i] == hv[i + 1]);
        (i + 1, j)
    } else if hk.len() == 0 || seq_less(mk[0], hk[0]) {
        lemma_listing_rest(mk, mv, Backend::ModelScope);
        let rest = plan_walk(hk, hv, mk.drop_first(), mv.drop_first(), allow);
        assert(rest.mismatches[k] == p);
        let (i, j) = lemma_walk_refusal_sound(hk, hv, mk.drop_first(), mv.drop_first(), allow, p);
        assert(mk.drop_first()[j] == mk[j + 1]);
        assert(mv.drop_first()[j] == mv[j + 1]);
        (i, j + 1)
    } else {
        lemma_heads_equal(hk[0], mk[0]);
        lemma_listing_rest(hk, hv, Backend::HuggingFace);
        lemma_listing_rest(mk, mv, Backend::ModelScope);
        let head = step_both(hk[0], hv[0], mv[0], allow);
        if k < head.mismatches.len() {
            assert(head.mismatches[k] == p);
            (0, 0)
        } else {
            let rest = plan_walk(hk.drop_first(), hv.drop_first(), mk.drop_first(), mv.drop_first(), allow);
            assert(rest.mismatches[k - head.mismatches.len()] == p);
            let (i, j) = lemma_walk_refusal_sound(hk.drop_first(), hv.drop_first(), mk.drop_first(), mv.drop_first(), allow, p);
            assert(hk.drop_first()[i] == hk[i + 1]);
            assert(hv.drop_first()[i] == hv[i + 1]);
            assert(mk.drop_first()[j] == mk[j + 1]);
            assert(mv.drop_first()[j] == mv[j + 1]);
            (i + 1, j + 1)
        }
    }
}

proof fn lemma_mismatch_right(a: PlanView, c: PlanView, p: Seq<char>)
    requires
        c.mismatches.contains(p),
    ensures
        plan_add(a, c).mismatches.contains(p),
{
    let k = choose|k: int| 0 <= k < c.mismatches.len() && c.mismatches[k] == p;
    assert(plan_add(a, c).mismatches[k + a.mismatches.len()] == p);
}

/// A critical path both backends list with differing files is refused,
/// unless both versions are kept.
proof fn lemma_walk_refusal_complete(
    hk: Seq<Seq<char>>,
    hv: Seq<RemoteFileView>,
    mk: Seq<Seq<char>>,
    mv: Seq<RemoteFileView>,
    allow: bool,
    i: int,
    j: int,
)
    requires
        listing_from(hk, hv, Backend::HuggingFace),
        listing_from(mk, mv, Backend::ModelScope),
        0 <= i < hk.len(),
        0 <= j < mk.len(),
        hk[i] == mk[j],
        !allow,
        is_critical_spec(hk[i]),
        files_differ(hv[i], mv[j]),
    ensures
        plan_walk(hk, hv, mk, mv, allow).mismatches.contains(hk[i]),
    decreases hk.len() + mk.len(),
{
    let p = hk[i];
    if mk.len() == 0 || (hk.len() > 0 && seq_less(hk[0], mk[0])) {
        lemma_listing_rest(hk, hv, Backend::HuggingFace);
        if i == 0 {
            if j > 0 {
                lemma_sorted_head(mk, j);
                lemma_less_transitive(hk[0], mk[0], mk[j]);
            }
            lemma_less_irreflexive(p);
        }
        assert(hk.drop_first()[i - 1] == p);
        assert(hv.drop_first()[i - 1] == hv[i]);
        lemma_walk_refusal_complete(hk.drop_first(), hv.drop_first(), mk, mv, allow, i - 1, j);
        lemma_mismatch_right(step_one(hv[0]), plan_walk(hk.drop_first(), hv.drop_first(), mk, mv, allow), p);
    } else if hk.len() == 0 || seq_less(mk[0], hk[0]) {
        lemma_listing_rest(mk, mv, Backend::ModelScope);
        if j == 0 {
            if i > 0 {
                lemma_sorted_head(hk, i);
                lemma_less_transitive(mk[0], hk[0], hk[i]);
            }
            lemma_less_irreflexive(p);
        }
        assert(mk.drop_first()[j - 1] == p);
        assert(mv.drop_first()[j - 1] == mv[j]);
        lemma_walk_refusal_complete(hk, hv, mk.drop_first(), mv.drop_first(), allow, i, j - 1);
        lemma_mismatch_right(step_one(mv[0]), plan_walk(hk, hv, mk.drop_first(), mv.drop_first(), allow), p);
    } else {
        lemma_heads_equal(hk[0], mk[0]);
        lemma_listing_rest(hk, hv, Backend::HuggingFace);
        lemma_listing_rest(mk, mv, Backend::ModelScope);
        let head = step_both(hk[0], hv[0], mv[0], allow);
        let rest = plan_walk(hk.drop_first(), hv.drop_first(), mk.drop_first(), mv.drop_first(), allow);
        if i == 0 && j == 0 {
            assert(head.mismatches[0] == p);
            assert(plan_add(head, rest).mismatches[0] == p);
        } else if i == 0 {
            lemma_sorted_head(mk, j);
            lemma_less_irreflexive(p);
        } else if j == 0 {
            lemma_sorted_head(hk, i);
            lemma_less_irreflexive(p);
        } else {
            assert(hk.drop_first()[i - 1] == p);
            assert(hv.drop_first()[i - 1] == hv[i]);
            assert(mk.drop_first()[j - 1] == p);
            assert(mv.drop_first()[j - 1] == mv[j]);
            lemma_walk_refusal_complete(hk.drop_first(), hv.drop_first(), mk.drop_first(), mv.drop_first(), allow, i - 1, j - 1);
            lemma_mismatch_right(head, rest, p);
        }
    }
}

proof fn lemma_artifacts_at_add(a: Seq<ArtifactView>, b: Seq<ArtifactView>, p: Seq<char>)
    ensures
        artifacts_at(a + b, p) == artifacts_at(a, p) + artifacts_at(b, p),
    decreases a.len(),
{
    if a.len() == 0 {
        assert(a + b =~= b);
        assert(artifacts_at(a, p) + artifacts_at(b, p) =~= artifacts_at(b, p));
    } else {
        assert((a + b).drop_first() =~= a.drop_first() + b);
        assert((a + b)[0] == a[0]);
        lemma_artifacts_at_add(a.drop_first(), b, p);
        let head = if links_path(a[0], p) {
            seq![a[0]]
        } else {
            seq![]
        };
        assert(head + (artifacts_at(a.drop_first(), p) + artifacts_at(b, p)) =~= (head
            + artifacts_at(a.drop_first(), p)) + artifacts_at(b, p));
    }
}

proof fn lemma_artifacts_at_none(arts: Seq<ArtifactView>, p: Seq<char>)
    requires
        forall|k: int| 0 <= k < arts.len() ==> !links_path(#[trigger] arts[k], p),
    ensures
        artifacts_at(arts, p) == Seq::<ArtifactView>::empty(),
    decreases arts.len(),
{
    if arts.len() > 0 {
        assert(!links_path(arts[0], p));
        assert forall|k: int| 0 <= k < arts.drop_first().len() implies !links_path(#[trigger] arts.drop_first()[k], p) by {
            assert(arts.drop_first()[k] == arts[k + 1]);
        }
        lemma_artifacts_at_none(arts.drop_first(), p);
        assert(artifacts_at(arts, p) =~= Seq::<ArtifactView>::empty());
    }
}

/// No artifact of a plan drawn from listings that hold no `p` is linked at `p`.
proof fn lemma_none_at(plan: PlanView, hk: Seq<Seq<char>>, mk: Seq<Seq<char>>, p: Seq<char>)
    requires
        within(plan, hk, mk),
        !hk.contains(p),
        !mk.contains(p),
    ensures
        artifacts_at(plan.artifacts, p) == Seq::<ArtifactView>::empty(),
{
    assert forall|k: int| 0 <= k < plan.artifacts.len() implies !links_path(#[trigger] plan.artifacts[k], p) by {
        if links_path(plan.artifacts[k], p) {
            let t = choose|t: int| 0 <= t < plan.artifacts[k].targets.len() && (#[trigger] plan.artifacts[k].targets[t]).1 == p;
            assert(target_within(plan.artifacts[k].targets[t], hk, mk));
        }
    }
    lemma_artifacts_at_none(plan.artifacts, p);
}

/// The artifacts of one step are linked at the step's path only.
proof fn lemma_head_elsewhere(head: PlanView, key: Seq<char>, p: Seq<char>)
    requires
        forall|k: int, t: int| 0 <= k < head.artifacts.len() && 0 <= t < head.artifacts[k].targets.len()
            ==> (#[trigger] head.artifacts[k].targets[t]).1 == key,
        key != p,
    ensures
        artifacts_at(head.artifacts, p) == Seq::<ArtifactView>::empty(),
{
    assert forall|k: int| 0 <= k < head.artifacts.len() implies !links_path(#[trigger] head.artifacts[k], p) by {
        if links_path(head.artifacts[k], p) {
            let t = choose|t: int| 0 <= t < head.artifacts[k].targets.len() && (#[trigger] head.artifacts[k].targets[t]).1 == p;
            assert(head.artifacts[k].targets[t].1 == key);
        }
    }
    lemma_artifacts_at_none(head.artifacts, p);
}

proof fn lemma_step_both_paths(key: Seq<char>, h: RemoteFileView, m: RemoteFileView, allow: bool)
    requires
        h.path == key,
        m.path == key,
    ensures
        forall|k: int, t: int| 0 <= k < step_both(key, h, m, allow).artifacts.len() && 0 <= t < step_both(key, h, m, allow).artifacts[k].targets.len()
            ==> (#[trigger] step_both(key, h, m, allow).artifacts[k].targets[t]).1 == key,
{
    let s = step_both(key, h, m, allow);
    assert forall|k: int, t: int| 0 <= k < s.artifacts.len() && 0 <= t < s.artifacts[k].targets.len() implies (#[trigger] s.artifacts[k].targets[t]).1 == key by {
        if files_differ(h, m) && !(is_critical_spec(key) && !allow) {
            if k == 0 {
                assert(s.artifacts[k] == separate_spec(h));
            } else {
                assert(s.artifacts[k] == separate_spec(m));
            }
        }
    }
}

/// The artifacts a plan links at one path, from the files the two backends
/// list there (`None` where a backend lists nothing at that path).
pub open spec fn artifacts_for(h: Option<RemoteFileView>, m: Option<RemoteFileView>, p: Seq<char>, allow: bool) -> Seq<ArtifactView> {
    match (h, m) {
        (Some(hf), Some(mf)) => step_both(p, hf, mf, allow).artifacts,
        (Some(hf), None) => seq![separate_spec(hf)],
        (None, Some(mf)) => seq![separate_spec(mf)],
        (None, None) => seq![],
    }
}

/// The file a listing holds at index `i`, or none for `-1`.
pub open spec fn file_at(vs: Seq<RemoteFileView>, i: int) -> Option<RemoteFileView> {
    if i >= 0 {
        Some(vs[i])
    } else {
        None
    }
}

/// `i` is where `p` stands in `ks`, or -1 where it does not occur.
pub open spec fn index_of_path(ks: Seq<Seq<char>>, p: Seq<char>, i: int) -> bool {
    if i >= 0 {
        i < ks.len() && ks[i] == p
    } else {
        i == -1 && !ks.contains(p)
    }
}

proof fn lemma_artifacts_at_all(arts: Seq<ArtifactView>, p: Seq<char>)
    requires
        forall|k: int| 0 <= k < arts.len() ==> links_path(#[trigger] arts[k], p),
    ensures
        artifacts_at(arts, p) == arts,
    decreases arts.len(),
{
    if arts.len() > 0 {
        assert(links_path(arts[0], p));
        assert forall|k: int| 0 <= k < arts.drop_first().len() implies links_path(#[trigger] arts.drop_first()[k], p) by {
            assert(arts.drop_first()[k] == arts[k + 1]);
        }
        lemma_artifacts_at_all(arts.drop_first(), p);
        assert(seq![arts[0]] + arts.drop_first() =~= arts);
    }
}

proof fn lemma_step_both_at(p: Seq<char>, h: RemoteFileView, m: RemoteFileView, allow: bool)
    requires
        h.path == p,
        m.path == p,
    ensures
        artifacts_at(step_both(p, h, m, allow).artifacts, p) == step_both(p, h, m, allow).artifacts,
{
    let s = step_both(p, h, m, allow);
    assert forall|k: int| 0 <= k < s.artifacts.len() implies links_path(#[trigger] s.artifacts[k], p) by {
        if files_differ(h, m) && !(is_critical_spec(p) && !allow) {
            if k == 0 {
                assert(s.artifacts[k] == separate_spec(h));
            } else {
                assert(s.artifacts[k] == separate_spec(m));
            }
        }
        assert(s.artifacts[k].targets[0].1 == p);
    }
    lemma_artifacts_at_all(s.artifacts, p);
}

proof fn lemma_separate_at(f: RemoteFileView, p: Seq<char>)
    requires
        f.path == p,
    ensures
        artifacts_at(seq![separate_spec(f)], p) == seq![separate_spec(f)],
{
    assert(separate_spec(f).targets[0].1 == p);
    assert forall|k: int| 0 <= k < seq![separate_spec(f)].len() implies links_path(#[trigger] seq![separate_spec(f)][k], p) by {
        assert(seq![separate_spec(f)][k] == separate_spec(f));
    }
    lemma_artifacts_at_all(seq![separate_spec(f)], p);
}

proof fn lemma_index_rest(ks: Seq<Seq<char>>, vs: Seq<RemoteFileView>, b: Backend, p: Seq<char>, i: int)
    requires
        listing_from(ks, vs, b),
        ks.len() > 0,
        ks[0] != p,
        index_of_path(ks, p, i),
    ensures
        i != 0,
        index_of_path(ks.drop_first(), p, if i > 0 { i - 1 } else { -1 }),
        file_at(vs.drop_first(), if i > 0 { i - 1 } else { -1 }) == file_at(vs, i),
{
    lemma_listing_rest(ks, vs, b);
    if i > 0 {
        assert(ks.drop_first()[i - 1] == ks[i]);
        assert(vs.drop_first()[i - 1] == vs[i]);
    }
}

/// The artifacts that the walk over two listings links at a path are
/// exactly those of that path's own step.
proof fn lemma_walk_at_path(
    hk: Seq<Seq<char>>,
    hv: Seq<RemoteFileView>,
    mk: Seq<Seq<char>>,
    mv: Seq<RemoteFileView>,
    allow: bool,
    p: Seq<char>,
    i: int,
    j: int,
)
    requires
        listing_from(hk, hv, Backend::HuggingFace),
        listing_from(mk, mv, Backend::ModelScope),
        index_of_path(hk, p, i),
        index_of_path(mk, p, j),
    ensures
        artifacts_at(plan_walk(hk, hv, mk, mv, allow).artifacts, p) == artifacts_for(file_at(hv, i), file_at(mv, j), p, allow),
    decreases hk.len() + mk.len(),
{
    if hk.len() == 0 && mk.len() == 0 {
        assert(artifacts_at(Seq::<ArtifactView>::empty(), p) =~= Seq::<ArtifactView>::empty());
    } else if mk.len() == 0 || (hk.len() > 0 && seq_less(hk[0], mk[0])) {
        lemma_listing_rest(hk, hv, Backend::HuggingFace);
        let head = step_one(hv[0]);
        let rest = plan_walk(hk.drop_first(), hv.drop_first(), mk, mv, allow);
        lemma_artifacts_at_add(head.artifacts, rest.artifacts, p);
        assert(hv[0].path == hk[0]);
        assert(head.artifacts =~= seq![separate_spec(hv[0])]);
        if hk[0] == p {
            if i > 0 {
                lemma_sorted_head(hk, i);
            }
            if j >= 0 {
                if j > 0 {
                    lemma_sorted_head(mk, j);
                    lemma_less_transitive(hk[0], mk[0], mk[j]);
                }
                lemma_less_irreflexive(p);
            }
            lemma_separate_at(hv[0], p);
            lemma_walk_within(hk.drop_first(), hv.drop_first(), mk, mv, allow);
            lemma_none_at(rest, hk.drop_first(), mk, p);
            assert(seq![separate_spec(hv[0])] + Seq::<ArtifactView>::empty() =~= seq![separate_spec(hv[0])]);
        } else {
            lemma_index_rest(hk, hv, Backend::HuggingFace, p, i);
            lemma_walk_at_path(hk.drop_first(), hv.drop_first(), mk, mv, allow, p, if i > 0 { i - 1 } else { -1 }, j);
            lemma_head_elsewhere(head, hk[0], p);
            assert(Seq::<ArtifactView>::empty() + artifacts_at(rest.artifacts, p) =~= artifacts_at(rest.artifacts, p));
        }
    } else if hk.len() == 0 || seq_less(mk[0], hk[0]) {
        lemma_listing_rest(mk, mv, Backend::ModelScope);
        let head = step_one(mv[0]);
        let rest = plan_walk(hk, hv, mk.drop_first(), mv.drop_first(), allow);
        lemma_artifacts_at_add(head.artifacts, rest.artifacts, p);
        assert(mv[0].path == mk[0]);
        assert(head.artifacts =~= seq![separate_spec(mv[0])]);
        if mk[0] == p {
            if j > 0 {
                lemma_sorted_head(mk, j);
            }
            if i >= 0 {
                if i > 0 {
                    lemma_sorted_head(hk, i);
                    lemma_less_transitive(mk[0], hk[0], hk[i]);
                }
                lemma_less_irreflexive(p);
            }
            lemma_separate_at(mv[0], p);
            lemma_walk_within(hk, hv, mk.drop_first(), mv.drop_first(), allow);
            lemma_none_at(rest, hk, mk.drop_first(), p);
            assert(seq![separate_spec(mv[0])] + Seq::<ArtifactView>::empty() =~= seq![separate_spec(mv[0])]);
        } else {
            lemma_index_rest(mk, mv, Backend::ModelScope, p, j);
            lemma_walk_at_path(hk, hv, mk.drop_first(), mv.drop_first(), allow, p, i, if j > 0 { j - 1 } else { -1 });
            lemma_head_elsewhere(head, mk[0], p);
            assert(Seq::<ArtifactView>::empty() + artifacts_at(rest.artifacts, p) =~= artifacts_at(rest.artifacts, p));
        }
    } else {
        lemma_heads_equal(hk[0], mk[0]);
        lemma_listing_rest(hk, hv, Backend::HuggingFace);
        lemma_listing_rest(mk, mv, Backend::ModelScope);
        let head = step_both(hk[0], hv[0], mv[0], allow);
        let rest = plan_walk(hk.drop_first(), hv.drop_first(), mk.drop_first(), mv.drop_first(), allow);
        lemma_artifacts_at_add(head.artifacts, rest.artifacts, p);
        assert(hv[0].path == hk[0]);
        assert(mv[0].path == mk[0]);
        if hk[0] == p {
            if i > 0 {
                lemma_sorted_head(hk, i);
            }
            if j > 0 {
                lemma_sorted_head(mk, j);
            }
            assert(i == 0 && j == 0);
            lemma_step_both_at(p, hv[0], mv[0], allow);
            lemma_walk_within(hk.drop_first(), hv.drop_first(), mk.drop_first(), mv.drop_first(), allow);
            lemma_none_at(rest, hk.drop_first(), mk.drop_first(), p);
            assert(head.artifacts + Seq::<ArtifactView>::empty() =~= head.artifacts);
        } else {
            lemma_index_rest(hk, hv, Backend::HuggingFace, p, i);
            lemma_index_rest(mk, mv, Backend::ModelScope, p, j);
            lemma_walk_at_path(
                hk.drop_first(),
                hv.drop_first(),
                mk.drop_first(),
                mv.drop_first(),
                allow,
                p,
                if i > 0 { i - 1 } else { -1 },
                if j > 0 { j - 1 } else { -1 },
            );
            lemma_step_both_paths(hk[0], hv[0], mv[0], allow);
            lemma_head_elsewhere(head, hk[0], p);
            assert(Seq::<ArtifactView>::empty() + artifacts_at(rest.artifacts, p) =~= artifacts_at(rest.artifacts, p));
        }
    }
}

proof fn lemma_opt_map(m: Option<Manifest>, b: Backend)
    requires
        opt_listing_from(m, b),
    ensures
        forall|p: Seq<char>| #[trigger] opt_map(m).dom().contains(p) <==> opt_keys(m).contains(p),
        forall|i: int| 0 <= i < opt_keys(m).len() ==> opt_map(m)[#[trigger] opt_keys(m)[i]] == opt_vals(m)[i],
{
    match m {
        Some(x) => {
            let ks = opt_keys(m);
            assert forall|i: int| 0 <= i < ks.len() implies opt_map(m)[#[trigger] ks[i]] == opt_vals(m)[i] by {
                lemma_key_index(ks, i);
            }
        },
        None => {},
    }
}

// ---------------------------------------------------------------------------
// Laws

/// With `--all-backends`, no plan is refused: every differing file is kept
/// in both versions.
pub proof fn law_all_backends_never_refuses(hf: Option<Manifest>, ms: Option<Manifest>)
    ensures
        plan_spec(hf, ms, true).mismatches.len() == 0,
{
    lemma_walk_allow(opt_keys(hf), opt_vals(hf), opt_keys(ms), opt_vals(ms));
}

/// A plan links a file only for a backend that lists it, compares only
/// files both backends list at one path, and refuses only such paths; so a
/// model that only one backend has gets a snapshot of that backend only.
pub proof fn law_links_only_listed_backends(hf: Option<Manifest>, ms: Option<Manifest>, allow: bool)
    requires
        opt_listing_from(hf, Backend::HuggingFace),
        opt_listing_from(ms, Backend::ModelScope),
    ensures
        within(plan_spec(hf, ms, allow), opt_keys(hf), opt_keys(ms)),
        ms is None ==> forall|k: int, t: int|
            0 <= k < plan_spec(hf, ms, allow).artifacts.len() && 0 <= t < plan_spec(hf, ms, allow).artifacts[k].targets.len()
                ==> (#[trigger] plan_spec(hf, ms, allow).artifacts[k].targets[t]).0 == Backend::HuggingFace,
        hf is None ==> forall|k: int, t: int|
            0 <= k < plan_spec(hf, ms, allow).artifacts.len() && 0 <= t < plan_spec(hf, ms, allow).artifacts[k].targets.len()
                ==> (#[trigger] plan_spec(hf, ms, allow).artifacts[k].targets[t]).0 == Backend::ModelScope,
        hf is None || ms is None ==> plan_spec(hf, ms, allow).comparisons.len() == 0
            && plan_spec(hf, ms, allow).mismatches.len() == 0,
{
    let plan = plan_spec(hf, ms, allow);
    let hk = opt_keys(hf);
    let mk = opt_keys(ms);
    lemma_walk_within(hk, opt_vals(hf), mk, opt_vals(ms), allow);
    if ms is None {
        assert forall|k: int, t: int|
            0 <= k < plan.artifacts.len() && 0 <= t < plan.artifacts[k].targets.len() implies (#[trigger] plan.artifacts[k].targets[t]).0
                == Backend::HuggingFace by {
            assert(target_within(plan.artifacts[k].targets[t], hk, mk));
            assert(!mk.contains(plan.artifacts[k].targets[t].1));
        }
        if plan.comparisons.len() > 0 {
            assert(pair_within(plan.comparisons[0], hk, mk));
        }
        if plan.mismatches.len() > 0 {
            assert(mk.contains(plan.mismatches[0]));
        }
    }
    if hf is None {
        assert forall|k: int, t: int|
            0 <= k < plan.artifacts.len() && 0 <= t < plan.artifacts[k].targets.len() implies (#[trigger] plan.artifacts[k].targets[t]).0
                == Backend::ModelScope by {
            assert(target_within(plan.artifacts[k].targets[t], hk, mk));
            assert(!hk.contains(plan.artifacts[k].targets[t].1));
        }
        if plan.comparisons.len() > 0 {
            assert(pair_within(plan.comparisons[0], hk, mk));
        }
        if plan.mismatches.len() > 0 {
            assert(hk.contains(plan.mismatches[0]));
        }
    }
}

/// Every file either backend lists is linked for that backend, compared
/// by hash once fetched, or refused: nothing listed is dropped.
pub proof fn law_every_listed_file_is_accounted(hf: Option<Manifest>, ms: Option<Manifest>, allow: bool)
    requires
        opt_listing_from(hf, Backend::HuggingFace),
        opt_listing_from(ms, Backend::ModelScope),
    ensures
        forall|p: Seq<char>| #[trigger] opt_map(hf).dom().contains(p) ==> accounted(plan_spec(hf, ms, allow), Backend::HuggingFace, p),
        forall|p: Seq<char>| #[trigger] opt_map(ms).dom().contains(p) ==> accounted(plan_spec(hf, ms, allow), Backend::ModelScope, p),
{
    let hk = opt_keys(hf);
    let mk = opt_keys(ms);
    lemma_opt_map(hf, Backend::HuggingFace);
    lemma_opt_map(ms, Backend::ModelScope);
    lemma_walk_covers(hk, opt_vals(hf), mk, opt_vals(ms), allow);
    assert forall|p: Seq<char>| #[trigger] opt_map(hf).dom().contains(p) implies accounted(plan_spec(hf, ms, allow), Backend::HuggingFace, p) by {
        let i = choose|i: int| 0 <= i < hk.len() && hk[i] == p;
        assert(accounted(plan_spec(hf, ms, allow), Backend::HuggingFace, hk[i]));
    }
    assert forall|p: Seq<char>| #[trigger] opt_map(ms).dom().contains(p) implies accounted(plan_spec(hf, ms, allow), Backend::ModelScope, p) by {
        let j = choose|j: int| 0 <= j < mk.len() && mk[j] == p;
        assert(accounted(plan_spec(hf, ms, allow), Backend::ModelScope, mk[j]));
    }
}

/// A plan is refused at exactly the critical paths that both backends list
/// with files of different sizes or different SHA-256 hashes, and only
/// when both versions are not to be kept.
pub proof fn law_refused_exactly_at_critical_differences(
    hf: Option<Manifest>,
    ms: Option<Manifest>,
    allow: bool,
    p: Seq<char>,
)
    requires
        opt_listing_from(hf, Backend::HuggingFace),
        opt_listing_from(ms, Backend::ModelScope),
    ensures
        plan_spec(hf, ms, allow).mismatches.contains(p) <==> (!allow && is_critical_spec(p) && opt_map(hf).dom().contains(p)
            && opt_map(ms).dom().contains(p) && files_differ(opt_map(hf)[p], opt_map(ms)[p])),
{
    let hk = opt_keys(hf);
    let hv = opt_vals(hf);
    let mk = opt_keys(ms);
    let mv = opt_vals(ms);
    lemma_opt_map(hf, Backend::HuggingFace);
    lemma_opt_map(ms, Backend::ModelScope);
    if plan_spec(hf, ms, allow).mismatches.contains(p) {
        let (i, j) = lemma_walk_refusal_sound(hk, hv, mk, mv, allow, p);
        assert(opt_map(hf)[hk[i]] == hv[i]);
        assert(opt_map(ms)[mk[j]] == mv[j]);
    }
    if !allow && is_critical_spec(p) && opt_map(hf).dom().contains(p) && opt_map(ms).dom().contains(p) && files_differ(
        opt_map(hf)[p],
        opt_map(ms)[p],
    ) {
        let i = choose|i: int| 0 <= i < hk.len() && hk[i] == p;
        let j = choose|j: int| 0 <= j < mk.len() && mk[j] == p;
        assert(opt_map(hf)[hk[i]] == hv[i]);
        assert(opt_map(ms)[mk[j]] == mv[j]);
        lemma_walk_refusal_complete(hk, hv, mk, mv, allow, i, j);
    }
}

/// The file an optional manifest lists at a path.
pub open spec fn opt_file(m: Option<Manifest>, p: Seq<char>) -> Option<RemoteFileView> {
    if opt_map(m).dom().contains(p) {
        Some(opt_map(m)[p])
    } else {
        None
    }
}

proof fn lemma_index_for(m: Option<Manifest>, b: Backend, p: Seq<char>) -> (i: int)
    requires
        opt_listing_from(m, b),
    ensures
        index_of_path(opt_keys(m), p, i),
        file_at(opt_vals(m), i) == opt_file(m, p),
{
    lemma_opt_map(m, b);
    let ks = opt_keys(m);
    if ks.contains(p) {
        let i = choose|i: int| 0 <= i < ks.len() && ks[i] == p;
        assert(opt_map(m)[ks[i]] == opt_vals(m)[i]);
        i
    } else {
        -1
    }
}

/// What a plan links at any one path is decided by that path alone: the
/// plan's artifacts linked at `p` are, in order, those of the files the two
/// backends list at `p` (none where neither does, that file alone for its
/// own backend where one does).
pub proof fn law_artifacts_at_path(hf: Option<Manifest>, ms: Option<Manifest>, allow: bool, p: Seq<char>)
    requires
        opt_listing_from(hf, Backend::HuggingFace),
        opt_listing_from(ms, Backend::ModelScope),
    ensures
        artifacts_at(plan_spec(hf, ms, allow).artifacts, p) == artifacts_for(opt_file(hf, p), opt_file(ms, p), p, allow),
{
    let i = lemma_index_for(hf, Backend::HuggingFace, p);
    let j = lemma_index_for(ms, Backend::ModelScope, p);
    lemma_walk_at_path(opt_keys(hf), opt_vals(hf), opt_keys(ms), opt_vals(ms), allow, p, i, j);
}

/// A file both backends list at one path with the same size and the same
/// SHA-256 is stored once: exactly one artifact is linked at that path, and
/// it links the one blob for both backends.
pub proof fn law_agreeing_file_stored_once(
    hf: Option<Manifest>,
    ms: Option<Manifest>,
    allow: bool,
    p: Seq<char>,
)
    requires
        opt_listing_from(hf, Backend::HuggingFace),
        opt_listing_from(ms, Backend::ModelScope),
        opt_map(hf).dom().contains(p),
        opt_map(ms).dom().contains(p),
        opt_map(hf)[p].size == opt_map(ms)[p].size,
        opt_map(hf)[p].sha256 is Some,
        opt_map(hf)[p].sha256 == opt_map(ms)[p].sha256,
    ensures
        artifacts_at(plan_spec(hf, ms, allow).artifacts, p) == seq![shared_artifact(opt_map(hf)[p], p)],
{
    law_artifacts_at_path(hf, ms, allow, p);
    assert(step_both(p, opt_map(hf)[p], opt_map(ms)[p], allow).artifacts =~= seq![shared_artifact(opt_map(hf)[p], p)]);
}

/// A file the backends list differently at one path is kept in both
/// versions, each linked for its own backend, when the difference is
/// allowed or the file is not critical.
pub proof fn law_differing_file_kept_twice(
    hf: Option<Manifest>,
    ms: Option<Manifest>,
    allow: bool,
    p: Seq<char>,
)
    requires
        opt_listing_from(hf, Backend::HuggingFace),
        opt_listing_from(ms, Backend::ModelScope),
        opt_map(hf).dom().contains(p),
        opt_map(ms).dom().contains(p),
        files_differ(opt_map(hf)[p], opt_map(ms)[p]),
        allow || !is_critical_spec(p),
    ensures
        artifacts_at(plan_spec(hf, ms, allow).artifacts, p) == seq![
            separate_spec(opt_map(hf)[p]),
            separate_spec(opt_map(ms)[p]),
        ],
{
    law_artifacts_at_path(hf, ms, allow, p);
}

/// A file only one backend lists is stored once, for that backend alone.
pub proof fn law_single_listed_file_linked_for_its_backend(
    hf: Option<Manifest>,
    ms: Option<Manifest>,
    allow: bool,
    p: Seq<char>,
)
    requires
        opt_listing_from(hf, Backend::HuggingFace),
        opt_listing_from(ms, Backend::ModelScope),
        opt_map(hf).dom().contains(p) != opt_map(ms).dom().contains(p),
    ensures
        opt_map(hf).dom().contains(p) ==> artifacts_at(plan_spec(hf, ms, allow).artifacts, p) == seq![separate_spec(opt_map(hf)[p])],
        opt_map(ms).dom().contains(p) ==> artifacts_at(plan_spec(hf, ms, allow).artifacts, p) == seq![separate_spec(opt_map(ms)[p])],
{
    law_artifacts_at_path(hf, ms, allow, p);
}

proof fn lemma_links_path_found(arts: Seq<ArtifactView>, p: Seq<char>, k: int)
    requires
        0 <= k < arts.len(),
        links_path(arts[k], p),
    ensures
        artifacts_at(arts, p).len() > 0,
    decreases arts.len(),
{
    if k > 0 {
        assert(arts.drop_first()[k - 1] == arts[k]);
        lemma_links_path_found(arts.drop_first(), p, k - 1);
    }
}

/// A path both backends list with the same size, where either side states
/// no SHA-256, is not stored from one side for both: no artifact is linked
/// at it, it is not refused, and the pair is compared by hash once the
/// ModelScope file is fetched.
pub proof fn law_unhashed_pair_compared_after_fetch(hf: Option<Manifest>, ms: Option<Manifest>, allow: bool, p: Seq<char>)
    requires
        opt_listing_from(hf, Backend::HuggingFace),
        opt_listing_from(ms, Backend::ModelScope),
        opt_map(hf).dom().contains(p),
        opt_map(ms).dom().contains(p),
        opt_map(hf)[p].size == opt_map(ms)[p].size,
        opt_map(hf)[p].sha256 is None || opt_map(ms)[p].sha256 is None,
    ensures
        artifacts_at(plan_spec(hf, ms, allow).artifacts, p).len() == 0,
        !plan_spec(hf, ms, allow).mismatches.contains(p),
        plan_compares(plan_spec(hf, ms, allow), p),
{
    let plan = plan_spec(hf, ms, allow);
    law_artifacts_at_path(hf, ms, allow, p);
    law_refused_exactly_at_critical_differences(hf, ms, allow, p);
    law_every_listed_file_is_accounted(hf, ms, allow);
    assert(accounted(plan, Backend::HuggingFace, p));
    if plan_links(plan, Backend::HuggingFace, p) {
        let (k, t) = choose|k: int, t: int|
            0 <= k < plan.artifacts.len() && 0 <= t < plan.artifacts[k].targets.len()
                && #[trigger] plan.artifacts[k].targets[t] == (Backend::HuggingFace, p);
        assert(links_path(plan.artifacts[k], p));
        lemma_links_path_found(plan.artifacts, p, k);
    }
}

} // verus!
