//! A model of one run over a directory tree, and the laws that hold of it.
//!
//! A directory is a path: the sequence of its name components from the root.
//! A tree at scan time maps each of its directory paths to the seconds
//! elapsed since that directory was last accessed. One run deletes exactly
//! the eligible directories — stale `node_modules` directories with no
//! `node_modules` ancestor — together with everything below them.

use vstd::prelude::*;
use crate::rules::{is_target, any_target, age_in_days, decision, AccessStatus, Action};

verus! {

/// `pre` is a prefix of `p`: `p` lies at or below the directory `pre`.
pub open spec fn starts_with(p: Seq<Seq<char>>, pre: Seq<Seq<char>>) -> bool {
    pre.len() <= p.len() && pre == p.take(pre.len() as int)
}

/// `anc` is a strict ancestor of `p`.
pub open spec fn is_ancestor_of(anc: Seq<Seq<char>>, p: Seq<Seq<char>>) -> bool {
    anc.len() < p.len() && anc == p.take(anc.len() as int)
}

/// Some ancestor of `p` — some component other than its last — is itself
/// named `node_modules`.
pub open spec fn nested_in_target(p: Seq<Seq<char>>) -> bool {
    p.len() > 0 && any_target(p.take(p.len() - 1))
}

/// An eligible directory of the tree: present, named `node_modules`, not
/// nested inside another `node_modules`, and last accessed more than
/// `min_age` days ago. These are exactly the directories a run deletes.
pub open spec fn eligible(tree: Map<Seq<Seq<char>>, u64>, p: Seq<Seq<char>>, min_age: u64) -> bool {
    &&& tree.dom().contains(p)
    &&& p.len() > 0
    &&& is_target(p.last())
    &&& !nested_in_target(p)
    &&& age_in_days(tree[p]) > min_age
}

/// A path is removed by a run exactly when some prefix of it — itself
/// included — is eligible.
pub open spec fn removed(tree: Map<Seq<Seq<char>>, u64>, p: Seq<Seq<char>>, min_age: u64) -> bool {
    exists|q: Seq<Seq<char>>| #[trigger] starts_with(p, q) && eligible(tree, q, min_age)
}

/// The tree one run leaves behind: every path that is not removed, with its
/// last-access age unchanged.
pub open spec fn run(tree: Map<Seq<Seq<char>>, u64>, min_age: u64) -> Map<Seq<Seq<char>>, u64> {
    Map::new(
        |p: Seq<Seq<char>>| tree.dom().contains(p) && !removed(tree, p, min_age),
        |p: Seq<Seq<char>>| tree[p],
    )
}

/// Every path is a prefix of itself.
pub proof fn lemma_starts_with_refl(p: Seq<Seq<char>>)
    ensures
        starts_with(p, p),
{
    assert(p.take(p.len() as int) =~= p);
}

/// Two prefixes of one path are ordered: the shorter is a prefix of the
/// longer.
pub proof fn lemma_prefix_of_prefix(p: Seq<Seq<char>>, a: Seq<Seq<char>>, b: Seq<Seq<char>>)
    requires
        starts_with(p, a),
        starts_with(p, b),
        a.len() <= b.len(),
    ensures
        starts_with(b, a),
{
    assert(b.take(a.len() as int) =~= a) by {
        assert(forall|i: int| 0 <= i < a.len() ==> a[i] == p[i] && b[i] == p[i]);
    }
}

/// A prefix of a prefix is a prefix.
pub proof fn lemma_starts_with_trans(p: Seq<Seq<char>>, b: Seq<Seq<char>>, a: Seq<Seq<char>>)
    requires
        starts_with(p, b),
        starts_with(b, a),
    ensures
        starts_with(p, a),
{
    assert(p.take(a.len() as int) =~= a) by {
        assert(forall|i: int| 0 <= i < a.len() ==> a[i] == b[i] && b[i] == p[i]);
    }
}

/// The per-entry decision agrees with the model: for a directory of the tree
/// whose elapsed time was read, the decision is `Delete` exactly when the
/// directory is eligible.
pub proof fn lemma_decision_matches_model(
    tree: Map<Seq<Seq<char>>, u64>,
    p: Seq<Seq<char>>,
    min_age: u64,
)
    requires
        tree.dom().contains(p),
        p.len() > 0,
    ensures
        decision(p.last(), p.take(p.len() - 1), AccessStatus::ElapsedSecs(tree[p]), min_age)
            == Action::Delete <==> eligible(tree, p, min_age),
{
}

/// Law: after a run, every stale, non-nested `node_modules` directory is
/// gone, together with every path at or below it.
pub proof fn lemma_stale_target_removed(
    tree: Map<Seq<Seq<char>>, u64>,
    p: Seq<Seq<char>>,
    q: Seq<Seq<char>>,
    min_age: u64,
)
    requires
        eligible(tree, p, min_age),
        starts_with(q, p),
    ensures
        !run(tree, min_age).dom().contains(p),
        !run(tree, min_age).dom().contains(q),
{
    lemma_starts_with_refl(p);
}

/// Law: a `node_modules` directory whose age is within the threshold stays,
/// and every path at or below it stays unchanged — provided no ancestor of
/// it was itself eligible, in which case it would go with that ancestor.
pub proof fn lemma_fresh_target_retained(
    tree: Map<Seq<Seq<char>>, u64>,
    p: Seq<Seq<char>>,
    q: Seq<Seq<char>>,
    min_age: u64,
)
    requires
        tree.dom().contains(p),
        p.len() > 0,
        is_target(p.last()),
        age_in_days(tree[p]) <= min_age,
        forall|a: Seq<Seq<char>>| is_ancestor_of(a, p) ==> !eligible(tree, a, min_age),
        tree.dom().contains(q),
        starts_with(q, p),
    ensures
        run(tree, min_age).dom().contains(q),
        run(tree, min_age)[q] == tree[q],
{
    if removed(tree, q, min_age) {
        let r = choose|r: Seq<Seq<char>>| #[trigger] starts_with(q, r) && eligible(
            tree,
            r,
            min_age,
        );
        if r.len() < p.len() {
            lemma_prefix_of_prefix(q, r, p);
            assert(is_ancestor_of(r, p));
        } else if r.len() == p.len() {
            lemma_prefix_of_prefix(q, r, p);
            assert(r =~= p);
        } else {
            lemma_prefix_of_prefix(q, p, r);
            assert(p.last() == r[p.len() - 1]);
            assert(is_target(r.take(r.len() - 1)[p.len() - 1]));
            assert(nested_in_target(r));
        }
    }
}

/// Law: a directory not named exactly `node_modules` is never itself
/// deleted: it is never eligible, so anything of it that disappears does so
/// only as part of the subtree of some eligible `node_modules` directory
/// above it.
pub proof fn lemma_only_targets_deleted(
    tree: Map<Seq<Seq<char>>, u64>,
    p: Seq<Seq<char>>,
    min_age: u64,
)
    requires
        p.len() == 0 || !is_target(p.last()),
    ensures
        !eligible(tree, p, min_age),
        removed(tree, p, min_age) ==> exists|q: Seq<Seq<char>>|
            #[trigger] starts_with(p, q) && q.len() > 0 && is_target(q.last()) && eligible(
                tree,
                q,
                min_age,
            ),
{
    if removed(tree, p, min_age) {
        let q = choose|q: Seq<Seq<char>>| #[trigger] starts_with(p, q) && eligible(
            tree,
            q,
            min_age,
        );
        assert(starts_with(p, q) && q.len() > 0 && is_target(q.last()) && eligible(
            tree,
            q,
            min_age,
        ));
    }
}

/// Law: a `node_modules` directory nested inside another one is never
/// evaluated on its own account: whatever its own age, it is removed exactly
/// when its nearest `node_modules` ancestor is removed.
pub proof fn lemma_nested_follows_nearest_ancestor(
    tree: Map<Seq<Seq<char>>, u64>,
    p: Seq<Seq<char>>,
    a: Seq<Seq<char>>,
    min_age: u64,
)
    requires
        p.len() > 0,
        is_target(p.last()),
        is_ancestor_of(a, p),
        a.len() > 0,
        is_target(a.last()),
        forall|b: Seq<Seq<char>>| is_ancestor_of(b, p) && a.len() < b.len() ==> !is_target(
            b.last(),
        ),
    ensures
        removed(tree, p, min_age) <==> removed(tree, a, min_age),
{
    assert(p[a.len() - 1] == a.last());
    assert(is_target(p.take(p.len() - 1)[a.len() - 1]));
    assert(nested_in_target(p));
    if removed(tree, p, min_age) {
        let r = choose|r: Seq<Seq<char>>| #[trigger] starts_with(p, r) && eligible(
            tree,
            r,
            min_age,
        );
        if r.len() > a.len() {
            if r.len() == p.len() {
                lemma_starts_with_refl(p);
                lemma_prefix_of_prefix(p, r, p);
                assert(r =~= p);
                assert(false);
            } else {
                assert(is_ancestor_of(r, p));
                assert(!is_target(r.last()));
                assert(false);
            }
        } else {
            lemma_starts_with_refl(p);
            lemma_prefix_of_prefix(p, r, a);
            assert(starts_with(a, r) && eligible(tree, r, min_age));
        }
    }
    if removed(tree, a, min_age) {
        let r = choose|r: Seq<Seq<char>>| #[trigger] starts_with(a, r) && eligible(
            tree,
            r,
            min_age,
        );
        lemma_starts_with_trans(p, a, r);
        assert(starts_with(p, r) && eligible(tree, r, min_age));
    }
}

/// Law: a run is idempotent — running the tool again on the tree a run
/// leaves behind removes nothing further.
pub proof fn lemma_run_idempotent(tree: Map<Seq<Seq<char>>, u64>, min_age: u64)
    ensures
        run(run(tree, min_age), min_age) == run(tree, min_age),
{
    let t1 = run(tree, min_age);
    assert forall|p: Seq<Seq<char>>| !eligible(t1, p, min_age) by {
        if eligible(t1, p, min_age) {
            assert(eligible(tree, p, min_age));
            lemma_starts_with_refl(p);
            assert(starts_with(p, p) && eligible(tree, p, min_age));
            assert(removed(tree, p, min_age));
        }
    }
    assert forall|p: Seq<Seq<char>>| !removed(t1, p, min_age) by {
        if removed(t1, p, min_age) {
            let q = choose|q: Seq<Seq<char>>| #[trigger] starts_with(p, q) && eligible(
                t1,
                q,
                min_age,
            );
            assert(!eligible(t1, q, min_age));
        }
    }
    assert(run(t1, min_age) =~= t1);
}

} // verus!
