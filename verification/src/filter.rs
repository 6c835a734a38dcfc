//! The maximal-path filter: drops every terminal walk whose node sequence
//! lies as a contiguous block inside another kept walk.

use vstd::prelude::*;

use crate::path::{is_strict_subpath, is_subpath, lemma_subpath_refl, path_views, Path, PathV};

verus! {

/// Whether some already-kept walk contains `p`'s node sequence.
pub open spec fn covered_by(p: PathV, acc: Seq<PathV>) -> bool {
    exists|k: int| 0 <= k < acc.len() && #[trigger] is_subpath(p.nodes, acc[k].nodes)
}

/// The kept list after the last `c` walks of `s` have been examined, in
/// reverse production order: a walk is kept exactly when no walk kept
/// before it contains its node sequence.
pub open spec fn keep_cnt(s: Seq<PathV>, c: nat) -> Seq<PathV>
    decreases c,
{
    if c == 0 {
        Seq::empty()
    } else {
        let acc = keep_cnt(s, (c - 1) as nat);
        let p = s[s.len() - c];
        if covered_by(p, acc) {
            acc
        } else {
            acc.push(p)
        }
    }
}

/// The prime paths of a production sequence: every walk examined, last
/// produced first.
pub open spec fn prime_filter(s: Seq<PathV>) -> Seq<PathV> {
    keep_cnt(s, s.len())
}

/// Whether `x` occurs among the last `c` walks of the production sequence.
pub open spec fn from_tail(s: Seq<PathV>, c: nat, x: PathV) -> bool {
    exists|j: int| s.len() - c <= j < s.len() && x == #[trigger] s[j]
}

/// Whether `x` has an occurrence produced after some occurrence of `y`.
pub open spec fn produced_after(s: Seq<PathV>, x: PathV, y: PathV) -> bool {
    exists|j1: int, j2: int|
        #![trigger s[j1], s[j2]]
        0 <= j2 < j1 < s.len() && x == s[j1] && y == s[j2]
}

/// Whether the walk is contained in any walk of the kept list.
fn covered(p: &Path, kept: &Vec<Path>) -> (r: bool)
    ensures
        r == covered_by(p@, path_views(kept@)),
{
    let mut k: usize = 0;
    while k < kept.len()
        invariant
            0 <= k <= kept@.len(),
            forall|j: int|
                0 <= j < k ==> !(#[trigger] is_subpath(p@.nodes, path_views(kept@)[j].nodes)),
        decreases kept@.len() - k,
    {
        if p.is_subpath_of(&kept[k]) {
            proof {
                assert(is_subpath(p@.nodes, path_views(kept@)[k as int].nodes));
            }
            return true;
        }
        k = k + 1;
    }
    false
}

/// Keeps exactly the walks that no earlier-kept walk contains, examining
/// the walks in reverse of the order they were produced. The result is the
/// prime-path list, in keep order; it is non-empty whenever the input is.
pub fn remove_subpaths(paths: Vec<Path>) -> (r: Vec<Path>)
    ensures
        path_views(r@) == prime_filter(path_views(paths@)),
        paths@.len() > 0 ==> r@.len() > 0,
{
    let ghost s = path_views(paths@);
    let mut maximal: Vec<Path> = Vec::new();
    proof {
        assert(path_views(maximal@) =~= keep_cnt(s, 0));
    }
    let mut i: usize = paths.len();
    while i > 0
        invariant
            s == path_views(paths@),
            0 <= i <= paths@.len(),
            path_views(maximal@) == keep_cnt(s, (paths@.len() - i) as nat),
            i < paths@.len() ==> maximal@.len() > 0,
        decreases i,
    {
        i = i - 1;
        let ghost c = (paths@.len() - i) as nat;
        let ghost acc = keep_cnt(s, (c - 1) as nat);
        proof {
            assert(acc == path_views(maximal@));
            assert(s[s.len() - c] == paths@[i as int]@);
        }
        if !covered(&paths[i], &maximal) {
            let ghost before = path_views(maximal@);
            maximal.push(paths[i].clone());
            proof {
                assert(path_views(maximal@) =~= before.push(paths@[i as int]@));
                assert(path_views(maximal@) == keep_cnt(s, c));
            }
        } else {
            proof {
                assert(path_views(maximal@) == keep_cnt(s, c));
            }
        }
    }
    proof {
        assert((paths@.len() - 0) as nat == s.len());
    }
    maximal
}

/// Coverage: every walk handed to the filter lies, as a contiguous block,
/// inside some walk of the kept list built from the last `c` walks, once
/// the walk itself has been examined.
proof fn lemma_keep_covers(s: Seq<PathV>, c: nat, j: int)
    requires
        c <= s.len(),
        s.len() - c <= j < s.len(),
    ensures
        exists|k: int|
            0 <= k < keep_cnt(s, c).len() && #[trigger] is_subpath(
                s[j].nodes,
                keep_cnt(s, c)[k].nodes,
            ),
    decreases c,
{
    let acc = keep_cnt(s, (c - 1) as nat);
    let p = s[s.len() - c];
    if j == s.len() - c {
        if covered_by(p, acc) {
            let k = choose|k: int| 0 <= k < acc.len() && #[trigger] is_subpath(p.nodes, acc[k].nodes);
            assert(keep_cnt(s, c)[k] == acc[k]);
            assert(is_subpath(s[j].nodes, keep_cnt(s, c)[k].nodes));
        } else {
            lemma_subpath_refl(p.nodes);
            let k = acc.len() as int;
            assert(keep_cnt(s, c)[k] == p);
            assert(is_subpath(s[j].nodes, keep_cnt(s, c)[k].nodes));
        }
    } else {
        lemma_keep_covers(s, (c - 1) as nat, j);
        let k = choose|k: int|
            0 <= k < acc.len() && #[trigger] is_subpath(s[j].nodes, acc[k].nodes);
        assert(keep_cnt(s, c)[k] == acc[k]);
        assert(is_subpath(s[j].nodes, keep_cnt(s, c)[k].nodes));
    }
}

/// Coverage: every walk handed to the filter lies, as a contiguous block,
/// inside some prime path. The filter never discards needed coverage.
pub proof fn lemma_filter_covers(s: Seq<PathV>, j: int)
    requires
        0 <= j < s.len(),
    ensures
        exists|k: int|
            0 <= k < prime_filter(s).len() && #[trigger] is_subpath(
                s[j].nodes,
                prime_filter(s)[k].nodes,
            ),
{
    lemma_keep_covers(s, s.len(), j);
    let k = choose|k: int|
        0 <= k < keep_cnt(s, s.len()).len() && #[trigger] is_subpath(
            s[j].nodes,
            keep_cnt(s, s.len())[k].nodes,
        );
    assert(is_subpath(s[j].nodes, prime_filter(s)[k].nodes));
}

/// The bookkeeping behind non-containment: along the kept list, no later
/// entry lies inside an earlier one, every entry is drawn from the tail of
/// the production sequence that has been examined, and earlier entries
/// were produced after later ones.
pub(crate) proof fn lemma_keep_invariant(s: Seq<PathV>, c: nat)
    requires
        c <= s.len(),
    ensures
        forall|k1: int, k2: int|
            #![trigger keep_cnt(s, c)[k1], keep_cnt(s, c)[k2]]
            0 <= k1 < k2 < keep_cnt(s, c).len() ==> !is_subpath(
                keep_cnt(s, c)[k2].nodes,
                keep_cnt(s, c)[k1].nodes,
            ),
        forall|k: int|
            0 <= k < keep_cnt(s, c).len() ==> from_tail(s, c, #[trigger] keep_cnt(s, c)[k]),
        forall|k1: int, k2: int|
            #![trigger keep_cnt(s, c)[k1], keep_cnt(s, c)[k2]]
            0 <= k1 < k2 < keep_cnt(s, c).len() ==> produced_after(
                s,
                keep_cnt(s, c)[k1],
                keep_cnt(s, c)[k2],
            ),
    decreases c,
{
    if c == 0 {
    } else {
        lemma_keep_invariant(s, (c - 1) as nat);
        let cm = (c - 1) as nat;
        let acc = keep_cnt(s, cm);
        let p = s[s.len() - c];
        let acc2 = keep_cnt(s, c);
        assert forall|k: int| 0 <= k < acc2.len() implies from_tail(s, c, #[trigger] acc2[k]) by {
            if k < acc.len() {
                assert(acc2[k] == acc[k]);
                assert(from_tail(s, cm, acc[k]));
                let j = choose|j: int| s.len() - cm <= j < s.len() && acc[k] == #[trigger] s[j];
                assert(s.len() - c <= j < s.len() && acc2[k] == s[j]);
            } else {
                assert(acc2[k] == p);
                assert(s.len() - c <= s.len() - c < s.len() && acc2[k] == s[s.len() - c]);
            }
        }
        assert forall|k1: int, k2: int|
            #![trigger acc2[k1], acc2[k2]]
            0 <= k1 < k2 < acc2.len() implies !is_subpath(acc2[k2].nodes, acc2[k1].nodes)
            && produced_after(s, acc2[k1], acc2[k2]) by {
            if k2 < acc.len() {
                assert(acc2[k1] == acc[k1] && acc2[k2] == acc[k2]);
            } else if k2 == acc.len() {
                // acc2 ends with the newly kept walk p, so p was not covered.
                assert(!covered_by(p, acc));
                assert(acc2[k1] == acc[k1] && acc2[k2] == p);
                assert(!is_subpath(p.nodes, acc[k1].nodes));
                assert(from_tail(s, cm, acc[k1]));
                let j1 = choose|j: int| s.len() - cm <= j < s.len() && acc[k1] == #[trigger] s[j];
                let j2 = s.len() - c;
                assert(0 <= j2 < j1 < s.len() && acc2[k1] == s[j1] && acc2[k2] == s[j2]);
            }
        }
    }
}

/// Non-containment. Provided no walk of the production sequence is a
/// strict subpath of a walk produced before it, no kept walk's node
/// sequence lies as a contiguous block inside another kept walk's.
pub proof fn lemma_filter_non_containment(s: Seq<PathV>)
    requires
        forall|i: int, j: int|
            #![trigger s[i], s[j]]
            0 <= i < j < s.len() ==> !is_strict_subpath(s[j].nodes, s[i].nodes),
    ensures
        forall|k1: int, k2: int|
            #![trigger prime_filter(s)[k1], prime_filter(s)[k2]]
            0 <= k1 < prime_filter(s).len() && 0 <= k2 < prime_filter(s).len() && k1 != k2
                ==> !is_subpath(prime_filter(s)[k1].nodes, prime_filter(s)[k2].nodes),
{
    lemma_keep_invariant(s, s.len());
    let kept = prime_filter(s);
    assert forall|k1: int, k2: int|
        #![trigger kept[k1], kept[k2]]
        0 <= k1 < kept.len() && 0 <= k2 < kept.len() && k1 != k2 implies !is_subpath(
        kept[k1].nodes,
        kept[k2].nodes,
    ) by {
        if k1 > k2 {
            // A later-kept walk was checked against every earlier-kept one.
            assert(!is_subpath(kept[k1].nodes, kept[k2].nodes));
        } else {
            if is_subpath(kept[k1].nodes, kept[k2].nodes) {
                if kept[k1].nodes == kept[k2].nodes {
                    lemma_subpath_refl(kept[k2].nodes);
                    assert(is_subpath(kept[k2].nodes, kept[k1].nodes));
                    assert(false);
                } else {
                    assert(produced_after(s, kept[k1], kept[k2]));
                    let (j1, j2) = choose|j1: int, j2: int|
                        #![trigger s[j1], s[j2]]
                        0 <= j2 < j1 < s.len() && kept[k1] == s[j1] && kept[k2] == s[j2];
                    assert(is_strict_subpath(s[j1].nodes, s[j2].nodes));
                    assert(false);
                }
            }
        }
    }
}

} // verus!
