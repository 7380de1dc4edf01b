//! Ranking of workspaces against search terms: those that match, the best
//! first, and of two with the same score the one that was given first.

use vstd::prelude::*;
use crate::score::{
    byte_texts, fold_terms, is_match, outscores, score_folded, score_num, score_scale, texts,
    Score,
};
use crate::text::{fold_case, folded_all};
use crate::workspace::{RecentWorkspace, WorkspaceModel};

verus! {

/// The models of the workspaces of a list of pairs.
pub open spec fn models<T>(pairs: Seq<(T, &RecentWorkspace)>) -> Seq<WorkspaceModel> {
    Seq::new(pairs.len(), |i: int| pairs[i].1@)
}

/// The first parts of a list of pairs.
pub open spec fn keys<T>(pairs: Seq<(T, &RecentWorkspace)>) -> Seq<T> {
    Seq::new(pairs.len(), |i: int| pairs[i].0)
}

/// The workspace at `i` comes before the one at `j` in a ranking: its score is
/// higher, or the scores are equal and it stands earlier in the list.
pub open spec fn precedes(ws: Seq<WorkspaceModel>, terms: Seq<Seq<char>>, i: int, j: int) -> bool {
    outscores(ws[i], ws[j], terms) || (!outscores(ws[j], ws[i], terms) && i < j)
}

/// `order` lists the positions of exactly the matching workspaces of `ws`,
/// each before all those that it precedes.
pub open spec fn is_ranking(ws: Seq<WorkspaceModel>, terms: Seq<Seq<char>>, order: Seq<int>) -> bool {
    &&& forall|k: int|
        0 <= k < order.len() ==> 0 <= #[trigger] order[k] < ws.len() && is_match(
            ws[order[k]],
            terms,
        )
    &&& forall|i: int| 0 <= i < ws.len() && is_match(#[trigger] ws[i], terms) ==> order.contains(i)
    &&& forall|k: int, l: int|
        0 <= k < l < order.len() ==> precedes(ws, terms, #[trigger] order[k], #[trigger] order[l])
}

/// `ids` are the labels of the matching workspaces in ranking order, where
/// `labels[i]` is the label of `ws[i]`.
pub open spec fn is_ranked<T>(
    ids: Seq<T>,
    labels: Seq<T>,
    ws: Seq<WorkspaceModel>,
    terms: Seq<Seq<char>>,
) -> bool {
    exists|order: Seq<int>|
        {
            &&& #[trigger] is_ranking(ws, terms, order)
            &&& ids.len() == order.len()
            &&& forall|k: int| 0 <= k < order.len() ==> ids[k] == labels[order[k]]
        }
}

/// Of three fractions with positive denominators, the first not above the
/// second and the second not above the third: the first is not above the
/// third.
pub proof fn lemma_not_above_chain(an: int, ad: int, bn: int, bd: int, cn: int, cd: int)
    requires
        0 < ad,
        0 < bd,
        0 < cd,
        0 <= an,
        0 <= bn,
        0 <= cn,
        an * bd <= bn * ad,
        bn * cd <= cn * bd,
    ensures
        an * cd <= cn * ad,
{
    assert(an * bd * cd <= bn * ad * cd) by (nonlinear_arith)
        requires
            an * bd <= bn * ad,
            0 < cd,
    ;
    assert(bn * cd * ad <= cn * bd * ad) by (nonlinear_arith)
        requires
            bn * cd <= cn * bd,
            0 < ad,
    ;
    assert(bn * ad * cd == bn * cd * ad) by (nonlinear_arith);
    assert(an * bd * cd == (an * cd) * bd) by (nonlinear_arith);
    assert(cn * bd * ad == (cn * ad) * bd) by (nonlinear_arith);
    assert(an * cd <= cn * ad) by (nonlinear_arith)
        requires
            (an * cd) * bd <= (cn * ad) * bd,
            0 < bd,
    ;
}

/// Two rankings of the same workspaces agree on their first `k` positions.
pub proof fn lemma_rankings_agree(
    ws: Seq<WorkspaceModel>,
    terms: Seq<Seq<char>>,
    first: Seq<int>,
    second: Seq<int>,
    k: int,
)
    requires
        is_ranking(ws, terms, first),
        is_ranking(ws, terms, second),
        0 <= k <= first.len(),
        k <= second.len(),
    ensures
        forall|j: int| 0 <= j < k ==> first[j] == second[j],
    decreases k,
{
    if k > 0 {
        lemma_rankings_agree(ws, terms, first, second, k - 1);
        let m = k - 1;
        let x = first[m];
        let y = second[m];
        assert(is_match(ws[x], terms));
        assert(is_match(ws[y], terms));
        assert(second.contains(x));
        assert(first.contains(y));
        let jx = choose|j: int| 0 <= j < second.len() && second[j] == x;
        let jy = choose|j: int| 0 <= j < first.len() && first[j] == y;
        if jx < m {
            assert(first[jx] == second[jx]);
            assert(precedes(ws, terms, first[jx], first[m]));
        }
        if jy < m {
            assert(first[jy] == second[jy]);
            assert(precedes(ws, terms, second[jy], second[m]));
        }
        if jx > m && jy > m {
            assert(precedes(ws, terms, second[m], second[jx]));
            assert(precedes(ws, terms, first[m], first[jy]));
        }
    }
}

/// The ranking of a list of workspaces is unique: what [`is_ranking`] asks
/// leaves one order only. So a ranking is the stable sort, by score and
/// descending, of the workspaces that match.
pub proof fn lemma_ranking_unique(
    ws: Seq<WorkspaceModel>,
    terms: Seq<Seq<char>>,
    first: Seq<int>,
    second: Seq<int>,
)
    requires
        is_ranking(ws, terms, first),
        is_ranking(ws, terms, second),
    ensures
        first == second,
{
    if first.len() < second.len() {
        lemma_rankings_agree(ws, terms, first, second, first.len() as int);
        let y = second[first.len() as int];
        assert(is_match(ws[y], terms));
        assert(first.contains(y));
        let jy = choose|j: int| 0 <= j < first.len() && first[j] == y;
        assert(first[jy] == second[jy]);
        assert(precedes(ws, terms, second[jy], second[first.len() as int]));
        assert(false);
    }
    if second.len() < first.len() {
        lemma_rankings_agree(ws, terms, first, second, second.len() as int);
        let x = first[second.len() as int];
        assert(is_match(ws[x], terms));
        assert(second.contains(x));
        let jx = choose|j: int| 0 <= j < second.len() && second[j] == x;
        assert(first[jx] == second[jx]);
        assert(precedes(ws, terms, first[jx], first[second.len() as int]));
        assert(false);
    }
    lemma_rankings_agree(ws, terms, first, second, first.len() as int);
    assert(first =~= second);
}

/// Of two workspaces in a ranking, the earlier one has the score that is not
/// below the other's; where the scores are equal, it is the one that stands
/// first among the workspaces given.
pub proof fn lemma_ranking_is_stable_descending(
    ws: Seq<WorkspaceModel>,
    terms: Seq<Seq<char>>,
    order: Seq<int>,
    k: int,
    l: int,
)
    requires
        is_ranking(ws, terms, order),
        0 <= k < l < order.len(),
    ensures
        !outscores(ws[order[l]], ws[order[k]], terms),
        !outscores(ws[order[k]], ws[order[l]], terms) ==> order[k] < order[l],
{
    assert(precedes(ws, terms, order[k], order[l]));
}

/// The entry holds the position of a matching workspace below `bound`,
/// together with that workspace's score.
pub open spec fn entry_fits(
    ws: Seq<WorkspaceModel>,
    terms: Seq<Seq<char>>,
    entry: (Score, usize),
    bound: int,
) -> bool {
    &&& entry.1 < bound
    &&& bound <= ws.len()
    &&& is_match(ws[entry.1 as int], terms)
    &&& entry.0.wf()
    &&& entry.0.den == score_scale(ws[entry.1 as int])
    &&& entry.0.num() == score_num(ws[entry.1 as int], terms)
}

/// The entries are those of the matching workspaces below `bound`, in
/// ranking order.
pub open spec fn entries_rank(
    ws: Seq<WorkspaceModel>,
    terms: Seq<Seq<char>>,
    entries: Seq<(Score, usize)>,
    bound: int,
) -> bool {
    &&& forall|k: int| 0 <= k < entries.len() ==> entry_fits(ws, terms, #[trigger] entries[k], bound)
    &&& forall|j: int|
        0 <= j < bound && is_match(#[trigger] ws[j], terms) ==> exists|k: int|
            0 <= k < entries.len() && (#[trigger] entries[k]).1 == j
    &&& forall|k: int, l: int|
        0 <= k < l < entries.len() ==> precedes(
            ws,
            terms,
            (#[trigger] entries[k]).1 as int,
            (#[trigger] entries[l]).1 as int,
        )
}

/// Puts the entry of the workspace at `at` into the entries of those before
/// it: behind every entry that it does not outscore.
fn place(
    entries: &mut Vec<(Score, usize)>,
    score: Score,
    at: usize,
    Ghost(ws): Ghost<Seq<WorkspaceModel>>,
    Ghost(terms): Ghost<Seq<Seq<char>>>,
)
    requires
        entries_rank(ws, terms, old(entries)@, at as int),
        entry_fits(ws, terms, (score, at), at + 1),
    ensures
        entries_rank(ws, terms, final(entries)@, at + 1),
{
    let ghost before = entries@;
    let mut p: usize = entries.len();
    while p > 0 && score.outranks(&entries[p - 1].0)
        invariant
            entries@ == before,
            p <= before.len(),
            entries_rank(ws, terms, before, at as int),
            entry_fits(ws, terms, (score, at), at + 1),
            forall|l: int|
                p <= l < before.len() ==> outscores(
                    ws[at as int],
                    ws[(#[trigger] before[l]).1 as int],
                    terms,
                ),
        decreases p,
    {
        p -= 1;
    }
    proof {
        assert forall|k: int| 0 <= k < p implies !outscores(
            ws[at as int],
            ws[(#[trigger] before[k]).1 as int],
            terms,
        ) by {
            let last = before[p - 1];
            let here = before[k];
            assert(entry_fits(ws, terms, last, at as int));
            assert(entry_fits(ws, terms, here, at as int));
            assert(!score.exceeds(&last.0));
            if k < p - 1 {
                assert(precedes(ws, terms, here.1 as int, last.1 as int));
                lemma_not_above_chain(
                    score.num(),
                    score.den as int,
                    last.0.num(),
                    last.0.den as int,
                    here.0.num(),
                    here.0.den as int,
                );
            }
        }
    }
    entries.insert(p, (score, at));
    proof {
        let after = entries@;
        assert(after.len() == before.len() + 1);
        assert(after[p as int] == (score, at));
        assert forall|k: int| 0 <= k < p implies after[k] == before[k] by {}
        assert forall|k: int| p < k < after.len() implies after[k] == before[k - 1] by {}
        assert forall|k: int| 0 <= k < after.len() implies entry_fits(
            ws,
            terms,
            #[trigger] after[k],
            at + 1,
        ) by {
            if k < p {
                assert(entry_fits(ws, terms, before[k], at as int));
            } else if k > p {
                assert(entry_fits(ws, terms, before[k - 1], at as int));
            }
        }
        assert forall|j: int| 0 <= j < at + 1 && is_match(#[trigger] ws[j], terms) implies exists|
            k: int,
        |
            0 <= k < after.len() && (#[trigger] after[k]).1 == j by {
            if j == at {
                assert(after[p as int].1 == j);
            } else {
                let k0 = choose|k: int| 0 <= k < before.len() && (#[trigger] before[k]).1 == j;
                if k0 < p {
                    assert(after[k0].1 == j);
                } else {
                    assert(after[k0 + 1].1 == j);
                }
            }
        }
        assert forall|k: int, l: int| 0 <= k < l < after.len() implies precedes(
            ws,
            terms,
            (#[trigger] after[k]).1 as int,
            (#[trigger] after[l]).1 as int,
        ) by {
            if l < p {
                assert(precedes(ws, terms, before[k].1 as int, before[l].1 as int));
            } else if l == p {
                assert(entry_fits(ws, terms, before[k], at as int));
            } else if k < p {
                assert(precedes(ws, terms, before[k].1 as int, before[l - 1].1 as int));
            } else if k == p {
                assert(p <= l - 1 < before.len());
                assert(outscores(ws[at as int], ws[before[l - 1].1 as int], terms));
            } else {
                assert(precedes(ws, terms, before[k - 1].1 as int, before[l - 1].1 as int));
            }
        }
    }
}

/// Finds the workspaces that match `terms` and returns their labels, ranked.
///
/// `workspaces` pairs each workspace with a label. A workspace matches if its
/// score is above zero. The labels of the matching workspaces are returned by
/// score, the highest first; workspaces with the same score keep the order in
/// which they were given.
pub fn find_matching_workspaces<T: Copy>(
    workspaces: &Vec<(T, &RecentWorkspace)>,
    terms: &Vec<String>,
) -> (ids: Vec<T>)
    ensures
        is_ranked(ids@, keys(workspaces@), models(workspaces@), texts(terms@)),
{
    let ghost ws = models(workspaces@);
    let ghost tt = texts(terms@);
    let n: usize = workspaces.len();
    let needles = fold_terms(terms);
    let mut entries: Vec<(Score, usize)> = Vec::new();
    let mut i: usize = 0;
    while i < n
        invariant
            n == workspaces.len(),
            byte_texts(needles@) == folded_all(tt),
            i <= n,
            ws == models(workspaces@),
            tt == texts(terms@),
            entries_rank(ws, tt, entries@, i as int),
        decreases n - i,
    {
        let name = fold_case(workspaces[i].1.name.as_str());
        let url = fold_case(workspaces[i].1.url.as_str());
        let found = score_folded(name.as_slice(), url.as_slice(), &needles);
        let ghost before = entries@;
        let mut placed = false;
        if let Some(score) = found {
            if score.is_positive() {
                place(&mut entries, score, i, Ghost(ws), Ghost(tt));
                placed = true;
            }
        }
        proof {
            if !placed {
                assert(!is_match(ws[i as int], tt));
                assert forall|k: int| 0 <= k < before.len() implies entry_fits(
                    ws,
                    tt,
                    #[trigger] before[k],
                    i + 1,
                ) by {
                    assert(entry_fits(ws, tt, before[k], i as int));
                }
            }
        }
        i += 1;
    }
    let mut ids: Vec<T> = Vec::new();
    let m: usize = entries.len();
    let mut k: usize = 0;
    while k < m
        invariant
            m == entries.len(),
            k <= m,
            n == workspaces.len(),
            ws == models(workspaces@),
            entries_rank(ws, tt, entries@, n as int),
            ids.len() == k,
            forall|j: int| 0 <= j < k ==> ids@[j] == workspaces@[entries@[j].1 as int].0,
        decreases m - k,
    {
        assert(entry_fits(ws, tt, entries@[k as int], n as int));
        ids.push(workspaces[entries[k].1].0);
        k += 1;
    }
    proof {
        let order = Seq::new(entries@.len(), |j: int| entries@[j].1 as int);
        assert forall|j: int| 0 <= j < order.len() implies 0 <= #[trigger] order[j] < ws.len()
            && is_match(ws[order[j]], tt) by {
            assert(entry_fits(ws, tt, entries@[j], n as int));
        }
        assert forall|j: int| 0 <= j < ws.len() && is_match(#[trigger] ws[j], tt) implies order.contains(
            j,
        ) by {
            let k0 = choose|k: int| 0 <= k < entries@.len() && (#[trigger] entries@[k]).1 == j;
            assert(order[k0] == j);
        }
        assert forall|a: int, b: int| 0 <= a < b < order.len() implies precedes(
            ws,
            tt,
            #[trigger] order[a],
            #[trigger] order[b],
        ) by {
            assert(precedes(ws, tt, entries@[a].1 as int, entries@[b].1 as int));
        }
        assert(is_ranking(ws, tt, order));
        assert forall|j: int| 0 <= j < order.len() implies ids@[j] == keys(workspaces@)[order[j]] by {
            assert(entry_fits(ws, tt, entries@[j], n as int));
        }
    }
    ids
}

} // verus!
