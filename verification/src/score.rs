//! The relevance score of a workspace against a list of search terms.
//!
//! A score is an exact fraction. The name of a workspace gives ten points for
//! each term if every term stands in it, and nothing otherwise. Its location
//! gives, if every term stands in it, for each term the offset of the term's
//! rightmost occurrence divided by the length of the location, and nothing
//! otherwise. All comparisons are made on lower-cased text.

use vstd::prelude::*;
use crate::text::{
    fold_case, folded, folded_all, last_occurrence, lemma_last_occurrence_unique, lowercase_of,
    occurs_in, rfind_bytes,
};
use crate::workspace::{RecentWorkspace, WorkspaceModel};

verus! {

/// The texts of a list of strings.
pub open spec fn texts(v: Seq<String>) -> Seq<Seq<char>> {
    Seq::new(v.len(), |k: int| v[k]@)
}

/// The byte sequences of a list of byte vectors.
pub open spec fn byte_texts(v: Seq<Vec<u8>>) -> Seq<Seq<u8>> {
    Seq::new(v.len(), |k: int| v[k]@)
}

/// Every needle stands in `hay`.
pub open spec fn all_occur(hay: Seq<u8>, needles: Seq<Seq<u8>>) -> bool {
    forall|k: int| 0 <= k < needles.len() ==> occurs_in(hay, #[trigger] needles[k])
}

/// The sum, over the needles, of the rightmost offset of each in `hay`.
pub open spec fn position_sum(hay: Seq<u8>, needles: Seq<Seq<u8>>) -> int
    decreases needles.len(),
{
    if needles.len() == 0 {
        0
    } else {
        position_sum(hay, needles.drop_last()) + last_occurrence(hay, needles.last())
    }
}

/// The points that a name gives: ten for each needle, if all needles stand
/// in it.
pub open spec fn name_points(name: Seq<u8>, needles: Seq<Seq<u8>>) -> int {
    if all_occur(name, needles) {
        10 * (needles.len() as int)
    } else {
        0
    }
}

/// The denominator of a score: the length of the location (one where the
/// location is empty).
pub open spec fn url_scale(url: Seq<u8>) -> int {
    if url.len() == 0 {
        1
    } else {
        url.len() as int
    }
}

/// What a location gives, as a numerator over [`url_scale`]: the sum of the
/// rightmost offsets, if all needles stand in it.
pub open spec fn url_points(url: Seq<u8>, needles: Seq<Seq<u8>>) -> int {
    if all_occur(url, needles) {
        position_sum(url, needles)
    } else {
        0
    }
}

/// A score has no value where an offset would be divided by a length of
/// zero: the location is empty and every one of at least one needle stands
/// in it.
pub open spec fn folded_score_defined(url: Seq<u8>, needles: Seq<Seq<u8>>) -> bool {
    !(url.len() == 0 && needles.len() > 0 && all_occur(url, needles))
}

/// The numerator of a score over [`url_scale`], from texts in folded form.
pub open spec fn folded_score_num(name: Seq<u8>, url: Seq<u8>, needles: Seq<Seq<u8>>) -> int {
    name_points(name, needles) * url_scale(url) + url_points(url, needles)
}

/// The denominator of the score of a workspace.
pub open spec fn score_scale(w: WorkspaceModel) -> int {
    url_scale(folded(w.url))
}

/// Whether the score of a workspace against `terms` has a value.
pub open spec fn score_defined(w: WorkspaceModel, terms: Seq<Seq<char>>) -> bool {
    folded_score_defined(folded(w.url), folded_all(terms))
}

/// The numerator, over [`score_scale`], of the score of a workspace against
/// `terms`: name, location and terms are compared in folded form.
pub open spec fn score_num(w: WorkspaceModel, terms: Seq<Seq<char>>) -> int {
    folded_score_num(folded(w.name), folded(w.url), folded_all(terms))
}

/// A workspace matches if its score has a value above zero.
pub open spec fn is_match(w: WorkspaceModel, terms: Seq<Seq<char>>) -> bool {
    score_defined(w, terms) && score_num(w, terms) > 0
}

/// The score of `a` is strictly above that of `b`.
pub open spec fn outscores(a: WorkspaceModel, b: WorkspaceModel, terms: Seq<Seq<char>>) -> bool {
    score_num(a, terms) * score_scale(b) > score_num(b, terms) * score_scale(a)
}

/// A score: `whole + rem / den`, with `rem / den` below one.
#[derive(Debug, Clone, Copy, PartialEq, Eq)]
pub struct Score {
    pub whole: u128,
    pub rem: u64,
    pub den: u64,
}

impl Score {
    /// The fraction is proper and its denominator is not zero.
    pub open spec fn wf(&self) -> bool {
        0 < self.den && self.rem < self.den
    }

    /// The numerator of the whole score over `den`.
    pub open spec fn num(&self) -> int {
        self.whole * self.den + self.rem
    }

    /// This score is strictly above `other`.
    pub open spec fn exceeds(&self, other: &Score) -> bool {
        self.num() * other.den > other.num() * self.den
    }

    /// Tells whether the score is above zero.
    pub fn is_positive(&self) -> (res: bool)
        requires
            self.wf(),
        ensures
            res == (self.num() > 0),
    {
        proof {
            lemma_fraction_parts(self.whole as int, self.rem as int, self.den as int);
        }
        self.whole > 0 || self.rem > 0
    }

    /// Tells whether this score is strictly above `other`.
    pub fn outranks(&self, other: &Score) -> (res: bool)
        requires
            self.wf(),
            other.wf(),
        ensures
            res == self.exceeds(other),
    {
        proof {
            lemma_compare_fractions(
                self.whole as int,
                self.rem as int,
                self.den as int,
                other.whole as int,
                other.rem as int,
                other.den as int,
            );
            assert(self.rem * other.den <= u64::MAX * u64::MAX) by (nonlinear_arith)
                requires
                    self.rem <= u64::MAX,
                    other.den <= u64::MAX,
            ;
            assert(other.rem * self.den <= u64::MAX * u64::MAX) by (nonlinear_arith)
                requires
                    other.rem <= u64::MAX,
                    self.den <= u64::MAX,
            ;
        }
        if self.whole != other.whole {
            self.whole > other.whole
        } else {
            let left: u128 = (self.rem as u128) * (other.den as u128);
            let right: u128 = (other.rem as u128) * (self.den as u128);
            left > right
        }
    }
}

/// A mixed fraction is above zero exactly if one of its parts is.
pub proof fn lemma_fraction_parts(q: int, r: int, d: int)
    requires
        0 <= q,
        0 <= r < d,
    ensures
        (q * d + r > 0) <==> (q > 0 || r > 0),
{
    assert(q > 0 ==> q * d >= d) by (nonlinear_arith)
        requires
            0 < d,
    ;
    assert(q == 0 ==> q * d == 0) by (nonlinear_arith);
}

/// Two mixed fractions compare first by their whole parts, then by their
/// proper fractions.
pub proof fn lemma_compare_fractions(q1: int, r1: int, d1: int, q2: int, r2: int, d2: int)
    requires
        0 <= q1,
        0 <= r1 < d1,
        0 <= q2,
        0 <= r2 < d2,
    ensures
        ((q1 * d1 + r1) * d2 > (q2 * d2 + r2) * d1) <==> (q1 > q2 || (q1 == q2 && r1 * d2 > r2
            * d1)),
{
    let unit = d1 * d2;
    let a = r1 * d2;
    let b = r2 * d1;
    assert(0 <= a < unit) by (nonlinear_arith)
        requires
            a == r1 * d2,
            unit == d1 * d2,
            0 <= r1 < d1,
            0 < d2,
    ;
    assert(0 <= b < unit) by (nonlinear_arith)
        requires
            b == r2 * d1,
            unit == d1 * d2,
            0 <= r2 < d2,
            0 < d1,
    ;
    assert((q1 * d1 + r1) * d2 == q1 * unit + a) by (nonlinear_arith)
        requires
            a == r1 * d2,
            unit == d1 * d2,
    ;
    assert((q2 * d2 + r2) * d1 == q2 * unit + b) by (nonlinear_arith)
        requires
            b == r2 * d1,
            unit == d1 * d2,
    ;
    assert(q1 > q2 ==> q1 * unit >= q2 * unit + unit) by (nonlinear_arith)
        requires
            0 < unit,
    ;
    assert(q2 > q1 ==> q2 * unit >= q1 * unit + unit) by (nonlinear_arith)
        requires
            0 < unit,
    ;
}

/// Adding a needle to a list adds its rightmost offset to the sum, and asks
/// that it too stands in `hay`.
pub proof fn lemma_needles_step(hay: Seq<u8>, needles: Seq<Seq<u8>>, k: int)
    requires
        0 <= k < needles.len(),
    ensures
        all_occur(hay, needles.take(k + 1)) == (all_occur(hay, needles.take(k)) && occurs_in(
            hay,
            needles[k],
        )),
        position_sum(hay, needles.take(k + 1)) == position_sum(hay, needles.take(k))
            + last_occurrence(hay, needles[k]),
{
    let longer = needles.take(k + 1);
    let shorter = needles.take(k);
    assert(longer.drop_last() =~= shorter);
    assert(longer.last() == needles[k]);
    if all_occur(hay, longer) {
        assert(occurs_in(hay, longer[k]));
        assert forall|m: int| 0 <= m < shorter.len() implies occurs_in(
            hay,
            #[trigger] shorter[m],
        ) by {
            assert(shorter[m] == longer[m]);
        }
    }
    if all_occur(hay, shorter) && occurs_in(hay, needles[k]) {
        assert forall|m: int| 0 <= m < longer.len() implies occurs_in(hay, #[trigger] longer[m]) by {
            if m < k {
                assert(longer[m] == shorter[m]);
            }
        }
    }
}

/// Matching ignores case, in the name, in the location and in the terms:
/// workspaces and terms that are the same but for case have the same score.
pub proof fn lemma_score_ignores_case(
    a: WorkspaceModel,
    b: WorkspaceModel,
    ta: Seq<Seq<char>>,
    tb: Seq<Seq<char>>,
)
    requires
        lowercase_of(a.name) == lowercase_of(b.name),
        lowercase_of(a.url) == lowercase_of(b.url),
        ta.len() == tb.len(),
        forall|k: int| 0 <= k < ta.len() ==> lowercase_of(#[trigger] ta[k]) == lowercase_of(tb[k]),
    ensures
        score_scale(a) == score_scale(b),
        score_defined(a, ta) == score_defined(b, tb),
        score_num(a, ta) == score_num(b, tb),
        is_match(a, ta) == is_match(b, tb),
{
    assert(folded_all(ta) =~= folded_all(tb));
}

/// The name gives all or nothing: if one term does not stand in the name, the
/// name gives no points, whatever the other terms do, and the score is what
/// the location gives.
pub proof fn lemma_name_all_or_nothing(w: WorkspaceModel, terms: Seq<Seq<char>>, k: int)
    requires
        0 <= k < terms.len(),
        !occurs_in(folded(w.name), folded(terms[k])),
    ensures
        name_points(folded(w.name), folded_all(terms)) == 0,
        score_num(w, terms) == url_points(folded(w.url), folded_all(terms)),
{
    assert(folded_all(terms)[k] == folded(terms[k]));
}

/// The location gives all or nothing: if one term does not stand in the
/// location, the location gives nothing, and the score is what the name
/// gives.
pub proof fn lemma_url_all_or_nothing(w: WorkspaceModel, terms: Seq<Seq<char>>, k: int)
    requires
        0 <= k < terms.len(),
        !occurs_in(folded(w.url), folded(terms[k])),
    ensures
        url_points(folded(w.url), folded_all(terms)) == 0,
        score_defined(w, terms),
        score_num(w, terms) == name_points(folded(w.name), folded_all(terms)) * score_scale(w),
{
    assert(folded_all(terms)[k] == folded(terms[k]));
}

/// Computes a score from texts in folded form: the name and the location of
/// a workspace, and the terms.
///
/// Returns `None` where the score has no value (see
/// [`folded_score_defined`]), and otherwise the score as a mixed fraction
/// over [`url_scale`].
pub fn score_folded(name: &[u8], url: &[u8], needles: &Vec<Vec<u8>>) -> (res: Option<Score>)
    ensures
        res.is_some() == folded_score_defined(url@, byte_texts(needles@)),
        match res {
            Some(s) => s.wf() && s.den == url_scale(url@) && s.num() == folded_score_num(
                name@,
                url@,
                byte_texts(needles@),
            ),
            None => true,
        },
{
    let n: usize = needles.len();
    let den: u64 = if url.len() == 0 {
        1
    } else {
        url.len() as u64
    };
    let ghost all = byte_texts(needles@);
    let mut name_all = true;
    let mut url_all = true;
    let mut carry: u128 = 0;
    let mut rem: u64 = 0;
    let mut k: usize = 0;
    while k < n
        invariant
            n == needles.len(),
            k <= n,
            all == byte_texts(needles@),
            den == url_scale(url@),
            name_all == all_occur(name@, all.take(k as int)),
            url_all == all_occur(url@, all.take(k as int)),
            url_all ==> carry * den + rem == position_sum(url@, all.take(k as int)),
            carry <= k,
            rem < den,
        decreases n - k,
    {
        let needle: &[u8] = needles[k].as_slice();
        proof {
            lemma_needles_step(name@, all, k as int);
            lemma_needles_step(url@, all, k as int);
        }
        if name_all && rfind_bytes(name, needle).is_none() {
            name_all = false;
        }
        if url_all {
            match rfind_bytes(url, needle) {
                Some(at) => {
                    proof {
                        lemma_last_occurrence_unique(url@, needle@, at as int);
                        assert((carry + 1) * den == carry * den + den) by (nonlinear_arith);
                    }
                    let sum: u128 = (rem as u128) + (at as u128);
                    if sum >= den as u128 {
                        rem = (sum - den as u128) as u64;
                        carry = carry + 1;
                    } else {
                        rem = sum as u64;
                    }
                },
                None => {
                    url_all = false;
                },
            }
        }
        k += 1;
    }
    proof {
        assert(all.take(n as int) =~= all);
    }
    if url.len() == 0 && n > 0 && url_all {
        return None;
    }
    let from_name: u128 = if name_all {
        10 * (n as u128)
    } else {
        0
    };
    let score = if url_all {
        Score { whole: from_name + carry, rem, den }
    } else {
        Score { whole: from_name, rem: 0, den }
    };
    proof {
        assert((from_name + carry) * den == from_name * den + carry * den) by (nonlinear_arith);
    }
    Some(score)
}

/// Folds each of the terms.
pub fn fold_terms(terms: &Vec<String>) -> (needles: Vec<Vec<u8>>)
    ensures
        byte_texts(needles@) == folded_all(texts(terms@)),
{
    let n: usize = terms.len();
    let mut needles: Vec<Vec<u8>> = Vec::new();
    let mut k: usize = 0;
    while k < n
        invariant
            n == terms.len(),
            k <= n,
            needles@.len() == k,
            forall|j: int| 0 <= j < k ==> (#[trigger] needles@[j])@ == folded(terms@[j]@),
        decreases n - k,
    {
        needles.push(fold_case(terms[k].as_str()));
        k += 1;
    }
    proof {
        assert(byte_texts(needles@) =~= folded_all(texts(terms@)));
    }
    needles
}

/// Computes the score of `workspace` against `terms`, all compared without
/// regard to case.
///
/// Returns `None` where the score has no value (see [`score_defined`]), and
/// otherwise the score as a mixed fraction over [`score_scale`].
pub fn match_score(workspace: &RecentWorkspace, terms: &Vec<String>) -> (res: Option<Score>)
    ensures
        res.is_some() == score_defined(workspace@, texts(terms@)),
        match res {
            Some(s) => s.wf() && s.den == score_scale(workspace@) && s.num() == score_num(
                workspace@,
                texts(terms@),
            ),
            None => true,
        },
{
    let name = fold_case(workspace.name.as_str());
    let url = fold_case(workspace.url.as_str());
    let needles = fold_terms(terms);
    score_folded(name.as_slice(), url.as_slice(), &needles)
}

} // verus!
