//! Matching a stroke against a set of template profiles.
use vstd::prelude::*;
use crate::geometry::{Vec2, UNIT};
use crate::profile::{resample, stroke_length, tangents_from_stroke, valid_stroke, MAX_TANGENTS};
use crate::similarity::{
    bounded_profile, lemma_near_unit_profile, lemma_self_similarity_near, lemma_similarity_bounded,
    near_unit_profile, scorable, short_profile, similarity_den, similarity_num,
    tangents_similarity, Ratio, MAX_SAMPLES,
};

verus! {

/// Penalty charged for a skip when matching templates: a quarter unit squared.
pub const MATCH_PENALTY: i64 = 4194304;

/// The score reported for a template that cannot be scored against a stroke.
pub open spec fn unscored() -> Ratio {
    Ratio { num: -1i64, den: 1i64 }
}

/// The score of `input` against template `t`: the similarity numerator, or
/// `None` where the pair cannot be scored (an empty or unbounded profile).
pub open spec fn score_of(input: Seq<Vec2>, t: Seq<Vec2>) -> Option<int> {
    if scorable(input, t, MATCH_PENALTY as int) {
        Some(similarity_num(input, t, MATCH_PENALTY as int))
    } else {
        None
    }
}

/// `r` names the template with the strictly greatest positive score, the
/// first one among equals; `None` when no score is positive.
pub open spec fn is_best(scores: Seq<Option<int>>, r: Option<usize>) -> bool {
    match r {
        None => forall|k: int|
            0 <= k < scores.len() ==> match #[trigger] scores[k] {
                Some(v) => v <= 0,
                None => true,
            },
        Some(i) => {
            &&& i < scores.len()
            &&& scores[i as int] is Some
            &&& scores[i as int].unwrap() > 0
            &&& forall|k: int|
                0 <= k < i ==> match #[trigger] scores[k] {
                    Some(v) => v < scores[i as int].unwrap(),
                    None => true,
                }
            &&& forall|k: int|
                i < k < scores.len() ==> match #[trigger] scores[k] {
                    Some(v) => v <= scores[i as int].unwrap(),
                    None => true,
                }
        },
    }
}

/// At most one answer meets `is_best` for given scores.
pub proof fn lemma_best_unique(scores: Seq<Option<int>>, a: Option<usize>, b: Option<usize>)
    requires
        is_best(scores, a),
        is_best(scores, b),
    ensures
        a == b,
{
    match (a, b) {
        (Some(i), Some(j)) => {
            if i < j {
                let _ = scores[i as int];
            } else if j < i {
                let _ = scores[j as int];
            }
        },
        (Some(i), None) => {
            let _ = scores[i as int];
        },
        (None, Some(j)) => {
            let _ = scores[j as int];
        },
        (None, None) => {},
    }
}

/// A set of template profiles that all share one sample count.
pub struct Recognizer {
    n_samples: usize,
    templates: Vec<Vec<Vec2>>,
}

impl Recognizer {
    /// The sample count of every profile.
    pub closed spec fn samples(self) -> nat {
        self.n_samples as nat
    }

    /// The template profiles, in the order they were added.
    pub closed spec fn profiles(self) -> Seq<Seq<Vec2>> {
        self.templates@.map_values(|t: Vec<Vec2>| t@)
    }

    /// Every template has `samples()` tangents of unit length up to rounding, or
    /// none for a template of zero length.
    pub open spec fn wf(self) -> bool {
        &&& self.samples() <= MAX_TANGENTS
        &&& forall|k: int|
            0 <= k < self.profiles().len() ==> {
                &&& #[trigger] self.profiles()[k].len() == self.samples()
                    || self.profiles()[k].len() == 0
                &&& near_unit_profile(self.profiles()[k])
            }
    }

    /// Scores of a stroke against each template, in template order.
    pub open spec fn scores(self, stroke: Seq<Vec2>) -> Seq<Option<int>> {
        let input = resample(stroke, self.samples() as int);
        self.profiles().map_values(|t: Seq<Vec2>| score_of(input, t))
    }

    pub proof fn lemma_wf_lengths(self)
        requires
            self.wf(),
        ensures
            self.samples() <= MAX_SAMPLES,
            forall|k: int|
                0 <= k < self.profiles().len() ==> #[trigger] self.profiles()[k].len() == self.samples()
                    || self.profiles()[k].len() == 0,
    {
    }

    /// An empty recognizer for profiles of `n` tangents.
    pub fn new(n: usize) -> (r: Self)
        requires
            n <= MAX_TANGENTS,
        ensures
            r.wf(),
            r.samples() == n,
            r.profiles() == Seq::<Seq<Vec2>>::empty(),
    {
        let r = Recognizer { n_samples: n, templates: Vec::new() };
        assert(r.profiles() =~= Seq::<Seq<Vec2>>::empty());
        r
    }

    /// The similarity of `input` to template `k`, where the pair can be
    /// scored.
    fn score(&self, input: &Vec<Vec2>, k: usize) -> (r: Option<Ratio>)
        requires
            self.wf(),
            k < self.profiles().len(),
            input@.len() == self.samples(),
            bounded_profile(input@),
        ensures
            r is Some <==> score_of(input@, self.profiles()[k as int]) is Some,
            r is Some ==> r.unwrap().num == score_of(input@, self.profiles()[k as int]).unwrap(),
            r is Some ==> r.unwrap().den == similarity_den(input@, self.profiles()[k as int]),
    {
        proof {
            self.lemma_wf_lengths();
            lemma_near_unit_profile(self.profiles()[k as int]);
        }
        let t = &self.templates[k];
        assert(t@ == self.profiles()[k as int]);
        if input.len() > 0 && t.len() > 0 {
            Some(tangents_similarity(input, t, MATCH_PENALTY))
        } else {
            None
        }
    }

    /// The index of the template that `stroke` matches best, if any scores
    /// above zero; the first one among equal scores.
    pub fn recognize(&self, stroke: &[Vec2]) -> (r: Option<usize>)
        requires
            self.wf(),
            valid_stroke(stroke@),
        ensures
            is_best(self.scores(stroke@), r),
    {
        let input = tangents_from_stroke(stroke, self.n_samples);
        let ghost sc = self.scores(stroke@);
        let mut best_idx: Option<usize> = None;
        let mut best_num: i64 = 0;
        let mut k: usize = 0;
        while k < self.templates.len()
            invariant
                self.wf(),
                input@ == resample(stroke@, self.samples() as int),
                input@.len() == self.samples() || input@.len() == 0,
                near_unit_profile(input@),
                sc == self.scores(stroke@),
                sc.len() == self.profiles().len(),
                k <= sc.len(),
                best_idx is None ==> best_num == 0 && forall|m: int|
                    0 <= m < k ==> match #[trigger] sc[m] {
                        Some(v) => v <= 0,
                        None => true,
                    },
                best_idx is Some ==> {
                    let i = best_idx.unwrap() as int;
                    &&& i < k
                    &&& sc[i] == Some(best_num as int)
                    &&& best_num > 0
                    &&& forall|m: int|
                        0 <= m < i ==> match #[trigger] sc[m] {
                            Some(v) => v < best_num,
                            None => true,
                        }
                    &&& forall|m: int|
                        i < m < k ==> match #[trigger] sc[m] {
                            Some(v) => v <= best_num,
                            None => true,
                        }
                },
            decreases sc.len() - k,
        {
            let sim: Option<Ratio>;
            if input.len() == 0 {
                assert(sc[k as int] is None);
                sim = None;
            } else {
                sim = self.score(&input, k);
            }
            match sim {
                Some(x) => {
                    if x.num > best_num {
                        best_num = x.num;
                        best_idx = Some(k);
                    }
                },
                None => {},
            }
            k = k + 1;
        }
        best_idx
    }

    /// The similarity of `stroke` to each template, in template order; a
    /// template that cannot be scored against it gets `-1 / 1`.
    pub fn recognize_all(&self, stroke: &[Vec2]) -> (r: Vec<Ratio>)
        requires
            self.wf(),
            valid_stroke(stroke@),
        ensures
            r@.len() == self.profiles().len(),
            forall|k: int|
                0 <= k < r@.len() ==> #[trigger] r@[k] == match self.scores(stroke@)[k] {
                    Some(v) => Ratio {
                        num: v as i64,
                        den: similarity_den(
                            resample(stroke@, self.samples() as int),
                            self.profiles()[k],
                        ) as i64,
                    },
                    None => unscored(),
                },
            forall|k: int|
                0 <= k < r@.len() ==> #[trigger] r@[k] == unscored() || -r@[k].den <= r@[k].num
                    <= r@[k].den,
            forall|k: int|
                0 <= k < r@.len() && stroke_length(stroke@) > 0 && self.samples() > 0
                    && self.profiles()[k].len() > 0 ==> #[trigger] self.scores(stroke@)[k] is Some,
    {
        let input = tangents_from_stroke(stroke, self.n_samples);
        let ghost sc = self.scores(stroke@);
        let mut out: Vec<Ratio> = Vec::new();
        let mut k: usize = 0;
        while k < self.templates.len()
            invariant
                self.wf(),
                input@ == resample(stroke@, self.samples() as int),
                input@.len() == self.samples() || input@.len() == 0,
                near_unit_profile(input@),
                sc == self.scores(stroke@),
                sc.len() == self.profiles().len(),
                k <= sc.len(),
                out@.len() == k,
                forall|m: int|
                    0 <= m < k ==> #[trigger] out@[m] == match sc[m] {
                        Some(v) => Ratio {
                            num: v as i64,
                            den: similarity_den(input@, self.profiles()[m]) as i64,
                        },
                        None => unscored(),
                    },
            decreases sc.len() - k,
        {
            let sim: Option<Ratio>;
            if input.len() == 0 {
                assert(sc[k as int] is None);
                sim = None;
            } else {
                sim = self.score(&input, k);
            }
            match sim {
                Some(x) => out.push(x),
                None => out.push(Ratio { num: -1, den: 1 }),
            }
            k = k + 1;
        }
        proof {
            assert forall|m: int| 0 <= m < out@.len() implies #[trigger] out@[m] == unscored()
                || -out@[m].den <= out@[m].num <= out@[m].den by {
                self.lemma_score_bounded(stroke@, m);
            }
            assert forall|m: int|
                0 <= m < out@.len() && stroke_length(stroke@) > 0 && self.samples() > 0
                    && self.profiles()[m].len() > 0 implies #[trigger] sc[m] is Some by {
                self.lemma_score_bounded(stroke@, m);
            }
        }
        out
    }

    /// Every score of a stroke lies in `[-1, 1]`, and every template with
    /// tangents gets one when the stroke has positive length.
    pub proof fn lemma_score_bounded(self, stroke: Seq<Vec2>, m: int)
        requires
            self.wf(),
            valid_stroke(stroke),
            0 <= m < self.profiles().len(),
        ensures
            match self.scores(stroke)[m] {
                Some(v) => {
                    let den = similarity_den(resample(stroke, self.samples() as int), self.profiles()[m]);
                    &&& -den <= v <= den
                    &&& den == 67108864 * self.samples()
                    &&& v as i64 == v
                    &&& den as i64 == den
                },
                None => true,
            },
            stroke_length(stroke) > 0 && self.samples() > 0 && self.profiles()[m].len() > 0
                ==> self.scores(stroke)[m] is Some,
    {
        let input = resample(stroke, self.samples() as int);
        let t = self.profiles()[m];
        crate::profile::lemma_resample_near_unit(stroke, self.samples() as int);
        lemma_near_unit_profile(input);
        lemma_near_unit_profile(t);
        if scorable(input, t, MATCH_PENALTY as int) {
            assert(UNIT * UNIT == 16777216);
            lemma_similarity_bounded(input, t, MATCH_PENALTY as int);
            assert(input.len() == t.len());
            assert(self.samples() <= 65536);
        }
    }

    /// The stroke of template `k` scores against it within rounding of the
    /// largest possible similarity, one: more than `(UNIT - 2)^2 / UNIT^2`.
    /// The template recognized scores at least as much, and lies after `k`
    /// only where it scores strictly more.
    pub proof fn lemma_own_template_best(self, stroke: Seq<Vec2>, k: int, r: Option<usize>)
        requires
            self.wf(),
            valid_stroke(stroke),
            0 <= k < self.profiles().len(),
            self.profiles()[k] == resample(stroke, self.samples() as int),
            stroke_length(stroke) > 0,
            self.samples() > 0,
            is_best(self.scores(stroke), r),
        ensures
            r is Some,
            self.scores(stroke)[k] is Some,
            self.scores(stroke)[k].unwrap() >= 67043344 * (self.samples() as int),
            self.scores(stroke)[r.unwrap() as int] is Some,
            self.scores(stroke)[k].unwrap() <= self.scores(stroke)[r.unwrap() as int].unwrap()
                <= 67108864 * (self.samples() as int),
            r.unwrap() <= k || self.scores(stroke)[k].unwrap() < self.scores(
                stroke,
            )[r.unwrap() as int].unwrap(),
    {
        let input = resample(stroke, self.samples() as int);
        let sc = self.scores(stroke);
        self.lemma_score_bounded(stroke, k);
        crate::profile::lemma_resample_near_unit(stroke, self.samples() as int);
        lemma_self_similarity_near(input, MATCH_PENALTY as int);
        assert(sc[k] is Some);
        match r {
            Some(i) => {
                self.lemma_score_bounded(stroke, i as int);
            },
            None => {
            },
        }
    }

    /// Adds the profile of `stroke` as the last template.
    pub fn add_template(&mut self, stroke: &[Vec2])
        requires
            old(self).wf(),
            valid_stroke(stroke@),
        ensures
            final(self).wf(),
            final(self).samples() == old(self).samples(),
            final(self).profiles() == old(self).profiles().push(
                resample(stroke@, old(self).samples() as int),
            ),
    {
        let t = tangents_from_stroke(stroke, self.n_samples);
        self.templates.push(t);
        assert(self.profiles() =~= old(self).profiles().push(
            resample(stroke@, old(self).samples() as int),
        ));
    }
}

} // verus!
