//! Depth-first improvement: a stack of promising recipes, each mutated a
//! bounded number of times; a better child goes on top of its parent.
use vstd::prelude::*;
use crate::simulator::lemma_floor_neg;

verus! {

/// A sample as numbers.
pub struct SampleModel {
    pub recipe: Seq<char>,
    pub generation: u32,
    pub children: u32,
    pub score: Option<i64>,
}

/// The mean of two scores, rounded down.
pub open spec fn mean2(a: int, b: int) -> int {
    (a + b) / 2
}

/// A recipe with its generation, the number of children made from it and
/// its score (in thousandths), if it has one.
pub struct BotSample {
    pub recipe: String,
    pub generation: u32,
    pub children: u32,
    pub score: Option<i64>,
}

impl BotSample {
    /// The sample as numbers.
    pub open spec fn view(&self) -> SampleModel {
        SampleModel {
            recipe: self.recipe@,
            generation: self.generation,
            children: self.children,
            score: self.score,
        }
    }

    /// A first-generation sample without a score.
    pub fn new(recipe: String) -> (r: BotSample)
        ensures
            r@ == (SampleModel { recipe: recipe@, generation: 0, children: 0, score: None }),
    {
        BotSample { recipe, generation: 0, children: 0, score: None }
    }

    /// The child of a sample of generation `old_generation` and score
    /// `old_score`: its score is averaged with the parent's to damp lucky
    /// flukes.
    pub fn new_from(old_generation: u32, old_score: Option<i64>, recipe: String, new_score: i64) -> (r: BotSample)
        requires
            old_generation < u32::MAX,
        ensures
            r@ == (SampleModel {
                recipe: recipe@,
                generation: (old_generation + 1) as u32,
                children: 0,
                score: Some(match old_score {
                    Some(x) => mean2(new_score as int, x as int) as i64,
                    None => new_score,
                }),
            }),
    {
        let score = match old_score {
            Some(x) => {
                let sum: i128 = new_score as i128 + x as i128;
                if sum >= 0 {
                    (sum / 2) as i64
                } else {
                    let q = (0 - sum + 1) / 2;
                    proof {
                        lemma_floor_neg(0 - sum, 2);
                    }
                    (0 - q) as i64
                }
            },
            None => new_score,
        };
        BotSample { recipe, generation: old_generation + 1, children: 0, score: Some(score) }
    }

    /// The sample that marks "no result": an empty recipe.
    pub fn null() -> (r: BotSample)
        ensures
            r@ == (SampleModel { recipe: Seq::empty(), generation: 0, children: 0, score: None }),
    {
        BotSample::new(String::new())
    }

    /// Whether this is the "no result" sample.
    pub fn is_null(&self) -> (r: bool)
        ensures
            r == (self.recipe@.len() == 0),
    {
        self.recipe.as_str().unicode_len() == 0
    }

    fn copy(&self) -> (r: BotSample)
        ensures
            r@ == self@,
    {
        BotSample {
            recipe: self.recipe.clone(),
            generation: self.generation,
            children: self.children,
            score: self.score,
        }
    }
}

/// Whether `last`, made from a sample at most one generation above `top`,
/// replaces `top`: a scored child beats an unscored parent, and a higher
/// score beats a lower one.
pub open spec fn keeps(top: SampleModel, last: SampleModel) -> bool {
    &&& last.generation <= top.generation + 1
    &&& match top.score {
        Some(x) => match last.score {
            Some(y) => y > x,
            None => false,
        },
        None => last.score.is_some(),
    }
}

/// Whether `last` is kept and sets a new best score.
pub open spec fn is_high(top: SampleModel, last: SampleModel, best: Option<i64>) -> bool {
    &&& keeps(top, last)
    &&& last.score.is_some()
    &&& match best {
        Some(b) => last.score.unwrap() > b,
        None => true,
    }
}

/// `s` with one more child.
pub open spec fn with_child(s: SampleModel) -> SampleModel {
    SampleModel { children: (s.children + 1) as u32, ..s }
}

/// The stack of promising samples.
pub struct BotStack {
    stack: Vec<BotSample>,
    child_limit: u32,
    best_score: Option<i64>,
    best_recipe: Option<String>,
}

impl BotStack {
    /// The stack, bottom first.
    pub closed spec fn samples(&self) -> Seq<SampleModel> {
        self.stack@.map_values(|s: BotSample| s@)
    }

    /// The number of children after which a sample leaves the stack.
    pub closed spec fn limit(&self) -> u32 {
        self.child_limit
    }

    /// The best score seen.
    pub closed spec fn best(&self) -> Option<i64> {
        self.best_score
    }

    /// No sample on the stack has more children than the limit.
    pub open spec fn wf(&self) -> bool {
        &&& self.limit() < u32::MAX
        &&& forall|i: int| 0 <= i < self.samples().len() ==> (#[trigger] self.samples()[i]).children <= self.limit()
    }

    /// An empty stack.
    pub fn new(child_limit: u32) -> (r: BotStack)
        requires
            child_limit < u32::MAX,
        ensures
            r.wf(),
            r.samples().len() == 0,
            r.limit() == child_limit,
            r.best().is_none(),
    {
        let r = BotStack { stack: Vec::new(), child_limit, best_score: None, best_recipe: None };
        assert(r.samples() =~= Seq::<SampleModel>::empty());
        r
    }

    /// Puts `sample` on top.
    pub fn push(&mut self, sample: BotSample)
        requires
            old(self).wf(),
            sample.children <= old(self).limit(),
        ensures
            final(self).wf(),
            final(self).samples() == old(self).samples().push(sample@),
            final(self).limit() == old(self).limit(),
            final(self).best() == old(self).best(),
    {
        self.stack.push(sample);
        assert(self.samples() =~= old(self).samples().push(sample@));
    }

    /// Takes the latest result and hands out the sample to mutate next.
    /// The top sample is popped; `last_result` replaces it when it `keeps`,
    /// with the old top put back beneath it. The chosen sample counts one
    /// more child; past the limit it leaves the stack, else it stays on top.
    /// The second part of the result is the recipe of a new best score.
    pub fn next(&mut self, last_result: BotSample) -> (r: (Option<BotSample>, Option<String>))
        requires
            old(self).wf(),
            last_result.children <= old(self).limit(),
        ensures
            final(self).wf(),
            final(self).limit() == old(self).limit(),
            old(self).samples().len() == 0 ==> r.0.is_none() && r.1.is_none()
                && final(self).samples() == old(self).samples() && final(self).best() == old(self).best(),
            old(self).samples().len() > 0 ==> {
                let top = old(self).samples().last();
                let rest = old(self).samples().drop_last();
                let kept = keeps(top, last_result@);
                let high = is_high(top, last_result@, old(self).best());
                let base = if kept { rest.push(top) } else { rest };
                let chosen = with_child(if kept { last_result@ } else { top });
                &&& r.0.is_some() && r.0.unwrap()@ == chosen
                &&& final(self).samples() == if chosen.children > old(self).limit() { base } else { base.push(chosen) }
                &&& final(self).best() == if high { last_result@.score } else { old(self).best() }
                &&& r.1.is_some() == high
                &&& high ==> r.1.unwrap()@ == last_result@.recipe
            },
    {
        let ghost old_samples = self.samples();
        let sample = match self.stack.pop() {
            Some(x) => x,
            None => {
                return (None, None);
            },
        };
        proof {
            assert(self.samples() =~= old_samples.drop_last());
            assert(sample@ == old_samples.last());
            assert(sample.children <= self.child_limit) by {
                assert(old_samples[old_samples.len() - 1] == old_samples.last());
            }
        }
        let keep = last_result.generation as u64 <= sample.generation as u64 + 1 && match sample.score {
            Some(x) => match last_result.score {
                Some(y) => y > x,
                None => false,
            },
            None => last_result.score.is_some(),
        };
        let mut persist: Option<String> = None;
        let mut chosen = if keep {
            if let Some(x) = last_result.score {
                let is_high_score = match self.best_score {
                    Some(y) => x > y,
                    None => true,
                };
                if is_high_score {
                    self.best_score = last_result.score;
                    self.best_recipe = Some(last_result.recipe.clone());
                    persist = Some(last_result.recipe.clone());
                }
            }
            let ghost before = self.samples();
            self.stack.push(sample);
            assert(self.samples() =~= before.push(old_samples.last()));
            last_result
        } else {
            sample
        };
        chosen.children = chosen.children + 1;
        let ghost base = self.samples();
        if chosen.children > self.child_limit {
            (Some(chosen), persist)
        } else {
            let out = chosen.copy();
            self.stack.push(chosen);
            assert(self.samples() =~= base.push(out@));
            (Some(out), persist)
        }
    }
}

} // verus!
