//! The fuzzy agent: the nearest example by edit distance, without limits.

use vstd::prelude::*;
use crate::agent::{
    copy_examples, corpus_view, Agent, AnswerView, ExampleView, ResponseFormat, TrainableAgent,
    TrainingExample,
};
use crate::match_agent::{distance_to, levenshtein};
use crate::simple_agent::nothing_found;
use crate::unicode::lowercase;

verus! {

/// Whether example `i` is the nearest to the query: nearer than each
/// example before it, and no farther than any after it.
pub open spec fn nearest_of_all(corpus: Seq<ExampleView>, query: Seq<char>, i: int) -> bool {
    &&& 0 <= i < corpus.len()
    &&& forall|j: int|
        0 <= j < corpus.len() ==> {
            &&& distance_to(corpus, query, i) <= #[trigger] distance_to(corpus, query, j)
            &&& j < i ==> distance_to(corpus, query, i) < distance_to(corpus, query, j)
        }
}

/// The answer of the fuzzy agent: that of the example nearest to the
/// query, or that nothing was found where there is no example.
pub open spec fn nearest_answer(corpus: Seq<ExampleView>, query: Seq<char>) -> AnswerView {
    if corpus.len() == 0 {
        nothing_found()
    } else {
        corpus[choose|i: int| nearest_of_all(corpus, query, i)].output
    }
}

/// An agent that answers with the example whose input is nearest to the
/// query.
pub struct FuzzyAgent {
    memory: Vec<TrainingExample>,
}

impl FuzzyAgent {
    /// The examples that the agent holds.
    pub closed spec fn corpus(&self) -> Seq<ExampleView> {
        corpus_view(self.memory@)
    }

    /// An agent without examples.
    pub fn new() -> (r: Self)
        ensures
            r.corpus() == Seq::<ExampleView>::empty(),
    {
        let r = FuzzyAgent { memory: Vec::new() };
        assert(r.corpus() =~= Seq::<ExampleView>::empty());
        r
    }
}

impl Agent for FuzzyAgent {
    open spec fn answers(&self, input: Seq<char>, answer: AnswerView) -> bool {
        answer == nearest_answer(self.corpus(), input)
    }

    /// The answer of the example nearest to the query by edit distance, the
    /// first of those that are equally near.
    fn predict(&self, input: &str) -> (r: ResponseFormat) {
        if self.memory.len() == 0 {
            assert(self.corpus().len() == 0);
            return ResponseFormat::Text("Keine Antwort gefunden.".to_string());
        }
        let ghost corpus = self.corpus();
        let query = input.to_lowercase();
        let mut best: usize = 0;
        let mut best_score: usize = 0;
        let mut i: usize = 0;
        while i < self.memory.len()
            invariant
                i <= self.memory@.len(),
                self.memory@.len() > 0,
                corpus == corpus_view(self.memory@),
                query@ == lowercase(input@),
                i == 0 ==> best == 0,
                i > 0 ==> best < i && best_score == distance_to(corpus, input@, best as int),
                forall|j: int|
                    0 <= j < i ==> {
                        &&& best_score <= #[trigger] distance_to(corpus, input@, j)
                        &&& j < best ==> best_score < distance_to(corpus, input@, j)
                    },
            decreases self.memory@.len() - i,
        {
            let candidate = self.memory[i].input.as_str().to_lowercase();
            let score = levenshtein(candidate.as_str(), query.as_str());
            assert(score == distance_to(corpus, input@, i as int));
            if i == 0 || score < best_score {
                best = i;
                best_score = score;
            }
            i += 1;
        }
        proof {
            assert(nearest_of_all(corpus, input@, best as int));
            let c = choose|c: int| nearest_of_all(corpus, input@, c);
            assert(c == best) by {
                assert(distance_to(corpus, input@, c) <= distance_to(corpus, input@, best as int));
                assert(distance_to(corpus, input@, best as int) <= distance_to(corpus, input@, c));
            }
        }
        self.memory[best].output.clone()
    }
}

impl TrainableAgent for FuzzyAgent {
    open spec fn trained_with(&self, corpus: Seq<ExampleView>) -> bool {
        self.corpus() == corpus
    }

    /// Replaces the examples of the agent by a copy of `data`.
    fn train(&mut self, data: &[TrainingExample]) {
        self.memory = copy_examples(data);
    }
}

} // verus!
