//! The simple agent: exact lookup, and nothing else.

use vstd::prelude::*;
use crate::agent::{
    copy_examples, corpus_view, Agent, AnswerView, ExampleView, ResponseFormat, TrainableAgent,
    TrainingExample,
};
use crate::match_agent::{exact_hit, first_exact_hit};
use crate::unicode::lowercase;

verus! {

/// The answer of the simple and of the fuzzy agent where they find nothing.
pub open spec fn nothing_found() -> AnswerView {
    AnswerView::Text("Keine Antwort gefunden."@)
}

/// The answer of the simple agent: that of the first example whose input
/// is the query, letter case apart, or that nothing was found.
pub open spec fn simple_answer(corpus: Seq<ExampleView>, query: Seq<char>) -> AnswerView {
    if exists|i: int| first_exact_hit(corpus, query, i) {
        corpus[choose|i: int| first_exact_hit(corpus, query, i)].output
    } else {
        nothing_found()
    }
}

/// An agent that answers a query that is the input of one of its examples.
pub struct SimpleAgent {
    memory: Vec<TrainingExample>,
}

impl SimpleAgent {
    /// The examples that the agent holds.
    pub closed spec fn corpus(&self) -> Seq<ExampleView> {
        corpus_view(self.memory@)
    }

    /// An agent without examples.
    pub fn new() -> (r: Self)
        ensures
            r.corpus() == Seq::<ExampleView>::empty(),
    {
        let r = SimpleAgent { memory: Vec::new() };
        assert(r.corpus() =~= Seq::<ExampleView>::empty());
        r
    }
}

impl Agent for SimpleAgent {
    open spec fn answers(&self, input: Seq<char>, answer: AnswerView) -> bool {
        answer == simple_answer(self.corpus(), input)
    }

    /// The answer of the first example whose input is the query, letter
    /// case apart.
    fn predict(&self, input: &str) -> (r: ResponseFormat) {
        let ghost corpus = self.corpus();
        let query = input.to_lowercase();
        let mut i: usize = 0;
        while i < self.memory.len()
            invariant
                i <= self.memory@.len(),
                corpus == corpus_view(self.memory@),
                query@ == lowercase(input@),
                forall|j: int| 0 <= j < i ==> !exact_hit(corpus, input@, j),
            decreases self.memory@.len() - i,
        {
            let candidate = self.memory[i].input.as_str().to_lowercase();
            if candidate == query {
                proof {
                    assert(first_exact_hit(corpus, input@, i as int));
                    let c = choose|c: int| first_exact_hit(corpus, input@, c);
                    assert(c == i) by {
                        if c < i {
                            assert(!exact_hit(corpus, input@, c));
                        }
                    }
                }
                return self.memory[i].output.clone();
            }
            i += 1;
        }
        ResponseFormat::Text("Keine Antwort gefunden.".to_string())
    }
}

impl TrainableAgent for SimpleAgent {
    open spec fn trained_with(&self, corpus: Seq<ExampleView>) -> bool {
        self.corpus() == corpus
    }

    /// Replaces the examples of the agent by a copy of `data`.
    fn train(&mut self, data: &[TrainingExample]) {
        self.memory = copy_examples(data);
    }
}

} // verus!
