//! The structured agent: it ranks as the ranked agent does, and hands out
//! the answer in the format in which it was trained.

use vstd::prelude::*;
use crate::agent::{
    copy_examples, corpus_view, AnswerView, ExampleView, ResponseFormat, TrainingExample,
};
use crate::tfidf_agent::{ranked_answer, ScoreInput, TfidfAgent, score_input};

verus! {

/// Whether example `i` is the first whose answer has the text `plain`.
pub open spec fn first_with_text(corpus: Seq<ExampleView>, plain: Seq<char>, i: int) -> bool {
    &&& 0 <= i < corpus.len()
    &&& corpus[i].output.text() == plain
    &&& forall|j: int| 0 <= j < i ==> (#[trigger] corpus[j]).output.text() != plain
}

/// The answer in its format: that of the first example whose answer has
/// the text `plain`, or `plain` as plain text where there is none.
pub open spec fn structured_answer(corpus: Seq<ExampleView>, plain: Seq<char>) -> AnswerView {
    if exists|i: int| first_with_text(corpus, plain, i) {
        corpus[choose|i: int| first_with_text(corpus, plain, i)].output
    } else {
        AnswerView::Text(plain)
    }
}

/// The answer in its format, looked up by its text.
pub fn find_structured(memory: &[TrainingExample], plain: String) -> (r: ResponseFormat)
    ensures
        r@ == structured_answer(corpus_view(memory@), plain@),
{
    let ghost corpus = corpus_view(memory@);
    let mut i: usize = 0;
    while i < memory.len()
        invariant
            i <= memory@.len(),
            corpus == corpus_view(memory@),
            forall|j: int| 0 <= j < i ==> (#[trigger] corpus[j]).output.text() != plain@,
        decreases memory@.len() - i,
    {
        let text = memory[i].output.to_text();
        if text == plain {
            proof {
                assert(first_with_text(corpus, plain@, i as int));
                let c = choose|c: int| first_with_text(corpus, plain@, c);
                assert(c == i) by {
                    if c < i {
                        assert(corpus[c].output.text() != plain@);
                    }
                }
            }
            return memory[i].output.clone();
        }
        i += 1;
    }
    proof {
        assert forall|c: int| !first_with_text(corpus, plain@, c) by {
            if 0 <= c < corpus.len() {
                assert(corpus[c].output.text() != plain@);
            }
        }
    }
    ResponseFormat::Text(plain)
}

/// An agent that ranks by BM25 and answers in the format of its examples.
pub struct StructuredAgent {
    base_agent: TfidfAgent,
    structured_memory: Vec<TrainingExample>,
}

impl StructuredAgent {
    #[verifier::type_invariant]
    spec fn same_corpus(self) -> bool {
        self.base_agent.corpus() == corpus_view(self.structured_memory@)
    }

    /// The examples that the agent holds.
    pub closed spec fn corpus(&self) -> Seq<ExampleView> {
        corpus_view(self.structured_memory@)
    }

    /// An agent without examples.
    pub fn new() -> (r: Self)
        ensures
            r.corpus() == Seq::<ExampleView>::empty(),
    {
        let base_agent = TfidfAgent::new();
        let structured_memory: Vec<TrainingExample> = Vec::new();
        assert(corpus_view(structured_memory@) =~= Seq::<ExampleView>::empty());
        StructuredAgent { base_agent, structured_memory }
    }

    /// Replaces the examples of the agent by a copy of `data`.
    pub fn train(&mut self, data: &[TrainingExample])
        ensures
            final(self).corpus() == corpus_view(data@),
    {
        let mut base_agent = TfidfAgent::new();
        base_agent.train(data);
        *self = StructuredAgent { base_agent, structured_memory: copy_examples(data) };
    }

    /// What BM25 needs to score each document against the query.
    pub fn score_inputs(&self, input: &str) -> (plan: Vec<ScoreInput>)
        ensures
            plan@.len() == self.corpus().len(),
            forall|i: int|
                0 <= i < plan@.len() ==> (#[trigger] plan@[i])@ == score_input(
                    self.corpus(),
                    input@,
                    i,
                ),
    {
        proof {
            use_type_invariant(self);
        }
        self.base_agent.score_inputs(input)
    }

    /// The text of the answer to a query, given the score of each document.
    pub fn predict(&self, input: &str, scores: &[u32]) -> (r: String)
        ensures
            r@ == ranked_answer(self.corpus(), input@, scores@).text(),
    {
        proof {
            use_type_invariant(self);
        }
        self.base_agent.predict(input, scores).into_text()
    }

    /// The answer to a query in the format of its example, given the score
    /// of each document.
    pub fn predict_structured(&self, input: &str, scores: &[u32]) -> (r: ResponseFormat)
        ensures
            r@ == structured_answer(
                self.corpus(),
                ranked_answer(self.corpus(), input@, scores@).text(),
            ),
    {
        let plain_answer = self.predict(input, scores);
        find_structured(self.structured_memory.as_slice(), plain_answer)
    }
}

} // verus!
