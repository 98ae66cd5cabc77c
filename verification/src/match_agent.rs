//! The matching agent: exact lookup, or nearest neighbour by edit distance.

use vstd::prelude::*;
use vstd::string::StrSliceExecFns;
use crate::agent::{
    copy_examples, corpus_view, no_match, no_training_data, Agent, AgentError, AnswerView,
    ExampleView, ResponseFormat, TrainableAgent, TrainingExample,
};
use crate::agent::text_utils::{
    edit_distance, lemma_edit_distance_same, lemma_edit_distance_zero,
};
use crate::unicode::lowercase;

verus! {

/// `strsim::levenshtein` counts the least number of characters to insert,
/// delete or replace to turn one string into the other.
#[verifier::external_body]
pub(crate) fn levenshtein(a: &str, b: &str) -> (d: usize)
    ensures
        d == edit_distance(a@, b@),
{
    strsim::levenshtein(a, b)
}

/// A threshold factor as a mathematical value: a positive fraction.
pub struct FactorView {
    pub numerator: nat,
    pub denominator: nat,
}

impl FactorView {
    /// The largest distance that the factor allows for a query of `length`:
    /// the product of both, rounded down.
    pub open spec fn limit(self, length: nat) -> nat {
        (length * self.numerator) / self.denominator
    }
}

/// The share of a query's length, counted in characters, that the distance
/// of a fuzzy match may reach: a positive fraction.
#[derive(Debug)]
pub struct ThresholdFactor {
    numerator: u64,
    denominator: u64,
}

impl View for ThresholdFactor {
    type V = FactorView;

    closed spec fn view(&self) -> FactorView {
        FactorView { numerator: self.numerator as nat, denominator: self.denominator as nat }
    }
}

impl Clone for ThresholdFactor {
    fn clone(&self) -> (r: Self)
        ensures
            r@ == self@,
    {
        proof {
            use_type_invariant(self);
        }
        ThresholdFactor { numerator: self.numerator, denominator: self.denominator }
    }
}

impl ThresholdFactor {
    #[verifier::type_invariant]
    spec fn positive(self) -> bool {
        self.numerator > 0 && self.denominator > 0
    }

    /// The factor `numerator / denominator`. Both must be positive: any
    /// other factor is refused.
    pub fn new(numerator: i64, denominator: i64) -> (r: Result<ThresholdFactor, AgentError>)
        ensures
            numerator > 0 && denominator > 0 ==> r is Ok && r->Ok_0@ == (FactorView {
                numerator: numerator as nat,
                denominator: denominator as nat,
            }),
            !(numerator > 0 && denominator > 0) ==> r is Err && r->Err_0 is InvalidInputError,
    {
        if numerator > 0 && denominator > 0 {
            Ok(ThresholdFactor { numerator: numerator as u64, denominator: denominator as u64 })
        } else {
            Err(AgentError::InvalidInputError("threshold factor must be positive".to_string()))
        }
    }

    /// The factor 3/10.
    pub fn three_tenths() -> (r: ThresholdFactor)
        ensures
            r@ == (FactorView { numerator: 3, denominator: 10 }),
    {
        ThresholdFactor { numerator: 3, denominator: 10 }
    }

    /// Whether a distance is within the limit for a query of `length`.
    pub fn allows(&self, distance: usize, length: usize) -> (r: bool)
        ensures
            r == (distance <= self@.limit(length as nat)),
    {
        proof {
            use_type_invariant(self);
            assert(length * self.numerator <= 0xFFFF_FFFF_FFFF_FFFF * 0xFFFF_FFFF_FFFF_FFFF)
                by (nonlinear_arith)
                requires
                    0 <= length <= 0xFFFF_FFFF_FFFF_FFFF,
                    0 <= self.numerator <= 0xFFFF_FFFF_FFFF_FFFF,
            ;
        }
        let product: u128 = (length as u128) * (self.numerator as u128);
        let limit: u128 = product / (self.denominator as u128);
        (distance as u128) <= limit
    }
}

/// The options of fuzzy matching as a mathematical value.
pub struct FuzzyView {
    pub max_distance: Option<usize>,
    pub threshold_factor: Option<FactorView>,
}

/// The options of fuzzy matching.
#[derive(Debug)]
pub struct FuzzyOptions {
    /// The largest distance that a match may have; `None` sets no limit.
    pub max_distance: Option<usize>,
    /// The share of the query's length, counted in characters, that the
    /// distance of a match may reach; `None` sets no limit.
    pub threshold_factor: Option<ThresholdFactor>,
}

impl View for FuzzyOptions {
    type V = FuzzyView;

    open spec fn view(&self) -> FuzzyView {
        FuzzyView {
            max_distance: self.max_distance,
            threshold_factor: match self.threshold_factor {
                Some(f) => Some(f@),
                None => None,
            },
        }
    }
}

impl Default for FuzzyOptions {
    fn default() -> (r: Self)
        ensures
            r@ == (FuzzyView {
                max_distance: None,
                threshold_factor: Some(FactorView { numerator: 3, denominator: 10 }),
            }),
    {
        FuzzyOptions { max_distance: None, threshold_factor: Some(ThresholdFactor::three_tenths()) }
    }
}

/// A matching strategy as a mathematical value.
pub enum StrategyView {
    Exact,
    Fuzzy(FuzzyView),
}

/// How the agent finds the example that answers a query.
#[derive(Debug)]
pub enum MatchingStrategy {
    /// The input must equal the query, letter case apart.
    Exact,
    /// The input nearest to the query by edit distance, within the limits
    /// of the options.
    Fuzzy(FuzzyOptions),
}

impl View for MatchingStrategy {
    type V = StrategyView;

    open spec fn view(&self) -> StrategyView {
        match self {
            MatchingStrategy::Exact => StrategyView::Exact,
            MatchingStrategy::Fuzzy(options) => StrategyView::Fuzzy(options@),
        }
    }
}

impl Default for MatchingStrategy {
    fn default() -> (r: Self)
        ensures
            r@ == StrategyView::Fuzzy(
                FuzzyView {
                    max_distance: None,
                    threshold_factor: Some(FactorView { numerator: 3, denominator: 10 }),
                },
            ),
    {
        MatchingStrategy::Fuzzy(FuzzyOptions::default())
    }
}

/// Whether example `i` of the corpus has the query as its input, letter
/// case apart.
pub open spec fn exact_hit(corpus: Seq<ExampleView>, query: Seq<char>, i: int) -> bool {
    0 <= i < corpus.len() && lowercase(corpus[i].input) == lowercase(query)
}

/// Whether example `i` is the first of the corpus that has the query as
/// its input.
pub open spec fn first_exact_hit(corpus: Seq<ExampleView>, query: Seq<char>, i: int) -> bool {
    exact_hit(corpus, query, i) && forall|j: int| 0 <= j < i ==> !exact_hit(corpus, query, j)
}

/// The answer of exact matching on a corpus that is not empty: that of the
/// first example whose input is the query, or that there is no match.
pub open spec fn exact_answer(corpus: Seq<ExampleView>, query: Seq<char>) -> AnswerView {
    if exists|i: int| first_exact_hit(corpus, query, i) {
        corpus[choose|i: int| first_exact_hit(corpus, query, i)].output
    } else {
        no_match()
    }
}

/// The distance between the input of example `i` and the query, both in
/// lowercase.
pub open spec fn distance_to(corpus: Seq<ExampleView>, query: Seq<char>, i: int) -> nat {
    edit_distance(lowercase(corpus[i].input), lowercase(query))
}

/// Whether the options allow a match at `distance` for the query: the
/// distance is within the largest distance, where one is set, and within
/// the share of the number of characters of the lowercase query, where one
/// is set.
pub open spec fn within_limits(options: FuzzyView, query: Seq<char>, distance: nat) -> bool {
    &&& options.max_distance matches Some(most) ==> distance <= most
    &&& options.threshold_factor matches Some(factor) ==> distance <= factor.limit(
        lowercase(query).len(),
    )
}

/// Whether example `i` may answer the query under the options.
pub open spec fn eligible(
    corpus: Seq<ExampleView>,
    options: FuzzyView,
    query: Seq<char>,
    i: int,
) -> bool {
    0 <= i < corpus.len() && within_limits(options, query, distance_to(corpus, query, i))
}

/// Whether example `i` is the nearest of those that may answer the query:
/// nearer than each of them before it, and no farther than any after it.
pub open spec fn nearest(
    corpus: Seq<ExampleView>,
    options: FuzzyView,
    query: Seq<char>,
    i: int,
) -> bool {
    &&& eligible(corpus, options, query, i)
    &&& forall|j: int|
        eligible(corpus, options, query, j) ==> {
            &&& distance_to(corpus, query, i) <= #[trigger] distance_to(corpus, query, j)
            &&& j < i ==> distance_to(corpus, query, i) < distance_to(corpus, query, j)
        }
}

/// The answer of fuzzy matching on a corpus that is not empty: that of the
/// nearest example that may answer, or that there is no match.
pub open spec fn fuzzy_answer(
    corpus: Seq<ExampleView>,
    options: FuzzyView,
    query: Seq<char>,
) -> AnswerView {
    if exists|i: int| nearest(corpus, options, query, i) {
        corpus[choose|i: int| nearest(corpus, options, query, i)].output
    } else {
        no_match()
    }
}

/// The answer of the matching agent to a query.
pub open spec fn match_answer(
    corpus: Seq<ExampleView>,
    strategy: StrategyView,
    query: Seq<char>,
) -> AnswerView {
    if corpus.len() == 0 {
        no_training_data()
    } else {
        match strategy {
            StrategyView::Exact => exact_answer(corpus, query),
            StrategyView::Fuzzy(options) => fuzzy_answer(corpus, options, query),
        }
    }
}

/// Exact matching answers a query that is the input of an example, letter
/// case apart, with the answer of the first such example.
pub proof fn lemma_exact_match_found(corpus: Seq<ExampleView>, query: Seq<char>, i: int)
    requires
        exact_hit(corpus, query, i),
    ensures
        exists|k: int|
            0 <= k <= i && #[trigger] first_exact_hit(corpus, query, k) && match_answer(
                corpus,
                StrategyView::Exact,
                query,
            ) == corpus[k].output,
    decreases i,
{
    if exists|j: int| 0 <= j < i && exact_hit(corpus, query, j) {
        let j = choose|j: int| 0 <= j < i && exact_hit(corpus, query, j);
        lemma_exact_match_found(corpus, query, j);
    } else {
        assert(first_exact_hit(corpus, query, i));
        let c = choose|c: int| first_exact_hit(corpus, query, c);
        assert(c == i) by {
            if c < i {
                assert(exact_hit(corpus, query, c));
            }
        }
    }
}

/// Exact matching answers a query that is the input of no example of a
/// corpus that is not empty by saying that there is no match.
pub proof fn lemma_exact_match_missing(corpus: Seq<ExampleView>, query: Seq<char>)
    requires
        corpus.len() > 0,
        forall|i: int| !exact_hit(corpus, query, i),
    ensures
        match_answer(corpus, StrategyView::Exact, query) == no_match(),
{
    assert forall|i: int| !first_exact_hit(corpus, query, i) by {
        assert(!exact_hit(corpus, query, i));
    }
}

/// Fuzzy matching, whatever its options, answers a query that is the input
/// of an example, letter case apart, with the answer of the first such
/// example, which is at distance 0, and no other example changes that.
pub proof fn lemma_fuzzy_identical(
    corpus: Seq<ExampleView>,
    options: FuzzyView,
    query: Seq<char>,
    i: int,
)
    requires
        exact_hit(corpus, query, i),
    ensures
        exists|k: int|
            0 <= k <= i && #[trigger] first_exact_hit(corpus, query, k) && distance_to(
                corpus,
                query,
                k,
            ) == 0 && match_answer(corpus, StrategyView::Fuzzy(options), query)
                == corpus[k].output,
{
    lemma_exact_match_found(corpus, query, i);
    let k = choose|k: int| 0 <= k <= i && #[trigger] first_exact_hit(corpus, query, k);
    lemma_edit_distance_same(lowercase(query));
    assert(distance_to(corpus, query, k) == 0);
    assert(eligible(corpus, options, query, k));
    assert(nearest(corpus, options, query, k)) by {
        assert forall|j: int| eligible(corpus, options, query, j) implies {
            &&& distance_to(corpus, query, k) <= #[trigger] distance_to(corpus, query, j)
            &&& j < k ==> distance_to(corpus, query, k) < distance_to(corpus, query, j)
        } by {
            if j < k && distance_to(corpus, query, j) == 0 {
                lemma_edit_distance_zero(lowercase(corpus[j].input), lowercase(query));
                assert(exact_hit(corpus, query, j));
            }
        }
    }
    let c = choose|c: int| nearest(corpus, options, query, c);
    assert(c == k) by {
        assert(distance_to(corpus, query, c) <= distance_to(corpus, query, k));
        if c < k {
            lemma_edit_distance_zero(lowercase(corpus[c].input), lowercase(query));
            assert(exact_hit(corpus, query, c));
        } else if k < c {
            assert(distance_to(corpus, query, c) < distance_to(corpus, query, k));
        }
    }
}

/// Among the first `n` examples, where one of them may answer the query,
/// one is the nearest of those that may: nearer than each of them before
/// it, and no farther than any of them after it.
proof fn lemma_nearest_among(
    corpus: Seq<ExampleView>,
    options: FuzzyView,
    query: Seq<char>,
    n: int,
) -> (b: int)
    requires
        0 <= n <= corpus.len(),
        exists|j: int| 0 <= j < n && eligible(corpus, options, query, j),
    ensures
        0 <= b < n,
        eligible(corpus, options, query, b),
        forall|j: int|
            0 <= j < n && eligible(corpus, options, query, j) ==> {
                &&& distance_to(corpus, query, b) <= #[trigger] distance_to(corpus, query, j)
                &&& j < b ==> distance_to(corpus, query, b) < distance_to(corpus, query, j)
            },
    decreases n,
{
    if exists|j: int| 0 <= j < n - 1 && eligible(corpus, options, query, j) {
        let before = lemma_nearest_among(corpus, options, query, n - 1);
        if eligible(corpus, options, query, n - 1) && distance_to(corpus, query, n - 1)
            < distance_to(corpus, query, before) {
            n - 1
        } else {
            before
        }
    } else {
        let j = choose|j: int| 0 <= j < n && eligible(corpus, options, query, j);
        assert(j == n - 1);
        n - 1
    }
}

/// Where an example may answer the query, one of those that may is the
/// nearest.
pub proof fn lemma_nearest_exists(corpus: Seq<ExampleView>, options: FuzzyView, query: Seq<char>)
    requires
        exists|i: int| eligible(corpus, options, query, i),
    ensures
        exists|i: int| nearest(corpus, options, query, i),
{
    let e = choose|i: int| eligible(corpus, options, query, i);
    assert(0 <= e < corpus.len() && eligible(corpus, options, query, e));
    let b = lemma_nearest_among(corpus, options, query, corpus.len() as int);
    assert(nearest(corpus, options, query, b));
}

/// Fuzzy matching says that there is no match exactly where no example may
/// answer the query; where one may, it gives the answer of the nearest of
/// those that may.
pub proof fn lemma_fuzzy_answer_cases(
    corpus: Seq<ExampleView>,
    options: FuzzyView,
    query: Seq<char>,
)
    ensures
        (forall|i: int| !eligible(corpus, options, query, i)) ==> fuzzy_answer(
            corpus,
            options,
            query,
        ) == no_match(),
        (exists|i: int| eligible(corpus, options, query, i)) ==> exists|i: int|
            #[trigger] nearest(corpus, options, query, i) && fuzzy_answer(corpus, options, query)
                == corpus[i].output,
{
    if exists|i: int| eligible(corpus, options, query, i) {
        lemma_nearest_exists(corpus, options, query);
        let c = choose|i: int| nearest(corpus, options, query, i);
        assert(nearest(corpus, options, query, c) && fuzzy_answer(corpus, options, query)
            == corpus[c].output);
    } else {
        assert forall|i: int| !nearest(corpus, options, query, i) by {
            assert(!eligible(corpus, options, query, i));
        }
    }
}

/// Of two examples at the same distance, fuzzy matching never answers with
/// the later one.
pub proof fn lemma_fuzzy_first_wins(
    corpus: Seq<ExampleView>,
    options: FuzzyView,
    query: Seq<char>,
    i: int,
    j: int,
)
    requires
        0 <= i < j < corpus.len(),
        eligible(corpus, options, query, i),
        distance_to(corpus, query, i) == distance_to(corpus, query, j),
    ensures
        !nearest(corpus, options, query, j),
{
}

/// An agent that answers by exact or by fuzzy matching.
#[derive(Debug)]
pub struct MatchAgent {
    memory: Vec<TrainingExample>,
    strategy: MatchingStrategy,
}

impl MatchAgent {
    /// The examples that the agent holds.
    pub closed spec fn corpus(&self) -> Seq<ExampleView> {
        corpus_view(self.memory@)
    }

    /// The strategy of the agent.
    pub closed spec fn strategy(&self) -> StrategyView {
        self.strategy@
    }

    /// An agent with the given strategy and without examples.
    pub fn new(strategy: MatchingStrategy) -> (r: Self)
        ensures
            r.corpus() == Seq::<ExampleView>::empty(),
            r.strategy() == strategy@,
    {
        let r = MatchAgent { memory: Vec::new(), strategy };
        assert(r.corpus() =~= Seq::<ExampleView>::empty());
        r
    }

    /// An agent that matches exactly.
    pub fn new_exact() -> (r: Self)
        ensures
            r.corpus() == Seq::<ExampleView>::empty(),
            r.strategy() == StrategyView::Exact,
    {
        Self::new(MatchingStrategy::Exact)
    }

    /// An agent that matches by edit distance, with the default options.
    pub fn new_fuzzy() -> (r: Self)
        ensures
            r.corpus() == Seq::<ExampleView>::empty(),
            r.strategy() == StrategyView::Fuzzy(
                FuzzyView {
                    max_distance: None,
                    threshold_factor: Some(FactorView { numerator: 3, denominator: 10 }),
                },
            ),
    {
        Self::new(MatchingStrategy::Fuzzy(FuzzyOptions::default()))
    }

    /// The same agent with another strategy.
    pub fn with_strategy(self, strategy: MatchingStrategy) -> (r: Self)
        ensures
            r.corpus() == self.corpus(),
            r.strategy() == strategy@,
    {
        let mut agent = self;
        agent.strategy = strategy;
        agent
    }

    /// The answer of the first example whose input is the query, letter
    /// case apart.
    fn predict_exact(&self, input: &str) -> (r: ResponseFormat)
        requires
            self.memory@.len() > 0,
        ensures
            r@ == exact_answer(self.corpus(), input@),
    {
        let ghost corpus = self.corpus();
        let query = input.to_lowercase();
        let mut i: usize = 0;
        while i < self.memory.len()
            invariant
                i <= self.memory@.len(),
                corpus == corpus_view(self.memory@),
                query@ == lowercase(input@),
                forall|j: int| 0 <= j < i ==> !exact_hit(corpus, input@, j),
            decreases self.memory@.len() - i,
        {
            let candidate = self.memory[i].input.as_str().to_lowercase();
            if candidate == query {
                proof {
                    assert(first_exact_hit(corpus, input@, i as int));
                    let c = choose|c: int| first_exact_hit(corpus, input@, c);
                    assert(c == i) by {
                        if c < i {
                            assert(!exact_hit(corpus, input@, c));
                        }
                    }
                }
                return self.memory[i].output.clone();
            }
            i += 1;
        }
        ResponseFormat::Text("No matching answer found.".to_string())
    }

    /// The answer of the example nearest to the query by edit distance,
    /// within the limits of the options.
    fn predict_fuzzy(&self, options: &FuzzyOptions, input: &str) -> (r: ResponseFormat)
        requires
            self.memory@.len() > 0,
        ensures
            r@ == fuzzy_answer(self.corpus(), options@, input@),
    {
        let ghost corpus = self.corpus();
        let query = input.to_lowercase();
        let length = query.as_str().unicode_len();
        let mut best: Option<usize> = None;
        let mut best_score: usize = 0;
        let mut i: usize = 0;
        while i < self.memory.len()
            invariant
                i <= self.memory@.len(),
                corpus == corpus_view(self.memory@),
                query@ == lowercase(input@),
                length == lowercase(input@).len(),
                best is None ==> forall|j: int| 0 <= j < i ==> !eligible(corpus, options@, input@, j),
                best matches Some(b) ==> {
                    &&& b < i
                    &&& eligible(corpus, options@, input@, b as int)
                    &&& best_score == distance_to(corpus, input@, b as int)
                    &&& forall|j: int|
                        0 <= j < i && eligible(corpus, options@, input@, j) ==> {
                            &&& best_score <= #[trigger] distance_to(corpus, input@, j)
                            &&& j < b ==> best_score < distance_to(corpus, input@, j)
                        }
                },
            decreases self.memory@.len() - i,
        {
            let candidate = self.memory[i].input.as_str().to_lowercase();
            let score = levenshtein(candidate.as_str(), query.as_str());
            assert(score == distance_to(corpus, input@, i as int));
            let within_most = match options.max_distance {
                Some(most) => score <= most,
                None => true,
            };
            let within_share = match &options.threshold_factor {
                Some(factor) => factor.allows(score, length),
                None => true,
            };
            assert((within_most && within_share) == eligible(corpus, options@, input@, i as int));
            if within_most && within_share {
                let better = match best {
                    Some(_) => score < best_score,
                    None => true,
                };
                if better {
                    best = Some(i);
                    best_score = score;
                }
            }
            i += 1;
        }
        match best {
            Some(b) => {
                proof {
                    assert(nearest(corpus, options@, input@, b as int));
                    let c = choose|c: int| nearest(corpus, options@, input@, c);
                    assert(c == b) by {
                        assert(distance_to(corpus, input@, c) <= distance_to(corpus, input@, b as int));
                        assert(distance_to(corpus, input@, b as int) <= distance_to(corpus, input@, c));
                    }
                }
                self.memory[b].output.clone()
            },
            None => {
                proof {
                    assert forall|c: int| !nearest(corpus, options@, input@, c) by {
                        if nearest(corpus, options@, input@, c) {
                            assert(eligible(corpus, options@, input@, c));
                        }
                    }
                }
                ResponseFormat::Text("No matching answer found.".to_string())
            },
        }
    }
}

impl Agent for MatchAgent {
    open spec fn answers(&self, input: Seq<char>, answer: AnswerView) -> bool {
        answer == match_answer(self.corpus(), self.strategy(), input)
    }

    /// The answer of the best match for the query under the agent's strategy.
    fn predict(&self, input: &str) -> (r: ResponseFormat) {
        if self.memory.len() == 0 {
            assert(self.corpus().len() == 0);
            return ResponseFormat::Text("No training data available.".to_string());
        }
        assert(self.corpus().len() > 0);
        match &self.strategy {
            MatchingStrategy::Exact => self.predict_exact(input),
            MatchingStrategy::Fuzzy(options) => self.predict_fuzzy(options, input),
        }
    }
}

impl TrainableAgent for MatchAgent {
    open spec fn trained_with(&self, corpus: Seq<ExampleView>) -> bool {
        self.corpus() == corpus
    }

    /// Replaces the examples of the agent by a copy of `data`.
    fn train(&mut self, data: &[TrainingExample])
        ensures
            final(self).strategy() == old(self).strategy(),
    {
        self.memory = copy_examples(data);
    }
}

} // verus!
