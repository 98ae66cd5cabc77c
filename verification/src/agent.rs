//! Base types and capabilities shared by all matchers.

use vstd::prelude::*;
use vstd::string::StringExecFns;
use crate::unicode::chars_of;

pub mod text_utils;

verus! {

/// What can go wrong in an agent.
#[derive(Debug)]
pub enum AgentError {
    /// No matching answer in the knowledge base.
    NoMatchError,
    /// No training data present.
    NoTrainingDataError,
    /// Training failed, with the reason.
    TrainingError(String),
    /// The input cannot be used, with the reason.
    InvalidInputError(String),
    /// An internal fault, with the reason.
    InternalError(String),
}

/// The message of an error, as a text.
pub open spec fn error_message(e: AgentError) -> Seq<char> {
    match e {
        AgentError::NoMatchError => "Keine passende Antwort gefunden"@,
        AgentError::NoTrainingDataError => "Keine Trainingsdaten verfügbar"@,
        AgentError::TrainingError(reason) => "Trainingsfehler: "@ + reason@,
        AgentError::InvalidInputError(reason) => "Ungültige Eingabe: "@ + reason@,
        AgentError::InternalError(reason) => "Interner Fehler: "@ + reason@,
    }
}

impl AgentError {
    /// The message that describes this error.
    pub fn message(&self) -> (r: String)
        ensures
            r@ == error_message(*self),
    {
        match self {
            AgentError::NoMatchError => "Keine passende Antwort gefunden".to_string(),
            AgentError::NoTrainingDataError => "Keine Trainingsdaten verfügbar".to_string(),
            AgentError::TrainingError(reason) => {
                "Trainingsfehler: ".to_string().concat(reason.as_str())
            },
            AgentError::InvalidInputError(reason) => {
                "Ungültige Eingabe: ".to_string().concat(reason.as_str())
            },
            AgentError::InternalError(reason) => {
                "Interner Fehler: ".to_string().concat(reason.as_str())
            },
        }
    }
}

/// An answer as a mathematical value: its kind and its text.
pub enum AnswerView {
    Text(Seq<char>),
    Markdown(Seq<char>),
    Json(Seq<char>),
}

impl AnswerView {
    /// The text that the answer carries.
    pub open spec fn text(self) -> Seq<char> {
        match self {
            AnswerView::Text(s) => s,
            AnswerView::Markdown(s) => s,
            AnswerView::Json(s) => s,
        }
    }
}

/// The answer of an agent, in one of three formats.
#[derive(Debug)]
pub enum ResponseFormat {
    /// Plain text.
    Text(String),
    /// Text in Markdown.
    Markdown(String),
    /// Structured data, held as its serialized JSON text.
    Json(String),
}

impl View for ResponseFormat {
    type V = AnswerView;

    open spec fn view(&self) -> AnswerView {
        match self {
            ResponseFormat::Text(s) => AnswerView::Text(s@),
            ResponseFormat::Markdown(s) => AnswerView::Markdown(s@),
            ResponseFormat::Json(s) => AnswerView::Json(s@),
        }
    }
}

impl Clone for ResponseFormat {
    fn clone(&self) -> (r: Self)
        ensures
            r == *self,
    {
        match self {
            ResponseFormat::Text(s) => ResponseFormat::Text(s.clone()),
            ResponseFormat::Markdown(s) => ResponseFormat::Markdown(s.clone()),
            ResponseFormat::Json(s) => ResponseFormat::Json(s.clone()),
        }
    }
}

impl PartialEq for ResponseFormat {
    /// Two answers are equal when they have the same format and the same text.
    fn eq(&self, other: &Self) -> (r: bool) {
        match (self, other) {
            (ResponseFormat::Text(a), ResponseFormat::Text(b)) => *a == *b,
            (ResponseFormat::Markdown(a), ResponseFormat::Markdown(b)) => *a == *b,
            (ResponseFormat::Json(a), ResponseFormat::Json(b)) => *a == *b,
            _ => false,
        }
    }
}

impl vstd::std_specs::cmp::PartialEqSpecImpl for ResponseFormat {
    open spec fn obeys_eq_spec() -> bool {
        true
    }

    open spec fn eq_spec(&self, other: &Self) -> bool {
        self@ == other@
    }
}

impl Default for ResponseFormat {
    fn default() -> (r: Self)
        ensures
            r@ == AnswerView::Text(Seq::empty()),
    {
        ResponseFormat::Text(String::new())
    }
}

/// The compact form of a JSON text: what `serde_json` prints of the value
/// that it reads from the text, or `None` where the text is no JSON.
pub uninterp spec fn compact_json(text: Seq<char>) -> Option<Seq<char>>;

/// `serde_json::from_str` reads a JSON value from the text or fails, and
/// the value's `to_string` prints it in compact form; both depend on the
/// text alone.
#[verifier::external_body]
fn reprint_json(text: &str) -> (r: Option<String>)
    ensures
        optional_text(r) == compact_json(text@),
{
    match serde_json::from_str::<serde_json::Value>(text) {
        Ok(value) => Some(value.to_string()),
        Err(_) => None,
    }
}

impl ResponseFormat {
    /// A structured answer of the compact form of a JSON text, which is
    /// refused where there is none.
    pub fn from_compact_json(compact: Option<String>) -> (r: Result<ResponseFormat, AgentError>)
        ensures
            compact is Some ==> r is Ok && r->Ok_0@ == AnswerView::Json(compact->Some_0@),
            compact is None ==> r is Err && r->Err_0 is InvalidInputError,
    {
        match compact {
            Some(text) => Ok(ResponseFormat::Json(text)),
            None => Err(AgentError::InvalidInputError("no JSON text".to_string())),
        }
    }

    /// A structured answer of a JSON text, held in compact form; a text
    /// that is no JSON is refused.
    pub fn json(text: &str) -> (r: Result<ResponseFormat, AgentError>)
        ensures
            compact_json(text@) is Some ==> r is Ok && r->Ok_0@ == AnswerView::Json(
                compact_json(text@)->Some_0,
            ),
            compact_json(text@) is None ==> r is Err && r->Err_0 is InvalidInputError,
    {
        Self::from_compact_json(reprint_json(text))
    }

    /// The answer as a string: the text, the Markdown source, or the
    /// serialized structured form.
    pub fn to_text(&self) -> (r: String)
        ensures
            r@ == self@.text(),
    {
        match self {
            ResponseFormat::Text(s) => s.clone(),
            ResponseFormat::Markdown(s) => s.clone(),
            ResponseFormat::Json(s) => s.clone(),
        }
    }

    /// Turns the answer into its string.
    pub fn into_text(self) -> (r: String)
        ensures
            r@ == self@.text(),
    {
        match self {
            ResponseFormat::Text(s) => s,
            ResponseFormat::Markdown(s) => s,
            ResponseFormat::Json(s) => s,
        }
    }

    /// A plain-text answer.
    pub fn from_text(text: &str) -> (r: Self)
        ensures
            r@ == AnswerView::Text(text@),
    {
        ResponseFormat::Text(text.to_string())
    }
}

impl From<ResponseFormat> for String {
    fn from(format: ResponseFormat) -> (r: String) {
        match format {
            ResponseFormat::Text(s) => s,
            ResponseFormat::Markdown(s) => s,
            ResponseFormat::Json(s) => s,
        }
    }
}

impl vstd::std_specs::convert::FromSpecImpl<ResponseFormat> for String {
    open spec fn obeys_from_spec() -> bool {
        true
    }

    open spec fn from_spec(format: ResponseFormat) -> String {
        match format {
            ResponseFormat::Text(s) => s,
            ResponseFormat::Markdown(s) => s,
            ResponseFormat::Json(s) => s,
        }
    }
}

impl From<String> for ResponseFormat {
    fn from(text: String) -> (r: ResponseFormat) {
        ResponseFormat::Text(text)
    }
}

impl vstd::std_specs::convert::FromSpecImpl<String> for ResponseFormat {
    open spec fn obeys_from_spec() -> bool {
        true
    }

    open spec fn from_spec(text: String) -> ResponseFormat {
        ResponseFormat::Text(text)
    }
}

impl<'a> From<&'a str> for ResponseFormat {
    fn from(text: &'a str) -> (r: ResponseFormat)
        ensures
            r@ == AnswerView::Text(text@),
    {
        ResponseFormat::Text(text.to_string())
    }
}

impl<'a> vstd::std_specs::convert::FromSpecImpl<&'a str> for ResponseFormat {
    open spec fn obeys_from_spec() -> bool {
        false
    }

    open spec fn from_spec(text: &'a str) -> ResponseFormat {
        arbitrary()
    }
}

/// The bit pattern of the single-precision number 1.0.
pub const ONE_BITS: u32 = 0x3F80_0000;

/// The bit pattern of the single-precision number 0.0.
pub const ZERO_BITS: u32 = 0;

/// The default weight of a training example, 1.0, as the bit pattern of a
/// single-precision number.
pub fn default_weight() -> (r: u32)
    ensures
        r == ONE_BITS,
{
    ONE_BITS
}

/// A training example as a mathematical value.
pub struct ExampleView {
    pub input: Seq<char>,
    pub output: AnswerView,
    pub weight_bits: u32,
    pub metadata: Option<Seq<char>>,
}

/// A training example: a question, its answer, and a priority.
#[derive(Debug)]
pub struct TrainingExample {
    /// The input, such as a question or a prompt.
    pub input: String,
    /// The expected answer.
    pub output: ResponseFormat,
    /// The weight of the example, as the bit pattern of a single-precision
    /// number; a higher weight gives a higher priority.
    pub weight_bits: u32,
    /// Metadata, as serialized JSON text.
    pub metadata: Option<String>,
}

/// What an optional string holds.
pub open spec fn optional_text(s: Option<String>) -> Option<Seq<char>> {
    match s {
        Some(t) => Some(t@),
        None => None,
    }
}

impl View for TrainingExample {
    type V = ExampleView;

    open spec fn view(&self) -> ExampleView {
        ExampleView {
            input: self.input@,
            output: self.output@,
            weight_bits: self.weight_bits,
            metadata: optional_text(self.metadata),
        }
    }
}

impl Clone for TrainingExample {
    fn clone(&self) -> (r: Self)
        ensures
            r == *self,
    {
        let metadata = match &self.metadata {
            Some(t) => Some(t.clone()),
            None => None,
        };
        TrainingExample {
            input: self.input.clone(),
            output: self.output.clone(),
            weight_bits: self.weight_bits,
            metadata,
        }
    }
}

/// The mathematical values of a sequence of examples.
pub open spec fn corpus_view(examples: Seq<TrainingExample>) -> Seq<ExampleView> {
    examples.map_values(|e: TrainingExample| e@)
}

/// A copy of a list of examples.
pub fn copy_examples(data: &[TrainingExample]) -> (r: Vec<TrainingExample>)
    ensures
        r@ == data@,
{
    let mut out: Vec<TrainingExample> = Vec::new();
    let mut i: usize = 0;
    while i < data.len()
        invariant
            i <= data@.len(),
            out@ == data@.take(i as int),
        decreases data@.len() - i,
    {
        out.push(data[i].clone());
        i += 1;
    }
    proof {
        assert(data@.take(data@.len() as int) == data@);
    }
    out
}

/// A training example of the older format, whose answer is plain text.
#[derive(Debug)]
pub struct LegacyTrainingExample {
    pub input: String,
    pub output: String,
    /// The weight, as the bit pattern of a single-precision number.
    pub weight_bits: u32,
}

/// The example that an example of the older format stands for.
pub open spec fn modern_view(legacy: LegacyTrainingExample) -> ExampleView {
    ExampleView {
        input: legacy.input@,
        output: AnswerView::Text(legacy.output@),
        weight_bits: legacy.weight_bits,
        metadata: None,
    }
}

impl From<LegacyTrainingExample> for TrainingExample {
    fn from(legacy: LegacyTrainingExample) -> (r: TrainingExample)
        ensures
            r@ == modern_view(legacy),
    {
        TrainingExample {
            input: legacy.input,
            output: ResponseFormat::Text(legacy.output),
            weight_bits: legacy.weight_bits,
            metadata: None,
        }
    }
}

impl vstd::std_specs::convert::FromSpecImpl<LegacyTrainingExample> for TrainingExample {
    open spec fn obeys_from_spec() -> bool {
        true
    }

    open spec fn from_spec(legacy: LegacyTrainingExample) -> TrainingExample {
        TrainingExample {
            input: legacy.input,
            output: ResponseFormat::Text(legacy.output),
            weight_bits: legacy.weight_bits,
            metadata: None,
        }
    }
}

/// What an agent tells about one prediction.
#[derive(Debug)]
pub struct PredictionResult {
    /// The predicted answer.
    pub response: ResponseFormat,
    /// The confidence of the prediction, between 0.0 and 1.0, as the bit
    /// pattern of a single-precision number.
    pub confidence_bits: u32,
    /// Metadata of the prediction, as serialized JSON text.
    pub metadata: Option<String>,
}

impl From<ResponseFormat> for PredictionResult {
    fn from(response: ResponseFormat) -> (r: PredictionResult)
        ensures
            r.response == response,
            r.confidence_bits == ONE_BITS,
            r.metadata is None,
    {
        PredictionResult { response, confidence_bits: ONE_BITS, metadata: None }
    }
}

impl vstd::std_specs::convert::FromSpecImpl<ResponseFormat> for PredictionResult {
    open spec fn obeys_from_spec() -> bool {
        true
    }

    open spec fn from_spec(response: ResponseFormat) -> PredictionResult {
        PredictionResult { response, confidence_bits: ONE_BITS, metadata: None }
    }
}

impl From<PredictionResult> for ResponseFormat {
    fn from(result: PredictionResult) -> (r: ResponseFormat)
        ensures
            r == result.response,
    {
        result.response
    }
}

impl vstd::std_specs::convert::FromSpecImpl<PredictionResult> for ResponseFormat {
    open spec fn obeys_from_spec() -> bool {
        true
    }

    open spec fn from_spec(result: PredictionResult) -> ResponseFormat {
        result.response
    }
}

/// The answer of an agent that has no training data.
pub open spec fn no_training_data() -> AnswerView {
    AnswerView::Text("No training data available."@)
}

/// The answer of an agent that found no example to match the query.
pub open spec fn no_match() -> AnswerView {
    AnswerView::Text("No matching answer found."@)
}

/// Whether `part` occurs in `text` as a run of consecutive characters.
pub open spec fn has_part(text: Seq<char>, part: Seq<char>) -> bool {
    exists|i: int| 0 <= i <= text.len() - part.len() && #[trigger] text.subrange(i, i + part.len()) == part
}

/// Whether an answer says that the agent could not answer: a text or a
/// Markdown answer that holds one of the two phrases for it.
pub open spec fn is_unanswered(answer: AnswerView) -> bool {
    match answer {
        AnswerView::Json(_) => false,
        _ => has_part(answer.text(), "No matching answer found"@) || has_part(
            answer.text(),
            "No training data available"@,
        ),
    }
}

/// The confidence that goes with an answer: 0.0 where the agent could not
/// answer, else 1.0, as bit patterns.
pub open spec fn confidence_of(answer: AnswerView) -> u32 {
    if is_unanswered(answer) {
        ZERO_BITS
    } else {
        ONE_BITS
    }
}

/// Whether `bits` is the bit pattern of a single-precision number above
/// 0.5: the sign is clear, and the rest is above that of 0.5 and is no NaN.
pub open spec fn above_half(bits: u32) -> bool {
    0x3F00_0000 < bits <= 0x7F80_0000
}

/// Whether `text[at..]` starts with `part`.
fn starts_at(text: &Vec<char>, part: &Vec<char>, at: usize) -> (r: bool)
    requires
        at + part@.len() <= text@.len(),
    ensures
        r == (text@.subrange(at as int, at + part@.len()) == part@),
{
    let size = text.len();
    let mut k: usize = 0;
    while k < part.len()
        invariant
            k <= part@.len(),
            at + part@.len() <= text@.len() == size,
            forall|j: int| 0 <= j < k ==> text@[at + j] == part@[j],
        decreases part@.len() - k,
    {
        if text[at + k] != part[k] {
            assert(text@.subrange(at as int, at + part@.len())[k as int] != part@[k as int]);
            return false;
        }
        k += 1;
    }
    assert(text@.subrange(at as int, at + part@.len()) =~= part@);
    true
}

/// Whether `part` occurs in `text`.
pub fn contains_text(text: &str, part: &str) -> (r: bool)
    ensures
        r == has_part(text@, part@),
{
    let hay = chars_of(text);
    let needle = chars_of(part);
    if needle.len() > hay.len() {
        return false;
    }
    let last = hay.len() - needle.len();
    let mut i: usize = 0;
    while i <= last
        invariant
            i <= last + 1,
            last + needle@.len() == hay@.len() <= usize::MAX,
            hay@ == text@,
            needle@ == part@,
            forall|j: int| 0 <= j < i ==> #[trigger] hay@.subrange(j, j + needle@.len()) != needle@,
        decreases last + 1 - i,
    {
        if starts_at(&hay, &needle, i) {
            assert(hay@.subrange(i as int, i + needle@.len()) == needle@);
            return true;
        }
        assert(needle@.len() > 0) by {
            if needle@.len() == 0 {
                assert(hay@.subrange(i as int, i + needle@.len()) =~= needle@);
            }
        }
        i += 1;
    }
    false
}

/// Whether an answer says that the agent could not answer.
pub fn unanswered(answer: &ResponseFormat) -> (r: bool)
    ensures
        r == is_unanswered(answer@),
{
    match answer {
        ResponseFormat::Text(s) => contains_text(s.as_str(), "No matching answer found")
            || contains_text(s.as_str(), "No training data available"),
        ResponseFormat::Markdown(s) => contains_text(s.as_str(), "No matching answer found")
            || contains_text(s.as_str(), "No training data available"),
        ResponseFormat::Json(_) => false,
    }
}

/// An agent: it answers a query.
pub trait Agent {
    /// Whether `answer` is an answer that this agent may give to `input`.
    /// An agent that does not say so may give any answer.
    open spec fn answers(&self, input: Seq<char>, answer: AnswerView) -> bool {
        true
    }

    /// Answers a query.
    fn predict(&self, input: &str) -> (r: ResponseFormat)
        ensures
            self.answers(input@, r@),
    ;

    /// Answers a query, and tells how confident the agent is of an answer to it.
    fn predict_with_metadata(&self, input: &str) -> (r: PredictionResult)
        ensures
            self.answers(input@, r.response@),
            exists|a: AnswerView| self.answers(input@, a) && r.confidence_bits == confidence_of(a),
            r.metadata is None,
    {
        let response = self.predict(input);
        let confidence_bits = self.confidence(input);
        PredictionResult { response, confidence_bits, metadata: None }
    }

    /// The confidence of the agent for a query: 1.0 where it answers, 0.0
    /// where it says it cannot, as bit patterns.
    fn confidence(&self, input: &str) -> (r: u32)
        ensures
            exists|a: AnswerView| self.answers(input@, a) && r == confidence_of(a),
    {
        let response = self.predict(input);
        let r = if unanswered(&response) {
            ZERO_BITS
        } else {
            ONE_BITS
        };
        assert(self.answers(input@, response@) && r == confidence_of(response@));
        r
    }

    /// Whether the agent can answer a query: its confidence is above 0.5.
    fn can_answer(&self, input: &str) -> (r: bool)
        ensures
            exists|a: AnswerView| self.answers(input@, a) && r == !is_unanswered(a),
    {
        let confidence_bits = self.confidence(input);
        assert(above_half(ZERO_BITS) == false && above_half(ONE_BITS));
        0x3F00_0000 < confidence_bits && confidence_bits <= 0x7F80_0000
    }

    /// Answers a query with a string.
    fn predict_text(&self, input: &str) -> (r: String)
        ensures
            exists|a: AnswerView| self.answers(input@, a) && r@ == a.text(),
    {
        self.predict(input).into_text()
    }
}

/// An agent that learns from examples.
pub trait TrainableAgent: Agent {
    /// Whether the agent has been trained with exactly this corpus. An
    /// agent that does not say so tells nothing of its training.
    open spec fn trained_with(&self, corpus: Seq<ExampleView>) -> bool {
        true
    }

    /// Trains the agent with a list of examples, which replaces what it
    /// had learned.
    fn train(&mut self, data: &[TrainingExample])
        ensures
            final(self).trained_with(corpus_view(data@)),
    ;

    /// Trains the agent with a single example.
    fn train_single(&mut self, example: &TrainingExample)
        ensures
            final(self).trained_with(seq![example@]),
    {
        let mut one: Vec<TrainingExample> = Vec::new();
        one.push(example.clone());
        assert(corpus_view(one@) =~= seq![example@]);
        self.train(one.as_slice());
    }

    /// Trains the agent with examples of the older format.
    fn train_legacy(&mut self, data: &[LegacyTrainingExample])
        ensures
            final(self).trained_with(data@.map_values(|e: LegacyTrainingExample| modern_view(e))),
    {
        let mut converted: Vec<TrainingExample> = Vec::new();
        let mut i: usize = 0;
        while i < data.len()
            invariant
                i <= data@.len(),
                converted@.len() == i,
                corpus_view(converted@) == data@.take(i as int).map_values(
                    |e: LegacyTrainingExample| modern_view(e),
                ),
            decreases data@.len() - i,
        {
            let example = TrainingExample {
                input: data[i].input.clone(),
                output: ResponseFormat::Text(data[i].output.clone()),
                weight_bits: data[i].weight_bits,
                metadata: None,
            };
            proof {
                let modern = |e: LegacyTrainingExample| modern_view(e);
                let old_view = corpus_view(converted@);
                let new_view = corpus_view(converted@.push(example));
                assert(example@ == modern_view(data@[i as int]));
                assert(old_view == data@.take(i as int).map_values(modern));
                assert forall|k: int| 0 <= k < i + 1 implies new_view[k] == data@.take(
                    i + 1,
                ).map_values(modern)[k] by {
                    if k < i {
                        assert(new_view[k] == old_view[k]);
                        assert(old_view[k] == modern(data@.take(i as int)[k]));
                    }
                }
                assert(new_view =~= data@.take(i + 1).map_values(modern));
            }
            converted.push(example);
            i += 1;
        }
        proof {
            assert(data@.take(data@.len() as int) == data@);
        }
        self.train(converted.as_slice());
    }

    /// Makes one example of its parts and trains the agent with it.
    fn add_example(&mut self, input: &str, output: ResponseFormat, weight_bits: u32)
        ensures
            final(self).trained_with(
                seq![
                    (ExampleView { input: input@, output: output@, weight_bits, metadata: None }),
                ],
            ),
    {
        let example = TrainingExample {
            input: input.to_string(),
            output,
            weight_bits,
            metadata: None,
        };
        self.train_single(&example);
    }
}

/// An agent that takes the conversation so far into account.
pub trait ContextualAgent: Agent {
    /// Whether `after` is this agent once the question and its answer were
    /// added to its context. An agent that does not say so tells nothing of
    /// its context.
    open spec fn with_turn(&self, after: &Self, question: Seq<char>, answer: AnswerView) -> bool {
        true
    }

    /// Adds a question and its answer to the context.
    fn add_context(&mut self, question: String, answer: ResponseFormat)
        ensures
            old(self).with_turn(final(self), question@, answer@),
    ;

    /// Adds a question and its plain-text answer to the context: the agent
    /// changes as it does when the answer is added as a text answer.
    fn add_text_context(&mut self, question: String, answer: String)
        ensures
            old(self).with_turn(final(self), question@, AnswerView::Text(answer@)),
    {
        self.add_context(question, ResponseFormat::Text(answer));
    }

    /// Empties the context.
    fn clear_context(&mut self);
}

/// An agent that grades its predictions.
pub trait ConfidenceAgent: Agent {
    /// The confidence for a query, between 0.0 and 1.0, as the bit pattern
    /// of a single-precision number.
    fn calculate_confidence(&self, input: &str) -> u32;

    /// Up to `n` answers to a query, each with its confidence.
    fn predict_top_n(&self, input: &str, n: usize) -> Vec<PredictionResult>;
}

} // verus!
