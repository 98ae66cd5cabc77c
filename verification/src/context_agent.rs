//! The context agent: it wraps another agent and adds the conversation so
//! far to each query.

use vstd::prelude::*;
use vstd::string::StringExecFns;
use std::collections::VecDeque;
use crate::agent::{
    Agent, AnswerView, ContextualAgent, ExampleView, ResponseFormat, TrainableAgent,
    TrainingExample,
};

verus! {

/// One turn of a conversation as a mathematical value: the question and
/// its answer.
pub type TurnView = (Seq<char>, AnswerView);

/// The turns that a sequence of pairs of question and answer holds.
pub open spec fn turns(history: Seq<(String, ResponseFormat)>) -> Seq<TurnView> {
    history.map_values(|t: (String, ResponseFormat)| (t.0@, t.1@))
}

/// The turns as "Q: question A: answer ", one after the other.
pub open spec fn qa_pairs_text(history: Seq<TurnView>) -> Seq<char>
    decreases history.len(),
{
    if history.len() == 0 {
        Seq::empty()
    } else {
        qa_pairs_text(history.drop_last()) + "Q: "@ + history.last().0 + " A: "@
            + history.last().1.text() + " "@
    }
}

/// The turns, each as question, `link`, answer, with `separator` between them.
pub open spec fn joined_turns(
    history: Seq<TurnView>,
    link: Seq<char>,
    separator: Seq<char>,
) -> Seq<char>
    decreases history.len(),
{
    if history.len() == 0 {
        Seq::empty()
    } else if history.len() == 1 {
        history.last().0 + link + history.last().1.text()
    } else {
        joined_turns(history.drop_last(), link, separator) + separator + history.last().0 + link
            + history.last().1.text()
    }
}

/// The turns as a list in square brackets: "[question -> answer, ...]".
pub open spec fn list_text(history: Seq<TurnView>) -> Seq<char> {
    "["@ + joined_turns(history, " -> "@, ", "@) + "]"@
}

/// The turns as a sentence: "Previous questions and answers: question -
/// answer; ...".
pub open spec fn sentence_text(history: Seq<TurnView>) -> Seq<char> {
    "Previous questions and answers: "@ + joined_turns(history, " - "@, "; "@)
}

/// The query with the rendered context behind it.
pub open spec fn with_context(query: Seq<char>, rendered: Seq<char>) -> Seq<char> {
    query + " [Context: "@ + rendered + "]"@
}

/// Renders the turns as "Q: question A: answer ", one after the other.
fn render_qa_pairs(history: &VecDeque<(String, ResponseFormat)>) -> (r: String)
    ensures
        r@ == qa_pairs_text(turns(history@)),
{
    let mut context = String::new();
    let mut i: usize = 0;
    while i < history.len()
        invariant
            i <= history@.len(),
            context@ == qa_pairs_text(turns(history@).take(i as int)),
        decreases history@.len() - i,
    {
        proof {
            assert(turns(history@).take(i + 1).drop_last() == turns(history@).take(i as int));
        }
        let answer_text = history[i].1.to_text();
        context.append("Q: ");
        context.append(history[i].0.as_str());
        context.append(" A: ");
        context.append(answer_text.as_str());
        context.append(" ");
        i += 1;
    }
    proof {
        assert(turns(history@).take(history@.len() as int) == turns(history@));
    }
    context
}

/// Renders the turns, each as question, `link`, answer, with `separator`
/// between them.
fn render_joined(history: &VecDeque<(String, ResponseFormat)>, link: &str, separator: &str) -> (r:
    String)
    ensures
        r@ == joined_turns(turns(history@), link@, separator@),
{
    let mut context = String::new();
    let mut i: usize = 0;
    while i < history.len()
        invariant
            i <= history@.len(),
            context@ == joined_turns(turns(history@).take(i as int), link@, separator@),
        decreases history@.len() - i,
    {
        proof {
            assert(turns(history@).take(i + 1).drop_last() == turns(history@).take(i as int));
            assert(Seq::<char>::empty() + history@[i as int].0@ == history@[i as int].0@);
        }
        let answer_text = history[i].1.to_text();
        if i > 0 {
            context.append(separator);
        }
        context.append(history[i].0.as_str());
        context.append(link);
        context.append(answer_text.as_str());
        i += 1;
    }
    proof {
        assert(turns(history@).take(history@.len() as int) == turns(history@));
    }
    context
}

/// A way of rendering the turns of a conversation that the user of the
/// library brings.
pub trait ContextFormatter {
    /// Whether `text` is what this formatter renders of `history`. A
    /// formatter that does not say so may render any text.
    open spec fn renders(&self, history: Seq<TurnView>, text: Seq<char>) -> bool {
        true
    }

    /// Renders the turns, oldest first.
    fn format(&self, history: &Vec<(String, ResponseFormat)>) -> (r: String)
        ensures
            self.renders(turns(history@), r@),
    ;
}

/// How the context is rendered.
pub enum ContextFormat {
    /// "Q: question A: answer Q: question A: answer ..."
    QAPairs,
    /// "[question -> answer, question -> answer, ...]"
    List,
    /// "Previous questions and answers: question - answer; question - answer; ..."
    Sentence,
    /// A formatter of the user's own.
    Custom(Box<dyn ContextFormatter>),
}

impl ContextFormat {
    /// Whether `text` is a rendering of `history` in this format: the text
    /// of one of the three fixed formats, or what the user's formatter
    /// renders of the turns.
    pub open spec fn renders(self, history: Seq<TurnView>, text: Seq<char>) -> bool {
        match self {
            ContextFormat::QAPairs => text == qa_pairs_text(history),
            ContextFormat::List => text == list_text(history),
            ContextFormat::Sentence => text == sentence_text(history),
            ContextFormat::Custom(formatter) => formatter.renders(history, text),
        }
    }
}

impl Default for ContextFormat {
    fn default() -> (r: Self)
        ensures
            r is QAPairs,
    {
        ContextFormat::QAPairs
    }
}

/// The window after a turn was added to it: the latest `capacity` turns.
pub open spec fn appended(window: Seq<TurnView>, turn: TurnView, capacity: nat) -> Seq<TurnView> {
    latest(window.push(turn), capacity)
}

/// The latest `capacity` turns of a conversation.
pub open spec fn latest(all: Seq<TurnView>, capacity: nat) -> Seq<TurnView> {
    if all.len() <= capacity {
        all
    } else {
        all.subrange(all.len() - capacity, all.len() as int)
    }
}

/// The window after each turn of `added` was added to it in order.
pub open spec fn after_adding(window: Seq<TurnView>, added: Seq<TurnView>, capacity: nat) -> Seq<
    TurnView,
>
    decreases added.len(),
{
    if added.len() == 0 {
        window
    } else {
        appended(after_adding(window, added.drop_last(), capacity), added.last(), capacity)
    }
}

/// An agent that answers with the help of another agent, to which it hands
/// the query together with the latest turns of the conversation.
pub struct ContextAgent<A: Agent> {
    base_agent: A,
    context_history: VecDeque<(String, ResponseFormat)>,
    max_context_items: usize,
    context_format: ContextFormat,
}

impl<A: Agent> ContextAgent<A> {
    /// Whether the window holds no more turns than its capacity, which
    /// holds of every agent that this module makes.
    pub closed spec fn wf(&self) -> bool {
        self.context_history@.len() <= self.max_context_items
    }

    /// The agent that answers.
    pub closed spec fn base(&self) -> A {
        self.base_agent
    }

    /// The turns in the window, oldest first.
    pub closed spec fn window(&self) -> Seq<TurnView> {
        turns(self.context_history@)
    }

    /// The largest number of turns that the window holds.
    pub closed spec fn capacity(&self) -> nat {
        self.max_context_items as nat
    }

    /// The format in which the window is rendered.
    pub closed spec fn format(&self) -> ContextFormat {
        self.context_format
    }

    /// The query that the base agent may get for `query`: the query itself
    /// while the window is empty, else the query with a rendering of the
    /// window behind it.
    pub open spec fn hands_on(&self, query: Seq<char>, handed: Seq<char>) -> bool {
        if self.window().len() == 0 {
            handed == query
        } else {
            exists|rendered: Seq<char>|
                self.format().renders(self.window(), rendered) && handed == with_context(
                    query,
                    rendered,
                )
        }
    }

    /// A context agent around `base_agent` with an empty window for at most
    /// `max_context_items` turns, rendered as pairs of question and answer.
    pub fn new(base_agent: A, max_context_items: usize) -> (r: Self)
        ensures
            r.base() == base_agent,
            r.window() == Seq::<TurnView>::empty(),
            r.capacity() == max_context_items,
            r.format() is QAPairs,
            r.wf(),
    {
        let r = ContextAgent {
            base_agent,
            context_history: VecDeque::new(),
            max_context_items,
            context_format: ContextFormat::default(),
        };
        assert(r.window() =~= Seq::<TurnView>::empty());
        r
    }

    /// The same agent with another format for the context.
    pub fn with_context_format(self, format: ContextFormat) -> (r: Self)
        ensures
            r.base() == self.base(),
            r.window() == self.window(),
            r.capacity() == self.capacity(),
            r.format() == format,
            r.wf() == self.wf(),
    {
        ContextAgent {
            base_agent: self.base_agent,
            context_history: self.context_history,
            max_context_items: self.max_context_items,
            context_format: format,
        }
    }

    /// The number of turns in the window.
    pub fn context_len(&self) -> (r: usize)
        ensures
            r == self.window().len(),
            self.wf() ==> r <= self.capacity(),
    {
        self.context_history.len()
    }

    /// A copy of the turns in the window, oldest first.
    pub fn context_entries(&self) -> (r: Vec<(String, ResponseFormat)>)
        ensures
            turns(r@) == self.window(),
    {
        let mut out: Vec<(String, ResponseFormat)> = Vec::new();
        let mut i: usize = 0;
        while i < self.context_history.len()
            invariant
                i <= self.context_history@.len(),
                out@ == self.context_history@.take(i as int),
            decreases self.context_history@.len() - i,
        {
            let question = self.context_history[i].0.clone();
            let answer = self.context_history[i].1.clone();
            out.push((question, answer));
            i += 1;
        }
        proof {
            assert(self.context_history@.take(self.context_history@.len() as int)
                == self.context_history@);
        }
        out
    }

    /// Renders the window in the format of the agent.
    fn get_context_string(&self) -> (r: String)
        ensures
            self.format().renders(self.window(), r@),
    {
        match &self.context_format {
            ContextFormat::QAPairs => render_qa_pairs(&self.context_history),
            ContextFormat::List => {
                let items = render_joined(&self.context_history, " -> ", ", ");
                "[".to_string().concat(items.as_str()).concat("]")
            },
            ContextFormat::Sentence => {
                let items = render_joined(&self.context_history, " - ", "; ");
                "Previous questions and answers: ".to_string().concat(items.as_str())
            },
            ContextFormat::Custom(formatter) => {
                let entries = self.context_entries();
                formatter.format(&entries)
            },
        }
    }
}

impl<A: Agent> Agent for ContextAgent<A> {
    open spec fn answers(&self, input: Seq<char>, answer: AnswerView) -> bool {
        exists|handed: Seq<char>|
            self.hands_on(input, handed) && #[trigger] self.base().answers(handed, answer)
    }

    /// The answer of the base agent to the query with the context behind
    /// it, or to the query alone while the window is empty.
    fn predict(&self, input: &str) -> (r: ResponseFormat) {
        if self.context_history.len() == 0 {
            let r = self.base_agent.predict(input);
            assert(self.window().len() == 0);
            assert(self.hands_on(input@, input@) && self.base().answers(input@, r@));
            r
        } else {
            let context_str = self.get_context_string();
            let enhanced_input = input.to_string().concat(" [Context: ").concat(
                context_str.as_str(),
            ).concat("]");
            let r = self.base_agent.predict(enhanced_input.as_str());
            assert(self.window().len() > 0);
            assert(self.format().renders(self.window(), context_str@) && enhanced_input@
                == with_context(input@, context_str@));
            assert(self.hands_on(input@, enhanced_input@) && self.base().answers(
                enhanced_input@,
                r@,
            ));
            r
        }
    }
}

impl<A: TrainableAgent> TrainableAgent for ContextAgent<A> {
    open spec fn trained_with(&self, corpus: Seq<ExampleView>) -> bool {
        self.base().trained_with(corpus)
    }

    /// Trains the base agent; the window stays as it is.
    fn train(&mut self, data: &[TrainingExample])
        ensures
            final(self).window() == old(self).window(),
            final(self).capacity() == old(self).capacity(),
            final(self).format() == old(self).format(),
            final(self).wf() == old(self).wf(),
    {
        self.base_agent.train(data);
    }
}

impl<A: Agent> ContextualAgent for ContextAgent<A> {
    /// After a turn was added, the window holds the latest turns, at most
    /// as many as its capacity, and nothing else of the agent has changed.
    open spec fn with_turn(&self, after: &Self, question: Seq<char>, answer: AnswerView) -> bool {
        &&& after.window() == appended(self.window(), (question, answer), self.capacity())
        &&& after.wf()
        &&& after.capacity() == self.capacity()
        &&& after.base() == self.base()
        &&& after.format() == self.format()
    }

    /// Adds a turn to the window, which then holds the latest turns, at
    /// most as many as its capacity.
    fn add_context(&mut self, question: String, answer: ResponseFormat)
        ensures
            final(self).window() == appended(
                old(self).window(),
                (question@, answer@),
                old(self).capacity(),
            ),
            final(self).wf(),
            final(self).capacity() == old(self).capacity(),
            final(self).base() == old(self).base(),
            final(self).format() == old(self).format(),
    {
        let ghost all = self.context_history@.push((question, answer));
        self.context_history.push_back((question, answer));
        let ghost mut dropped: int = 0;
        while self.context_history.len() > self.max_context_items
            invariant
                0 <= dropped <= all.len(),
                self.context_history@ == all.subrange(dropped, all.len() as int),
                dropped > 0 ==> self.context_history@.len() >= self.max_context_items,
                self.max_context_items == old(self).max_context_items,
                self.base_agent == old(self).base_agent,
                self.context_format == old(self).context_format,
            decreases self.context_history@.len(),
        {
            let _oldest = self.context_history.pop_front();
            proof {
                dropped = dropped + 1;
                assert(self.context_history@ =~= all.subrange(dropped, all.len() as int));
            }
        }
        proof {
            let before = turns(old(self).context_history@);
            let turn = (question@, answer@);
            assert(turns(all) =~= before.push(turn));
            if dropped == 0 {
                assert(all.subrange(0, all.len() as int) =~= all);
            }
            assert(turns(self.context_history@) =~= latest(turns(all), self.max_context_items as nat));
        }
    }

    /// Empties the window.
    fn clear_context(&mut self)
        ensures
            final(self).window() == Seq::<TurnView>::empty(),
            final(self).wf(),
            final(self).capacity() == old(self).capacity(),
            final(self).base() == old(self).base(),
            final(self).format() == old(self).format(),
    {
        self.context_history.clear();
        assert(self.window() =~= Seq::<TurnView>::empty());
    }
}

/// A window that started empty holds the latest turns of those that were
/// added to it, at most as many as its capacity: the oldest turns leave
/// first.
pub proof fn lemma_window_holds_latest(added: Seq<TurnView>, capacity: nat)
    ensures
        after_adding(Seq::empty(), added, capacity) == latest(added, capacity),
    decreases added.len(),
{
    if added.len() > 0 {
        lemma_window_holds_latest(added.drop_last(), capacity);
        let before = latest(added.drop_last(), capacity);
        assert(added.drop_last().push(added.last()) =~= added);
        assert(latest(before.push(added.last()), capacity) =~= latest(added, capacity));
    } else {
        assert(after_adding(Seq::empty(), added, capacity) =~= latest(added, capacity));
    }
}

/// After one turn more than its capacity was added to an empty window, the
/// window holds as many turns as its capacity: all but the first.
pub proof fn lemma_window_evicts_oldest(added: Seq<TurnView>, capacity: nat)
    requires
        added.len() == capacity + 1,
    ensures
        after_adding(Seq::empty(), added, capacity).len() == capacity,
        after_adding(Seq::empty(), added, capacity) == added.drop_first(),
{
    lemma_window_holds_latest(added, capacity);
    assert(latest(added, capacity) =~= added.drop_first());
}

/// While its window is empty, a context agent answers as its base agent
/// does.
pub proof fn lemma_empty_window_is_transparent<A: Agent>(
    agent: ContextAgent<A>,
    input: Seq<char>,
    answer: AnswerView,
)
    requires
        agent.window().len() == 0,
    ensures
        agent.answers(input, answer) <==> agent.base().answers(input, answer),
{
    if agent.base().answers(input, answer) {
        assert(agent.hands_on(input, input));
    }
}

} // verus!
