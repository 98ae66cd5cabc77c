//! The knowledge base: the training examples of an application, and the
//! file that they belong to.

use vstd::prelude::*;
use vstd::string::StringExecFns;
use std::path::PathBuf;
use crate::agent::{ResponseFormat, TrainingExample};
use crate::unicode::{decimal, push_decimal};

verus! {

/// A path in the file system, of the standard library.
#[verifier::external_type_specification]
#[verifier::external_body]
pub struct ExPathBuf(PathBuf);

/// The clone of a path is the same path.
pub assume_specification[ <PathBuf as Clone>::clone ](path: &PathBuf) -> (r: PathBuf)
    ensures
        r == *path,
;

/// The message for an index that is not one of an example.
pub open spec fn out_of_bounds_message(index: nat) -> Seq<char> {
    "Index "@ + decimal(index) + " out of bounds"@
}

/// The message for saving without a path.
pub open spec fn no_path_message() -> Seq<char> {
    "No path provided"@
}

/// A list of training examples, and the path of the file that it was
/// loaded from, if any.
pub struct KnowledgeBase {
    examples: Vec<TrainingExample>,
    file_path: Option<PathBuf>,
}

impl Clone for KnowledgeBase {
    fn clone(&self) -> (r: Self)
        ensures
            r.examples() == self.examples(),
            r.path() == self.path(),
    {
        let file_path = match &self.file_path {
            Some(path) => Some(path.clone()),
            None => None,
        };
        KnowledgeBase { examples: self.examples.clone(), file_path }
    }
}

impl KnowledgeBase {
    /// The examples, in the order in which they were added.
    pub closed spec fn examples(&self) -> Seq<TrainingExample> {
        self.examples@
    }

    /// The path of the file that the examples belong to.
    pub closed spec fn path(&self) -> Option<PathBuf> {
        self.file_path
    }

    /// An empty knowledge base without a path.
    pub fn new() -> (r: Self)
        ensures
            r.examples() == Seq::<TrainingExample>::empty(),
            r.path() is None,
    {
        KnowledgeBase { examples: Vec::new(), file_path: None }
    }

    /// A knowledge base of the given examples and path.
    pub fn from_parts(examples: Vec<TrainingExample>, file_path: Option<PathBuf>) -> (r: Self)
        ensures
            r.examples() == examples@,
            r.path() == file_path,
    {
        KnowledgeBase { examples, file_path }
    }

    /// Adds an example, made of its parts, behind the others.
    pub fn add_example(&mut self, input: String, output: ResponseFormat, weight_bits: u32)
        ensures
            final(self).examples() == old(self).examples().push(
                TrainingExample { input, output, weight_bits, metadata: None },
            ),
            final(self).path() == old(self).path(),
    {
        let example = TrainingExample { input, output, weight_bits, metadata: None };
        self.examples.push(example);
    }

    /// Removes the example at `index` and returns it; an index that is not
    /// one of an example is refused with a message, and nothing changes.
    pub fn remove_example(&mut self, index: usize) -> (r: Result<TrainingExample, String>)
        ensures
            final(self).path() == old(self).path(),
            index < old(self).examples().len() ==> r is Ok && r->Ok_0 == old(self).examples()[index as int]
                && final(self).examples() == old(self).examples().remove(index as int),
            index >= old(self).examples().len() ==> r is Err && r->Err_0@ == out_of_bounds_message(
                index as nat,
            ) && final(self).examples() == old(self).examples(),
    {
        if index < self.examples.len() {
            Ok(self.examples.remove(index))
        } else {
            let mut message = "Index ".to_string();
            push_decimal(&mut message, index);
            message.append(" out of bounds");
            Err(message)
        }
    }

    /// The examples.
    pub fn get_examples(&self) -> (r: &[TrainingExample])
        ensures
            r@ == self.examples(),
    {
        self.examples.as_slice()
    }

    /// Adds copies of the examples of another knowledge base behind those
    /// of this one.
    pub fn merge(&mut self, other: &KnowledgeBase)
        ensures
            final(self).examples() == old(self).examples() + other.examples(),
            final(self).path() == old(self).path(),
    {
        self.add_all(other.get_examples());
    }

    /// Adds copies of the given examples behind those of this knowledge base.
    pub fn add_all(&mut self, examples: &[TrainingExample])
        ensures
            final(self).examples() == old(self).examples() + examples@,
            final(self).path() == old(self).path(),
    {
        let mut i: usize = 0;
        while i < examples.len()
            invariant
                i <= examples@.len(),
                self.file_path == old(self).file_path,
                self.examples@ == old(self).examples@ + examples@.take(i as int),
            decreases examples@.len() - i,
        {
            self.examples.push(examples[i].clone());
            proof {
                assert(examples@.take(i + 1) == examples@.take(i as int).push(examples@[i as int]));
            }
            i += 1;
        }
        proof {
            assert(examples@.take(examples@.len() as int) == examples@);
        }
    }

    /// The path to save to: the given one, else the path of the knowledge
    /// base; without either, saving is refused with a message.
    pub fn save_path(&self, path: Option<PathBuf>) -> (r: Result<PathBuf, String>)
        ensures
            path is Some ==> r == Ok::<PathBuf, String>(path->Some_0),
            path is None && self.path() is Some ==> r == Ok::<PathBuf, String>(self.path()->Some_0),
            path is None && self.path() is None ==> r is Err && r->Err_0@ == no_path_message(),
    {
        match path {
            Some(given) => Ok(given),
            None => match &self.file_path {
                Some(own) => Ok(own.clone()),
                None => Err("No path provided".to_string()),
            },
        }
    }
}

impl Default for KnowledgeBase {
    fn default() -> (r: Self)
        ensures
            r.examples() == Seq::<TrainingExample>::empty(),
            r.path() is None,
    {
        Self::new()
    }
}

} // verus!
