//! Retrieval of the best-matching answer from a small in-memory corpus of
//! question/answer pairs, with exact, fuzzy and ranked matching strategies
//! and a wrapper that adds recent conversation history to a query.

use vstd::prelude::*;
use vstd::string::StringExecFns;

pub mod agent;
pub mod context_agent;
pub mod fuzzy_agent;
pub mod knowledge;
pub mod match_agent;
pub mod pdf_loader;
pub mod simple_agent;
pub mod structured_agent;
pub mod tfidf_agent;
pub mod unicode;

pub use agent::{Agent, ContextualAgent, ResponseFormat, TrainableAgent, TrainingExample};
pub use context_agent::ContextAgent;
pub use knowledge::KnowledgeBase;
pub use match_agent::MatchAgent;
pub use pdf_loader::{PdfLoader, PdfLoaderConfig};
pub use tfidf_agent::TfidfAgent;

verus! {

/// The version of the library.
pub const VERSION: &'static str = "0.1.0";

/// The name of the library.
pub const NAME: &'static str = "airust";

/// The name and the version of the library, as "name vversion".
pub fn version_info() -> (r: String)
    ensures
        r@ == NAME@ + " v"@ + VERSION@,
{
    NAME.to_string().concat(" v").concat(VERSION)
}

/// The text that describes the library.
pub open spec fn description_text() -> Seq<char> {
    "AIRust: A modular Rust library for building flexible AI agents with various matching strategies"@
}

/// A short description of what the library is for.
pub fn library_description() -> (r: String)
    ensures
        r@ == description_text(),
{
    "AIRust: A modular Rust library for building flexible AI agents with various matching strategies".to_string()
}

} // verus!
