//! What the user is told when something fails.

use vstd::prelude::*;
use crate::text::texts;

verus! {

/// Why something failed: the outermost reason first, its cause behind it, and so on.
#[derive(Debug)]
pub struct Failure {
    pub messages: Vec<String>,
}

impl View for Failure {
    type V = Seq<Seq<char>>;

    open spec fn view(&self) -> Seq<Seq<char>> {
        texts(self.messages@)
    }
}

impl Failure {
    /// A failure with a single reason.
    pub fn new(message: String) -> (r: Self)
        ensures
            r@ == seq![message@],
    {
        let mut messages: Vec<String> = Vec::new();
        messages.push(message);
        proof {
            assert(texts(messages@) =~= seq![message@]);
        }
        Failure { messages }
    }

    /// The same failure, with one more reason in front.
    pub fn context(self, message: String) -> (r: Self)
        ensures
            r@ == seq![message@] + self@,
    {
        let mut messages = self.messages;
        messages.insert(0, message);
        proof {
            assert(texts(messages@) =~= seq![message@] + self@);
        }
        Failure { messages }
    }
}

/// A failure with a reason and its cause.
pub fn caused(cause: String, context: &str) -> (r: Failure)
    ensures
        r@ == seq![context@, cause@],
{
    let failure = Failure::new(cause).context(String::from_str(context));
    proof {
        assert(failure@ =~= seq![context@, cause@]);
    }
    failure
}

/// The view of a failure that may be missing.
pub open spec fn maybe_failure(f: Option<Failure>) -> Option<Seq<Seq<char>>> {
    match f {
        Some(f) => Some(f@),
        None => None,
    }
}

} // verus!
