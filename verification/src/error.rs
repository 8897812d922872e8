//! Errors as the user reads them.

use crate::text;
use crate::text::Text;
use vstd::prelude::*;

verus! {

/// What went wrong, outermost message first and the causes behind it.
#[derive(Debug, PartialEq, Eq)]
pub struct Error {
    pub chain: Vec<String>,
}

impl View for Error {
    type V = Seq<Text>;

    open spec fn view(&self) -> Seq<Text> {
        text::texts(self.chain@)
    }
}

/// The message that an error shows where only one is shown.
pub open spec fn outermost(chain: Seq<Text>) -> Text {
    if chain.len() == 0 {
        Seq::empty()
    } else {
        chain[0]
    }
}

/// Every message of an error on one line.
pub open spec fn whole(chain: Seq<Text>) -> Text {
    text::joined(chain, ": "@)
}

impl Error {
    pub fn new(message: String) -> (r: Error)
        ensures
            r@ == seq![message@],
    {
        let mut chain: Vec<String> = Vec::new();
        chain.push(message);
        let r = Error { chain };
        assert(r@ =~= seq![message@]);
        r
    }

    /// The same error behind one more message.
    pub fn context(self, message: String) -> (r: Error)
        ensures
            r@ == seq![message@] + self@,
    {
        let ghost inner = self@;
        let mut chain = self.chain;
        chain.insert(0, message);
        let r = Error { chain };
        assert(r@ =~= seq![message@] + inner);
        r
    }

    pub fn message(&self) -> (r: String)
        ensures
            r@ == outermost(self@),
    {
        if self.chain.len() == 0 {
            String::new()
        } else {
            self.chain[0].clone()
        }
    }

    pub fn full(&self) -> (r: String)
        ensures
            r@ == whole(self@),
    {
        text::join(&self.chain, ": ")
    }
}

impl Clone for Error {
    fn clone(&self) -> (r: Self)
        ensures
            r@ == self@,
    {
        let mut chain: Vec<String> = Vec::new();
        let mut i: usize = 0;
        while i < self.chain.len()
            invariant
                i <= self.chain@.len(),
                chain@.len() == i,
                forall|j: int| 0 <= j < i ==> (#[trigger] chain@[j])@ == self.chain@[j]@,
            decreases self.chain@.len() - i,
        {
            chain.push(self.chain[i].clone());
            i += 1;
        }
        let r = Error { chain };
        assert(r@ =~= self@);
        r
    }
}

/// An error says all of its messages where it is said in full, and the outermost
/// one where only one is said.
pub proof fn every_message_is_said(chain: Seq<Text>, message: Text, i: int)
    requires
        0 <= i < chain.len(),
    ensures
        text::occurs(whole(chain), chain[i]),
        outermost(chain) == chain[0],
        outermost(seq![message] + chain) == message,
        whole(seq![message]) == message,
{
    text::joining_keeps_each_piece(chain, ": "@, i);
}

} // verus!
