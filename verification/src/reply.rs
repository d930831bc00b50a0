//! The context that gathers what a traversal committed, for sending on.

use vstd::prelude::*;
use vstd::string::*;
use crate::context::{prefix, Context};

verus! {

broadcast use vstd::seq::group_seq_axioms;

/// Context that manages a list of reply messages.
///
/// Every command recorded through the context is added to the list, behind
/// the prefix of the path at which the context stands. When the traversal is
/// over the list is taken out and sent to the remotes.
pub struct Reply {
    reply: Vec<(String, bool)>,
    path: Vec<String>,
}

impl Reply {
    /// The messages gathered so far, each with whether it is to be sent back
    /// to the origin as well.
    pub closed spec fn messages(&self) -> Seq<(Seq<char>, bool)> {
        self.reply.deep_view()
    }

    /// The elements of the path at which the context stands.
    pub closed spec fn elements(&self) -> Seq<Seq<char>> {
        self.path.deep_view()
    }

    /// Creates a reply context at the root. Takes the list to put the reply
    /// messages in; the bool of each entry says whether to send the message
    /// back to the origin.
    pub fn new(reply: Vec<(String, bool)>) -> (context: Self)
        ensures
            context.messages() == reply.deep_view(),
            context.elements() == Seq::<Seq<char>>::empty(),
    {
        let context = Reply { reply, path: Vec::new() };
        context
    }

    /// Hands out the gathered messages, oldest first.
    pub fn into_inner(self) -> (reply: Vec<(String, bool)>)
        ensures
            reply.deep_view() == self.messages(),
    {
        self.reply
    }
}

impl Context for Reply {
    open spec fn path(&self) -> Seq<Seq<char>> {
        self.elements()
    }

    open spec fn log(&self) -> Seq<(Seq<char>, bool)> {
        self.messages()
    }

    open spec fn observes(&self) -> bool {
        true
    }

    fn descend(&mut self, element: &str) {
        self.path.push(element.to_owned());
    }

    fn ascend(&mut self) {
        self.path.pop();
    }

    fn record(&mut self, text: &str, broadcast: bool) {
        let ghost elements = self.path.deep_view();
        let mut entry = String::new();
        let mut i: usize = 0;
        while i < self.path.len()
            invariant
                i <= self.path.len(),
                elements == self.path.deep_view(),
                *self == *old(self),
                entry@ == prefix(elements.take(i as int)),
            decreases self.path.len() - i,
        {
            proof {
                reveal_strlit("/");
                assert(elements.take(i + 1).drop_last() =~= elements.take(i as int));
            }
            entry.append(self.path[i].as_str());
            entry.append("/");
            i += 1;
        }
        assert(elements.take(i as int) =~= elements);
        entry.append(text);
        self.reply.push((entry, broadcast));
    }
}

} // verus!
