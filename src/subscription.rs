use vstd::prelude::*;
use crate::message::{ActorMessage, MessageKind, kind_of};

verus! {

/// The set of message kinds that an actor wants to receive.
pub struct MessagesToRecieve {
    kinds: Vec<MessageKind>,
}

/// The kinds of a list of example messages.
pub open spec fn kinds_of(messages: Seq<ActorMessage>) -> Set<MessageKind> {
    messages.map_values(|m: ActorMessage| kind_of(m)).to_set()
}

impl View for MessagesToRecieve {
    type V = Set<MessageKind>;

    closed spec fn view(&self) -> Set<MessageKind> {
        self.kinds@.to_set()
    }
}

impl MessagesToRecieve {
    /// Each kind is held once.
    pub closed spec fn wf(&self) -> bool {
        self.kinds@.no_duplicates()
    }

    /// Takes the kind of each example message; their payloads are dropped.
    pub fn new(messages: Vec<ActorMessage>) -> (r: MessagesToRecieve)
        ensures
            r.wf(),
            r@ == kinds_of(messages@),
    {
        let mut r = MessagesToRecieve { kinds: Vec::new() };
        let mut i: usize = 0;
        while i < messages.len()
            invariant
                i <= messages.len(),
                r.wf(),
                r@ == kinds_of(messages@.subrange(0, i as int)),
            decreases messages.len() - i,
        {
            let kind = messages[i].kind();
            let ghost old_kinds = r.kinds@;
            if !r.contains(kind) {
                r.kinds.push(kind);
            }
            proof {
                let done = messages@.subrange(0, i + 1);
                assert(done == messages@.subrange(0, i as int).push(messages@[i as int]));
                assert(done.map_values(|m: ActorMessage| kind_of(m)) =~= messages@.subrange(
                    0,
                    i as int,
                ).map_values(|m: ActorMessage| kind_of(m)).push(kind));
                messages@.subrange(0, i as int).map_values(
                    |m: ActorMessage| kind_of(m),
                ).lemma_push_to_set_commute(kind);
                old_kinds.lemma_push_to_set_commute(kind);
                assert(r@ =~= kinds_of(done));
            }
            i = i + 1;
        }
        proof {
            assert(messages@.subrange(0, messages@.len() as int) =~= messages@);
        }
        r
    }

    /// Whether messages of `kind` are wanted.
    pub fn contains(&self, kind: MessageKind) -> (r: bool)
        ensures
            r == self@.contains(kind),
    {
        let mut i: usize = 0;
        while i < self.kinds.len()
            invariant
                i <= self.kinds.len(),
                forall|j: int| 0 <= j < i ==> self.kinds@[j] != kind,
            decreases self.kinds.len() - i,
        {
            if self.kinds[i] == kind {
                return true;
            }
            i = i + 1;
        }
        false
    }
}

} // verus!
