use vstd::prelude::*;
use std::collections::VecDeque;
use crate::key::ActorKey;
use crate::message::ActorMessage;
use crate::model::RequestView;
use crate::subscription::MessagesToRecieve;

verus! {

/// What an actor type supplies. The registry owns its actors and hands each
/// handler an `Outbox` through which it may act on the registry. What a
/// handler asks for is carried out, in order, right after the handler
/// returns for a local message, and after the message has gone to every
/// slot that hears it for a broadcast; an actor added meanwhile does not get
/// the message being broadcast.
pub trait Actor: Sized {
    fn set_actor_key(&mut self, actor_key: ActorKey);

    fn get_actor_key(&self) -> Option<ActorKey>;

    /// Handles one message. The returned message is not routed anywhere.
    fn recieve_message(&mut self, outbox: &mut Outbox<Self>, message: &ActorMessage) -> ActorMessage;

    /// The kinds this actor wants; read once, when it is added.
    fn get_messages_to_recieve(&self) -> MessagesToRecieve;
}

/// One thing a handler asked of the registry.
pub enum Request<A> {
    Push(ActorMessage),
    Destroy(ActorKey),
    Spawn(A, MessagesToRecieve),
}

pub open spec fn request_view<A>(r: Request<A>) -> RequestView {
    match r {
        Request::Push(m) => RequestView::Push(m),
        Request::Destroy(k) => RequestView::Destroy(k),
        Request::Spawn(_, subs) => RequestView::Spawn(subs@),
    }
}

/// The requests that handlers made, in the order they made them.
pub struct Outbox<A> {
    requests: VecDeque<Request<A>>,
}

impl<A> View for Outbox<A> {
    type V = Seq<RequestView>;

    closed spec fn view(&self) -> Seq<RequestView> {
        self.requests@.map_values(|r: Request<A>| request_view(r))
    }
}

impl<A> Outbox<A> {
    pub(crate) fn new() -> (r: Outbox<A>)
        ensures
            r@.len() == 0,
    {
        Outbox { requests: VecDeque::new() }
    }

    /// Asks for `message` to be broadcast through the global queue.
    pub fn push_message(&mut self, message: ActorMessage)
        ensures
            final(self)@ == old(self)@.push(RequestView::Push(message)),
    {
        self.requests.push_back(Request::Push(message));
        proof {
            assert(final(self)@ =~= old(self)@.push(RequestView::Push(message)));
        }
    }

    /// Asks for the actor under `actor_key` to be destroyed.
    pub fn destroy_actor(&mut self, actor_key: &ActorKey)
        ensures
            final(self)@ == old(self)@.push(RequestView::Destroy(*actor_key)),
    {
        self.requests.push_back(Request::Destroy(*actor_key));
        proof {
            assert(final(self)@ =~= old(self)@.push(RequestView::Destroy(*actor_key)));
        }
    }

    /// Asks for `actor` to be added, with the subscription it declares now.
    pub fn add_actor(&mut self, actor: A)
        where A: Actor,
        ensures
            final(self)@.len() == old(self)@.len() + 1,
            final(self)@.drop_last() == old(self)@,
            final(self)@.last() is Spawn,
    {
        let subs = actor.get_messages_to_recieve();
        self.requests.push_back(Request::Spawn(actor, subs));
        proof {
            assert(final(self)@ =~= old(self)@.push(RequestView::Spawn(subs@)));
        }
    }

    /// Takes the oldest request.
    pub(crate) fn pop(&mut self) -> (r: Option<Request<A>>)
        ensures
            old(self)@.len() == 0 ==> r is None && final(self)@ == old(self)@,
            old(self)@.len() > 0 ==> (r matches Some(q) && request_view(q) == old(self)@[0]
                && final(self)@ == old(self)@.drop_first()),
    {
        let r = self.requests.pop_front();
        proof {
            if old(self)@.len() > 0 {
                assert(final(self)@ =~= old(self)@.drop_first());
            }
        }
        r
    }
}

} // verus!
