use vstd::prelude::*;
use std::collections::VecDeque;
use crate::actor::{Actor, Outbox, Request};
use crate::key::{ActorKey, empty_key};
use crate::message::{ActorMessage, MessageKind};
use crate::model::{
    RequestView, SlotView, SystemView, broadcast_deliveries, lemma_apply_all, lemma_destroy, lemma_evolves_refl,
    lemma_evolves_trans, lemma_first_reusable_is, lemma_pop_global, lemma_pop_local,
    lemma_requests_untouched, lemma_retire, lemma_spawn, lemma_untouched_refl, lemma_untouched_trans,
};
use crate::subscription::MessagesToRecieve;
use crate::timestep::{substeps, tick_lengths};

verus! {

/// One slot of the registry: the key of its current or last occupant, that
/// occupant's subscription, the actor while it is alive, and its local queue.
pub struct ActorID<A> {
    pub key: ActorKey,
    messages_to_recieve: MessagesToRecieve,
    actor: Option<A>,
    started: bool,
    local_message_queue: VecDeque<ActorMessage>,
    taken: Ghost<nat>,
}

impl<A> View for ActorID<A> {
    type V = SlotView;

    closed spec fn view(&self) -> SlotView {
        SlotView {
            key: self.key,
            subs: self.messages_to_recieve@,
            alive: self.actor is Some,
            started: self.started,
            local: self.local_message_queue@,
            taken: self.taken@,
        }
    }
}

impl<A> ActorID<A> {
    /// The actor the slot holds, if any.
    pub closed spec fn occupant(&self) -> Option<A> {
        self.actor
    }

    /// The actor, while the slot is alive.
    pub fn get(&self) -> (r: Option<&A>)
        ensures
            r is Some == self@.alive,
            r matches Some(a) ==> self.occupant() == Some(*a),
    {
        self.actor.as_ref()
    }
}

/// The registry: a table of slots addressed by generational keys, and a
/// global queue of messages to broadcast.
pub struct ActorSystem<A> {
    actors: Vec<ActorID<A>>,
    global_message_queue: VecDeque<ActorMessage>,
    broadcast: Ghost<nat>,
    delivered: Ghost<Seq<(ActorKey, ActorMessage)>>,
    running: bool,
    issued: Ghost<Set<ActorKey>>,
    retired: Ghost<Set<ActorKey>>,
}

impl<A> View for ActorSystem<A> {
    type V = SystemView;

    closed spec fn view(&self) -> SystemView {
        SystemView {
            slots: self.actors@.map_values(|s: ActorID<A>| s@),
            global: self.global_message_queue@,
            broadcast: self.broadcast@,
            delivered: self.delivered@,
            running: self.running,
            issued: self.issued@,
            retired: self.retired@,
        }
    }
}

impl<A> ActorSystem<A> {
    /// The actor that slot `i` holds, if any.
    pub closed spec fn actor_at(&self, i: int) -> Option<A> {
        self.actors@[i].occupant()
    }
}

impl<A: Actor> ActorSystem<A> {
    pub open spec fn wf(&self) -> bool {
        self@.wf()
    }

    /// An empty registry, stopped.
    pub fn new() -> (r: ActorSystem<A>)
        ensures
            r.wf(),
            r@.slots.len() == 0,
            r@.global.len() == 0,
            !r@.running,
            r@.issued.is_empty(),
    {
        let r = ActorSystem {
            actors: Vec::new(),
            global_message_queue: VecDeque::new(),
            broadcast: Ghost(0),
            delivered: Ghost(Seq::empty()),
            running: false,
            issued: Ghost(Set::empty()),
            retired: Ghost(Set::empty()),
        };
        proof {
            assert(r@.slots =~= Seq::<SlotView>::empty());
        }
        r
    }

    pub fn is_running(&self) -> (r: bool)
        ensures
            r == self@.running,
    {
        self.running
    }

    /// Starts or stops dispatch; nothing else changes.
    pub fn set_running(&mut self, running: bool)
        requires
            old(self).wf(),
        ensures
            final(self).wf(),
            final(self)@ == (SystemView { running: running, ..old(self)@ }),
    {
        self.running = running;
    }

    /// Queues `message` for broadcast; nothing is delivered.
    pub fn push_message(&mut self, message: ActorMessage)
        requires
            old(self).wf(),
        ensures
            final(self).wf(),
            final(self)@ == old(self)@.push(message),
    {
        self.global_message_queue.push_back(message);
        proof {
            assert(self@.slots == old(self)@.slots);
        }
    }

    /// Covers `elapsed` microseconds with `Process` messages of at most
    /// `max_step` microseconds each, pushed in order to the global queue.
    pub fn push_ticks(&mut self, elapsed: u64, max_step: u64)
        requires
            old(self).wf(),
            max_step > 0,
        ensures
            final(self).wf(),
            final(self)@ == (SystemView {
                global: old(self)@.global + substeps(elapsed as nat, max_step as nat).map_values(
                    |d: nat| ActorMessage::Process(d as u64),
                ),
                ..old(self)@
            }),
    {
        let lengths = tick_lengths(elapsed, max_step);
        let ghost ticks = lengths@.map_values(|d: u64| ActorMessage::Process(d));
        proof {
            assert(ticks =~= substeps(elapsed as nat, max_step as nat).map_values(
                |d: nat| ActorMessage::Process(d as u64),
            )) by {
                assert(lengths@.map_values(|d: u64| d as nat) == substeps(
                    elapsed as nat,
                    max_step as nat,
                ));
                assert forall|k: int| 0 <= k < lengths@.len() implies ticks[k] == ActorMessage::Process(
                    (lengths@.map_values(|d: u64| d as nat)[k]) as u64,
                ) by {}
            }
        }
        let mut k: usize = 0;
        while k < lengths.len()
            invariant
                self.wf(),
                k <= lengths@.len(),
                ticks == lengths@.map_values(|d: u64| ActorMessage::Process(d)),
                self@ == (SystemView {
                    global: old(self)@.global + ticks.subrange(0, k as int),
                    ..old(self)@
                }),
            decreases lengths.len() - k,
        {
            self.push_message(ActorMessage::Process(lengths[k]));
            proof {
                assert(old(self)@.global + ticks.subrange(0, k + 1) =~= (old(self)@.global
                    + ticks.subrange(0, k as int)).push(ActorMessage::Process(lengths@[k as int])));
            }
            k = k + 1;
        }
        proof {
            assert(ticks.subrange(0, lengths@.len() as int) =~= ticks);
        }
    }

    /// The actor under `actor_key`, if the key is live.
    pub fn get_actor(&self, actor_key: &ActorKey) -> (r: Option<&A>)
        requires
            self.wf(),
        ensures
            r is Some == self@.live(*actor_key),
            r matches Some(a) ==> self.actor_at(actor_key.index as int) == Some(*a),
    {
        if actor_key.index < self.actors.len() {
            let slot = &self.actors[actor_key.index];
            if slot.key.generation == actor_key.generation {
                return slot.get();
            }
        }
        None
    }

    /// Queues `Destroyed` on the local queue of the actor under `actor_key`,
    /// if the key is live; otherwise nothing changes.
    pub fn destroy_actor(&mut self, actor_key: &ActorKey)
        requires
            old(self).wf(),
        ensures
            final(self).wf(),
            final(self)@ == old(self)@.request_destroy(*actor_key),
    {
        proof {
            lemma_destroy(self@, *actor_key);
        }
        if actor_key.index < self.actors.len() {
            let i = actor_key.index;
            if self.actors[i].key.generation == actor_key.generation && self.actors[i].actor.is_some() {
                self.actors[i].local_message_queue.push_back(ActorMessage::Destroyed);
                proof {
                    assert(self@.slots =~= old(self)@.request_destroy(*actor_key).slots);
                }
            }
        }
    }

    /// The lowest reusable slot, or the table's length.
    fn find_spawn_index(&self) -> (r: usize)
        requires
            self.wf(),
        ensures
            r == self@.spawn_index(),
    {
        let mut i: usize = 0;
        while i < self.actors.len()
            invariant
                i <= self.actors.len(),
                forall|j: int| 0 <= j < i ==> !#[trigger] self@.reusable(j),
            decreases self.actors.len() - i,
        {
            if self.actors[i].actor.is_none() && self.actors[i].key.generation < usize::MAX {
                proof {
                    lemma_first_reusable_is(self@, 0, i as nat);
                }
                return i;
            }
            i = i + 1;
        }
        proof {
            lemma_first_reusable_is(self@, 0, i as nat);
        }
        i
    }

    /// Adds `actor` with `subscription`, without dispatching anything: it
    /// takes the lowest reusable slot, whose generation goes up by one, or a
    /// new slot at the end with generation 0. `Created` is its only local
    /// message and `ActorAddedToSystem` with its key is broadcast later.
    /// When the table cannot grow, nothing changes and the sentinel key
    /// comes back.
    pub fn insert_actor(&mut self, actor: A, subscription: MessagesToRecieve) -> (r: ActorKey)
        requires
            old(self).wf(),
        ensures
            final(self).wf(),
            r == old(self)@.spawn_key(),
            final(self)@ == old(self)@.spawn(subscription@),
    {
        proof {
            lemma_spawn(self@, subscription@);
        }
        let mut actor = actor;
        let i = self.find_spawn_index();
        let len = self.actors.len();
        let key = if i < len {
            ActorKey { index: i, generation: self.actors[i].key.generation + 1 }
        } else if len < usize::MAX {
            ActorKey { index: len, generation: 0 }
        } else {
            return ActorKey::empty();
        };
        actor.set_actor_key(key);
        let mut queue = VecDeque::new();
        queue.push_back(ActorMessage::Created);
        let ghost taken: nat = if i < len {
            self.actors@[i as int].taken@
        } else {
            0
        };
        let slot = ActorID {
            key: key,
            messages_to_recieve: subscription,
            actor: Some(actor),
            started: false,
            local_message_queue: queue,
            taken: Ghost(taken),
        };
        proof {
            assert(slot@.local =~= seq![ActorMessage::Created]);
        }
        if i < len {
            self.actors[i] = slot;
        } else {
            self.actors.push(slot);
        }
        self.global_message_queue.push_back(ActorMessage::ActorAddedToSystem(key));
        self.issued = Ghost(self.issued@.insert(key));
        proof {
            assert(self@.slots =~= old(self)@.spawn(subscription@).slots);
        }
        key
    }

    /// Carries out the requests in the order they were made.
    fn apply_requests(&mut self, outbox: Outbox<A>)
        requires
            old(self).wf(),
        ensures
            final(self).wf(),
            final(self)@ == old(self)@.apply_all(outbox@),
    {
        let mut outbox = outbox;
        let ghost target = old(self)@.apply_all(outbox@);
        loop
            invariant
                self.wf(),
                self@.apply_all(outbox@) == target,
            ensures
                self@ == target,
            decreases outbox@.len(),
        {
            let ghost before = self@;
            let ghost rs = outbox@;
            match outbox.pop() {
                None => {
                    break;
                },
                Some(Request::Push(m)) => {
                    self.push_message(m);
                },
                Some(Request::Destroy(k)) => {
                    self.destroy_actor(&k);
                },
                Some(Request::Spawn(a, subs)) => {
                    self.insert_actor(a, subs);
                },
            }
            proof {
                assert(self@ == before.apply(rs[0]));
            }
        }
    }

    /// Whether slot `i` takes `message` now.
    fn accepts(&self, i: usize, message: &ActorMessage) -> (r: bool)
        requires
            self.wf(),
            i < self@.slots.len(),
        ensures
            r == self@.accepts(i as int, *message),
    {
        self.actors[i].actor.is_some() && self.actors[i].messages_to_recieve.contains(message.kind())
    }

    /// Whether slot `i` hears a broadcast of `message` now.
    fn hears(&self, i: usize, message: &ActorMessage) -> (r: bool)
        requires
            self.wf(),
            i < self@.slots.len(),
        ensures
            r == self@.hears(i as int, *message),
    {
        self.actors[i].started && self.accepts(i, message)
    }

    /// Runs the handler of slot `i`'s actor on `message`.
    fn invoke(&mut self, i: usize, message: &ActorMessage, outbox: &mut Outbox<A>)
        requires
            old(self).wf(),
            old(self)@.accepts(i as int, *message),
        ensures
            final(self).wf(),
            final(self)@ == old(self)@.deliver(i as int, *message),
    {
        let mut taken: Option<A> = None;
        std::mem::swap(&mut self.actors[i].actor, &mut taken);
        match &mut taken {
            Some(a) => {
                a.recieve_message(outbox, message);
            },
            None => {},
        }
        std::mem::swap(&mut self.actors[i].actor, &mut taken);
        self.delivered = Ghost(self.delivered@.push((self.actors@[i as int].key, *message)));
        proof {
            assert(self@.slots =~= old(self)@.slots);
        }
    }

    /// Takes the front global message and hands it to every slot that
    /// accepts it, in index order; then carries out what the handlers asked.
    fn broadcast_front(&mut self) -> (rs: Ghost<Seq<RequestView>>)
        requires
            old(self).wf(),
            old(self)@.global.len() > 0,
        ensures
            final(self).wf(),
            old(self)@.evolves_to(final(self)@),
            old(self)@.global_step_ok(rs@),
            final(self)@ == old(self)@.global_step(rs@),
            final(self)@.broadcast == old(self)@.broadcast + 1,
    {
        proof {
            lemma_pop_global(self@);
        }
        let message = match self.global_message_queue.pop_front() {
            Some(m) => m,
            None => {
                return Ghost(Seq::empty());
            },
        };
        self.broadcast = Ghost(self.broadcast@ + 1);
        proof {
            assert(self@ == old(self)@.pop_global());
        }
        let ghost popped = self@;
        let mut outbox = Outbox::new();
        let mut j: usize = 0;
        while j < self.actors.len()
            invariant
                self.wf(),
                self@ == (SystemView {
                    delivered: popped.delivered + broadcast_deliveries(
                        popped.slots.subrange(0, j as int),
                        message,
                    ),
                    ..popped
                }),
                popped == old(self)@.pop_global(),
                j <= self@.slots.len(),
                old(self)@.global.len() > 0,
                message == old(self)@.global[0],
                (forall|k: int| 0 <= k < j ==> !#[trigger] old(self)@.hears(k, message))
                    ==> outbox@.len() == 0,
            decreases self@.slots.len() - j,
        {
            let ghost accepted = old(self)@.hears(j as int, message);
            let ghost before = self@;
            proof {
                let upto = popped.slots.subrange(0, j + 1);
                assert(upto.drop_last() =~= popped.slots.subrange(0, j as int));
                assert(upto.last() == popped.slots[j as int]);
            }
            if self.hears(j, &message) {
                self.invoke(j, &message, &mut outbox);
                proof {
                    assert(self@.delivered =~= popped.delivered + broadcast_deliveries(
                        popped.slots.subrange(0, j + 1),
                        message,
                    ));
                }
            }
            proof {
                if !accepted {
                    if forall|k: int| 0 <= k < j + 1 ==> !#[trigger] old(self)@.hears(k, message) {
                        assert forall|k: int| 0 <= k < j implies !#[trigger] old(self)@.hears(
                            k,
                            message,
                        ) by {}
                    }
                }
            }
            j = j + 1;
        }
        let ghost rs = outbox@;
        let ghost delivered_all = self@;
        proof {
            assert(popped.slots.subrange(0, j as int) =~= popped.slots);
            lemma_evolves_trans(old(self)@, popped, delivered_all);
            lemma_apply_all(delivered_all, rs);
            lemma_evolves_trans(old(self)@, delivered_all, delivered_all.apply_all(rs));
            if forall|k: int| !#[trigger] old(self)@.hears(k, message) {
                assert(rs.len() == 0);
                assert(rs =~= Seq::<RequestView>::empty());
            }
        }
        proof {
            crate::model::lemma_requests_keep_broadcast(delivered_all, rs);
        }
        self.apply_requests(outbox);
        proof {
            assert(self@ == old(self)@.global_step(rs));
        }
        Ghost(rs)
    }

    /// Frees slot `i`: its actor is dropped and its key retired.
    fn retire(&mut self, i: usize)
        requires
            old(self).wf(),
            i < old(self)@.slots.len(),
        ensures
            final(self).wf(),
            final(self)@ == old(self)@.retire(i as int),
    {
        proof {
            lemma_retire(self@, i as int);
        }
        if self.actors[i].actor.is_some() {
            let ghost key = self.actors@[i as int].key;
            let ghost dropped = self.actors@[i as int].local_message_queue@.len();
            self.actors[i].actor = None;
            self.actors[i].local_message_queue.clear();
            self.actors[i].taken = Ghost(self.actors@[i as int].taken@ + dropped);
            self.retired = Ghost(self.retired@.insert(key));
            proof {
                assert(self@.slots =~= old(self)@.retire(i as int).slots);
            }
        }
    }

    /// Takes the front message of slot `i`'s local queue and hands it to the
    /// slot's actor if it accepts it; carries out what the handler asked;
    /// then, for `Destroyed`, frees the slot.
    fn deliver_local_front(&mut self, i: usize) -> (rs: Ghost<Seq<RequestView>>)
        requires
            old(self).wf(),
            i < old(self)@.slots.len(),
            old(self)@.slots[i as int].local.len() > 0,
        ensures
            final(self).wf(),
            old(self)@.evolves_to(final(self)@),
            old(self)@.local_step_ok(i as int, rs@),
            final(self)@ == old(self)@.local_step(i as int, rs@),
            final(self)@.slots[i as int].taken >= old(self)@.slots[i as int].taken + 1,
            forall|j: int|
                0 <= j < old(self)@.slots.len() && j != i ==> old(self)@.local_untouched(
                    final(self)@,
                    j,
                ),
    {
        proof {
            lemma_pop_local(self@, i as int);
        }
        let message = match self.actors[i].local_message_queue.pop_front() {
            Some(m) => m,
            None => {
                return Ghost(Seq::empty());
            },
        };
        self.actors[i].taken = Ghost(self.actors@[i as int].taken@ + 1);
        self.actors[i].started = true;
        proof {
            assert(self@.slots =~= old(self)@.pop_local(i as int).slots);
        }
        let ghost popped = self@;
        let mut outbox = Outbox::new();
        if self.accepts(i, &message) {
            self.invoke(i, &message, &mut outbox);
        }
        let ghost handled = self@;
        let ghost rs = outbox@;
        proof {
            assert(handled.slots == popped.slots);
            assert(popped.evolves_to(handled));
            lemma_evolves_trans(old(self)@, popped, handled);
            lemma_apply_all(handled, rs);
            lemma_evolves_trans(old(self)@, handled, handled.apply_all(rs));
            assert forall|j: int|
                0 <= j < old(self)@.slots.len() && j != i implies old(self)@.local_untouched(
                handled.apply_all(rs),
                j,
            ) by {
                lemma_untouched_refl(old(self)@, j);
                assert(handled.slots[j] == old(self)@.slots[j]);
                lemma_requests_untouched(handled, rs, j);
                lemma_untouched_trans(old(self)@, handled, handled.apply_all(rs), j);
            }
        }
        self.apply_requests(outbox);
        if message == ActorMessage::Destroyed {
            proof {
                lemma_retire(self@, i as int);
                lemma_evolves_trans(old(self)@, self@, self@.retire(i as int));
                assert forall|j: int|
                    0 <= j < old(self)@.slots.len() && j != i implies old(self)@.local_untouched(
                    self@.retire(i as int),
                    j,
                ) by {
                    lemma_untouched_refl(self@, j);
                    lemma_untouched_trans(old(self)@, self@, self@.retire(i as int), j);
                }
            }
            self.retire(i);
        }
        proof {
            assert(self@ == old(self)@.local_step(i as int, rs));
            if !old(self)@.accepts(i as int, message) {
                assert(rs.len() == 0);
            }
        }
        Ghost(rs)
    }

    /// The global phase: broadcasts global messages, front first, until the
    /// queue is found empty, messages that handlers push meanwhile included.
    /// Each broadcast goes to the slots that hear it, in index order, and
    /// then what their handlers asked is carried out. Returns how many
    /// messages were broadcast; only after `u64::MAX` of them would it stop
    /// with messages left. Does nothing while stopped.
    pub fn propagate_global_messages(&mut self) -> (rounds: u64)
        requires
            old(self).wf(),
        ensures
            final(self).wf(),
            old(self)@.evolves_to(final(self)@),
            !old(self)@.running ==> final(self)@ == old(self)@ && rounds == 0,
            old(self)@.running ==> final(self)@.broadcast == old(self)@.broadcast + rounds,
            old(self)@.running ==> exists|rss: Seq<Seq<RequestView>>|
                {
                    &&& rss.len() == rounds
                    &&& old(self)@.global_run_ok(rss)
                    &&& final(self)@ == #[trigger] old(self)@.global_run(rss)
                },
            old(self)@.running && rounds < u64::MAX ==> final(self)@.global.len() == 0,
    {
        proof {
            lemma_evolves_refl(self@);
        }
        if !self.running {
            return 0;
        }
        let mut rounds: u64 = 0;
        let ghost mut rss: Seq<Seq<RequestView>> = Seq::empty();
        while rounds < u64::MAX && self.global_message_queue.len() > 0
            invariant
                self.wf(),
                old(self)@.evolves_to(self@),
                rss.len() == rounds,
                old(self)@.global_run_ok(rss),
                self@ == old(self)@.global_run(rss),
                self@.broadcast == old(self)@.broadcast + rounds,
            decreases u64::MAX - rounds,
        {
            let ghost before = self@;
            let rs = self.broadcast_front();
            proof {
                lemma_evolves_trans(old(self)@, before, self@);
                let next = rss.push(rs@);
                assert(next.drop_last() =~= rss);
                rss = next;
            }
            rounds = rounds + 1;
        }
        rounds
    }

    /// Delivers slot `i`'s local messages, front first, until its queue is
    /// found empty, messages queued meanwhile included; no other slot has a
    /// local message taken. Returns how many were taken; only after
    /// `u64::MAX` of them would it stop with messages left.
    pub fn drain_local_queue(&mut self, i: usize) -> (rounds: u64)
        requires
            old(self).wf(),
        ensures
            final(self).wf(),
            old(self)@.evolves_to(final(self)@),
            i >= old(self)@.slots.len() ==> final(self)@ == old(self)@ && rounds == 0,
            forall|j: int|
                0 <= j < old(self)@.slots.len() && j != i ==> old(self)@.local_untouched(
                    final(self)@,
                    j,
                ),
            i < old(self)@.slots.len() && rounds < u64::MAX ==> old(self)@.drained_slot(
                final(self)@,
                i as int,
            ),
            i < old(self)@.slots.len() ==> final(self)@.slots[i as int].taken >= old(
                self,
            )@.slots[i as int].taken + rounds,
            i < old(self)@.slots.len() ==> exists|rss: Seq<Seq<RequestView>>|
                {
                    &&& rss.len() == rounds
                    &&& old(self)@.local_run_ok(i as int, rss)
                    &&& final(self)@ == #[trigger] old(self)@.local_run(i as int, rss)
                },
    {
        proof {
            lemma_evolves_refl(self@);
            assert forall|j: int| 0 <= j < old(self)@.slots.len() implies old(self)@.local_untouched(
                old(self)@,
                j,
            ) by {
                lemma_untouched_refl(old(self)@, j);
            }
        }
        if i >= self.actors.len() {
            return 0;
        }
        let mut rounds: u64 = 0;
        let ghost mut rss: Seq<Seq<RequestView>> = Seq::empty();
        while rounds < u64::MAX && self.actors[i].local_message_queue.len() > 0
            invariant
                self.wf(),
                old(self)@.evolves_to(self@),
                i < self@.slots.len(),
                i < old(self)@.slots.len(),
                rss.len() == rounds,
                old(self)@.local_run_ok(i as int, rss),
                self@ == old(self)@.local_run(i as int, rss),
                self@.slots[i as int].taken >= old(self)@.slots[i as int].taken + rounds,
                forall|j: int|
                    0 <= j < old(self)@.slots.len() && j != i ==> old(self)@.local_untouched(
                        self@,
                        j,
                    ),
            decreases u64::MAX - rounds,
        {
            let ghost before = self@;
            let rs = self.deliver_local_front(i);
            proof {
                lemma_evolves_trans(old(self)@, before, self@);
                let next = rss.push(rs@);
                assert(next.drop_last() =~= rss);
                rss = next;
                assert forall|j: int|
                    0 <= j < old(self)@.slots.len() && j != i implies old(self)@.local_untouched(
                    self@,
                    j,
                ) by {
                    lemma_untouched_trans(old(self)@, before, self@, j);
                }
            }
            rounds = rounds + 1;
        }
        rounds
    }

    /// Drains the local queues of slots `start`, `start + 1`, ... in
    /// ascending order up to the end of the table, slots added meanwhile
    /// included. Messages queued meanwhile on a slot after the current one
    /// are taken in this pass; those queued on an earlier slot, or on one
    /// before `start`, wait. Returns false only if some slot needed
    /// `u64::MAX` deliveries.
    pub fn drain_local_queues_from(&mut self, start: usize) -> (complete: bool)
        requires
            old(self).wf(),
        ensures
            final(self).wf(),
            old(self)@.evolves_to(final(self)@),
            forall|j: int|
                0 <= j < old(self)@.slots.len() && j < start ==> old(self)@.local_untouched(
                    final(self)@,
                    j,
                ),
            complete ==> old(self)@.passed_from(final(self)@, start as int),
            complete ==> exists|rsss: Seq<Seq<Seq<RequestView>>>|
                {
                    &&& old(self)@.pass_complete(start as int, rsss)
                    &&& final(self)@ == #[trigger] old(self)@.pass_run(start as int, rsss)
                },
            !complete ==> final(self)@.exhausted(old(self)@),
    {
        proof {
            lemma_evolves_refl(self@);
            assert forall|j: int| 0 <= j < old(self)@.slots.len() implies old(self)@.local_untouched(
                old(self)@,
                j,
            ) by {
                lemma_untouched_refl(old(self)@, j);
            }
        }
        let mut complete = true;
        let mut i: usize = start;
        let ghost mut rsss: Seq<Seq<Seq<RequestView>>> = Seq::empty();
        while i < self.actors.len()
            invariant
                self.wf(),
                old(self)@.evolves_to(self@),
                start <= i,
                complete ==> {
                    &&& old(self)@.pass_run_ok(start as int, rsss)
                    &&& self@ == old(self)@.pass_run(start as int, rsss)
                    &&& i == start + rsss.len()
                },
                !complete ==> exists|j: int|
                    0 <= j < self@.slots.len() && #[trigger] self@.slots[j].taken >= u64::MAX,
                forall|j: int|
                    0 <= j < old(self)@.slots.len() && j < start ==> old(self)@.local_untouched(
                        self@,
                        j,
                    ),
                complete ==> forall|j: int|
                    start <= j < old(self)@.slots.len() && j < i ==> (#[trigger] self@.slots[j]).taken
                        >= old(self)@.slots[j].taken + old(self)@.slots[j].local.len(),
            decreases usize::MAX - i,
        {
            let ghost before = self@;
            let ghost was_complete = complete;
            let rounds = self.drain_local_queue(i);
            if rounds == u64::MAX {
                complete = false;
            }
            proof {
                lemma_evolves_trans(old(self)@, before, self@);
                if rounds == u64::MAX {
                    assert(self@.slots[i as int].taken >= u64::MAX);
                } else if was_complete {
                    let rss = choose|rss: Seq<Seq<RequestView>>|
                        {
                            &&& rss.len() == rounds
                            &&& before.local_run_ok(i as int, rss)
                            &&& self@ == #[trigger] before.local_run(i as int, rss)
                        };
                    let next = rsss.push(rss);
                    assert(next.drop_last() =~= rsss);
                    rsss = next;
                } else {
                    let j = choose|j: int|
                        0 <= j < before.slots.len() && #[trigger] before.slots[j].taken >= u64::MAX;
                    assert(self@.slots[j].taken >= u64::MAX);
                }
                assert forall|j: int|
                    0 <= j < old(self)@.slots.len() && j < start implies old(self)@.local_untouched(
                    self@,
                    j,
                ) by {
                    lemma_untouched_trans(old(self)@, before, self@, j);
                }
                if complete {
                    assert forall|j: int|
                        start <= j < old(self)@.slots.len() && j < i + 1 implies (
                    #[trigger] self@.slots[j]).taken >= old(self)@.slots[j].taken + old(
                        self,
                    )@.slots[j].local.len() by {
                        if j < i {
                            assert(before.slots[j].taken >= old(self)@.slots[j].taken + old(
                                self,
                            )@.slots[j].local.len());
                        }
                    }
                }
            }
            i = i + 1;
        }
        complete
    }

    /// The local phase: drains the local queue of each slot in ascending
    /// index order, slots added meanwhile included. Does nothing while
    /// stopped. Returns false only if some slot needed `u64::MAX` deliveries.
    pub fn propagate_local_messages(&mut self) -> (complete: bool)
        requires
            old(self).wf(),
        ensures
            final(self).wf(),
            old(self)@.evolves_to(final(self)@),
            !old(self)@.running ==> final(self)@ == old(self)@ && complete,
            old(self)@.running && complete ==> old(self)@.passed_from(final(self)@, 0),
            old(self)@.running && complete ==> exists|rsss: Seq<Seq<Seq<RequestView>>>|
                {
                    &&& old(self)@.pass_complete(0, rsss)
                    &&& final(self)@ == #[trigger] old(self)@.pass_run(0, rsss)
                },
            !complete ==> final(self)@.exhausted(old(self)@),
    {
        proof {
            lemma_evolves_refl(self@);
        }
        if !self.running {
            return true;
        }
        self.drain_local_queues_from(0)
    }

    /// Runs the global phase and then one whole local pass, as `propagated`
    /// states: every message queued when it is called, globally or locally,
    /// is taken. Does nothing while stopped. Returns false only if a phase
    /// was exhausted after `u64::MAX` deliveries.
    pub fn propagate_messages(&mut self) -> (complete: bool)
        requires
            old(self).wf(),
        ensures
            final(self).wf(),
            old(self)@.propagated(final(self)@, complete),
            old(self)@.running && complete ==> {
                &&& final(self)@.broadcast >= old(self)@.broadcast + old(self)@.global.len()
                &&& forall|j: int|
                    0 <= j < old(self)@.slots.len() ==> (#[trigger] final(self)@.slots[j]).taken
                        >= old(self)@.slots[j].taken + old(self)@.slots[j].local.len()
            },
    {
        let ghost start = self@;
        let running = self.running;
        let rounds = self.propagate_global_messages();
        let ghost mid = self@;
        let local_complete = self.propagate_local_messages();
        proof {
            lemma_evolves_trans(start, mid, self@);
            if start.running && rounds < u64::MAX && local_complete {
                assert forall|j: int| 0 <= j < start.slots.len() implies (#[trigger] self@.slots[
                    j
                ]).taken >= start.slots[j].taken + start.slots[j].local.len() by {
                    assert(mid.slots[j].taken + mid.slots[j].local.len() >= start.slots[j].taken
                        + start.slots[j].local.len());
                }
                let rss = choose|rss: Seq<Seq<RequestView>>|
                    {
                        &&& rss.len() == rounds
                        &&& start.global_run_ok(rss)
                        &&& mid == #[trigger] start.global_run(rss)
                    };
                let rsss = choose|rsss: Seq<Seq<Seq<RequestView>>>|
                    {
                        &&& mid.pass_complete(0, rsss)
                        &&& self@ == #[trigger] mid.pass_run(0, rsss)
                    };
                assert(start.global_run(rss).pass_run(0, rsss) == self@);
            }
            if start.running && rounds == u64::MAX {
                assert(self@.broadcast >= mid.broadcast);
            }
        }
        !running || (rounds < u64::MAX && local_complete)
    }

    /// Pushes `message` to the global queue, then propagates once: the
    /// same as `push_message` followed by `propagate_messages`.
    pub fn propgate_message(&mut self, message: ActorMessage) -> (complete: bool)
        requires
            old(self).wf(),
        ensures
            final(self).wf(),
            old(self)@.push(message).propagated(final(self)@, complete),
            old(self)@.running && complete ==> {
                &&& final(self)@.broadcast >= old(self)@.broadcast + old(self)@.global.len() + 1
                &&& forall|j: int|
                    0 <= j < old(self)@.slots.len() ==> (#[trigger] final(self)@.slots[j]).taken
                        >= old(self)@.slots[j].taken + old(self)@.slots[j].local.len()
            },
    {
        self.push_message(message);
        self.propagate_messages()
    }

    /// Adds `actor` with the subscription its `get_messages_to_recieve`
    /// returns, called once here: `insert_actor` with that subscription,
    /// followed by one `propagate_messages`.
    pub fn add_actor(&mut self, actor: A) -> (r: ActorKey)
        requires
            old(self).wf(),
        ensures
            final(self).wf(),
            r == old(self)@.spawn_key(),
            r != empty_key() ==> final(self)@.issued.contains(r),
            exists|subs: Set<MessageKind>, complete: bool|
                #[trigger] old(self)@.spawn(subs).propagated(final(self)@, complete),
    {
        let subscription = actor.get_messages_to_recieve();
        let ghost subs = subscription@;
        let r = self.insert_actor(actor, subscription);
        proof {
            lemma_spawn(old(self)@, subs);
        }
        let complete = self.propagate_messages();
        proof {
            assert(old(self)@.spawn(subs).propagated(self@, complete));
        }
        r
    }
}

impl<A: Actor> Default for ActorSystem<A> {
    fn default() -> (r: ActorSystem<A>)
        ensures
            r.wf(),
            r@.slots.len() == 0,
            r@.global.len() == 0,
            !r@.running,
            r@.issued.is_empty(),
    {
        ActorSystem::new()
    }
}

} // verus!
