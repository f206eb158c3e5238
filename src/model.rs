use vstd::prelude::*;
use crate::key::{ActorKey, empty_key};
use crate::message::{ActorMessage, MessageKind, kind_of};

verus! {

/// What a slot of the registry holds, apart from the actor itself.
/// `taken` counts the local messages ever taken off the slot's queue, so
/// the message at position `p` of `local` is the slot's message number
/// `taken + p`. A slot is `started` once it has taken its first local
/// message, which is always its `Created`; until then it hears no
/// broadcast.
pub struct SlotView {
    pub key: ActorKey,
    pub subs: Set<MessageKind>,
    pub alive: bool,
    pub started: bool,
    pub local: Seq<ActorMessage>,
    pub taken: nat,
}

/// The registry as a mathematical value. `issued` holds every key that was
/// ever handed out; `retired` those whose `Destroyed` message has been
/// processed; `broadcast` counts the global messages ever taken off the
/// global queue; `delivered` lists every handler call so far, in order, as
/// the key of the actor called and the message it was given.
pub struct SystemView {
    pub slots: Seq<SlotView>,
    pub global: Seq<ActorMessage>,
    pub broadcast: nat,
    pub delivered: Seq<(ActorKey, ActorMessage)>,
    pub running: bool,
    pub issued: Set<ActorKey>,
    pub retired: Set<ActorKey>,
}

/// The handler calls that broadcasting `m` over `slots` makes: one for each
/// slot that is alive, started and subscribed to `m`'s kind, in index
/// order.
pub open spec fn broadcast_deliveries(slots: Seq<SlotView>, m: ActorMessage) -> Seq<
    (ActorKey, ActorMessage),
>
    decreases slots.len(),
{
    if slots.len() == 0 {
        Seq::empty()
    } else {
        let rest = broadcast_deliveries(slots.drop_last(), m);
        if slots.last().alive && slots.last().started && slots.last().subs.contains(kind_of(m)) {
            rest.push((slots.last().key, m))
        } else {
            rest
        }
    }
}

/// What a handler asked of the registry.
pub enum RequestView {
    Push(ActorMessage),
    Destroy(ActorKey),
    Spawn(Set<MessageKind>),
}

impl SystemView {
    pub open spec fn live(self, k: ActorKey) -> bool {
        &&& k.index < self.slots.len()
        &&& self.slots[k.index as int].key == k
        &&& self.slots[k.index as int].alive
    }

    /// Whether slot `i` takes a message: it is alive and subscribed to the
    /// message's kind. The payload plays no part.
    pub open spec fn accepts(self, i: int, m: ActorMessage) -> bool {
        &&& 0 <= i < self.slots.len()
        &&& self.slots[i].alive
        &&& self.slots[i].subs.contains(kind_of(m))
    }

    /// Whether slot `i` hears a broadcast of `m`: it accepts `m` and has
    /// already taken its `Created`.
    pub open spec fn hears(self, i: int, m: ActorMessage) -> bool {
        self.accepts(i, m) && self.slots[i].started
    }

    /// A free slot whose generation can still be bumped.
    pub open spec fn reusable(self, i: int) -> bool {
        !self.slots[i].alive && self.slots[i].key.generation < usize::MAX
    }

    pub open spec fn first_reusable_from(self, i: nat) -> nat
        decreases self.slots.len() - i,
    {
        if i >= self.slots.len() {
            self.slots.len()
        } else if self.reusable(i as int) {
            i
        } else {
            self.first_reusable_from(i + 1)
        }
    }

    /// The index that the next added actor gets: the lowest reusable slot,
    /// else one past the end.
    pub open spec fn spawn_index(self) -> nat {
        self.first_reusable_from(0)
    }

    /// The key that the next added actor gets; the sentinel when the table
    /// can grow no further.
    pub open spec fn spawn_key(self) -> ActorKey {
        let i = self.spawn_index();
        if i < self.slots.len() {
            ActorKey { index: i as usize, generation: (self.slots[i as int].key.generation + 1) as usize }
        } else if self.slots.len() < usize::MAX {
            ActorKey { index: i as usize, generation: 0 }
        } else {
            empty_key()
        }
    }

    /// Adding an actor with subscription `subs`, without any dispatch: its
    /// slot is alive with `Created` queued locally, and `ActorAddedToSystem`
    /// goes to the global queue.
    pub open spec fn spawn(self, subs: Set<MessageKind>) -> SystemView {
        let k = self.spawn_key();
        let taken = if self.spawn_index() < self.slots.len() {
            self.slots[self.spawn_index() as int].taken
        } else {
            0
        };
        let slot = SlotView {
            key: k,
            subs: subs,
            alive: true,
            started: false,
            local: seq![ActorMessage::Created],
            taken: taken,
        };
        if k == empty_key() {
            self
        } else {
            SystemView {
                slots: if self.spawn_index() < self.slots.len() {
                    self.slots.update(k.index as int, slot)
                } else {
                    self.slots.push(slot)
                },
                global: self.global.push(ActorMessage::ActorAddedToSystem(k)),
                issued: self.issued.insert(k),
                ..self
            }
        }
    }

    pub open spec fn push(self, m: ActorMessage) -> SystemView {
        SystemView { global: self.global.push(m), ..self }
    }

    /// Queues `m` at the end of slot `i`'s local queue.
    pub open spec fn push_local(self, i: int, m: ActorMessage) -> SystemView {
        SystemView {
            slots: self.slots.update(i, SlotView { local: self.slots[i].local.push(m), ..self.slots[i] }),
            ..self
        }
    }

    /// A live key gets `Destroyed` on its local queue; any other key changes
    /// nothing.
    pub open spec fn request_destroy(self, k: ActorKey) -> SystemView {
        if self.live(k) {
            self.push_local(k.index as int, ActorMessage::Destroyed)
        } else {
            self
        }
    }

    pub open spec fn apply(self, r: RequestView) -> SystemView {
        match r {
            RequestView::Push(m) => self.push(m),
            RequestView::Destroy(k) => self.request_destroy(k),
            RequestView::Spawn(subs) => self.spawn(subs),
        }
    }

    /// The requests carried out in order.
    pub open spec fn apply_all(self, rs: Seq<RequestView>) -> SystemView
        decreases rs.len(),
    {
        if rs.len() == 0 {
            self
        } else {
            self.apply(rs[0]).apply_all(rs.drop_first())
        }
    }

    pub open spec fn pop_global(self) -> SystemView {
        SystemView { global: self.global.drop_first(), broadcast: self.broadcast + 1, ..self }
    }

    pub open spec fn pop_local(self, i: int) -> SystemView {
        SystemView {
            slots: self.slots.update(
                i,
                SlotView {
                    local: self.slots[i].local.drop_first(),
                    taken: self.slots[i].taken + 1,
                    started: true,
                    ..self.slots[i]
                },
            ),
            ..self
        }
    }

    /// Clears slot `i`'s actor; its key is retired, and what is left on its
    /// local queue is dropped, there being no actor to take it. A free slot
    /// is left as it is.
    pub open spec fn retire(self, i: int) -> SystemView {
        if self.slots[i].alive {
            SystemView {
                slots: self.slots.update(
                    i,
                    SlotView {
                        alive: false,
                        local: Seq::empty(),
                        taken: self.slots[i].taken + self.slots[i].local.len(),
                        ..self.slots[i]
                    },
                ),
                retired: self.retired.insert(self.slots[i].key),
                ..self
            }
        } else {
            self
        }
    }

    /// Records a call of slot `i`'s handler with `m`.
    pub open spec fn deliver(self, i: int, m: ActorMessage) -> SystemView {
        SystemView { delivered: self.delivered.push((self.slots[i].key, m)), ..self }
    }

    /// One broadcast: the front global message goes to every slot that
    /// accepts it, and then what their handlers asked for is carried out.
    pub open spec fn global_step(self, rs: Seq<RequestView>) -> SystemView {
        let p = self.pop_global();
        SystemView {
            delivered: p.delivered + broadcast_deliveries(p.slots, self.global[0]),
            ..p
        }.apply_all(rs)
    }

    /// One local delivery at slot `i`: the front message goes to the slot's
    /// actor if it accepts it, its requests are carried out, and a
    /// `Destroyed` message then frees the slot.
    pub open spec fn local_step(self, i: int, rs: Seq<RequestView>) -> SystemView {
        let m = self.slots[i].local[0];
        let p = self.pop_local(i);
        let handled = if self.accepts(i, m) {
            p.deliver(i, m)
        } else {
            p
        };
        let after = handled.apply_all(rs);
        if m == ActorMessage::Destroyed {
            after.retire(i)
        } else {
            after
        }
    }

    /// A broadcast the dispatcher can make from here with requests `rs`:
    /// the global queue is not empty, and when no slot hears its front
    /// message no handler runs, so nothing is requested.
    pub open spec fn global_step_ok(self, rs: Seq<RequestView>) -> bool {
        &&& self.global.len() > 0
        &&& (forall|j: int| !#[trigger] self.hears(j, self.global[0])) ==> rs.len() == 0
    }

    /// Broadcasts one after another, the `k`-th carrying out requests
    /// `rss[k]`.
    pub open spec fn global_run(self, rss: Seq<Seq<RequestView>>) -> SystemView
        decreases rss.len(),
    {
        if rss.len() == 0 {
            self
        } else {
            self.global_run(rss.drop_last()).global_step(rss.last())
        }
    }

    pub open spec fn global_run_ok(self, rss: Seq<Seq<RequestView>>) -> bool
        decreases rss.len(),
    {
        rss.len() == 0 || (self.global_run_ok(rss.drop_last()) && self.global_run(
            rss.drop_last(),
        ).global_step_ok(rss.last()))
    }

    /// A local delivery the dispatcher can make at slot `i` with requests
    /// `rs`: the slot's queue is not empty, and when the slot does not
    /// accept its front message no handler runs, so nothing is requested.
    pub open spec fn local_step_ok(self, i: int, rs: Seq<RequestView>) -> bool {
        &&& 0 <= i < self.slots.len()
        &&& self.slots[i].local.len() > 0
        &&& !self.accepts(i, self.slots[i].local[0]) ==> rs.len() == 0
    }

    /// Local deliveries at slot `i` one after another.
    pub open spec fn local_run(self, i: int, rss: Seq<Seq<RequestView>>) -> SystemView
        decreases rss.len(),
    {
        if rss.len() == 0 {
            self
        } else {
            self.local_run(i, rss.drop_last()).local_step(i, rss.last())
        }
    }

    pub open spec fn local_run_ok(self, i: int, rss: Seq<Seq<RequestView>>) -> bool
        decreases rss.len(),
    {
        rss.len() == 0 || (self.local_run_ok(i, rss.drop_last()) && self.local_run(
            i,
            rss.drop_last(),
        ).local_step_ok(i, rss.last()))
    }

    /// Slots `start`, `start + 1`, ... drained in turn, slot `start + k`
    /// with the deliveries `rsss[k]`.
    pub open spec fn pass_run(self, start: int, rsss: Seq<Seq<Seq<RequestView>>>) -> SystemView
        decreases rsss.len(),
    {
        if rsss.len() == 0 {
            self
        } else {
            self.pass_run(start, rsss.drop_last()).local_run(start + rsss.len() - 1, rsss.last())
        }
    }

    /// Each slot of the pass so far was drained to empty.
    pub open spec fn pass_run_ok(self, start: int, rsss: Seq<Seq<Seq<RequestView>>>) -> bool
        decreases rsss.len(),
    {
        rsss.len() == 0 || {
            let m = self.pass_run(start, rsss.drop_last());
            let i = start + rsss.len() - 1;
            &&& self.pass_run_ok(start, rsss.drop_last())
            &&& 0 <= i < m.slots.len()
            &&& m.local_run_ok(i, rsss.last())
            &&& m.local_run(i, rsss.last()).slots[i].local.len() == 0
        }
    }

    /// A whole local pass from `start`: every slot from `start` to the end
    /// of the table, slots added meanwhile included, drained in turn.
    pub open spec fn pass_complete(self, start: int, rsss: Seq<Seq<Seq<RequestView>>>) -> bool {
        &&& self.pass_run_ok(start, rsss)
        &&& start + rsss.len() >= self.pass_run(start, rsss).slots.len()
    }

    /// A run that stopped short did so after `u64::MAX` broadcasts, or
    /// after some slot had `u64::MAX` local messages taken.
    pub open spec fn exhausted(self, before: SystemView) -> bool {
        ||| self.broadcast >= before.broadcast + u64::MAX
        ||| exists|j: int| 0 <= j < self.slots.len() && #[trigger] self.slots[j].taken >= u64::MAX
    }

    /// One propagation from `self` to `t`: nothing while stopped; when
    /// running, broadcasts until the global queue is empty and then one
    /// whole local pass from slot 0, each step as `global_step` and
    /// `local_step` say with the requests its handlers made. `complete` is
    /// false only when the run was exhausted.
    pub open spec fn propagated(self, t: SystemView, complete: bool) -> bool {
        &&& self.evolves_to(t)
        &&& !self.running ==> t == self && complete
        &&& self.running && complete ==> exists|
            rss: Seq<Seq<RequestView>>,
            rsss: Seq<Seq<Seq<RequestView>>>,
        |
            {
                &&& self.global_run_ok(rss)
                &&& #[trigger] self.global_run(rss).global.len() == 0
                &&& self.global_run(rss).pass_complete(0, rsss)
                &&& t == #[trigger] self.global_run(rss).pass_run(0, rsss)
            }
        &&& !complete ==> t.exhausted(self)
    }

    /// Slot `j`'s local queue only had messages added at its end: none was
    /// taken.
    pub open spec fn local_untouched(self, new: SystemView, j: int) -> bool {
        &&& new.slots[j].taken == self.slots[j].taken
        &&& self.slots[j].local.len() <= new.slots[j].local.len()
        &&& new.slots[j].local.subrange(0, self.slots[j].local.len() as int) == self.slots[j].local
    }

    /// Slot `i`'s local queue was drained to empty, and no other slot had a
    /// local message taken.
    pub open spec fn drained_slot(self, new: SystemView, i: int) -> bool {
        &&& self.evolves_to(new)
        &&& 0 <= i < new.slots.len()
        &&& new.slots[i].local.len() == 0
        &&& forall|j: int| 0 <= j < self.slots.len() && j != i ==> self.local_untouched(new, j)
    }

    /// A local pass over the slots from `start` on: every message that was
    /// queued on one of them is taken, and slots before `start` only had
    /// messages added.
    pub open spec fn passed_from(self, new: SystemView, start: int) -> bool {
        &&& self.evolves_to(new)
        &&& forall|j: int| 0 <= j < self.slots.len() && j < start ==> self.local_untouched(new, j)
        &&& forall|j: int|
            start <= j < self.slots.len() ==> (#[trigger] new.slots[j]).taken >= self.slots[j].taken
                + self.slots[j].local.len()
    }

    pub open spec fn wf(self) -> bool {
        &&& self.slots.len() <= usize::MAX
        &&& forall|i: int|
            0 <= i < self.slots.len() && (#[trigger] self.slots[i]).alive && !self.slots[i].started
                ==> self.slots[i].local.len() > 0 && self.slots[i].local[0] == ActorMessage::Created
        &&& forall|i: int| 0 <= i < self.slots.len() ==> (#[trigger] self.slots[i]).key.index == i
        &&& forall|i: int|
            0 <= i < self.slots.len() ==> self.issued.contains(#[trigger] self.slots[i].key)
        &&& forall|i: int|
            0 <= i < self.slots.len() && !(#[trigger] self.slots[i]).alive ==> self.slots[i].local.len()
                == 0
        &&& forall|i: int|
            0 <= i < self.slots.len() ==> (self.retired.contains(#[trigger] self.slots[i].key)
                <==> !self.slots[i].alive)
        &&& forall|k: ActorKey| #[trigger]
            self.issued.contains(k) ==> {
                &&& k.index < self.slots.len()
                &&& k.generation <= self.slots[k.index as int].key.generation
                &&& k.generation < self.slots[k.index as int].key.generation
                    ==> self.retired.contains(k)
            }
        &&& self.retired.subset_of(self.issued)
    }

    /// How the registry may change over any sequence of operations: slots
    /// are never removed, keys once issued or retired stay so, a slot's
    /// generation never goes down, and while a slot keeps its generation its
    /// subscription stays the same and a freed slot stays free. Local
    /// messages are only taken or added, never put back, and the record of
    /// handler calls only grows.
    pub open spec fn evolves_to(self, new: SystemView) -> bool {
        &&& self.slots.len() <= new.slots.len()
        &&& self.delivered.len() <= new.delivered.len()
        &&& forall|k: int| 0 <= k < self.delivered.len() ==> new.delivered[k] == self.delivered[k]
        &&& self.broadcast <= new.broadcast
        &&& self.broadcast + self.global.len() <= new.broadcast + new.global.len()
        &&& self.issued.subset_of(new.issued)
        &&& self.retired.subset_of(new.retired)
        &&& new.running == self.running
        &&& forall|i: int|
            0 <= i < self.slots.len() ==> {
                &&& self.slots[i].key.generation <= (#[trigger] new.slots[i]).key.generation
                &&& self.slots[i].taken <= new.slots[i].taken
                &&& self.slots[i].taken + self.slots[i].local.len() <= new.slots[i].taken
                    + new.slots[i].local.len()
                &&& new.slots[i].key.generation == self.slots[i].key.generation ==> {
                    &&& new.slots[i].subs == self.slots[i].subs
                    &&& new.slots[i].alive ==> self.slots[i].alive
                }
            }
    }
}

pub proof fn lemma_evolves_refl(s: SystemView)
    ensures
        s.evolves_to(s),
{
}

pub proof fn lemma_evolves_trans(a: SystemView, b: SystemView, c: SystemView)
    requires
        a.evolves_to(b),
        b.evolves_to(c),
    ensures
        a.evolves_to(c),
{
    assert forall|i: int| 0 <= i < a.slots.len() implies {
        &&& a.slots[i].key.generation <= (#[trigger] c.slots[i]).key.generation
        &&& a.slots[i].taken <= c.slots[i].taken
        &&& a.slots[i].taken + a.slots[i].local.len() <= c.slots[i].taken + c.slots[i].local.len()
        &&& c.slots[i].key.generation == a.slots[i].key.generation ==> {
            &&& c.slots[i].subs == a.slots[i].subs
            &&& c.slots[i].alive ==> a.slots[i].alive
        }
    } by {
        assert(b.slots[i].key.generation <= c.slots[i].key.generation);
        if c.slots[i].key.generation == a.slots[i].key.generation {
            assert(b.slots[i].key.generation == a.slots[i].key.generation);
        }
    }
}

pub proof fn lemma_first_reusable(s: SystemView, from: nat)
    ensures
        from <= s.first_reusable_from(from) || from > s.slots.len(),
        s.first_reusable_from(from) <= s.slots.len(),
        s.first_reusable_from(from) < s.slots.len() ==> s.reusable(
            s.first_reusable_from(from) as int,
        ),
        forall|j: int| from <= j < s.first_reusable_from(from) ==> !#[trigger] s.reusable(j),
    decreases s.slots.len() - from,
{
    if from < s.slots.len() && !s.reusable(from as int) {
        lemma_first_reusable(s, from + 1);
    }
}

pub proof fn lemma_spawn(s: SystemView, subs: Set<MessageKind>)
    requires
        s.wf(),
    ensures
        s.spawn(subs).wf(),
        s.evolves_to(s.spawn(subs)),
        s.spawn_key() != empty_key() ==> {
            &&& s.spawn(subs).live(s.spawn_key())
            &&& !s.issued.contains(s.spawn_key())
        },
{
    lemma_first_reusable(s, 0);
    let k = s.spawn_key();
    let t = s.spawn(subs);
    if k != empty_key() {
        let i = k.index as int;
        if i < s.slots.len() {
            assert(!s.issued.contains(k)) by {
                if s.issued.contains(k) {
                    assert(k.generation <= s.slots[i].key.generation);
                }
            }
            assert forall|key: ActorKey| #[trigger] t.issued.contains(key) implies {
                &&& key.index < t.slots.len()
                &&& key.generation <= t.slots[key.index as int].key.generation
                &&& key.generation < t.slots[key.index as int].key.generation
                    ==> t.retired.contains(key)
            } by {
                if key != k && key.index as int == i {
                    assert(s.retired.contains(s.slots[i].key));
                }
            }
        } else {
            assert(!s.issued.contains(k));
        }
        assert(t.wf());
    }
}

pub proof fn lemma_destroy(s: SystemView, k: ActorKey)
    requires
        s.wf(),
    ensures
        s.request_destroy(k).wf(),
        s.evolves_to(s.request_destroy(k)),
{
    let t = s.request_destroy(k);
    if s.live(k) {
        assert(forall|i: int| 0 <= i < s.slots.len() ==> (#[trigger] t.slots[i]).key == s.slots[i].key);
    }
}

pub proof fn lemma_apply_all(s: SystemView, rs: Seq<RequestView>)
    requires
        s.wf(),
    ensures
        s.apply_all(rs).wf(),
        s.evolves_to(s.apply_all(rs)),
    decreases rs.len(),
{
    if rs.len() > 0 {
        let t = s.apply(rs[0]);
        match rs[0] {
            RequestView::Push(m) => {},
            RequestView::Destroy(k) => lemma_destroy(s, k),
            RequestView::Spawn(subs) => lemma_spawn(s, subs),
        }
        lemma_apply_all(t, rs.drop_first());
        lemma_evolves_trans(s, t, t.apply_all(rs.drop_first()));
    }
}

pub proof fn lemma_first_reusable_is(s: SystemView, from: nat, i: nat)
    requires
        from <= i <= s.slots.len(),
        forall|j: int| from <= j < i ==> !#[trigger] s.reusable(j),
        i == s.slots.len() || s.reusable(i as int),
    ensures
        s.first_reusable_from(from) == i,
    decreases i - from,
{
    if from < i {
        lemma_first_reusable_is(s, from + 1, i);
    }
}

pub proof fn lemma_pop_global(s: SystemView)
    requires
        s.wf(),
    ensures
        s.pop_global().wf(),
        s.evolves_to(s.pop_global()),
{
    assert(s.pop_global().slots == s.slots);
}

pub proof fn lemma_pop_local(s: SystemView, i: int)
    requires
        s.wf(),
        0 <= i < s.slots.len(),
        s.slots[i].local.len() > 0,
    ensures
        s.pop_local(i).wf(),
        s.evolves_to(s.pop_local(i)),
{
    let t = s.pop_local(i);
    assert(forall|j: int| 0 <= j < s.slots.len() ==> (#[trigger] t.slots[j]).key == s.slots[j].key);
}

pub proof fn lemma_retire(s: SystemView, i: int)
    requires
        s.wf(),
        0 <= i < s.slots.len(),
    ensures
        s.retire(i).wf(),
        s.evolves_to(s.retire(i)),
{
    let t = s.retire(i);
    assert(forall|j: int| 0 <= j < s.slots.len() ==> (#[trigger] t.slots[j]).key == s.slots[j].key);
    if s.slots[i].alive {
        assert forall|k: ActorKey| #[trigger] t.issued.contains(k) implies {
            &&& k.index < t.slots.len()
            &&& k.generation <= t.slots[k.index as int].key.generation
            &&& k.generation < t.slots[k.index as int].key.generation ==> t.retired.contains(k)
        } by {
            assert(s.issued.contains(k));
        }
        assert forall|j: int| 0 <= j < t.slots.len() implies (t.retired.contains(
            #[trigger] t.slots[j].key,
        ) <==> !t.slots[j].alive) by {
            if j != i {
                assert(t.slots[j].key != s.slots[i].key);
            }
        }
    }
}

pub proof fn lemma_untouched_trans(a: SystemView, b: SystemView, c: SystemView, j: int)
    requires
        a.local_untouched(b, j),
        b.local_untouched(c, j),
    ensures
        a.local_untouched(c, j),
{
    let n = a.slots[j].local.len() as int;
    assert(c.slots[j].local.subrange(0, n) =~= c.slots[j].local.subrange(
        0,
        b.slots[j].local.len() as int,
    ).subrange(0, n));
}

pub proof fn lemma_untouched_refl(a: SystemView, j: int)
    ensures
        a.local_untouched(a, j),
{
    assert(a.slots[j].local.subrange(0, a.slots[j].local.len() as int) =~= a.slots[j].local);
}

/// Handler requests take no local message: they only add some.
pub proof fn lemma_requests_untouched(s: SystemView, rs: Seq<RequestView>, j: int)
    requires
        s.wf(),
        0 <= j < s.slots.len(),
    ensures
        s.local_untouched(s.apply_all(rs), j),
    decreases rs.len(),
{
    if rs.len() == 0 {
        lemma_untouched_refl(s, j);
    } else {
        let t = s.apply(rs[0]);
        match rs[0] {
            RequestView::Push(m) => {
                lemma_untouched_refl(s, j);
            },
            RequestView::Destroy(k) => {
                lemma_destroy(s, k);
                lemma_untouched_refl(s, j);
                if s.live(k) && k.index as int == j {
                    assert(t.slots[j].local.subrange(0, s.slots[j].local.len() as int)
                        =~= s.slots[j].local);
                }
            },
            RequestView::Spawn(subs) => {
                lemma_spawn(s, subs);
                lemma_first_reusable(s, 0);
                lemma_untouched_refl(s, j);
                if s.spawn_key() != empty_key() && s.spawn_index() == j {
                    assert(t.slots[j].local.subrange(0, 0) =~= s.slots[j].local);
                }
            },
        }
        lemma_requests_untouched(t, rs.drop_first(), j);
        lemma_untouched_trans(s, t, t.apply_all(rs.drop_first()), j);
    }
}

/// Handler requests leave the broadcast count as it is.
pub proof fn lemma_requests_keep_broadcast(s: SystemView, rs: Seq<RequestView>)
    ensures
        s.apply_all(rs).broadcast == s.broadcast,
    decreases rs.len(),
{
    if rs.len() > 0 {
        lemma_requests_keep_broadcast(s.apply(rs[0]), rs.drop_first());
    }
}

} // verus!
