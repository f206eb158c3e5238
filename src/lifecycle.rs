use vstd::prelude::*;
use crate::key::{ActorKey, empty_key};
use crate::message::{ActorMessage, MessageKind, kind_of};
use crate::model::{RequestView, SystemView, broadcast_deliveries, lemma_first_reusable};

verus! {

/// Handler requests never free a live actor and never retire a key.
pub proof fn lemma_requests_keep_live(s: SystemView, rs: Seq<RequestView>, k: ActorKey)
    requires
        s.wf(),
        s.live(k),
    ensures
        s.apply_all(rs).live(k),
        s.apply_all(rs).retired == s.retired,
        s.apply_all(rs).slots[k.index as int].key == s.slots[k.index as int].key,
    decreases rs.len(),
{
    if rs.len() > 0 {
        let t = s.apply(rs[0]);
        match rs[0] {
            RequestView::Push(m) => {},
            RequestView::Destroy(d) => crate::model::lemma_destroy(s, d),
            RequestView::Spawn(subs) => {
                crate::model::lemma_spawn(s, subs);
                lemma_first_reusable(s, 0);
            },
        }
        lemma_requests_keep_live(t, rs.drop_first(), k);
    }
}

/// A key that was handed out is found exactly as long as it is not
/// retired, that is until its `Destroyed` message has been processed.
pub proof fn lemma_found_until_retired(s: SystemView, k: ActorKey)
    requires
        s.wf(),
        s.issued.contains(k),
    ensures
        s.live(k) <==> !s.retired.contains(k),
{
    let i = k.index as int;
    if !s.retired.contains(k) {
        assert(s.slots[i].key.index == i);
        assert(s.slots[i].key == k);
    }
}

/// Only a processed `Destroyed` message retires a key, and then only the
/// key of the slot whose queue held it: broadcasts, handler requests and
/// other local messages retire nothing.
pub proof fn lemma_retired_only_by_destroyed(s: SystemView, i: int, rs: Seq<RequestView>)
    requires
        s.wf(),
        0 <= i < s.slots.len(),
        s.slots[i].local.len() > 0,
        s.slots[i].alive || rs.len() == 0,
    ensures
        s.apply_all(rs).retired == s.retired,
        s.global_step(rs).retired == s.retired,
        s.slots[i].local[0] != ActorMessage::Destroyed ==> s.local_step(i, rs).retired == s.retired,
        s.local_step(i, rs).retired.subset_of(s.retired.insert(s.slots[i].key)),
{
    lemma_requests_retire_nothing(s, rs);
    let g = s.pop_global();
    lemma_requests_retire_nothing(
        SystemView { delivered: g.delivered + broadcast_deliveries(g.slots, s.global[0]), ..g },
        rs,
    );
    let m = s.slots[i].local[0];
    let p = s.pop_local(i);
    crate::model::lemma_pop_local(s, i);
    let h = if s.accepts(i, m) {
        p.deliver(i, m)
    } else {
        p
    };
    assert(h.slots == p.slots);
    lemma_requests_retire_nothing(h, rs);
    if s.slots[i].alive {
        lemma_requests_keep_live(h, rs, s.slots[i].key);
    }
}

/// Handler requests leave the retired keys as they are.
pub proof fn lemma_requests_retire_nothing(s: SystemView, rs: Seq<RequestView>)
    ensures
        s.apply_all(rs).retired == s.retired,
    decreases rs.len(),
{
    if rs.len() > 0 {
        lemma_requests_retire_nothing(s.apply(rs[0]), rs.drop_first());
    }
}

/// Once the `Destroyed` message of a live actor is processed, its key is no
/// longer found, and an actor added next into the same slot gets the old
/// generation plus one.
pub proof fn lemma_destroyed_then_reused(s: SystemView, i: int, rs: Seq<RequestView>)
    requires
        s.wf(),
        0 <= i < s.slots.len(),
        s.slots[i].alive,
        s.slots[i].local.len() > 0,
        s.slots[i].local[0] == ActorMessage::Destroyed,
    ensures
        !s.local_step(i, rs).live(s.slots[i].key),
        s.local_step(i, rs).spawn_key().index == i ==> s.local_step(i, rs).spawn_key().generation
            == s.slots[i].key.generation + 1,
        s.local_step(i, rs).spawn_index() == i ==> s.local_step(i, rs).spawn_key() == (ActorKey {
            index: i as usize,
            generation: (s.slots[i].key.generation + 1) as usize,
        }),
{
    let k = s.slots[i].key;
    let m = s.slots[i].local[0];
    let p = s.pop_local(i);
    crate::model::lemma_pop_local(s, i);
    let h = if s.accepts(i, m) {
        p.deliver(i, m)
    } else {
        p
    };
    assert(h.slots == p.slots);
    lemma_requests_keep_live(h, rs, k);
    let a = h.apply_all(rs);
    let t = s.local_step(i, rs);
    assert(t == a.retire(i));
    assert(t.slots[i].key == k);
    assert(h.wf());
    crate::model::lemma_apply_all(h, rs);
    crate::model::lemma_retire(a, i);
    assert(t.wf());
    assert(t.slots.len() >= s.slots.len());
    lemma_first_reusable(t, 0);
}

/// A slot keeps the subscription it was given when its actor was added for
/// as long as it keeps that generation, whatever happens in between, and a
/// freed slot comes back to life only under a new generation.
pub proof fn lemma_subscription_frozen(s: SystemView, t: SystemView, i: int)
    requires
        s.evolves_to(t),
        0 <= i < s.slots.len(),
        t.slots[i].key.generation == s.slots[i].key.generation,
    ensures
        t.slots[i].subs == s.slots[i].subs,
        t.slots[i].alive ==> s.slots[i].alive,
{
}

/// Whether a slot takes a message depends on the message's kind alone.
pub proof fn lemma_accepts_by_kind(s: SystemView, i: int, m1: ActorMessage, m2: ActorMessage)
    requires
        kind_of(m1) == kind_of(m2),
    ensures
        s.accepts(i, m1) == s.accepts(i, m2),
{
}

/// An added actor is found at once, holds exactly one local message,
/// `Created`, and exactly one `ActorAddedToSystem` with its key joins the
/// global queue.
pub proof fn lemma_spawn_seeds(s: SystemView, subs: Set<MessageKind>)
    requires
        s.wf(),
        s.spawn_key() != empty_key(),
    ensures
        s.spawn(subs).live(s.spawn_key()),
        s.spawn(subs).slots[s.spawn_key().index as int].local == seq![ActorMessage::Created],
        s.spawn(subs).slots[s.spawn_key().index as int].subs == subs,
        !s.spawn(subs).slots[s.spawn_key().index as int].started,
        s.spawn(subs).global == s.global.push(ActorMessage::ActorAddedToSystem(s.spawn_key())),
{
    lemma_first_reusable(s, 0);
}

/// Destroying under a key that is not live changes nothing at all.
pub proof fn lemma_stale_destroy_changes_nothing(s: SystemView, k: ActorKey)
    requires
        !s.live(k),
    ensures
        s.request_destroy(k) == s,
{
}

/// In a local pass, once slot `i` has been drained (`s` to `m`) and the
/// pass goes on from slot `i + 1` (`m` to `t`), whatever sits on the queue
/// of a later slot `j`, what slot `i`'s handlers queued there included, is
/// taken in this pass; on an earlier slot it is all still queued, in order,
/// for the next pass.
pub proof fn lemma_local_pass_order(s: SystemView, m: SystemView, t: SystemView, i: int, j: int)
    requires
        s.drained_slot(m, i),
        m.passed_from(t, i + 1),
        0 <= j < m.slots.len(),
        j != i,
    ensures
        j > i ==> t.slots[j].taken >= m.slots[j].taken + m.slots[j].local.len(),
        j < i ==> t.slots[j].taken == m.slots[j].taken,
        j < i ==> t.slots[j].local.subrange(0, m.slots[j].local.len() as int) == m.slots[j].local,
        j < s.slots.len() ==> m.slots[j].taken == s.slots[j].taken,
{
    if j < i {
        assert(m.local_untouched(t, j));
    }
    if j < s.slots.len() {
        assert(s.local_untouched(m, j));
    }
}

/// Handler requests call no handler.
pub proof fn lemma_requests_deliver_nothing(s: SystemView, rs: Seq<RequestView>)
    ensures
        s.apply_all(rs).delivered == s.delivered,
    decreases rs.len(),
{
    if rs.len() > 0 {
        lemma_requests_deliver_nothing(s.apply(rs[0]), rs.drop_first());
    }
}

proof fn lemma_broadcast_prefix(s: SystemView, m: ActorMessage, n: int, i: int)
    requires
        s.wf(),
        0 <= n <= s.slots.len(),
        0 <= i < s.slots.len(),
    ensures
        broadcast_deliveries(s.slots.subrange(0, n), m).contains((s.slots[i].key, m)) <==> (i < n
            && s.hears(i, m)),
    decreases n,
{
    let pre = s.slots.subrange(0, n);
    if n > 0 {
        assert(pre.drop_last() =~= s.slots.subrange(0, n - 1));
        lemma_broadcast_prefix(s, m, n - 1, i);
        let rest = broadcast_deliveries(s.slots.subrange(0, n - 1), m);
        if pre.last().alive && pre.last().started && pre.last().subs.contains(kind_of(m)) {
            assert(rest.push((pre.last().key, m)).contains((s.slots[i].key, m)) <==> (rest.contains(
                (s.slots[i].key, m),
            ) || (pre.last().key, m) == (s.slots[i].key, m))) by {
                let q = rest.push((pre.last().key, m));
                if q.contains((s.slots[i].key, m)) {
                    let k = choose|k: int| 0 <= k < q.len() && q[k] == (s.slots[i].key, m);
                    if k < rest.len() {
                        assert(rest[k] == q[k]);
                    }
                }
                if rest.contains((s.slots[i].key, m)) {
                    let k = choose|k: int| 0 <= k < rest.len() && rest[k] == (s.slots[i].key, m);
                    assert(q[k] == rest[k]);
                }
                if (pre.last().key, m) == (s.slots[i].key, m) {
                    assert(q[rest.len() as int] == (pre.last().key, m));
                }
            }
            assert(pre.last() == s.slots[n - 1]);
            assert(s.slots[n - 1].key.index == n - 1);
            assert(s.slots[i].key.index == i);
        }
    } else {
        assert(broadcast_deliveries(pre, m) =~= Seq::empty());
    }
}

/// A broadcast of `m` calls the handler of slot `i` if and only if the
/// slot hears `m` (it is alive, started and subscribed to `m`'s kind); a local delivery calls it if and only if it accepts
/// the message at the front of its queue, and then with that message.
/// Handler requests call no handler.
pub proof fn lemma_delivered_iff_accepted(
    s: SystemView,
    i: int,
    rs: Seq<RequestView>,
)
    requires
        s.wf(),
        0 <= i < s.slots.len(),
    ensures
        s.global.len() > 0 ==> {
            &&& s.global_step(rs).delivered == s.delivered + broadcast_deliveries(s.slots, s.global[0])
            &&& broadcast_deliveries(s.slots, s.global[0]).contains((s.slots[i].key, s.global[0]))
                <==> s.hears(i, s.global[0])
        },
        s.slots[i].local.len() > 0 ==> s.local_step(i, rs).delivered == if s.accepts(
            i,
            s.slots[i].local[0],
        ) {
            s.delivered.push((s.slots[i].key, s.slots[i].local[0]))
        } else {
            s.delivered
        },
        s.apply_all(rs).delivered == s.delivered,
{
    lemma_requests_deliver_nothing(s, rs);
    if s.global.len() > 0 {
        let g = s.pop_global();
        lemma_requests_deliver_nothing(
            SystemView { delivered: g.delivered + broadcast_deliveries(g.slots, s.global[0]), ..g },
            rs,
        );
        lemma_broadcast_prefix(s, s.global[0], s.slots.len() as int, i);
        assert(s.slots.subrange(0, s.slots.len() as int) =~= s.slots);
    }
    if s.slots[i].local.len() > 0 {
        let m = s.slots[i].local[0];
        let p = s.pop_local(i);
        let h = if s.accepts(i, m) {
            p.deliver(i, m)
        } else {
            p
        };
        lemma_requests_deliver_nothing(h, rs);
    }
}

/// A newly added actor is given `Created` before any other message: until
/// its slot has taken that message, which heads its local queue, the slot
/// hears no broadcast.
pub proof fn lemma_created_first(s: SystemView, i: int, m: ActorMessage)
    requires
        s.wf(),
        0 <= i < s.slots.len(),
        s.slots[i].alive,
        !s.slots[i].started,
    ensures
        s.slots[i].local[0] == ActorMessage::Created,
        !s.hears(i, m),
        !broadcast_deliveries(s.slots, m).contains((s.slots[i].key, m)),
{
    lemma_broadcast_prefix(s, m, s.slots.len() as int, i);
    assert(s.slots.subrange(0, s.slots.len() as int) =~= s.slots);
}

} // verus!
