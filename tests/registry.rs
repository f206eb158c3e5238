use std::cell::RefCell;
use std::rc::Rc;

use rue::actor::{Actor, Outbox};
use rue::key::ActorKey;
use rue::message::{ActorMessage, MessageKind};
use rue::subscription::MessagesToRecieve;
use rue::system::ActorSystem;

type Log = Rc<RefCell<Vec<(&'static str, ActorMessage)>>>;
type Reaction = Box<dyn FnMut(&mut Outbox<Probe>, &ActorMessage)>;

struct Probe {
    name: &'static str,
    key: Option<ActorKey>,
    wants: Rc<RefCell<Vec<ActorMessage>>>,
    log: Log,
    react: Option<Reaction>,
}

impl Probe {
    fn new(name: &'static str, wants: Vec<ActorMessage>, log: &Log) -> Probe {
        Probe { name, key: None, wants: Rc::new(RefCell::new(wants)), log: log.clone(), react: None }
    }

    fn reacting(mut self, react: Reaction) -> Probe {
        self.react = Some(react);
        self
    }
}

impl Actor for Probe {
    fn set_actor_key(&mut self, actor_key: ActorKey) {
        self.key = Some(actor_key);
    }

    fn get_actor_key(&self) -> Option<ActorKey> {
        self.key
    }

    fn recieve_message(&mut self, outbox: &mut Outbox<Probe>, message: &ActorMessage) -> ActorMessage {
        self.log.borrow_mut().push((self.name, *message));
        if let Some(react) = self.react.as_mut() {
            react(outbox, message);
        }
        ActorMessage::Empty
    }

    fn get_messages_to_recieve(&self) -> MessagesToRecieve {
        MessagesToRecieve::new(self.wants.borrow().clone())
    }
}

fn new_log() -> Log {
    Rc::new(RefCell::new(Vec::new()))
}

fn running() -> ActorSystem<Probe> {
    let mut sys = ActorSystem::new();
    sys.set_running(true);
    sys
}

fn received(log: &Log, name: &str) -> Vec<ActorMessage> {
    log.borrow().iter().filter(|(n, _)| *n == name).map(|(_, m)| *m).collect()
}

#[test]
fn tick_reaches_subscriber_exactly_once() {
    let log = new_log();
    let mut sys = running();
    sys.add_actor(Probe::new("a", vec![ActorMessage::Process(0)], &log));
    assert!(log.borrow().is_empty());
    sys.push_message(ActorMessage::Process(16_000));
    sys.propagate_messages();
    assert_eq!(received(&log, "a"), vec![ActorMessage::Process(16_000)]);
}

#[test]
fn destroyed_key_is_gone_and_slot_reused_with_next_generation() {
    let log = new_log();
    let mut sys = running();
    let a = sys.add_actor(Probe::new("a", vec![], &log));
    assert!(sys.get_actor(&a).is_some());
    sys.destroy_actor(&a);
    assert!(sys.get_actor(&a).is_some());
    sys.propagate_messages();
    assert!(sys.get_actor(&a).is_none());
    let b = sys.add_actor(Probe::new("b", vec![], &log));
    assert_eq!(b.index(), a.index());
    assert_eq!(b.generation(), a.generation() + 1);
    assert!(sys.get_actor(&a).is_none());
    assert!(sys.get_actor(&b).is_some());
}

#[test]
fn stopped_registry_keeps_messages_queued() {
    let log = new_log();
    let mut sys = running();
    sys.add_actor(Probe::new("a", vec![ActorMessage::Changed, ActorMessage::Created], &log));
    assert_eq!(received(&log, "a"), vec![ActorMessage::Created]);
    sys.set_running(false);
    assert!(!sys.is_running());
    sys.push_message(ActorMessage::Changed);
    assert!(sys.propagate_messages());
    assert_eq!(received(&log, "a"), vec![ActorMessage::Created]);
    sys.set_running(true);
    assert!(sys.propagate_messages());
    assert_eq!(received(&log, "a"), vec![ActorMessage::Created, ActorMessage::Changed]);
}

#[test]
fn lookup_with_bad_keys_finds_nothing() {
    let log = new_log();
    let mut sys = running();
    let a = sys.add_actor(Probe::new("a", vec![], &log));
    assert!(sys.get_actor(&ActorKey { index: 7, generation: 0 }).is_none());
    assert!(sys.get_actor(&ActorKey { index: a.index(), generation: a.generation() + 1 }).is_none());
    assert!(sys.get_actor(&ActorKey::empty()).is_none());
    assert!(ActorKey::empty().is_empty());
    assert!(!a.is_empty());
}

#[test]
fn found_actor_knows_its_key() {
    let log = new_log();
    let mut sys = running();
    let a = sys.add_actor(Probe::new("a", vec![], &log));
    let b = sys.add_actor(Probe::new("b", vec![], &log));
    assert_eq!(a, ActorKey { index: 0, generation: 0 });
    assert_eq!(b, ActorKey { index: 1, generation: 0 });
    assert_eq!(sys.get_actor(&a).unwrap().get_actor_key(), Some(a));
    assert_eq!(sys.get_actor(&b).unwrap().get_actor_key(), Some(b));
}

#[test]
fn stale_destroy_leaves_actors_alone() {
    let log = new_log();
    let mut sys = running();
    let a = sys.add_actor(Probe::new("a", vec![ActorMessage::Destroyed], &log));
    let b = sys.add_actor(Probe::new("b", vec![ActorMessage::Destroyed], &log));
    sys.destroy_actor(&ActorKey { index: 9, generation: 0 });
    sys.destroy_actor(&ActorKey { index: a.index(), generation: 5 });
    sys.destroy_actor(&ActorKey::empty());
    sys.propagate_messages();
    assert!(sys.get_actor(&a).is_some());
    assert!(sys.get_actor(&b).is_some());
    assert!(log.borrow().is_empty());
    sys.destroy_actor(&a);
    sys.propagate_messages();
    sys.destroy_actor(&a);
    sys.propagate_messages();
    assert_eq!(received(&log, "a"), vec![ActorMessage::Destroyed]);
    assert!(sys.get_actor(&b).is_some());
}

#[test]
fn kind_filter_ignores_payload() {
    let log = new_log();
    let mut sys = running();
    sys.add_actor(Probe::new("a", vec![ActorMessage::Changed], &log));
    sys.add_actor(Probe::new("b", vec![ActorMessage::Process(0)], &log));
    sys.push_message(ActorMessage::Process(500_000));
    sys.push_message(ActorMessage::Changed);
    sys.push_message(ActorMessage::Process(16_000));
    sys.propagate_messages();
    assert_eq!(received(&log, "a"), vec![ActorMessage::Changed]);
    assert_eq!(
        received(&log, "b"),
        vec![ActorMessage::Process(500_000), ActorMessage::Process(16_000)]
    );
}

#[test]
fn subscription_is_read_once_at_registration() {
    let log = new_log();
    let mut sys = running();
    let probe = Probe::new("a", vec![ActorMessage::Process(0)], &log);
    let wants = probe.wants.clone();
    sys.add_actor(probe);
    wants.borrow_mut().push(ActorMessage::Changed);
    sys.push_message(ActorMessage::Changed);
    sys.push_message(ActorMessage::Process(1));
    sys.propagate_messages();
    assert_eq!(received(&log, "a"), vec![ActorMessage::Process(1)]);
}

#[test]
fn messages_pushed_during_global_phase_arrive_in_same_call() {
    let log = new_log();
    let mut sys = running();
    let counter = Probe::new("a", vec![ActorMessage::Process(0)], &log).reacting(Box::new(
        |outbox: &mut Outbox<Probe>, m: &ActorMessage| {
            if let ActorMessage::Process(n) = m {
                if *n > 0 {
                    outbox.push_message(ActorMessage::Process(n - 1));
                }
            }
        },
    ));
    sys.add_actor(counter);
    sys.push_message(ActorMessage::Process(3));
    assert_eq!(sys.propagate_global_messages(), 4);
    assert_eq!(
        received(&log, "a"),
        vec![
            ActorMessage::Process(3),
            ActorMessage::Process(2),
            ActorMessage::Process(1),
            ActorMessage::Process(0)
        ]
    );
    assert_eq!(sys.propagate_global_messages(), 0);
}

#[test]
fn local_messages_to_later_slots_arrive_in_same_pass() {
    let log = new_log();
    let mut sys: ActorSystem<Probe> = ActorSystem::new();
    let a = sys.add_actor(Probe::new("a", vec![ActorMessage::Destroyed], &log));
    let keys: Rc<RefCell<Vec<ActorKey>>> = Rc::new(RefCell::new(Vec::new()));
    let targets = keys.clone();
    let b = sys.add_actor(Probe::new("b", vec![ActorMessage::Created], &log).reacting(Box::new(
        move |outbox: &mut Outbox<Probe>, m: &ActorMessage| {
            if *m == ActorMessage::Created {
                for k in targets.borrow().iter() {
                    outbox.destroy_actor(k);
                }
            }
        },
    )));
    let c = sys.add_actor(Probe::new("c", vec![ActorMessage::Destroyed], &log));
    keys.borrow_mut().push(a);
    keys.borrow_mut().push(c);
    sys.set_running(true);
    sys.propagate_messages();
    assert_eq!(received(&log, "b"), vec![ActorMessage::Created]);
    assert_eq!(received(&log, "c"), vec![ActorMessage::Destroyed]);
    assert!(received(&log, "a").is_empty());
    assert!(sys.get_actor(&c).is_none());
    assert!(sys.get_actor(&a).is_some());
    sys.propagate_messages();
    assert_eq!(received(&log, "a"), vec![ActorMessage::Destroyed]);
    assert!(sys.get_actor(&a).is_none());
    assert!(sys.get_actor(&b).is_some());
}

#[test]
fn new_actor_gets_one_created_and_one_added_broadcast() {
    let log = new_log();
    let mut sys = running();
    let w = sys.add_actor(Probe::new("w", vec![ActorMessage::ActorAddedToSystem(ActorKey::empty())], &log));
    let a = sys.add_actor(Probe::new("a", vec![ActorMessage::Created, ActorMessage::Changed], &log));
    assert_eq!(received(&log, "a"), vec![ActorMessage::Created]);
    assert_eq!(received(&log, "w"), vec![ActorMessage::ActorAddedToSystem(a)]);
    assert_ne!(w, a);
    sys.propagate_messages();
    assert_eq!(received(&log, "a"), vec![ActorMessage::Created]);
}

#[test]
fn actor_added_by_a_handler_is_seeded_and_dispatched() {
    let log = new_log();
    let mut sys = running();
    let inner = log.clone();
    let spawner = Probe::new("a", vec![ActorMessage::Changed], &log).reacting(Box::new(
        move |outbox: &mut Outbox<Probe>, m: &ActorMessage| {
            if *m == ActorMessage::Changed {
                outbox.add_actor(Probe::new("child", vec![ActorMessage::Created], &inner));
            }
        },
    ));
    let a = sys.add_actor(spawner);
    sys.propgate_message(ActorMessage::Changed);
    assert_eq!(received(&log, "child"), vec![ActorMessage::Created]);
    let child = ActorKey { index: a.index() + 1, generation: 0 };
    assert_eq!(sys.get_actor(&child).unwrap().get_actor_key(), Some(child));
}

#[test]
fn lowest_free_slot_is_taken_first() {
    let log = new_log();
    let mut sys = running();
    let k0 = sys.add_actor(Probe::new("s0", vec![], &log));
    let k1 = sys.add_actor(Probe::new("s1", vec![], &log));
    let k2 = sys.add_actor(Probe::new("s2", vec![], &log));
    sys.destroy_actor(&k2);
    sys.destroy_actor(&k0);
    sys.propagate_messages();
    let n0 = sys.add_actor(Probe::new("n0", vec![], &log));
    let n2 = sys.add_actor(Probe::new("n2", vec![], &log));
    let n3 = sys.add_actor(Probe::new("n3", vec![], &log));
    assert_eq!(n0, ActorKey { index: 0, generation: 1 });
    assert_eq!(n2, ActorKey { index: 2, generation: 1 });
    assert_eq!(n3, ActorKey { index: 3, generation: 0 });
    assert!(sys.get_actor(&k1).is_some());
    assert!(sys.get_actor(&k0).is_none());
}

#[test]
fn drain_local_queue_empties_one_slot() {
    let log = new_log();
    let mut sys: ActorSystem<Probe> = ActorSystem::new();
    let a = sys.add_actor(Probe::new("a", vec![ActorMessage::Created, ActorMessage::Destroyed], &log));
    let b = sys.add_actor(Probe::new("b", vec![ActorMessage::Created], &log));
    sys.destroy_actor(&a);
    assert_eq!(sys.drain_local_queue(a.index()), 2);
    assert_eq!(received(&log, "a"), vec![ActorMessage::Created, ActorMessage::Destroyed]);
    assert!(received(&log, "b").is_empty());
    assert!(sys.get_actor(&a).is_none());
    assert_eq!(sys.drain_local_queue(b.index()), 1);
    assert_eq!(sys.drain_local_queue(99), 0);
    sys.propagate_local_messages();
    assert_eq!(received(&log, "b"), vec![ActorMessage::Created]);
}

#[test]
fn default_registry_is_empty_and_stopped() {
    let sys: ActorSystem<Probe> = ActorSystem::default();
    assert!(!sys.is_running());
    assert!(sys.get_actor(&ActorKey { index: 0, generation: 0 }).is_none());
}

#[test]
fn subscription_keeps_each_kind_once() {
    let s = MessagesToRecieve::new(vec![
        ActorMessage::Process(1),
        ActorMessage::Process(2),
        ActorMessage::ActorDestroyed(ActorKey::empty()),
    ]);
    assert!(s.contains(MessageKind::Process));
    assert!(s.contains(MessageKind::ActorDestroyed));
    assert!(!s.contains(MessageKind::Created));
    assert!(!MessagesToRecieve::new(vec![]).contains(MessageKind::Empty));
}

#[test]
fn message_kind_drops_payload() {
    assert_eq!(ActorMessage::Process(5).kind(), MessageKind::Process);
    assert_eq!(ActorMessage::Empty.kind(), MessageKind::Empty);
    assert_eq!(ActorMessage::ActorAddedToSystem(ActorKey::empty()).kind(), MessageKind::ActorAddedToSystem);
    assert_eq!(ActorMessage::ActorDestroyed(ActorKey::empty()).kind(), MessageKind::ActorDestroyed);
    assert_eq!(ActorMessage::Created.kind(), MessageKind::Created);
    assert_eq!(ActorMessage::Destroyed.kind(), MessageKind::Destroyed);
    assert_eq!(ActorMessage::Changed.kind(), MessageKind::Changed);
}

#[test]
fn pushed_ticks_reach_subscriber_in_order() {
    let log = new_log();
    let mut sys = running();
    sys.add_actor(Probe::new("a", vec![ActorMessage::Process(0)], &log));
    sys.push_ticks(40_000, 16_666);
    assert!(sys.propagate_messages());
    assert_eq!(
        received(&log, "a"),
        vec![
            ActorMessage::Process(16_666),
            ActorMessage::Process(16_666),
            ActorMessage::Process(6_668)
        ]
    );
}

#[test]
fn pass_from_a_slot_leaves_earlier_slots_queued() {
    let log = new_log();
    let mut sys: ActorSystem<Probe> = ActorSystem::new();
    let a = sys.add_actor(Probe::new("a", vec![ActorMessage::Created], &log));
    let b = sys.add_actor(Probe::new("b", vec![ActorMessage::Created], &log));
    assert!(sys.drain_local_queues_from(b.index()));
    assert_eq!(received(&log, "b"), vec![ActorMessage::Created]);
    assert!(received(&log, "a").is_empty());
    assert!(sys.drain_local_queues_from(a.index()));
    assert_eq!(received(&log, "a"), vec![ActorMessage::Created]);
    assert_eq!(received(&log, "b"), vec![ActorMessage::Created]);
}

#[test]
fn stopped_phases_do_nothing() {
    let log = new_log();
    let mut sys = running();
    sys.add_actor(Probe::new("a", vec![ActorMessage::Created, ActorMessage::Changed], &log));
    sys.set_running(false);
    sys.destroy_actor(&ActorKey { index: 0, generation: 0 });
    assert_eq!(sys.propagate_global_messages(), 0);
    assert!(sys.propagate_local_messages());
    assert!(sys.propgate_message(ActorMessage::Changed));
    assert_eq!(received(&log, "a"), vec![ActorMessage::Created]);
    sys.set_running(true);
    assert_eq!(sys.propagate_global_messages(), 1);
    assert_eq!(received(&log, "a"), vec![ActorMessage::Created, ActorMessage::Changed]);
    assert!(sys.get_actor(&ActorKey { index: 0, generation: 0 }).is_some());
    assert!(sys.propagate_local_messages());
    assert!(sys.get_actor(&ActorKey { index: 0, generation: 0 }).is_none());
}

#[test]
fn new_actor_hears_no_broadcast_before_created() {
    let log = new_log();
    let mut sys: ActorSystem<Probe> = ActorSystem::new();
    let wants = vec![
        ActorMessage::ActorAddedToSystem(ActorKey::empty()),
        ActorMessage::Created,
        ActorMessage::Changed,
    ];
    let a = sys.add_actor(Probe::new("a", wants, &log));
    sys.push_message(ActorMessage::Changed);
    sys.set_running(true);
    assert!(sys.propagate_messages());
    assert_eq!(received(&log, "a"), vec![ActorMessage::Created]);
    let b = sys.add_actor(Probe::new("b", vec![], &log));
    assert_eq!(
        received(&log, "a"),
        vec![ActorMessage::Created, ActorMessage::ActorAddedToSystem(b)]
    );
    assert_ne!(a, b);
}
