use hyperion::bus::Bus;
use hyperion::event::Manager as EventManager;
use hyperion::mail::{Mail, DATA};
use hyperion::module::{DataSource, LabelSelector, Labels, Module, ModuleSpec};

fn s(x: &str) -> String {
    x.to_string()
}

#[test]
fn publish_reaches_every_subscriber_once() {
    let mut bus: Bus<&'static str> = Bus::new();
    let t = s("env=prod.data");
    let a = bus.subscribe(t.clone(), "a");
    let b = bus.subscribe(t.clone(), "b");
    let c = bus.subscribe(t.clone(), "c");
    bus.subscribe(s("other.data"), "x");
    let m = Mail::new(DATA, vec![0xAA, 0xBB]);
    let out = bus.publish(&t, &m);
    assert_eq!(out.len(), 3);
    let mut ids: Vec<u128> = out.iter().map(|d| d.0).collect();
    ids.sort();
    let mut want = vec![a, b, c];
    want.sort();
    assert_eq!(ids, want);
    for (_, sender, copy) in &out {
        assert!(["a", "b", "c"].contains(*sender));
        assert_eq!((copy.typ, copy.size, copy.data.clone()), (DATA, 2, vec![0xAA, 0xBB]));
    }
}

#[test]
fn publish_on_unknown_topic_reaches_nobody() {
    let bus: Bus<u8> = Bus::new();
    let m = Mail::new(DATA, vec![1]);
    assert!(bus.publish(&s("nobody.data"), &m).is_empty());
}

#[test]
fn last_unsubscribe_drops_the_topic() {
    let mut bus: Bus<u8> = Bus::new();
    let t = s("a=1.log");
    let x = bus.subscribe(t.clone(), 1);
    let y = bus.subscribe(t.clone(), 2);
    assert!(bus.has_topic(&t));
    assert_eq!(bus.subscriber_count(&t), 2);
    bus.unsubscribe(&t, x);
    assert!(bus.has_topic(&t));
    assert_eq!(bus.subscriber_count(&t), 1);
    bus.unsubscribe(&t, y);
    assert!(!bus.has_topic(&t));
    assert_eq!(bus.subscriber_count(&t), 0);
}

#[test]
fn unsubscribing_an_unknown_id_changes_nothing() {
    let mut bus: Bus<u8> = Bus::new();
    let t = s("a=1.log");
    bus.subscribe_with_id(t.clone(), 7, 1);
    bus.unsubscribe(&t, 8);
    bus.unsubscribe(&s("b=2.log"), 7);
    assert_eq!(bus.subscriber_count(&t), 1);
}

#[test]
fn resubscribing_an_id_replaces_its_sender() {
    let mut bus: Bus<u8> = Bus::new();
    let t = s("a=1.log");
    bus.subscribe_with_id(t.clone(), 7, 1);
    bus.subscribe_with_id(t.clone(), 7, 2);
    let out = bus.recipients(&t);
    assert_eq!(out.len(), 1);
    assert_eq!((out[0].0, *out[0].1), (7, 2));
}

#[test]
fn subscriber_ids_are_random_version_4_uuids() {
    let mut bus: Bus<u8> = Bus::new();
    let t = s("t");
    let a = bus.subscribe(t.clone(), 0);
    let b = bus.subscribe(t.clone(), 0);
    assert_ne!(a, b);
    assert_eq!((a >> 76) & 0xf, 4);
    assert_eq!((a >> 62) & 3, 2);
}

#[test]
fn input_subscriptions_are_recorded_and_cleaned_up() {
    let md = Module {
        core: None,
        metadata: None,
        spec: Some(ModuleSpec {
            data_source: Some(DataSource::Label(LabelSelector {
                selector: Labels::from_pairs(vec![(s("c"), s("3")), (s("d"), s("4"))]),
            })),
        }),
        status: None,
    };
    let mut em: EventManager<u32> = EventManager::new();
    let other = em.bus.subscribe(s("c=3.data"), 99);
    let mut meb = em.register_module(&md);
    assert_eq!(meb.pending_inputs(), 2);
    let ids = meb.recv_data(&mut em.bus, vec![10, 20]);
    assert_eq!(ids.len(), 2);
    assert_eq!(meb.pending_inputs(), 0);
    assert_eq!(em.bus.subscriber_count(&s("c=3.data")), 2);
    assert_eq!(em.bus.subscriber_count(&s("d=4.data")), 1);
    assert!(meb.recv_data(&mut em.bus, vec![]).is_empty());
    meb.cleanup(&mut em.bus);
    assert!(!em.bus.has_topic(&s("d=4.data")));
    let left = em.bus.recipients(&s("c=3.data"));
    assert_eq!(left.len(), 1);
    assert_eq!((left[0].0, *left[0].1), (other, 99));
    meb.cleanup(&mut em.bus);
    assert_eq!(em.bus.subscriber_count(&s("c=3.data")), 1);
}
