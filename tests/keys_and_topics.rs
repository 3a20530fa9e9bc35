use hyperion::event::{generate_topic, Manager as EventManager, APP_LABEL};
use hyperion::manager::prepare;
use hyperion::module::{
    DataSource, LabelSelector, Labels, Module, ModuleCore, ModuleMetadata, ModuleSpec,
};
use hyperion::utility::{core_key_of, module_core_key};

fn s(x: &str) -> String {
    x.to_string()
}

fn labels(pairs: &[(&str, &str)]) -> Labels {
    Labels::from_pairs(pairs.iter().map(|(k, v)| (s(k), s(v))).collect())
}

fn module(labels_: Labels, selector: Option<Labels>) -> Module {
    Module {
        core: Some(ModuleCore { namespace: s("n"), name: s("m"), version: s("v1") }),
        metadata: Some(ModuleMetadata { labels: labels_, release: None }),
        spec: Some(ModuleSpec {
            data_source: selector.map(|sel| DataSource::Label(LabelSelector { selector: sel })),
        }),
        status: None,
    }
}

#[test]
fn key_is_namespace_name_version() {
    let md = module(Labels::new(), None);
    assert_eq!(module_core_key(&md).unwrap(), "n/m/v1");
    let core = ModuleCore { namespace: s("a"), name: s("b"), version: s("c") };
    assert_eq!(core_key_of(&core), "a/b/c");
}

#[test]
fn key_needs_a_core() {
    let mut md = module(Labels::new(), None);
    md.core = None;
    let err = module_core_key(&md).unwrap_err();
    assert_eq!(err.message(), "invalid module: failed to create a key");
}

#[test]
fn topic_format() {
    assert_eq!(generate_topic("data", "env", "prod"), "env=prod.data");
    assert_eq!(generate_topic("log", APP_LABEL, "n/m/v1"), "core.hyperion.io/app=n/m/v1.log");
}

#[test]
fn topics_from_labels_and_selector() {
    let md = module(labels(&[("a", "1"), ("b", "2")]), Some(labels(&[("c", "3")])));
    assert_eq!(EventManager::<u32>::create_log_topics(&md), vec!["a=1.log", "b=2.log"]);
    assert_eq!(EventManager::<u32>::create_data_topics(&md), vec!["a=1.data", "b=2.data"]);
    assert_eq!(EventManager::<u32>::create_input_topics(&md), vec!["c=3.data"]);
}

#[test]
fn topics_after_annotation_include_the_module_topic() {
    let md = module(labels(&[("a", "1"), ("b", "2")]), Some(labels(&[("c", "3")])));
    let (key, md) = prepare(md).unwrap();
    assert_eq!(key, "n/m/v1");
    let data = EventManager::<u32>::create_data_topics(&md);
    let logs = EventManager::<u32>::create_log_topics(&md);
    assert_eq!(data, vec!["a=1.data", "b=2.data", "core.hyperion.io/app=n/m/v1.data"]);
    assert_eq!(logs, vec!["a=1.log", "b=2.log", "core.hyperion.io/app=n/m/v1.log"]);
}

#[test]
fn no_metadata_no_spec_no_topics() {
    let md = Module { core: None, metadata: None, spec: None, status: None };
    assert!(EventManager::<u32>::create_log_topics(&md).is_empty());
    assert!(EventManager::<u32>::create_data_topics(&md).is_empty());
    assert!(EventManager::<u32>::create_input_topics(&md).is_empty());
}

#[test]
fn labels_insert_replaces_in_place() {
    let mut l = labels(&[("a", "1"), ("b", "2")]);
    l.insert(s("a"), s("9"));
    l.insert(s("c"), s("3"));
    assert_eq!(l.len(), 3);
    assert_eq!((l.key_at(0).as_str(), l.value_at(0).as_str()), ("a", "9"));
    assert_eq!((l.key_at(2).as_str(), l.value_at(2).as_str()), ("c", "3"));
    assert_eq!(l.get(&s("b")).map(|v| v.as_str()), Some("2"));
    assert_eq!(l.get(&s("z")), None);
}

#[test]
fn labels_from_pairs_keeps_last_value_of_a_key() {
    let l = labels(&[("a", "1"), ("a", "2")]);
    assert_eq!(l.len(), 1);
    assert_eq!(l.get(&s("a")).unwrap(), "2");
    let c = l.clone();
    assert_eq!(c.get(&s("a")).unwrap(), "2");
}

#[test]
fn module_event_bus_hands_out_topics_once() {
    let md = module(labels(&[("a", "1")]), Some(labels(&[("c", "3")])));
    let em: EventManager<u32> = EventManager::new();
    let mut meb = em.register_module(&md);
    assert_eq!(meb.stream_logs(), Some(vec![s("a=1.log")]));
    assert_eq!(meb.stream_logs(), None);
    assert_eq!(meb.stream_data(), Some(vec![s("a=1.data")]));
    assert_eq!(meb.stream_data(), None);
    assert_eq!(meb.pending_inputs(), 1);
}
