use hyperion::manager::{
    apply_reply, delete_reply, get_module_name_label, get_not_found, prepare, setup_defaults,
    module_topic, with_status, ApplyError, Filter, Manager,
};
use hyperion::controller::Controller;
use hyperion::module::{
    LabelSelector, Labels, Module, ModuleCore, ModuleMetadata, ModuleRelease, Release,
};

fn s(x: &str) -> String {
    x.to_string()
}

fn module(name: &str, labels: &[(&str, &str)], location: &str) -> Module {
    Module {
        core: Some(ModuleCore { namespace: s("n"), name: s(name), version: s("v1") }),
        metadata: Some(ModuleMetadata {
            labels: Labels::from_pairs(labels.iter().map(|(k, v)| (s(k), s(v))).collect()),
            release: Some(Release::LinuxAmd64(ModuleRelease {
                location: s(location),
                sha256: s(""),
            })),
        }),
        spec: None,
        status: None,
    }
}

fn label_of(md: &Module, key: &str) -> Option<String> {
    md.metadata.as_ref().unwrap().labels.get(&s(key)).cloned()
}

#[test]
fn apply_then_get_shows_key_label_and_status() {
    let mut reg: Manager<Controller> = Manager::new();
    let (key, md) = prepare(module("m", &[], "file:///bin/true")).unwrap();
    assert_eq!(apply_reply(&key), "applied n/m/v1");
    assert!(reg.install(key, md, Controller::new()).is_none());
    let (stored, controller) = reg.get(&s("m")).expect("stored under its name");
    assert_eq!(label_of(stored, "core.hyperion.io/app"), Some(s("n/m/v1")));
    let shown = with_status(stored.clone(), controller.get_status());
    assert_eq!(shown.status.unwrap().msg, "Init");
}

#[test]
fn apply_twice_keeps_one_entry() {
    let mut reg: Manager<u32> = Manager::new();
    let (k1, m1) = prepare(module("m", &[], "file:///bin/true")).unwrap();
    let (k2, m2) = prepare(module("m", &[], "file:///bin/false")).unwrap();
    assert!(reg.install(k1, m1, 1).is_none());
    let (old_md, old_controller) = reg.install(k2, m2, 2).expect("the first is replaced");
    assert_eq!(old_controller, 1);
    assert_eq!(old_md.core.unwrap().name, "m");
    assert_eq!(reg.len(), 1);
    let (md, c) = reg.get(&s("n/m/v1")).unwrap();
    assert_eq!(*c, 2);
    match &md.metadata.as_ref().unwrap().release {
        Some(Release::LinuxAmd64(r)) => assert_eq!(r.location, "file:///bin/false"),
        _ => panic!("expected the second release"),
    }
}

#[test]
fn delete_not_found() {
    let mut reg: Manager<u32> = Manager::new();
    let found = reg.remove(&s("nope"));
    assert!(found.is_none());
    assert_eq!(delete_reply("nope", false), Err(s("nope not found")));
    assert_eq!(delete_reply("m", true), Ok(s("deleted m")));
    assert_eq!(get_not_found("m"), "module with key \"m\" not found");
}

#[test]
fn delete_removes_the_entry() {
    let mut reg: Manager<u32> = Manager::new();
    let (k, m) = prepare(module("m", &[], "file:///bin/true")).unwrap();
    reg.install(k.clone(), m, 5);
    let (_, c) = reg.remove(&k).expect("present");
    assert_eq!(c, 5);
    assert_eq!(reg.len(), 0);
    assert!(reg.get(&k).is_none());
}

#[test]
fn list_by_label_selects_supersets() {
    let mut reg: Manager<u32> = Manager::new();
    let (k1, m1) = prepare(module("prod", &[("env", "prod"), ("tier", "1")], "file:///a")).unwrap();
    let (k2, m2) = prepare(module("dev", &[("env", "dev")], "file:///b")).unwrap();
    reg.install(k1, m1, 1);
    reg.install(k2, m2, 2);
    let sel = |pairs: &[(&str, &str)]| {
        Filter::Label(LabelSelector {
            selector: Labels::from_pairs(pairs.iter().map(|(k, v)| (s(k), s(v))).collect()),
        })
    };
    let prod = reg.list(&sel(&[("env", "prod")]));
    assert_eq!(prod.len(), 1);
    assert_eq!(prod[0].core.as_ref().unwrap().name, "prod");
    assert_eq!(reg.list(&sel(&[])).len(), 2);
    assert_eq!(reg.list(&sel(&[("env", "prod"), ("tier", "2")])).len(), 0);
    assert_eq!(reg.list(&sel(&[("missing", "x")])).len(), 0);
}

#[test]
fn list_by_core_finds_at_most_one() {
    let mut reg: Manager<u32> = Manager::new();
    let (k, m) = prepare(module("m", &[], "file:///a")).unwrap();
    reg.install(k.clone(), m, 1);
    let by = |name: &str| Filter::Core(ModuleCore { namespace: s(""), name: s(name), version: s("") });
    assert_eq!(reg.list(&by("n/m/v1")).len(), 1);
    assert_eq!(reg.list(&by("m")).len(), 1);
    assert_eq!(reg.list(&by("other")).len(), 0);
}

#[test]
fn apply_refuses_incomplete_modules() {
    let mut md = module("m", &[], "file:///a");
    md.core = None;
    assert_eq!(prepare(md).err().unwrap(), ApplyError::InvalidModule);
    let mut md = module("m", &[], "file:///a");
    md.metadata = None;
    let e = prepare(md).err().unwrap();
    assert_eq!(e, ApplyError::MissingMetadata);
    assert_eq!(e.message(), "invalid module - metadata cannot be empty");
    assert_eq!(ApplyError::InvalidModule.message(), "invalid module: failed to create a key");
}

#[test]
fn annotation_overwrites_a_stale_key_label() {
    let mut md = module("m", &[("core.hyperion.io/app", "stale"), ("x", "y")], "file:///a");
    setup_defaults(&mut md, s("n/m/v1")).unwrap();
    let labels = &md.metadata.as_ref().unwrap().labels;
    assert_eq!(labels.len(), 2);
    assert_eq!(label_of(&md, "core.hyperion.io/app"), Some(s("n/m/v1")));
    assert_eq!(get_module_name_label(&md), (s("core.hyperion.io/app"), s("n/m/v1")));
}

#[test]
fn watch_topics_follow_the_module_key() {
    let mut reg: Manager<u32> = Manager::new();
    let core = ModuleCore { namespace: s(""), name: s("m"), version: s("") };
    assert_eq!(reg.watch_topic(&core, "data"), "core.hyperion.io/app=m.data");
    let (k, m) = prepare(module("m", &[], "file:///a")).unwrap();
    reg.install(k, m, 1);
    assert_eq!(reg.watch_topic(&core, "data"), "core.hyperion.io/app=n/m/v1.data");
    assert_eq!(reg.watch_topic(&core, "log"), "core.hyperion.io/app=n/m/v1.log");
    assert_eq!(module_topic("n/m/v1", "log"), "core.hyperion.io/app=n/m/v1.log");
}

#[test]
fn delete_by_identity_name() {
    let mut reg: Manager<u32> = Manager::new();
    let (k, m) = prepare(module("m", &[], "file:///a")).unwrap();
    reg.install(k, m, 3);
    let (_, c) = reg.remove(&s("m")).expect("found by its name");
    assert_eq!(c, 3);
    assert!(reg.remove(&s("m")).is_none());
}
