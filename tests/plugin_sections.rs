use hyperion::actor::{MailError, RxError, BUFFER_SIZE};
use hyperion::module::{Labels, Module, ModuleCore, ModuleMetadata, ModuleSpec};
use hyperion::plugin::{structure, InvalidModuleError, InvalidModuleSection, Sandbox};

fn full() -> Module {
    Module {
        core: Some(ModuleCore {
            namespace: "n".to_string(),
            name: "m".to_string(),
            version: "v1".to_string(),
        }),
        metadata: Some(ModuleMetadata { labels: Labels::new(), release: None }),
        spec: Some(ModuleSpec { data_source: None }),
        status: None,
    }
}

#[test]
fn sandbox_needs_every_section() {
    let mut md = full();
    md.spec = None;
    let e = Sandbox::new(md, ()).err().unwrap();
    assert_eq!(e.section(), InvalidModuleSection::Spec);
    assert_eq!(e.message(), "module section 'Spec' is invalid");
    let mut md = full();
    md.metadata = None;
    md.spec = None;
    assert_eq!(Sandbox::new(md, ()).err().unwrap().section(), InvalidModuleSection::Metadata);
    let mut md = full();
    md.core = None;
    assert_eq!(Sandbox::new(md, ()).err().unwrap().section(), InvalidModuleSection::Core);
}

#[test]
fn sandbox_keeps_the_sections() {
    let sb = Sandbox::new(full(), 7u8).ok().unwrap();
    assert_eq!(sb.info().name, "m");
    assert_eq!(sb.metadata().labels.len(), 0);
    assert!(sb.config().data_source.is_none());
    let back = sb.to_module();
    assert_eq!(back.core.unwrap().version, "v1");
    assert!(back.status.is_none());
    let _held = structure::new(full());
}

#[test]
fn error_texts() {
    assert_eq!(
        InvalidModuleError::new(InvalidModuleSection::Core).message(),
        "module section 'Core' is invalid"
    );
    assert_eq!(MailError.message(), "failed to send");
    assert_eq!(
        RxError.message(),
        "receiver does not exists, either it has already been taken or dropped"
    );
    assert_eq!(BUFFER_SIZE, 16);
}
