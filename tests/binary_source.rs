use hyperion::binary::{
    check_download, digest_matches, get_binary_location, setup_binary, BinaryError, BinarySource,
    Target,
};
use hyperion::module::{Labels, Module, ModuleMetadata, ModuleRelease, Release};

fn s(x: &str) -> String {
    x.to_string()
}

fn module(release: Option<Release>) -> Module {
    Module {
        core: None,
        metadata: Some(ModuleMetadata { labels: Labels::new(), release }),
        spec: None,
        status: None,
    }
}

fn amd64(location: &str) -> Option<Release> {
    Some(Release::LinuxAmd64(ModuleRelease { location: s(location), sha256: s("abc") }))
}

#[test]
fn release_for_linux_x86_64() {
    let md = module(amd64("file:///bin/true"));
    let rel = get_binary_location(&md, "linux", "x86_64").unwrap();
    assert_eq!(rel.location, "file:///bin/true");
    assert_eq!(
        get_binary_location(&md, "linux", "aarch64").unwrap_err(),
        BinaryError::NoRelease(Target::LinuxArm64)
    );
}

#[test]
fn release_for_linux_aarch64() {
    let md = module(Some(Release::LinuxArm64(ModuleRelease {
        location: s("https://example.com/m"),
        sha256: s("00"),
    })));
    assert_eq!(get_binary_location(&md, "linux", "aarch64").unwrap().sha256, "00");
    let e = get_binary_location(&md, "linux", "x86_64").unwrap_err();
    assert_eq!(e, BinaryError::NoRelease(Target::LinuxAmd64));
    assert_eq!(e.message(), "no release info found for LinuxAmd64");
}

#[test]
fn other_platforms_are_unsupported() {
    let md = module(amd64("file:///bin/true"));
    let e = get_binary_location(&md, "macos", "x86_64").unwrap_err();
    assert_eq!(e, BinaryError::UnsupportedPlatform);
    assert_eq!(e.message(), "unsupported OS/Arch");
    assert_eq!(
        get_binary_location(&md, "linux", "riscv64").unwrap_err(),
        BinaryError::UnsupportedPlatform
    );
}

#[test]
fn no_metadata_no_release() {
    let md = Module { core: None, metadata: None, spec: None, status: None };
    let e = get_binary_location(&md, "linux", "x86_64").unwrap_err();
    assert_eq!(e, BinaryError::MetadataMissing);
    assert_eq!(e.message(), "module metadata not found");
}

#[test]
fn file_location_is_used_directly() {
    let md = module(amd64("file:///bin/true"));
    match setup_binary(&md, "linux", "x86_64").unwrap() {
        BinarySource::Local(path) => assert_eq!(path, "/bin/true"),
        BinarySource::Remote(_) => panic!("expected a local path"),
    }
}

#[test]
fn http_and_https_locations_are_downloaded() {
    for loc in ["http://example.com/bin", "https://example.com/bin"] {
        let md = module(amd64(loc));
        match setup_binary(&md, "linux", "x86_64").unwrap() {
            BinarySource::Remote(rel) => {
                assert_eq!(rel.location, loc);
                assert_eq!(rel.sha256, "abc");
            }
            BinarySource::Local(_) => panic!("expected a download"),
        }
    }
}

#[test]
fn other_schemes_are_refused() {
    for loc in ["ftp://example.com/bin", "httpx://host/bin", "/bin/true", ""] {
        let md = module(amd64(loc));
        let e = setup_binary(&md, "linux", "x86_64").err().unwrap();
        assert_eq!(e, BinaryError::UnsupportedScheme);
    }
    assert!(BinaryError::UnsupportedScheme.message().starts_with("unsupported protocol"));
}

#[test]
fn download_digest_is_checked() {
    let abc = "ba7816bf8f01cfea414140de5dae2223b00361a396177a9cb410ff61f20015ad";
    assert!(check_download(b"abc", abc).is_ok());
    assert!(check_download(b"abc", &abc.to_uppercase()).is_ok());
    assert_eq!(check_download(b"abd", abc), Err(BinaryError::DigestMismatch));
    assert_eq!(check_download(b"abc", "ba78"), Err(BinaryError::DigestMismatch));
    let empty = "e3b0c44298fc1c149afbf4c8996fb92427ae41e4649b934ca495991b7852b855";
    assert!(check_download(b"", empty).is_ok());
}

#[test]
fn hex_digest_comparison() {
    assert!(digest_matches(&[0x0f, 0xa0], "0fa0"));
    assert!(digest_matches(&[0x0f, 0xa0], "0FA0"));
    assert!(!digest_matches(&[0x0f, 0xa0], "0fa1"));
    assert!(!digest_matches(&[0x0f, 0xa0], "0fa"));
    assert!(!digest_matches(&[0x0f], "g0"));
    assert!(digest_matches(&[], ""));
}
