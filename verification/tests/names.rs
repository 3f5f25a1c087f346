//! Variables, platforms, names and paths.

use buildkit::expand::expand;
use buildkit::platform::Platform;
use buildkit::vars::Vars;
use buildkit::winpath::{decode_component, encode_component, Host};

#[test]
fn expands_vars() {
    let mut vars = Vars::new();
    vars.insert("NAME".into(), "world".into());
    assert_eq!(expand("hello $NAME", &vars), "hello world");
    assert_eq!(expand("hello ${NAME}!", &vars), "hello world!");
    assert_eq!(expand("hello $MISSING", &vars), "hello ");
}

#[test]
fn parses_linux_amd64() {
    let p = Platform::parse("linux/amd64").unwrap();
    assert_eq!(p.os, "linux");
    assert_eq!(p.architecture, "amd64");
}

#[test]
fn rejects_non_linux_platforms() {
    assert!(Platform::parse("windows/amd64").is_err());
    assert!(Platform::parse("darwin/arm64").is_err());
}

#[test]
fn safe_names_unchanged() {
    for host in [Host::Posix, Host::Windows] {
        assert_eq!(encode_component(host, "passwd"), "passwd");
        assert_eq!(decode_component(host, "passwd"), "passwd");
    }
}

#[test]
fn colon_roundtrip() {
    let name = "libapr1:amd64.list";
    let enc = encode_component(Host::Windows, name);
    assert!(enc.starts_with("#bk#"));
    assert_ne!(enc, name);
    assert_eq!(decode_component(Host::Windows, &enc), name);
    let enc = encode_component(Host::Posix, name);
    assert_eq!(decode_component(Host::Posix, &enc), name);
}

#[test]
fn reserved_con_encoded() {
    let enc = encode_component(Host::Windows, "CON");
    assert!(enc.starts_with("#bk#"));
    assert_eq!(decode_component(Host::Windows, &enc), "CON");
    let enc = encode_component(Host::Posix, "CON");
    assert_eq!(decode_component(Host::Posix, &enc), "CON");
}
