//! References, stores and registries.

use base64::Engine;
use buildkit::auth::decode_basic;
use buildkit::path::HostPath;
use buildkit::platform::Platform;
use buildkit::reference::parse_reference;
use buildkit::rootfs::path_relative_to;
use buildkit::store::{sanitize, DataRootFacts, HostOs, LocalImageStore};

#[test]
fn decode_docker_basic_auth() {
    let encoded = base64::engine::general_purpose::STANDARD.encode("alice:secret");
    let (user, pass) = decode_basic(&encoded).unwrap();
    assert_eq!(user, "alice");
    assert_eq!(pass, "secret");
}

#[test]
fn strips_docker_scheme() {
    let r = parse_reference("docker://hello-world").unwrap();
    assert_eq!(r.repository, "library/hello-world");
}

#[test]
fn bare_name_gets_library_prefix() {
    let r = parse_reference("alpine:3.19").unwrap();
    assert!(r.repository.contains("alpine"));
}

#[test]
fn relative_basic() {
    let rel = path_relative_to(&HostPath::parse("/a/b/c"), &HostPath::parse("/a/b/d/e"));
    assert_eq!(rel.to_text(), "../d/e");
}

#[test]
fn sanitize_includes_platform() {
    let r = parse_reference("hello-world:latest").unwrap();
    let key = sanitize(&r, &Platform::linux_amd64());
    assert!(key.contains("hello_world"));
    assert!(key.ends_with("linux_amd64"));
}

fn machine(os: HostOs) -> DataRootFacts {
    DataRootFacts {
        os,
        docker_data_root: None,
        is_root: false,
        data_local: Some(HostPath::parse("/home/me/.local/share")),
        system_dir_exists: false,
        wsl_exists: false,
        wsl_localhost_exists: false,
        program_data: None,
    }
}

#[test]
fn default_root_is_docker_data_dir() {
    for os in [HostOs::Linux, HostOs::Macos, HostOs::Windows, HostOs::Other] {
        for flag in [false, true] {
            let mut facts = machine(os);
            facts.is_root = flag;
            facts.system_dir_exists = flag;
            facts.wsl_exists = flag;
            let root = LocalImageStore::default_root(&facts);
            assert!(!root.anchor.is_empty());
            let name = root.file_name().unwrap_or_default();
            assert!(
                name.eq_ignore_ascii_case("docker"),
                "expected a Docker data-root, got {}",
                root.to_text()
            );
        }
    }
}
