//! Registries: credentials, references and pulls.

use base64::Engine;
use buildkit::auth::{
    auth_for_reference, auth_from_docker_config, decode_basic, docker_config_path, set_config_dir,
    split_credentials, AuthEntry, ConfigOverride, RegistryAuth,
};
use buildkit::config::ConfigOs;
use buildkit::error::Error;
use buildkit::fs::{FsOp, Step};
use buildkit::path::HostPath;
use buildkit::platform::Platform;
use buildkit::progress::{short_layer_id, PullEvent, PullProgress};
use buildkit::pull::{
    ensure_start, finish_pull_progress, layers_cache_matches, manifest_received, order_layers,
    pull_end, pull_prepare, pull_start, pulling_from_parts, read_cached_config,
    validate_layer_media_types, CacheFacts, Descriptor, LayerDownload, Manifest, PullPlan,
};
use buildkit::reference::{parse_reference, strip_scheme, Reference};

const GZIP: &str = "application/vnd.oci.image.layer.v1.tar+gzip";
const DOCKER_GZIP: &str = "application/vnd.docker.image.rootfs.diff.tar.gzip";
const CONFIG: &str =
    r#"{"architecture":"amd64","os":"linux","rootfs":{"type":"layers","diff_ids":[]}}"#;

fn path(text: &str) -> HostPath {
    HostPath::parse(text)
}

fn words(list: &[&str]) -> Vec<String> {
    list.iter().map(|w| w.to_string()).collect()
}

/// Progress as lines.
struct Log(Vec<String>);

impl PullProgress for Log {
    fn event(&mut self, event: PullEvent) {
        self.0.push(match event {
            PullEvent::UnableToFindLocally { reference } => format!("unable {reference}"),
            PullEvent::PullingFrom { tag, repository } => format!("from {tag} {repository}"),
            PullEvent::LayerStatus { id, status } => format!("{id}: {status}"),
            PullEvent::LayerProgress {
                id,
                status,
                current,
                total,
            } => format!("{id}: {status} {current}/{total}"),
            PullEvent::Digest { digest } => format!("digest {digest}"),
            PullEvent::Status { message } => format!("status {message}"),
            PullEvent::Unpacking { reference, layers } => format!("unpack {reference} {layers}"),
        });
    }
}

fn shown(steps: &[Step]) -> Vec<String> {
    steps
        .iter()
        .map(|step| match &step.op {
            FsOp::CreateDirAll(p) => format!("mkdir {}", p.to_text()),
            FsOp::RemoveDirAll(p) => format!("rmtree {}", p.to_text()),
            FsOp::Write(p, data) => {
                format!("write {} {}", p.to_text(), String::from_utf8_lossy(data))
            }
            other => format!("{other:?}"),
        })
        .collect()
}

// Credentials

fn encode(text: &[u8]) -> String {
    base64::engine::general_purpose::STANDARD.encode(text)
}

fn entry(auth: Option<&str>, username: Option<&str>, password: Option<&str>) -> AuthEntry {
    AuthEntry {
        auth: auth.map(|a| a.to_string()),
        username: username.map(|u| u.to_string()),
        password: password.map(|p| p.to_string()),
    }
}

#[test]
fn basic_credentials() {
    assert_eq!(
        decode_basic("YTpiOmM="),
        Some(("a".to_string(), "b:c".to_string()))
    );
    assert_eq!(decode_basic("not base64"), None);
    assert_eq!(decode_basic(&encode(b"nocolon")), None);
    assert_eq!(decode_basic(&encode(&[0xff, b':'])), None);
    assert_eq!(split_credentials(None), None);
    assert_eq!(
        split_credentials(Some(b":".to_vec())),
        Some((String::new(), String::new()))
    );
}

#[test]
fn config_file_is_found() {
    let mut state = ConfigOverride { dir: None };
    let some = |text: &str| Some(path(text));
    let found = |state: &ConfigOverride, a: Option<HostPath>, b: Option<HostPath>, c| {
        docker_config_path(state, &a, &b, &c).map(|p| p.to_text())
    };
    assert_eq!(found(&state, None, None, None), None);
    assert_eq!(
        found(&state, None, None, some("/home/me")).unwrap(),
        "/home/me/.docker/config.json"
    );
    assert_eq!(
        found(&state, None, some("/bk"), some("/home/me")).unwrap(),
        "/bk/config.json"
    );
    assert_eq!(
        found(&state, some("/dc"), some("/bk"), None).unwrap(),
        "/dc/config.json"
    );
    set_config_dir(&mut state, some("/forced"));
    assert_eq!(
        found(&state, some("/dc"), some("/bk"), None).unwrap(),
        "/forced/config.json"
    );
    set_config_dir(&mut state, None);
    assert_eq!(found(&state, None, None, None), None);
}

#[test]
fn registry_names_are_tried_in_turn() {
    let pair = |u: &str, p: &str| Some((u.to_string(), p.to_string()));
    let entries = vec![
        ("https://index.docker.io/v1/".to_string(), entry(None, Some("hub"), Some("h"))),
        ("https://r.io/v2/".to_string(), entry(None, Some("two"), Some("2"))),
        ("https://r.io".to_string(), entry(Some("???"), None, None)),
        ("https://s.io".to_string(), entry(Some("YTpiOmM="), Some("x"), Some("y"))),
        ("https://t.io/v1/".to_string(), entry(Some("???"), Some("x"), Some("y"))),
    ];
    assert_eq!(auth_from_docker_config("r.io", &entries), pair("two", "2"));
    assert_eq!(auth_from_docker_config("s.io", &entries), pair("a", "b:c"));
    assert_eq!(auth_from_docker_config("t.io", &entries), pair("x", "y"));
    assert_eq!(auth_from_docker_config("else", &entries), pair("hub", "h"));
    assert_eq!(auth_from_docker_config("else", &Vec::new()), None);
}

#[test]
fn environment_comes_after_the_file() {
    let r = parse_reference("r.io/x:1").unwrap();
    let user = || Some("u".to_string());
    let file = || {
        Some(vec![(
            "https://r.io".to_string(),
            entry(None, Some("f"), Some("g")),
        )])
    };
    let is = |auth: RegistryAuth, u: &str, p: &str| {
        matches!(auth, RegistryAuth::Basic(a, b) if a == u && b == p)
    };
    assert!(is(auth_for_reference(&r, &file(), user(), user()), "f", "g"));
    assert!(is(auth_for_reference(&r, &None, user(), user()), "u", "u"));
    assert!(matches!(
        auth_for_reference(&r, &None, user(), None),
        RegistryAuth::Anonymous
    ));
    assert!(matches!(
        auth_for_reference(&r, &Some(Vec::new()), None, None),
        RegistryAuth::Anonymous
    ));
}

// References

#[test]
fn references() {
    assert_eq!(strip_scheme("  oci://r.io/x "), "r.io/x");
    assert_eq!(strip_scheme("docker://oci://x"), "oci://x");
    assert_eq!(strip_scheme("http://x"), "http://x");
    let r = parse_reference(" docker://r.io:5000/a/b:1 ").unwrap();
    assert_eq!(r.registry, "r.io:5000");
    assert_eq!(r.repository, "a/b");
    assert_eq!(r.tag.as_deref(), Some("1"));
    assert_eq!(r.whole(), "r.io:5000/a/b:1");
    let r = parse_reference("alpine").unwrap();
    assert_eq!(r.whole(), "docker.io/library/alpine:latest");
    let err = parse_reference("Bad Name").unwrap_err();
    assert!(matches!(&err, Error::Reference(m) if m.starts_with("Bad Name: ")));
    assert!(parse_reference("").is_err());
    let digest = format!("x@sha256:{}", "0".repeat(64));
    let r = parse_reference(&digest).unwrap();
    assert_eq!(pulling_from_parts(&r).0, "latest");
    assert_eq!(pulling_from_parts(&r).1, "library/x");
}

#[test]
fn layer_ids_are_short() {
    assert_eq!(short_layer_id("sha256:0123456789abcdef"), "0123456789ab");
    assert_eq!(short_layer_id("sha512:0123"), "0123");
    assert_eq!(short_layer_id("md5:0123456789"), "md5:01234567");
}

// Pulls

fn layer(media_type: &str, digest: &str, size: i64) -> Descriptor {
    Descriptor {
        media_type: media_type.into(),
        digest: digest.into(),
        size,
    }
}

fn manifest() -> Manifest {
    Manifest {
        layers: vec![layer(GZIP, "sha256:aa", 4), layer(DOCKER_GZIP, "sha256:bb", 5)],
        digest: "sha256:cc".into(),
    }
}

fn reference() -> Reference {
    parse_reference("alpine:3.19").unwrap()
}

#[test]
fn media_types() {
    assert!(validate_layer_media_types(&manifest().layers).is_ok());
    assert_eq!(
        validate_layer_media_types(&Vec::new()).unwrap_err().message(),
        "image manifest has no layers"
    );
    let odd = vec![layer(GZIP, "d", 1), layer("text/plain", "d", 1), layer("x", "d", 1)];
    assert_eq!(
        validate_layer_media_types(&odd).unwrap_err().message(),
        "incompatible layer media type: text/plain"
    );
}

fn facts() -> CacheFacts {
    CacheFacts {
        digest: Some("sha256:cc\n".into()),
        config_is_file: true,
        digests: Some("sha256:aa\nsha256:bb\n".into()),
        blobs: vec![true, true],
    }
}

fn plan(facts: &CacheFacts, layers_dir: bool) -> Result<PullPlan, Error> {
    manifest_received(
        &reference(),
        &Platform::linux_amd64(),
        &path("/i"),
        &manifest(),
        facts,
        layers_dir,
        Some(CONFIG.replace("linux", "darwin")),
        CONFIG,
    )
}

#[test]
fn pulled_image_is_up_to_date() {
    let list = words(&["sha256:aa", "sha256:bb"]);
    assert!(layers_cache_matches(&facts(), "sha256:cc", &list));
    assert!(!layers_cache_matches(&facts(), "", &list));
    assert!(!layers_cache_matches(&facts(), "sha256:cc", &words(&["sha256:aa"])));
    let Ok(PullPlan::UpToDate(image)) = plan(&facts(), true) else {
        panic!("not up to date");
    };
    assert!(!image.updated);
    assert_eq!(image.config.os, ConfigOs::Darwin);
    assert_eq!(image.layer_digests, list);
    assert_eq!(image.digest.as_deref(), Some("sha256:cc"));
    assert_eq!(image.cache_dir.to_text(), "/i");
    assert_eq!(image.platform.to_text(), "linux/amd64");

    let mut changed = facts();
    changed.blobs[1] = false;
    let Ok(PullPlan::Download { steps, .. }) = plan(&changed, true) else {
        panic!("no download");
    };
    assert_eq!(shown(&steps), ["rmtree /i/layers", "mkdir /i/layers"]);
    let mut changed = facts();
    changed.config_is_file = false;
    let Ok(PullPlan::Download { steps, .. }) = plan(&changed, false) else {
        panic!("no download");
    };
    assert_eq!(shown(&steps), ["mkdir /i/layers"]);
}

#[test]
fn bad_manifests_and_configs_are_refused() {
    let run = |manifest: &Manifest, facts: &CacheFacts, cached: Option<&str>| {
        manifest_received(
            &reference(),
            &Platform::linux_amd64(),
            &path("/i"),
            manifest,
            facts,
            false,
            cached.map(|t| t.to_string()),
            "[]",
        )
        .unwrap_err()
        .message()
    };
    let none = Manifest {
        layers: Vec::new(),
        digest: "d".into(),
    };
    assert_eq!(run(&none, &facts(), Some(CONFIG)), "image manifest has no layers");
    assert!(run(&manifest(), &facts(), Some("[]")).starts_with("cached image config: "));
    assert!(run(&manifest(), &facts(), None).starts_with("image config: "));
    let mut changed = facts();
    changed.digest = None;
    assert!(run(&manifest(), &changed, Some(CONFIG)).starts_with("image config: "));
}

#[test]
fn download_progress() {
    let mut log = Log(Vec::new());
    pull_start(&reference(), &mut log);
    let mut one = LayerDownload::start(&layer(GZIP, "sha256:0123456789abcdef", 4), &mut log);
    assert!(one.chunk(&b"ab".to_vec(), None, &mut log));
    assert!(!one.chunk(&b"c".to_vec(), Some(49), &mut log));
    assert!(one.chunk(&b"d".to_vec(), Some(50), &mut log));
    assert_eq!(
        one.failed("reset").message(),
        "failed to download layer 0123456789ab: reset"
    );
    assert_eq!(one.finish(&mut log), b"abcd");
    let two = LayerDownload::start(&layer(GZIP, "sha256:ff", -1), &mut log);
    assert_eq!(two.total, 0);
    assert!(two.finish(&mut log).is_empty());
    assert_eq!(
        log.0,
        [
            "from 3.19 library/alpine",
            "0123456789ab: Pulling fs layer",
            "0123456789ab: Downloading",
            "0123456789ab: Downloading 2/4",
            "0123456789ab: Downloading 4/4",
            "0123456789ab: Downloading 4/4",
            "0123456789ab: Download complete",
            "ff: Pulling fs layer",
            "ff: Downloading",
            "ff: Download complete",
        ]
    );
    assert_eq!(shown(&pull_prepare(&path("/i"))), ["mkdir /i"]);
}

#[test]
fn layers_keep_manifest_order() {
    let blobs = order_layers(vec![
        (2, b"c".to_vec()),
        (0, b"a".to_vec()),
        (1, b"b".to_vec()),
    ]);
    assert_eq!(blobs, [b"a".to_vec(), b"b".to_vec(), b"c".to_vec()]);
    assert!(order_layers(Vec::new()).is_empty());
}

#[test]
fn pulled_image_is_written() {
    let (steps, image) = pull_end(
        &reference(),
        &Platform::linux_amd64(),
        &path("/i"),
        &manifest(),
        CONFIG,
        &vec![b"one".to_vec(), b"two".to_vec()],
    )
    .unwrap();
    assert!(image.updated);
    assert_eq!(image.config.os, ConfigOs::Linux);
    let lines = shown(&steps);
    assert_eq!(lines.len(), 6);
    assert_eq!(lines[0], "write /i/layers/0.tar.gz one");
    assert_eq!(lines[1], "write /i/layers/1.tar.gz two");
    assert_eq!(lines[2], "write /i/layers/digests sha256:aa\nsha256:bb\n");
    assert!(lines[3].starts_with("write /i/config.json {\n  \"architecture\": \"amd64\","));
    assert_eq!(lines[4], "write /i/platform linux/amd64");
    assert_eq!(lines[5], "write /i/digest sha256:cc");
    let err = pull_end(
        &reference(),
        &Platform::linux_amd64(),
        &path("/i"),
        &manifest(),
        "{}",
        &Vec::new(),
    )
    .unwrap_err();
    assert!(err.message().starts_with("image config: missing field"));
}

#[test]
fn cached_config_is_preferred() {
    assert!(read_cached_config(Some(CONFIG.into()), "broken").is_ok());
    assert!(read_cached_config(None, CONFIG).is_ok());
    let err = read_cached_config(Some("broken".into()), CONFIG).unwrap_err();
    assert!(err.message().starts_with("cached image config: "));
    let err = read_cached_config(None, "broken").unwrap_err();
    assert!(err.message().starts_with("image config: "));
}

#[test]
fn when_to_pull() {
    let mut log = Log(Vec::new());
    assert!(!ensure_start("a", false, true, true, &mut log));
    assert!(ensure_start("b", true, true, true, &mut log));
    assert!(ensure_start("c", false, false, false, &mut log));
    assert!(ensure_start("d", false, false, true, &mut log));
    finish_pull_progress("x:1", Some("sha256:1"), true, &mut log);
    finish_pull_progress("y:1", None, false, &mut log);
    assert_eq!(
        log.0,
        [
            "unable d",
            "digest sha256:1",
            "status Downloaded newer image for x:1",
            "status Image is up to date for y:1",
        ]
    );
}
