//! The image store, image configs, unpacking and exports.

use std::collections::hash_map::DefaultHasher;
use std::hash::{Hash, Hasher};
use std::time::Duration;

use buildkit::buildkit::Buildkit;
use buildkit::config::{
    build_config_file, export_config, parse_config, stored_config, ConfigOs, ExportArch,
};
use buildkit::error::{Error, IoKind};
use buildkit::export::{export_start, layer_ready, ExportLayer, ExportRun, TagFacts};
use buildkit::fs::{is_dir, is_file, is_present, is_symlink, removal, way_removal, FsMetadata, FsOp, Removal, Step};
use buildkit::fs_cache::{FsCacheHandler, LinuxCacheHandler, MacosCacheHandler, WindowsCacheHandler};
use buildkit::layer_cache::LayerCache;
use buildkit::materialize::{
    check_runnable_platform, materialize_start, DestFacts, Extraction, LayerFailure,
    MaterializeRun, Start, UnpackTask,
};
use buildkit::meta::ImageMeta;
use buildkit::order::sort;
use buildkit::path::HostPath;
use buildkit::platform::Platform;
use buildkit::progress::{BuildEvent, BuildProgress, ProgressEmitter, PullEvent, PullProgress};
use buildkit::reference::{parse_reference, Reference};
use buildkit::shown::{list_literal, signed_number};
use buildkit::store::{
    content_hash, content_stamp, has_digest, image_config, image_digest, is_cached, layer_count,
    layer_digests, layers_match, DataRootFacts, HostOs, LocalImageStore, StoreFacts, StoredImage, StoredLayer,
};

fn path(text: &str) -> HostPath {
    HostPath::parse(text)
}

fn words(list: &[&str]) -> Vec<String> {
    list.iter().map(|w| w.to_string()).collect()
}

fn shown(steps: &[Step]) -> Vec<String> {
    steps
        .iter()
        .map(|step| {
            let text = match &step.op {
                FsOp::CreateDirAll(p) => format!("mkdir {}", p.to_text()),
                FsOp::RemoveDirAll(p) => format!("rmtree {}", p.to_text()),
                FsOp::Copy(a, b) => format!("copy {} {}", a.to_text(), b.to_text()),
                FsOp::Write(p, data) => {
                    format!("write {} {}", p.to_text(), String::from_utf8_lossy(data))
                }
                other => format!("{other:?}"),
            };
            if step.required {
                text
            } else {
                format!("try {text}")
            }
        })
        .collect()
}

fn reference() -> Reference {
    parse_reference("alpine:3.19").unwrap()
}

const AT: &str = "/root/images/docker_io_library_alpine_3_19_linux_amd64";

fn no_file() -> Error {
    Error::io("f", IoKind::NotFound, Some(2), "gone")
}

// Store

#[test]
fn store_paths() {
    let store = LocalImageStore::new(path("/root"));
    let (r, p) = (reference(), Platform::linux_amd64());
    assert_eq!(store.root().to_text(), "/root");
    assert_eq!(store.image_dir(&r, &p).to_text(), AT);
    assert_eq!(store.layer_path(&r, &p, 12).to_text(), format!("{AT}/layers/12.tar.gz"));
    assert_eq!(store.config_path(&r, &p).to_text(), format!("{AT}/config.json"));
    assert_eq!(store.digest_path(&r, &p).to_text(), format!("{AT}/digest"));
    assert_eq!(store.digests_path(&r, &p).to_text(), format!("{AT}/layers/digests"));
    assert_eq!(
        store.bundle_dir(&r, &p).to_text(),
        "/root/bundles/docker_io_library_alpine_3_19_linux_amd64"
    );
}

#[test]
fn data_roots() {
    let facts = |os: HostOs| DataRootFacts {
        os,
        docker_data_root: None,
        is_root: false,
        data_local: Some(path("/home/me/.local/share")),
        system_dir_exists: false,
        wsl_exists: false,
        wsl_localhost_exists: false,
        program_data: None,
    };
    let root = |f: &DataRootFacts| LocalImageStore::default_root(f).to_text();
    let mut f = facts(HostOs::Linux);
    assert_eq!(root(&f), "/home/me/.local/share/docker");
    f.is_root = true;
    assert_eq!(root(&f), "/var/lib/docker");
    f.docker_data_root = Some(path(""));
    assert_eq!(root(&f), "/var/lib/docker");
    f.docker_data_root = Some(path("/data"));
    assert_eq!(root(&f), "/data");
    let mut f = facts(HostOs::Macos);
    f.data_local = None;
    assert_eq!(root(&f), "/var/lib/docker");
    let mut f = facts(HostOs::Windows);
    f.program_data = Some(path("/pd"));
    assert_eq!(root(&f), "/pd/Docker");
    f.wsl_localhost_exists = true;
    assert_eq!(
        LocalImageStore::default_root(&f).anchor,
        "\\\\wsl.localhost\\docker-desktop-data\\"
    );
}

fn stored(layers: &[(Option<&str>, &str)], digest: Option<&str>) -> StoredImage {
    StoredImage {
        digest: digest.map(|d| d.to_string()),
        config: "{}".into(),
        layers: layers
            .iter()
            .map(|(digest, data)| StoredLayer {
                digest: digest.map(|d| d.to_string()),
                data: data.as_bytes().to_vec(),
            })
            .collect(),
    }
}

#[test]
fn put_image_writes_its_files() {
    let store = LocalImageStore::new(path("/root"));
    let (r, p) = (reference(), Platform::linux_amd64());
    let image = stored(&[(Some("d0"), "a"), (Some("d1"), "b")], Some("sha256:x"));
    assert_eq!(
        shown(&store.put_image(&r, &p, true, &image)),
        [
            format!("rmtree {AT}"),
            format!("mkdir {AT}/layers"),
            format!("write {AT}/layers/0.tar.gz a"),
            format!("write {AT}/layers/1.tar.gz b"),
            format!("write {AT}/layers/digests d0\nd1\n"),
            format!("write {AT}/config.json {{}}"),
            format!("write {AT}/platform linux/amd64"),
            format!("write {AT}/digest sha256:x"),
        ]
    );
    let image = stored(&[(Some("d0"), "a"), (None, "b")], Some(""));
    assert_eq!(
        shown(&store.put_image(&r, &p, false, &image)),
        [
            format!("mkdir {AT}/layers"),
            format!("write {AT}/layers/0.tar.gz a"),
            format!("write {AT}/layers/1.tar.gz b"),
            format!("write {AT}/config.json {{}}"),
            format!("write {AT}/platform linux/amd64"),
        ]
    );
    assert_eq!(
        shown(&store.put_image_layer_file(&r, &p, false, "sha256:y", "{}", &path("/w/l"))),
        [
            format!("mkdir {AT}/layers"),
            format!("copy /w/l {AT}/layers/0.tar.gz"),
            format!("write {AT}/layers/digests sha256:y\n"),
            format!("write {AT}/config.json {{}}"),
            format!("write {AT}/platform linux/amd64"),
            format!("write {AT}/digest sha256:y"),
        ]
    );
}

#[test]
fn stored_files_are_read() {
    assert_eq!(image_digest(&Ok(" sha256:x\n".into())).as_deref(), Some("sha256:x"));
    assert_eq!(image_digest(&Ok("\n".into())), None);
    assert_eq!(image_digest(&Err(no_file())), None);
    assert_eq!(layer_digests(&Ok("a\n\n b \n".into())), ["a", "b"]);
    assert!(layer_digests(&Err(no_file())).is_empty());
    let names = words(&["0.tar.gz", "digests", "1.tar.gz", "x.tar"]);
    assert_eq!(layer_count(&Ok(names)), 2);
    assert_eq!(layer_count(&Err(no_file())), 0);
    let err = image_config(Ok("broken".into())).unwrap_err();
    assert!(err.message().starts_with("cached image config: "));
    assert!(image_config(Err(no_file())).unwrap_err().is_not_found());
}

#[test]
fn stored_image_is_found() {
    let facts = |layers: Vec<bool>| StoreFacts {
        digest: Some("x".into()),
        cached: true,
        layer_digests: words(&["a", "b"]),
        layers,
    };
    let list = words(&["a", "b"]);
    assert!(layers_match(&facts(vec![true, true]), "x\n", &list));
    assert!(!layers_match(&facts(vec![true, false]), "x", &list));
    assert!(!layers_match(&facts(vec![true, true]), "y", &list));
    assert!(!layers_match(&facts(vec![true, true]), "x", &words(&["b", "a"])));
    assert!(has_digest(&Some("x".into()), true, " x"));
    assert!(!has_digest(&Some("x".into()), false, "x"));
    assert!(!has_digest(&None, true, "x"));
}

#[test]
fn content_stamps() {
    let stamp = |digest: Option<&str>, layers: &[&str], config| {
        content_stamp(&digest.map(|d| d.to_string()), &words(layers), config, &vec![7, 300])
    };
    assert_eq!(stamp(Some("x"), &["a", "b"], Err(no_file())).unwrap(), "x\na\nb\n");
    assert_eq!(stamp(Some("x"), &[], Err(no_file())).unwrap(), "x\n");
    assert!(stamp(None, &[], Err(no_file())).unwrap_err().is_not_found());
    let err = stamp(None, &["a"], Ok("broken".into())).unwrap_err();
    assert!(err.message().starts_with("cached image config: "));
    let spaced = config_for("linux").replace(':', " : ");
    let compact = config_for("linux");
    let expected = format!("{:016x}", content_hash(&compact, &vec![7, 300]));
    assert_eq!(stamp(None, &["a"], Ok(spaced)).unwrap(), expected);
}

#[test]
fn content_hash_follows_the_hash_trait() {
    let mut hasher = DefaultHasher::new();
    "{}".to_string().hash(&mut hasher);
    for (index, size) in [5u64, 1 << 40].iter().enumerate() {
        (index as u64).to_le().hash(&mut hasher);
        size.to_le().hash(&mut hasher);
    }
    assert_eq!(content_hash("{}", &vec![5, 1 << 40]), hasher.finish());
    assert_ne!(content_hash("{}", &vec![5]), content_hash("{}", &vec![6]));
}

// Configs

#[test]
fn configs_are_read() {
    let json = r#"{"architecture":"arm64","os":"windows","created":"2024-01-02T03:04:05+01:00",
        "config":{"User":"me","Env":["A=1"],"Cmd":[],"WorkingDir":"/w","Labels":{"k":"v","j":"u"}},
        "rootfs":{"type":"layers","diff_ids":["d"]}}"#;
    let c = parse_config("x", json).unwrap();
    assert_eq!(c.os, ConfigOs::Windows);
    let base = c.config.as_ref().unwrap();
    assert_eq!(base.user.as_deref(), Some("me"));
    assert_eq!(base.env.as_ref().unwrap(), &["A=1"]);
    assert_eq!(base.cmd.as_ref().unwrap().len(), 0);
    assert_eq!(base.entrypoint, None);
    assert_eq!(base.labels.as_ref().unwrap().get("k").unwrap(), "v");
    assert_eq!(base.labels.as_ref().unwrap().len(), 2);

    let kept = stored_config(json).unwrap();
    assert!(kept.contains("2024-01-02T02:04:05Z"));
    assert!(!kept.contains("Cmd"));
    let again = parse_config("x", &kept).unwrap();
    assert_eq!(again.os, ConfigOs::Windows);
    let base = again.config.unwrap();
    assert_eq!(base.cmd, None);
    assert_eq!(base.working_dir.as_deref(), Some("/w"));
    let full = r#"{"created":"2024-01-02T03:04:05Z","author":"me","architecture":"riscv64",
        "os":"freebsd","config":{"StopSignal":"SIGINT"},
        "rootfs":{"type":"layers","diff_ids":["sha256:1"]},
        "history":[{"created":"2024-01-02T03:04:06.5Z","author":"you","empty_layer":true}]}"#;
    let value: serde_json::Value = serde_json::from_str(full).unwrap();
    let mut again: serde_json::Value =
        serde_json::from_str(&stored_config(full).unwrap()).unwrap();
    assert_eq!(again["history"][0]["created"], "2024-01-02T03:04:06.500Z");
    again["history"][0]["created"] = "2024-01-02T03:04:06.5Z".into();
    assert_eq!(again, value);
    assert!(stored_config("[]").unwrap_err().message().starts_with("image config: "));
}

#[test]
fn unusual_dates_are_stored() {
    for date in [
        "+262142-12-31T23:59:59.999999999Z",
        "-262143-01-01T00:00:00Z",
        "2016-12-31T23:59:60Z",
        "0000-02-29T00:00:00.5Z",
    ] {
        let json = format!(
            r#"{{"architecture":"amd64","os":"linux","created":"{date}","rootfs":{{"type":"layers","diff_ids":[]}}}}"#
        );
        let kept = stored_config(&json).unwrap();
        assert!(parse_config("x", &kept).is_ok(), "{date}");
        assert!(parse_config("x", &stored_config(&kept).unwrap()).is_ok());
    }
}

fn meta() -> ImageMeta {
    let mut m = ImageMeta::new();
    m.set_env("A", "1");
    m.working_dir = "/w".into();
    m.user = Some("me".into());
    m.cmd = Some(words(&["run"]));
    m.labels.insert("k".into(), "v".into());
    m.exposed_ports = words(&["80/tcp"]);
    m.volumes = words(&["/v"]);
    m
}

#[test]
fn exported_config() {
    let p = Platform::parse("linux/aarch64").unwrap();
    let c = build_config_file(&meta(), &p, "RUN x");
    assert_eq!(c.architecture, ExportArch::Arm64);
    assert_eq!(
        c.diff_ids,
        ["sha256:586abb54469a8ddcc16171b711cd2dd6add6b2c7f88e2d75d6da21c749a682f3"]
    );
    assert_eq!(c.comment, "buildkit");
    let json = export_config(&meta(), &p, "RUN x").unwrap();
    for part in [
        "\"architecture\": \"arm64\"",
        "\"os\": \"linux\"",
        "\"created_by\": \"RUN x\"",
        "\"comment\": \"buildkit\"",
        "\"80/tcp\": {}",
        "\"/v\": {}",
        "sha256:586abb54469a8ddcc16171b711cd2dd6add6b2c7f88e2d75d6da21c749a682f3",
    ] {
        assert!(json.contains(part), "{part} in {json}");
    }
    assert!(!json.contains("Entrypoint"));
    let base = parse_config("x", &json).unwrap().config.unwrap();
    assert_eq!(base.env.unwrap(), meta().env);
    assert_eq!(base.working_dir.as_deref(), Some("/w"));
    assert_eq!(base.user.as_deref(), Some("me"));
    assert_eq!(base.cmd.unwrap(), ["run"]);
    assert_eq!(base.labels.unwrap().get("k").unwrap(), "v");
    let other = Platform::parse("linux/riscv64").unwrap();
    assert_eq!(build_config_file(&meta(), &other, "").architecture, ExportArch::Amd64);
    let arm = Platform::parse("linux/arm").unwrap();
    assert_eq!(build_config_file(&meta(), &arm, "").architecture, ExportArch::Arm);
}

// Unpacking

struct Log(Vec<String>);

impl PullProgress for Log {
    fn event(&mut self, event: PullEvent) {
        self.0.push(match event {
            PullEvent::LayerStatus { id, status } => format!("{id}: {status}"),
            PullEvent::LayerProgress {
                id,
                status,
                current,
                total,
            } => format!("{id}: {status} {current}/{total}"),
            PullEvent::Unpacking { reference, layers } => format!("unpack {reference} {layers}"),
            other => format!("{other:?}"),
        });
    }
}

fn config_for(os: &str) -> String {
    format!(
        r#"{{"architecture":"amd64","os":"{os}","rootfs":{{"type":"layers","diff_ids":[]}}}}"#
    )
}

fn dest(stamp: &str) -> DestFacts {
    DestFacts {
        exists_already: true,
        is_dir: true,
        stamp_is_file: true,
        stamp: stamp.into(),
    }
}

fn begin(cached: bool, os: &str, stamp: Result<String, Error>, facts: &DestFacts) -> Result<Start, Error> {
    materialize_start(
        &reference(),
        cached,
        parse_config("x", &config_for(os)),
        stamp,
        &path("/b/rootfs"),
        facts,
    )
}

#[test]
fn unpacked_rootfs_is_reused() {
    let stamp = || Ok("x\na\n".to_string());
    assert!(matches!(begin(true, "linux", stamp(), &dest("x\na")), Ok(Start::Reuse)));
    let Ok(Start::Unpack { steps, stamp: kept }) = begin(true, "linux", stamp(), &dest("x\nb"))
    else {
        panic!("reused");
    };
    assert_eq!(kept, "x\na\n");
    assert_eq!(shown(&steps), ["rmtree /b/rootfs", "mkdir /b/rootfs"]);
    let mut facts = dest("x\na");
    facts.is_dir = false;
    facts.exists_already = false;
    let Ok(Start::Unpack { steps, .. }) = begin(true, "linux", stamp(), &facts) else {
        panic!("reused");
    };
    assert_eq!(shown(&steps), ["mkdir /b/rootfs"]);
}

#[test]
fn images_that_cannot_be_unpacked() {
    let stamp = || Ok("x".to_string());
    let message = |r: Result<Start, Error>| r.unwrap_err().message();
    assert_eq!(
        message(begin(false, "linux", stamp(), &dest(""))),
        "image docker.io/library/alpine:3.19 is not cached; pull it first"
    );
    assert_eq!(
        message(begin(true, "windows", stamp(), &dest(""))),
        "native Windows images are not supported; use a linux/* platform"
    );
    assert_eq!(
        message(begin(true, "darwin", stamp(), &dest(""))),
        "macOS images are not supported; use a linux/* platform"
    );
    assert!(message(begin(true, "beos", stamp(), &dest(""))).starts_with("x: unknown variant"));
    assert_eq!(message(begin(true, "linux", Err(Error::other("no stamp")), &dest(""))), "no stamp");
    assert!(check_runnable_platform(&parse_config("x", &config_for("aix")).unwrap()).is_ok());
}

fn extraction(layers: usize, report: bool) -> Extraction {
    Extraction {
        reference: reference(),
        layers,
        digests: words(&["sha256:0123456789abcdef"]),
        report,
    }
}

/// Run to the end; layers and links are handled by the given outcomes.
fn materialize(
    image: Extraction,
    log: &mut Log,
    layer: impl Fn(usize) -> Result<(), LayerFailure>,
    links: Result<(), Error>,
) -> Result<Vec<String>, Error> {
    let mut links = Some(links);
    let (mut run, mut task) =
        MaterializeRun::begin(image, path("/b/rootfs"), "x\na\n".into(), log);
    loop {
        task = match task {
            UnpackTask::Measure(index) => run.measured(10 * index as u64, log),
            UnpackTask::Unpack(index) => run.unpacked(layer(index), log)?,
            UnpackTask::Finalize => run.finalized(links.take().unwrap())?,
            UnpackTask::Finish(steps) => return Ok(shown(&steps)),
        };
    }
}

#[test]
fn extraction_progress() {
    let mut log = Log(Vec::new());
    let end = materialize(extraction(2, true), &mut log, |_| Ok(()), Ok(())).unwrap();
    assert_eq!(end, ["write /b/rootfs/.rootfs-stamp x\na\n"]);
    assert_eq!(
        log.0,
        [
            "unpack docker.io/library/alpine:3.19 2",
            "0123456789ab: Extracting (1/2) 0/0",
            "0123456789ab: Extracting (1/2) 0/0",
            "0123456789ab: Pull complete",
            "000000000001: Extracting (2/2) 0/10",
            "000000000001: Extracting (2/2) 10/10",
            "000000000001: Pull complete",
        ]
    );
    let mut log = Log(Vec::new());
    materialize(extraction(2, false), &mut log, |_| Ok(()), Ok(())).unwrap();
    materialize(extraction(0, true), &mut log, |_| Ok(()), Ok(())).unwrap();
    assert!(log.0.is_empty());
}

#[test]
fn failed_extraction_leaves_no_fingerprint() {
    let mut log = Log(Vec::new());
    let bad = || Error::other("bad tar");
    let broken = |index| match index {
        0 => Ok(()),
        _ => Err(LayerFailure::Apply(bad())),
    };
    let err = materialize(extraction(3, true), &mut log, broken, Ok(())).unwrap_err();
    assert_eq!(err.message(), "failed to unpack layer 1: bad tar");
    assert_eq!(log.0.last().unwrap(), "000000000001: Extracting (2/3) 0/10");
    let unreadable = |_| Err(LayerFailure::Read(no_file()));
    let err = materialize(extraction(1, false), &mut log, unreadable, Ok(())).unwrap_err();
    assert!(err.is_not_found());
    let err = materialize(extraction(1, false), &mut log, |_| Ok(()), Err(bad())).unwrap_err();
    assert_eq!(err.message(), "failed to finalize rootfs links: bad tar");
}

// Exports

struct Events(Vec<String>);

impl BuildProgress for Events {
    fn on_event(&mut self, event: BuildEvent) {
        self.0.push(match event {
            BuildEvent::VertexStart { id, name } => format!("{id} start {name}"),
            BuildEvent::VertexStatus { id, status } => format!("{id} status {status}"),
            BuildEvent::VertexError { id, error, .. } => format!("{id} error {error}"),
            other => format!("{other:?}"),
        });
    }
}

#[test]
fn exports_report_their_layer() {
    let mut progress = ProgressEmitter::new(Events(Vec::new()));
    let id = export_start(&mut progress);
    let layer = ExportLayer::Bytes(b"hello".to_vec());
    let tags = words(&["a:1", "b:2"]);
    assert!(layer_ready(&mut progress, id, &tags, Ok(layer), Duration::ZERO).is_ok());
    let failed = Err(Error::other("disk full"));
    let err = layer_ready(&mut progress, id, &tags, failed, Duration::ZERO).unwrap_err();
    assert_eq!(err.message(), "disk full");
    assert_eq!(
        progress.reporter.0,
        [
            "1 start [internal] exporting to image",
            "1 status naming to a:1, b:2",
            "1 error disk full",
        ]
    );
}

#[test]
fn exporting_twice_writes_the_layer_once() {
    let store = LocalImageStore::new(path("/root"));
    let p = Platform::linux_amd64();
    let hello = "sha256:2cf24dba5fb0a30e26e83b2ac5b9e29e1b161e5c1fa7425e73043362938b9824";
    let none = ExportRun::new(ExportLayer::Bytes(Vec::new()), &meta(), &Vec::new(), &p, "x");
    assert_eq!(none.unwrap_err().message(), "build requires at least one tag");
    let layer = ExportLayer::Bytes(b"hello".to_vec());
    let tags = words(&["alpine:3.19", "alpine:3.19", "Bad Tag"]);
    let mut run = ExportRun::new(layer, &meta(), &tags, &p, "x").unwrap();
    assert_eq!(run.digest, hello);
    let r = run.next().unwrap().unwrap();
    let fresh = TagFacts {
        stored_digest: None,
        first_layer: false,
        exists_already: false,
    };
    let steps = shown(&run.put(&store, r, &fresh));
    assert_eq!(steps.len(), 6);
    assert_eq!(steps[1], format!("write {AT}/layers/0.tar.gz hello"));
    assert_eq!(steps[5], format!("write {AT}/digest {hello}"));
    let r = run.next().unwrap().unwrap();
    let there = TagFacts {
        stored_digest: Some(hello.into()),
        first_layer: true,
        exists_already: true,
    };
    let again = shown(&run.put(&store, r, &there));
    assert_eq!(again, [format!("write {AT}/config.json {}", run.config)]);
    assert!(matches!(run.next(), Err(Error::Reference(_))));

    let file = ExportLayer::File(path("/c/layer.tar.gz"), hello.into());
    let mut run = ExportRun::new(file, &meta(), &words(&["alpine:3.19"]), &p, "x").unwrap();
    let r = run.next().unwrap().unwrap();
    let steps = shown(&run.put(&store, r, &there_but_old()));
    assert_eq!(steps[0], format!("rmtree {AT}"));
    assert_eq!(steps[2], format!("copy /c/layer.tar.gz {AT}/layers/0.tar.gz"));
    assert!(run.next().unwrap().is_none());
}

fn there_but_old() -> TagFacts {
    TagFacts {
        stored_digest: Some("sha256:0".into()),
        first_layer: true,
        exists_already: true,
    }
}

#[test]
fn cached_images_have_config_and_layers() {
    assert!(is_cached(&found(false, true), &found(true, false)));
    assert!(!is_cached(&found(false, true), &Err(no_file())));
    assert!(!is_cached(&Err(no_file()), &found(true, false)));
    assert!(!is_cached(&found(false, true), &found(false, true)));
}

// Caches

fn found(dir: bool, file: bool) -> Result<FsMetadata, Error> {
    Ok(FsMetadata::new(dir, file, false, 1))
}

#[test]
fn snapshot_cache() {
    let (cache, steps) = FsCacheHandler::open(&path("/d"));
    assert_eq!(shown(&steps), ["mkdir /d/cache"]);
    assert_eq!(cache.root().to_text(), "/d/cache");
    assert!(FsCacheHandler::has(&found(false, true)));
    assert!(!FsCacheHandler::has(&Err(no_file())));
    let own = cache.resolve_rootfs("id", &None, &found(true, false)).unwrap();
    assert_eq!(own.to_text(), "/d/cache/id/rootfs");
    let from = FsCacheHandler::inherit_rootfs("parent", Some("root".into()));
    assert_eq!(from.as_deref(), Some("root"));
    assert_eq!(
        FsCacheHandler::inherit_rootfs("parent", None).as_deref(),
        Some("parent")
    );
    let err = cache.resolve_rootfs("id", &from, &Err(no_file())).unwrap_err();
    assert_eq!(
        err.message(),
        "corrupt build cache entry 'id': missing rootfs for 'root'"
    );
    assert!(FsCacheHandler::stores_rootfs("", false));
    assert!(!FsCacheHandler::stores_rootfs("p", false));
    assert_eq!(
        shown(&cache.save_begin("id", true, None, &path("/r"))),
        ["rmtree /d/cache/id", "mkdir /d/cache/id"]
    );
    assert_eq!(
        shown(&cache.save_end("id", "{}")),
        ["write /d/cache/id/meta.json {}"]
    );
    let digest = "sha256:2cf24dba5fb0a30e26e83b2ac5b9e29e1b161e5c1fa7425e73043362938b9824";
    assert_eq!(
        shown(&cache.write_layer_blob("id", b"hello".to_vec())),
        [
            "mkdir /d/cache/id".to_string(),
            "write /d/cache/id/layer.tar.gz hello".to_string(),
            format!("write /d/cache/id/layer.digest {digest}"),
        ]
    );
    assert_eq!(
        shown(&cache.clear(true)),
        ["rmtree /d/cache", "mkdir /d/cache"]
    );
    assert_eq!(
        cache.entry_unreadable("id", "no").message(),
        "build cache read '/d/cache/id/meta.json': no"
    );
    assert_eq!(LinuxCacheHandler::open(&path("/d")).0.inner.dir.to_text(), "/d/cache");
    assert_eq!(MacosCacheHandler::open(&path("/d")).0.inner.dir.to_text(), "/d/cache");
    assert_eq!(WindowsCacheHandler::open(&path("/d")).0.inner.dir.to_text(), "/d/cache");
}

#[test]
fn layer_cache_records() {
    let (cache, steps) = LayerCache::open(&path("/d"));
    assert_eq!(shown(&steps), ["mkdir /d/overlay2/l"]);
    assert!(LayerCache::has(&found(false, true), &found(false, true)));
    assert!(!LayerCache::has(&found(false, true), &Err(no_file())));
    assert_eq!(LayerCache::short_id("0123456789abcdef"), "0123456789ab");
    assert_eq!(LayerCache::stored_digest(Ok(" d\n".into())).unwrap(), "d");
    assert_eq!(
        LayerCache::stored_digest(Err("no".into())).unwrap_err().message(),
        "build cache layer digest: no"
    );
    assert_eq!(
        LayerCache::entry_invalid("no").message(),
        "build cache meta: no"
    );
    assert_eq!(
        cache.blob_unreadable("id", "no").message(),
        "build cache layer blob '/d/overlay2/id/layer.tar.gz': no"
    );
}

#[test]
fn builder_parts() {
    let store = LocalImageStore::new(path("/d"));
    let (kit, steps) = Buildkit::new("backend", store);
    assert_eq!(shown(&steps), ["mkdir /d/overlay2/l"]);
    assert_eq!(*kit.backend(), "backend");
    assert_eq!(kit.work_root().to_text(), "/d/work");
    assert_eq!(kit.cache().root().to_text(), "/d/overlay2");
    let (other, _) = LayerCache::open(&path("/e"));
    let kit = kit.with_cache(other).with_work_dir(path("/w"));
    assert_eq!(kit.work_root().to_text(), "/w");
    assert_eq!(kit.cache().root().to_text(), "/e/overlay2");
    assert_eq!(kit.store().root().to_text(), "/d");
}

// Small pieces

#[test]
fn removals() {
    assert_eq!(removal(found(true, false)).unwrap(), Removal::Tree);
    assert_eq!(removal(found(false, true)).unwrap(), Removal::File);
    let link = Ok(FsMetadata::new(true, false, true, 0));
    assert_eq!(removal(link).unwrap(), Removal::File);
    assert_eq!(removal(Err(no_file())).unwrap(), Removal::Nothing);
    let denied = Error::io("f", IoKind::Other, Some(13), "denied");
    assert_eq!(removal(Err(denied)).unwrap_err().raw_os_error(), Some(13));
    assert_eq!(way_removal(found(true, false)).unwrap(), Removal::Nothing);
    assert_eq!(way_removal(found(false, true)).unwrap(), Removal::File);
    let link = Ok(FsMetadata::new(true, false, true, 0));
    assert_eq!(way_removal(link).unwrap(), Removal::File);
    assert_eq!(way_removal(Err(no_file())).unwrap(), Removal::Nothing);
    let denied = Error::io("f", IoKind::Other, Some(13), "denied");
    assert_eq!(way_removal(Err(denied)).unwrap_err().raw_os_error(), Some(13));
    assert!(is_dir(&found(true, false)) && !is_dir(&Err(no_file())));
    assert!(is_file(&found(false, true)) && !is_file(&found(true, false)));
    assert!(is_present(&found(true, false)) && !is_present(&Err(no_file())));
    assert!(!is_symlink(&found(true, false)));
}

#[test]
fn names_are_sorted_by_bytes() {
    assert_eq!(
        sort(&words(&["b", "a", "ab", "\u{e9}", "B", "a"])),
        ["B", "a", "a", "ab", "b", "\u{e9}"]
    );
}

#[test]
fn printed_values() {
    assert_eq!(list_literal(&words(&["a\n\"b\"", "\u{7f}"])), "[\"a\\n\\\"b\\\"\", \"\\u{7f}\"]");
    assert_eq!(list_literal(&Vec::new()), "[]");
    assert_eq!(signed_number(i32::MIN), "-2147483648");
    assert_eq!(signed_number(0), "0");
}
