//! Plans carried out on a filesystem in memory.

use std::collections::BTreeMap;
use std::io::Write;
use std::time::Duration;

use buildkit::archive::pack_rootfs;
use buildkit::backend::{run_outcome, NetworkMode, RunResult};
use buildkit::cache::Source;
use buildkit::context::BuildContext;
use buildkit::copying::FetchFailure;
use buildkit::dockerfile::{ArgDecl, Command, Dockerfile, Flag, Heredoc, Instruction, Pair, Stage};
use buildkit::error::{Error, IoKind};
use buildkit::executor::{plan_build, CachedLayer};
use buildkit::export::{
    build_finished, export_done, export_source, export_start, layer_ready, work_dir, ExportLayer,
    ExportRun, ExportSource, TagFacts,
};
use buildkit::fs::{clear_directory, removal, way_removal, FsDirEntry, FsMetadata, FsOp, Removal, Step};
use buildkit::layer_cache::{LayerCache, LowerLink};
use buildkit::merge::{MergeRun, MergeTask};
use buildkit::meta::ImageMeta;
use buildkit::path::HostPath;
use buildkit::platform::Platform;
use buildkit::progress::{BuildEvent, BuildProgress, ProgressEmitter};
use buildkit::request::{BuildRequest, BuildResult};
use buildkit::rootfs::rewrite_absolute_symlinks;
use buildkit::solve::{is_countable, Phase, Solve, Task};
use buildkit::stage::Work;
use buildkit::store::LocalImageStore;
use buildkit::transfer::{copy_error, Transfer, TransferTask};
use buildkit::tree::{Entry, Node};
use buildkit::unpack::{
    apply_layer, collect_sidecar_links, forget_links, try_symlink, LinkAction, LinkFacts, LinkRun,
    PendingLink,
};
use buildkit::winpath::{encode_component, Host};

#[derive(Clone, Debug, PartialEq)]
enum Item {
    Dir,
    File(Vec<u8>),
    Link(Vec<u8>),
}

/// A filesystem in memory; links are refused where `no_links` is set.
struct Disk {
    items: BTreeMap<String, Item>,
    no_links: bool,
}

fn missing(path: &str) -> Error {
    Error::io(path, IoKind::NotFound, Some(2), "no such file")
}

impl Disk {
    fn new() -> Self {
        Disk {
            items: BTreeMap::new(),
            no_links: false,
        }
    }

    fn create_dir_all(&mut self, path: &HostPath) {
        let mut at = path.copy();
        loop {
            self.items.entry(at.to_text()).or_insert(Item::Dir);
            if !at.pop() || at.parts.is_empty() {
                break;
            }
        }
    }

    fn parent_of(path: &str) -> String {
        let cut = path.rfind('/').unwrap_or(0);
        path[..cut].to_string()
    }

    /// Where the path leads to once the link at its end is followed.
    fn followed(&self, path: &str) -> Option<(String, &Item)> {
        let mut at = path.to_string();
        for _ in 0..8 {
            match self.items.get(&at) {
                Some(Item::Link(target)) => {
                    let target = String::from_utf8_lossy(target);
                    at = HostPath::parse(&Disk::parent_of(&at)).join_text(&target).to_text();
                }
                Some(item) => return Some((at, item)),
                None => return None,
            }
        }
        None
    }

    fn is_dir(&self, path: &str) -> bool {
        matches!(self.followed(path), Some((_, Item::Dir)))
    }

    fn is_file(&self, path: &str) -> bool {
        matches!(self.followed(path), Some((_, Item::File(_))))
    }

    fn there(&self, path: &str) -> bool {
        self.items.contains_key(path)
    }

    fn read(&self, path: &str) -> Option<Vec<u8>> {
        match self.followed(path) {
            Some((_, Item::File(data))) => Some(data.clone()),
            _ => None,
        }
    }

    fn text(&self, path: &str) -> Option<String> {
        self.read(path).map(|d| String::from_utf8(d).unwrap())
    }

    fn metadata(&self, path: &str, follow: bool) -> Result<FsMetadata, Error> {
        let item = if follow {
            self.followed(path).map(|(_, item)| item)
        } else {
            self.items.get(path)
        };
        match item {
            Some(Item::Dir) => Ok(FsMetadata::new(true, false, false, 0)),
            Some(Item::File(d)) => Ok(FsMetadata::new(false, true, false, d.len() as u64)),
            Some(Item::Link(_)) => Ok(FsMetadata::new(false, false, true, 0)),
            None => Err(missing(path)),
        }
    }

    fn names(&self, dir: &str) -> Vec<String> {
        let start = format!("{dir}/");
        self.items
            .keys()
            .filter_map(|k| k.strip_prefix(&start))
            .filter(|rest| !rest.contains('/'))
            .map(|rest| rest.to_string())
            .collect()
    }

    fn entries(&self, dir: &str) -> Vec<Entry> {
        self.names(dir)
            .into_iter()
            .map(|name| {
                let path = format!("{dir}/{name}");
                let node = match &self.items[&path] {
                    Item::Dir => Node::Dir {
                        entries: self.entries(&path),
                    },
                    Item::File(data) => Node::File { data: data.clone() },
                    Item::Link(target) => Node::Link {
                        target: target.clone(),
                    },
                };
                Entry { name, node }
            })
            .collect()
    }

    fn node(&self, path: &str) -> Node {
        match self.followed(path) {
            Some((at, Item::Dir)) => Node::Dir {
                entries: self.entries(&at),
            },
            Some((_, Item::File(data))) => Node::File { data: data.clone() },
            _ => Node::Other,
        }
    }

    /// What stands below a directory, by the path from there.
    fn below(&self, dir: &str) -> Vec<(String, Item)> {
        let start = format!("{dir}/");
        self.items
            .iter()
            .filter_map(|(k, item)| Some((k.strip_prefix(&start)?.to_string(), item.clone())))
            .collect()
    }

    fn remove_tree(&mut self, path: &str) {
        let start = format!("{path}/");
        self.items.retain(|k, _| k != path && !k.starts_with(&start));
    }

    fn symlink(&mut self, target: impl AsRef<[u8]>, path: &str) -> Result<(), Error> {
        if self.no_links {
            return Err(Error::io(path, IoKind::Other, Some(1314), "privilege not held"));
        }
        if self.there(path) {
            return Err(Error::io(path, IoKind::AlreadyExists, Some(17), "exists"));
        }
        self.items.insert(path.to_string(), Item::Link(target.as_ref().to_vec()));
        Ok(())
    }

    fn op(&mut self, op: &FsOp) -> Result<(), Error> {
        match op {
            FsOp::CreateDirAll(p) => {
                self.create_dir_all(p);
                if !self.is_dir(&p.to_text()) {
                    let path = p.to_text();
                    return Err(Error::io(&path, IoKind::AlreadyExists, Some(17), "exists"));
                }
            }
            FsOp::RemoveDirAll(p) => {
                if !self.there(&p.to_text()) {
                    return Err(missing(&p.to_text()));
                }
                self.remove_tree(&p.to_text());
            }
            FsOp::RemoveDir(p) => {
                if !self.there(&p.to_text()) || !self.names(&p.to_text()).is_empty() {
                    return Err(missing(&p.to_text()));
                }
                self.remove_tree(&p.to_text());
            }
            FsOp::RemoveFile(p) => {
                if self.items.remove(&p.to_text()).is_none() {
                    return Err(missing(&p.to_text()));
                }
            }
            FsOp::Remove(p) => {
                let path = p.to_text();
                match removal(self.metadata(&path, false))? {
                    Removal::Nothing => {}
                    Removal::Tree => self.remove_tree(&path),
                    Removal::File => {
                        self.items.remove(&path);
                    }
                }
            }
            FsOp::MakeWay(p) => {
                let path = p.to_text();
                match way_removal(self.metadata(&path, false))? {
                    Removal::Nothing => {}
                    Removal::Tree => self.remove_tree(&path),
                    Removal::File => {
                        self.items.remove(&path);
                    }
                }
            }
            FsOp::ClearDirectory(p) => {
                let dir = p.to_text();
                let entries: Vec<FsDirEntry> = self
                    .names(&dir)
                    .into_iter()
                    .map(|name| {
                        let item = &self.items[&format!("{dir}/{name}")];
                        FsDirEntry {
                            path: p.join(&name),
                            is_dir: matches!(item, Item::Dir),
                            is_file: matches!(item, Item::File(_)),
                            is_symlink: matches!(item, Item::Link(_)),
                            name,
                        }
                    })
                    .collect();
                self.perform(&clear_directory(&entries))?;
            }
            FsOp::Write(p, data) => {
                let path = p.to_text();
                if !self.is_dir(&Disk::parent_of(&path)) {
                    return Err(missing(&path));
                }
                self.items.insert(path, Item::File(data.clone()));
            }
            FsOp::Copy(a, b) => {
                let data = self.read(&a.to_text()).ok_or_else(|| missing(&a.to_text()))?;
                let to = match self.followed(&b.to_text()) {
                    Some((_, Item::Dir)) => {
                        let path = b.to_text();
                        return Err(Error::io(&path, IoKind::Other, Some(21), "is a directory"));
                    }
                    Some((at, _)) => at,
                    None => b.to_text(),
                };
                self.items.insert(to, Item::File(data));
            }
            FsOp::Symlink(target, p) => self.symlink(target, &p.to_text())?,
            FsOp::SetPermissions(..) | FsOp::SetVirtualOwner(..) => {}
        }
        Ok(())
    }

    fn perform(&mut self, steps: &[Step]) -> Result<(), Error> {
        for step in steps {
            match self.op(&step.op) {
                Err(e) if step.required => return Err(e),
                _ => {}
            }
        }
        Ok(())
    }

    fn resolve_links(&mut self, host: Host, rootfs: &HostPath, pending: Vec<PendingLink>) {
        let mut run = LinkRun::new(host, rootfs.copy(), pending);
        let mut action = run.next();
        loop {
            action = match action {
                LinkAction::Look { dest, resolved } => {
                    let dest = dest.to_text();
                    run.looked(LinkFacts {
                        dest_exists: self.there(&dest),
                        dest_is_dir: self.is_dir(&dest),
                        dest_is_empty: self.is_dir(&dest) && self.names(&dest).is_empty(),
                        target_is_dir: self.is_dir(&resolved.to_text()),
                    })
                }
                LinkAction::Find { steps, resolved } => {
                    self.perform(&steps).unwrap();
                    let resolved = resolved.to_text();
                    run.found(self.is_file(&resolved), self.is_dir(&resolved))
                }
                LinkAction::Link { steps, target, dest } => {
                    self.perform(&steps).unwrap();
                    let attempt = self.symlink(&target, &dest.to_text());
                    run.linked(attempt).unwrap()
                }
                LinkAction::Join { .. } => run.joined(Ok(false)).unwrap(),
                LinkAction::Settle(steps) => {
                    self.perform(&steps).unwrap();
                    run.next()
                }
                LinkAction::Finish(steps) => {
                    self.perform(&steps).unwrap();
                    return;
                }
            };
        }
    }

    fn apply(&mut self, host: Host, rootfs: &str, layer: &[u8]) -> Result<(), Error> {
        let rootfs = HostPath::parse(rootfs);
        let plan = apply_layer(host, &rootfs, layer);
        let mut pending = Vec::new();
        for entry in plan.entries {
            self.perform(&entry.steps)?;
            if let Some(link) = entry.link {
                let attempt = self.symlink(&link.target, &link.dest.to_text());
                if !try_symlink(attempt)? {
                    pending.push(link);
                }
            }
        }
        if let Some(failure) = plan.failure {
            return Err(failure);
        }
        self.resolve_links(host, &rootfs, pending);
        Ok(())
    }

    fn finalize(&mut self, host: Host, rootfs: &str) {
        let root = HostPath::parse(rootfs);
        let mut pending = Vec::new();
        collect_sidecar_links(&self.entries(rootfs), &root, &mut pending).unwrap();
        self.perform(&forget_links(&pending)).unwrap();
        self.resolve_links(host, &root, pending);
        let entries = self.entries(rootfs);
        self.perform(&rewrite_absolute_symlinks(host, &root, &entries)).unwrap();
    }

    fn put(&mut self, path: &str, data: &[u8]) {
        self.create_dir_all(&HostPath::parse(&Disk::parent_of(path)));
        self.items.insert(path.to_string(), Item::File(data.to_vec()));
    }
}

fn gzip_tar<F: FnOnce(&mut tar::Builder<Vec<u8>>)>(build: F) -> Vec<u8> {
    let mut tar = tar::Builder::new(Vec::new());
    build(&mut tar);
    let inner = tar.into_inner().unwrap();
    let mut enc = flate2::write::GzEncoder::new(Vec::new(), flate2::Compression::default());
    enc.write_all(&inner).unwrap();
    enc.finish().unwrap()
}

#[test]
fn applies_regular_file() {
    let layer = gzip_tar(|tar| {
        let data = b"hello".as_slice();
        let mut header = tar::Header::new_gnu();
        header.set_path("hello.txt").unwrap();
        header.set_size(5);
        header.set_cksum();
        tar.append(&header, data).unwrap();
    });
    let mut disk = Disk::new();
    disk.create_dir_all(&HostPath::parse("/dir"));
    disk.apply(Host::Posix, "/dir", &layer).unwrap();
    assert_eq!(disk.text("/dir/hello.txt").unwrap(), "hello");
}

#[test]
fn whiteout_removes_file() {
    let layer = gzip_tar(|tar| {
        let mut header = tar::Header::new_gnu();
        header.set_path("dir/.wh.remove-me").unwrap();
        header.set_size(0);
        header.set_cksum();
        tar.append(&header, &[] as &[u8]).unwrap();
    });
    let mut disk = Disk::new();
    disk.put("/root/dir/remove-me", b"x");
    disk.put("/root/dir/keep-me", b"y");
    disk.apply(Host::Posix, "/root", &layer).unwrap();
    assert!(!disk.there("/root/dir/remove-me"));
    assert!(disk.there("/root/dir/keep-me"));
}

#[test]
fn opaque_whiteout_clears_directory() {
    let layer = gzip_tar(|tar| {
        let mut header = tar::Header::new_gnu();
        header.set_path("dir/.wh..wh..opq").unwrap();
        header.set_size(0);
        header.set_cksum();
        tar.append(&header, &[] as &[u8]).unwrap();
    });
    let mut disk = Disk::new();
    disk.put("/root/dir/a", b"x");
    disk.put("/root/dir/sub/b", b"y");
    disk.put("/root/other", b"z");
    disk.apply(Host::Posix, "/root", &layer).unwrap();
    assert!(disk.is_dir("/root/dir"));
    assert!(disk.names("/root/dir").is_empty());
    assert!(disk.there("/root/other"));
}

fn busybox_layer() -> Vec<u8> {
    gzip_tar(|tar| {
        let data = b"busybox".as_slice();
        let mut header = tar::Header::new_gnu();
        header.set_path("bin/busybox").unwrap();
        header.set_size(7);
        header.set_mode(0o755);
        header.set_cksum();
        tar.append(&header, data).unwrap();

        let mut link = tar::Header::new_gnu();
        link.set_path("bin/sh").unwrap();
        link.set_entry_type(tar::EntryType::Symlink);
        link.set_size(0);
        link.set_link_name("busybox").unwrap();
        link.set_cksum();
        tar.append(&link, &[] as &[u8]).unwrap();
    })
}

#[test]
fn symlink_falls_back_to_copy() {
    for no_links in [false, true] {
        let mut disk = Disk::new();
        disk.no_links = no_links;
        disk.create_dir_all(&HostPath::parse("/root"));
        disk.apply(Host::Posix, "/root", &busybox_layer()).unwrap();
        assert!(disk.is_file("/root/bin/busybox"));
        assert!(
            disk.is_file("/root/bin/sh"),
            "bin/sh should exist as symlink or copied file"
        );
        let expected = if no_links {
            Item::File(b"busybox".to_vec())
        } else {
            Item::Link("busybox".into())
        };
        assert_eq!(disk.items["/root/bin/sh"], expected);
    }
}

#[test]
fn unresolved_link_becomes_sidecar() {
    let layer = gzip_tar(|tar| {
        let mut link = tar::Header::new_gnu();
        link.set_path("bin/sh").unwrap();
        link.set_entry_type(tar::EntryType::Symlink);
        link.set_size(0);
        link.set_link_name("/bin/busybox").unwrap();
        link.set_cksum();
        tar.append(&link, &[] as &[u8]).unwrap();
    });
    let mut disk = Disk::new();
    disk.no_links = true;
    disk.create_dir_all(&HostPath::parse("/root"));
    disk.apply(Host::Windows, "/root", &layer).unwrap();
    assert_eq!(disk.text("/root/bin/sh.buildkit-symlink").unwrap(), "/bin/busybox");

    disk.put("/root/bin/busybox", b"busybox");
    disk.finalize(Host::Windows, "/root");
    assert!(!disk.there("/root/bin/sh.buildkit-symlink"));
    assert_eq!(disk.text("/root/bin/sh").unwrap(), "busybox");
}

#[test]
fn finalize_skips_absolute_symlinks() {
    let mut disk = Disk::new();
    disk.put("/etc/ssl/private/host.buildkit-symlink", b"outside");
    disk.put("/root/etc/ssl/private/secret", b"x");
    disk.create_dir_all(&HostPath::parse("/root/lib/ssl"));
    disk.symlink("/etc/ssl/private", "/root/lib/ssl/private").unwrap();
    disk.put("/root/pending.buildkit-symlink", b"etc/ssl/private/secret");
    disk.finalize(Host::Posix, "/root");
    assert!(
        !disk.there("/root/pending.buildkit-symlink"),
        "sidecar should be consumed"
    );
    assert!(
        disk.is_file("/root/pending"),
        "deferred link should resolve inside the rootfs"
    );
    assert!(disk.there("/etc/ssl/private/host.buildkit-symlink"));
    assert_eq!(
        disk.items["/root/lib/ssl/private"],
        Item::Link("../../etc/ssl/private".into())
    );
}

#[test]
fn applies_windows_illegal_colon_name() {
    let layer = gzip_tar(|tar| {
        let data = b"ok".as_slice();
        let mut header = tar::Header::new_gnu();
        header
            .set_path("var/lib/dpkg/info/libapr1:amd64.list")
            .unwrap();
        header.set_size(2);
        header.set_mode(0o644);
        header.set_cksum();
        tar.append(&header, data).unwrap();
    });
    let mut disk = Disk::new();
    disk.create_dir_all(&HostPath::parse("/root"));
    disk.apply(Host::Windows, "/root", &layer).unwrap();
    let enc = encode_component(Host::Windows, "libapr1:amd64.list");
    let path = format!("/root/var/lib/dpkg/info/{enc}");
    assert!(disk.is_file(&path), "expected encoded file at {path}");
    assert_eq!(disk.text(&path).unwrap(), "ok");

    disk.apply(Host::Posix, "/root", &layer).unwrap();
    assert_eq!(
        disk.text("/root/var/lib/dpkg/info/libapr1:amd64.list").unwrap(),
        "ok"
    );
}

#[test]
fn escaping_entries_are_skipped() {
    let layer = gzip_tar(|tar| {
        for name in ["../out", "a/../../out", "ok"] {
            let mut header = tar::Header::new_gnu();
            header.as_gnu_mut().unwrap().name[..name.len()].copy_from_slice(name.as_bytes());
            header.set_size(1);
            header.set_cksum();
            tar.append(&header, b"x".as_slice()).unwrap();
        }
    });
    let mut disk = Disk::new();
    disk.create_dir_all(&HostPath::parse("/top/root"));
    disk.apply(Host::Posix, "/top/root", &layer).unwrap();
    assert!(disk.is_file("/top/root/ok"));
    assert!(!disk.there("/top/out"));
    assert_eq!(disk.names("/top"), ["root"]);
}

#[test]
fn rewritten_links_stay_in_the_rootfs() {
    let root = HostPath::parse("/top/root");
    for (target, expected) in [
        ("/lib/x", "../lib/x"),
        ("/../../lib/x", "../lib/x"),
        ("/a/../..\\../y", "../y"),
        ("/", ".."),
    ] {
        let link = Entry {
            name: "l".into(),
            node: Node::Link {
                target: target.into(),
            },
        };
        let dir = Entry {
            name: "bin".into(),
            node: Node::Dir {
                entries: vec![link],
            },
        };
        let steps = rewrite_absolute_symlinks(Host::Posix, &root, &vec![dir]);
        assert_eq!(steps.len(), 2);
        assert!(matches!(&steps[1].op, FsOp::Symlink(t, _) if t == expected.as_bytes()), "{target}");
    }
}

/// A layer with one entry, whose fields are given as bytes.
fn one_entry(name: &[u8], flag: u8, link: &[u8], data: &[u8]) -> Vec<u8> {
    gzip_tar(|tar| {
        let mut header = tar::Header::new_gnu();
        let fields = header.as_gnu_mut().unwrap();
        fields.name[..name.len()].copy_from_slice(name);
        fields.linkname[..link.len()].copy_from_slice(link);
        header.set_entry_type(tar::EntryType::new(flag));
        header.set_size(data.len() as u64);
        header.set_mode(0o644);
        header.set_cksum();
        tar.append(&header, data).unwrap();
    })
}

#[test]
fn backslashes_separate_on_windows_alone() {
    let layer = one_entry(b"a\\..\\b", b'0', b"", b"x");
    let mut disk = Disk::new();
    disk.create_dir_all(&HostPath::parse("/root"));
    disk.apply(Host::Windows, "/root", &layer).unwrap();
    assert!(disk.names("/root").is_empty());
    disk.apply(Host::Posix, "/root", &layer).unwrap();
    assert_eq!(disk.text("/root/b").unwrap(), "x");
}

#[test]
fn link_targets_keep_their_bytes() {
    let layer = one_entry(b"l", b'2', b"t\xff", b"");
    let mut disk = Disk::new();
    disk.create_dir_all(&HostPath::parse("/root"));
    disk.apply(Host::Posix, "/root", &layer).unwrap();
    assert_eq!(disk.items["/root/l"], Item::Link(b"t\xff".to_vec()));
    disk.finalize(Host::Posix, "/root");
    assert_eq!(disk.items["/root/l"], Item::Link(b"t\xff".to_vec()));
    let steps = buildkit::fs::copy_tree(
        &disk.entries("/root"),
        &HostPath::parse("/root"),
        &HostPath::parse("/copy"),
    );
    disk.perform(&steps).unwrap();
    assert_eq!(disk.items["/copy/l"], Item::Link(b"t\xff".to_vec()));

    disk.no_links = true;
    disk.create_dir_all(&HostPath::parse("/other"));
    disk.apply(Host::Posix, "/other", &layer).unwrap();
    assert_eq!(disk.text("/other/l.buildkit-symlink").unwrap(), "t\u{fffd}");
}

#[test]
fn paths_on_windows_are_unicode() {
    let message = "only Unicode paths are supported on Windows: d/n\u{fffd}";
    let mut disk = Disk::new();
    disk.create_dir_all(&HostPath::parse("/root"));
    let name = one_entry(b"d/n\xff", b'0', b"", b"x");
    let err = disk.apply(Host::Windows, "/root", &name).unwrap_err();
    assert_eq!(err.reason(), message);
    assert!(disk.names("/root").is_empty());
    let link = one_entry(b"d/l", b'2', b"d/n\xff", b"");
    let err = disk.apply(Host::Windows, "/root", &link).unwrap_err();
    assert_eq!(err.reason(), message);
    assert_eq!(disk.names("/root"), ["d"]);
    assert!(disk.names("/root/d").is_empty());
    disk.apply(Host::Posix, "/root", &name).unwrap();
    assert_eq!(disk.text("/root/d/n\u{fffd}").unwrap(), "x");
}

#[test]
fn broken_entry_is_begun() {
    let data: Vec<u8> = (0..200_000u32).flat_map(|i| i.wrapping_mul(i).to_le_bytes()).collect();
    let mut layer = one_entry(b"d/file", b'0', b"", &data);
    layer.truncate(layer.len() / 2);
    let plan = apply_layer(Host::Posix, &HostPath::parse("/root"), &layer);
    assert!(plan.failure.is_some());
    assert_eq!(plan.entries.len(), 1);
    assert_eq!(plan.entries[0].steps.len(), 3);
    let mut disk = Disk::new();
    disk.create_dir_all(&HostPath::parse("/root"));
    disk.apply(Host::Posix, "/root", &layer).unwrap_err();
    let begun = disk.read("/root/d/file").unwrap();
    assert!(!begun.is_empty() && begun.len() < data.len());
    assert!(data.starts_with(&begun));

    let mut layer = one_entry(b"dir/", b'5', b"", &data);
    layer.truncate(layer.len() / 2);
    disk.apply(Host::Posix, "/root", &layer).unwrap_err();
    assert!(disk.is_dir("/root/dir"));
}

#[test]
fn broken_layer_is_reported_after_its_good_entries() {
    let mut layer = busybox_layer();
    layer.truncate(10);
    let mut disk = Disk::new();
    disk.create_dir_all(&HostPath::parse("/root"));
    let err = disk.apply(Host::Posix, "/root", &layer).unwrap_err();
    assert!(matches!(err, Error::Io { path, .. } if path == "<io>"));
}

#[test]
fn packed_rootfs_unpacks_again() {
    let mut disk = Disk::new();
    let long = "d".repeat(60);
    disk.put(&format!("/from/{long}/{long}/file"), b"deep");
    disk.put("/from/etc/hosts", b"localhost");
    disk.create_dir_all(&HostPath::parse("/from/empty"));
    disk.symlink("hosts", "/from/etc/link").unwrap();
    let bytes = pack_rootfs(&disk.entries("/from")).unwrap();
    disk.create_dir_all(&HostPath::parse("/to"));
    disk.apply(Host::Posix, "/to", &bytes).unwrap();
    assert_eq!(disk.text(&format!("/to/{long}/{long}/file")).unwrap(), "deep");
    assert_eq!(disk.text("/to/etc/hosts").unwrap(), "localhost");
    assert!(disk.is_dir("/to/empty"));
    assert!(!disk.there("/to/etc/link"));
}

#[test]
fn names_that_no_layer_can_hold_are_reported() {
    let bad = "a\0b".to_string();
    let file = Entry {
        name: bad.clone(),
        node: Node::File { data: Vec::new() },
    };
    let message = pack_rootfs(&vec![file]).unwrap_err().message();
    assert!(message.starts_with("tar file: "), "{message}");
    let dir = Entry {
        name: bad,
        node: Node::Dir {
            entries: Vec::new(),
        },
    };
    let message = pack_rootfs(&vec![dir]).unwrap_err().message();
    assert!(message.starts_with("tar dir: "), "{message}");
}

/// The layer cache on a disk.
struct Cached<'a> {
    disk: &'a mut Disk,
    cache: LayerCache,
}

impl<'a> Cached<'a> {
    fn open(disk: &'a mut Disk, root: &str) -> Self {
        let (cache, steps) = LayerCache::open(&HostPath::parse(root));
        disk.perform(&steps).unwrap();
        Cached { disk, cache }
    }

    fn has(&self, id: &str) -> bool {
        let committed = self.cache.layer_file(id, "committed").to_text();
        let meta = self.cache.layer_file(id, "meta.json").to_text();
        LayerCache::has(
            &self.disk.metadata(&committed, true),
            &self.disk.metadata(&meta, true),
        )
    }

    fn resolve(&mut self, id: &str) -> String {
        let merged = self.cache.merged_dir(id);
        let text = merged.to_text();
        let committed = self.cache.layer_file(id, "committed").to_text();
        if LayerCache::merged_is_ready(
            &self.disk.metadata(&text, true),
            &self.disk.metadata(&committed, true),
        ) {
            return text;
        }
        let exists = self.disk.there(&text);
        let (mut run, mut task) = MergeRun::begin(&self.cache, id, exists);
        loop {
            task = match task {
                MergeTask::Prepare(steps) => {
                    self.disk.perform(&steps).unwrap();
                    let lower = self.disk.text(&self.cache.layer_file(id, "lower").to_text());
                    run.prepared(&lower.unwrap_or_default())
                }
                MergeTask::Link(spec) => {
                    let path = self.cache.lower_link(&spec).to_text();
                    let link = match self.disk.items.get(&path) {
                        Some(Item::Link(target)) => LowerLink::Symlink(String::from_utf8(target.clone()).unwrap()),
                        Some(Item::File(data)) => {
                            LowerLink::File(String::from_utf8(data.clone()).unwrap())
                        }
                        _ => LowerLink::Missing,
                    };
                    run.linked(&link).unwrap()
                }
                MergeTask::Read(path) => {
                    let path = path.to_text();
                    let entries = self.disk.entries(&path);
                    run.read(if self.disk.there(&path) { Some(&entries) } else { None })
                }
                MergeTask::Apply(steps) => {
                    self.disk.perform(&steps).unwrap();
                    run.applied()
                }
                MergeTask::Done => return text,
            };
        }
    }

    fn save(&mut self, host: Host, id: &str, parent: &str, rootfs: &str, fs_changed: bool) {
        let lower = LayerCache::parent_lower(
            parent,
            self.disk.text(&self.cache.layer_file(parent, "link").to_text()),
            self.disk.text(&self.cache.layer_file(parent, "lower").to_text()),
        );
        let dir_exists = self.disk.there(&self.cache.layer_dir(id).to_text());
        let link = format!("{}/l/{}", self.cache.root().to_text(), LayerCache::short_id(id));
        let link_exists = self.disk.there(&link);
        let steps = self.cache.save_begin(host, id, &lower, dir_exists, link_exists);
        self.disk.perform(&steps).unwrap();
        if LayerCache::stores_changeset(parent, fs_changed) {
            let below = if parent.is_empty() {
                None
            } else {
                let merged = self.resolve(parent);
                Some(self.disk.entries(&merged))
            };
            let current = self.disk.entries(rootfs);
            let steps =
                self.cache
                    .save_diff(id, below.as_ref(), &current, &HostPath::parse(rootfs));
            self.disk.perform(&steps).unwrap();
        }
        let steps = self.cache.save_end(id, "{}");
        self.disk.perform(&steps).unwrap();
    }
}

#[test]
fn overlay2_save_and_has() {
    for host in [Host::Posix, Host::Windows] {
        let mut disk = Disk::new();
        disk.put("/data/stage-rootfs/hello.txt", b"hi");
        disk.put("/data/stage-child/hello.txt", b"hi");
        disk.put("/data/stage-child/extra.txt", b"x");
        let mut cache = Cached::open(&mut disk, "/data");
        assert!(!cache.has("abc"));

        cache.save(host, "abc", "", "/data/stage-rootfs", true);
        assert!(cache.has("abc"));
        let merged = cache.resolve("abc");
        assert!(cache.disk.is_file(&format!("{merged}/hello.txt")));

        cache.save(host, "def", "abc", "/data/stage-child", true);
        let merged = cache.resolve("def");
        assert!(cache.disk.is_file(&format!("{merged}/hello.txt")));
        assert!(cache.disk.is_file(&format!("{merged}/extra.txt")));
        assert!(disk.is_file("/data/overlay2/def/diff/extra.txt"));
        assert!(!disk.there("/data/overlay2/def/diff/hello.txt"));
    }
}

#[test]
fn overlay2_resolves_changed_and_removed_entries() {
    let mut disk = Disk::new();
    disk.put("/base/etc/hosts", b"one");
    disk.put("/base/etc/gone", b"x");
    disk.put("/base/tmp/dir/file", b"y");
    disk.put("/base/same/file", b"z");
    disk.put("/next/etc/hosts", b"two");
    disk.put("/next/tmp/dir", b"now a file");
    disk.put("/next/same/file", b"z");
    disk.symlink("etc/hosts", "/next/link").unwrap();
    let mut cache = Cached::open(&mut disk, "/data");
    cache.save(Host::Posix, "one", "", "/base", true);
    cache.save(Host::Posix, "two", "one", "/next", true);
    cache.save(Host::Posix, "three", "two", "/next", false);
    for id in ["two", "three"] {
        let merged = cache.resolve(id);
        let disk = &mut *cache.disk;
        assert_eq!(disk.text(&format!("{merged}/etc/hosts")).unwrap(), "two");
        assert!(!disk.there(&format!("{merged}/etc/gone")));
        assert_eq!(disk.text(&format!("{merged}/same/file")).unwrap(), "z");
        assert_eq!(
            disk.items[&format!("{merged}/link")],
            Item::Link("etc/hosts".into())
        );
    }
    assert!(disk.there("/data/overlay2/two/diff/etc/.wh.gone"));
    assert!(!disk.there("/data/overlay2/two/diff/same"));
    assert!(disk.names("/data/overlay2/three/diff").is_empty());
    assert_eq!(disk.text("/data/overlay2/three/lower").unwrap(), "l/two:l/one");
}

#[test]
fn overlay2_drops_the_packed_blob_of_an_earlier_save() {
    let mut disk = Disk::new();
    disk.put("/base/a", b"one");
    let mut cache = Cached::open(&mut disk, "/data");
    cache.save(Host::Posix, "abc", "", "/base", true);
    let steps = cache.cache.write_layer_blob("abc", b"blob".to_vec());
    cache.disk.perform(&steps).unwrap();
    cache.save(Host::Posix, "abc", "", "/base", true);
    assert!(!disk.there("/data/overlay2/abc/layer.tar.gz"));
    assert!(!disk.there("/data/overlay2/abc/layer.digest"));
}

#[test]
fn overlay2_resolves_names_of_another_kind() {
    let mut disk = Disk::new();
    disk.put("/base/dir_to_file/x", b"1");
    disk.put("/base/file_to_dir", b"2");
    disk.put("/base/dir_to_link/x", b"3");
    disk.put("/base/target", b"4");
    disk.symlink("target", "/base/link_to_file").unwrap();
    disk.symlink("deep", "/base/link_to_dir").unwrap();
    disk.put("/base/deep/kept", b"5");
    disk.put("/base/file_to_link", b"6");
    disk.put("/next/dir_to_file", b"a");
    disk.put("/next/file_to_dir/y", b"b");
    disk.symlink("target", "/next/dir_to_link").unwrap();
    disk.put("/next/target", b"4");
    disk.put("/next/link_to_file", b"c");
    disk.put("/next/link_to_dir/z", b"d");
    disk.put("/next/deep/kept", b"5");
    disk.symlink("target", "/next/file_to_link").unwrap();
    let mut cache = Cached::open(&mut disk, "/data");
    cache.save(Host::Posix, "one", "", "/base", true);
    cache.save(Host::Posix, "two", "one", "/next", true);
    cache.save(Host::Posix, "three", "two", "/base", true);
    for (id, saved) in [("one", "/base"), ("two", "/next"), ("three", "/base")] {
        let merged = cache.resolve(id);
        assert_eq!(cache.disk.below(&merged), cache.disk.below(saved), "{id}");
    }
}

/// Keeps the events of a build.
#[derive(Default)]
struct Recorder {
    lines: Vec<String>,
}

impl BuildProgress for Recorder {
    fn on_event(&mut self, event: BuildEvent) {
        let line = match event {
            BuildEvent::BuildStart { builder } => format!("start {builder}"),
            BuildEvent::VertexStart { id, name } => format!("{id} {name}"),
            BuildEvent::VertexStatus { id, status } => format!("{id} ... {status}"),
            BuildEvent::VertexLog { id, line } => format!("{id} | {line}"),
            BuildEvent::VertexDone { id, cached, .. } => format!("{id} done {cached}"),
            BuildEvent::VertexError { id, error, .. } => format!("{id} failed {error}"),
            BuildEvent::Exporting => "exporting".into(),
            BuildEvent::Finished { image_ids } => format!("finished {}", image_ids.join(" ")),
        };
        self.lines.push(line);
    }
}

/// Carry out a transfer; an address ends with what its body is.
fn transfer(disk: &mut Disk, mut run: Transfer, mut task: TransferTask) -> Result<(), Error> {
    let rules = disk.text("/ctx/.dockerignore");
    let context = BuildContext::open(HostPath::parse("/ctx"), true, None, rules)?;
    loop {
        task = match task {
            TransferTask::Look => run.looked(disk.is_dir(&run.dest.to_text()))?,
            TransferTask::Fetch { steps, url } => {
                disk.perform(&steps)?;
                run.fetched(match url.strip_prefix("http://gone/") {
                    Some(_) => Err(FetchFailure::Status("404 Not Found".into())),
                    None => Ok(url.as_bytes().to_vec()),
                })?
            }
            TransferTask::Store { steps, path, data } => {
                disk.perform(&steps)?;
                let full = path.file_name().is_some_and(|n| n == "full");
                run.stored(if full {
                    Err("disk full".into())
                } else {
                    disk.items.insert(path.to_text(), Item::File(data));
                    Ok(())
                })?
            }
            TransferTask::Resolve(name) => {
                let path = context.candidate(&name);
                run.resolved(context.resolve(&name, Ok(HostPath::parse("/ctx")), Some(Ok(path))))?
            }
            TransferTask::Read { steps, path } => {
                disk.perform(&steps)?;
                run.read(&disk.node(&path.to_text()), &context)?
            }
            TransferTask::Copy(steps) => run.copied(disk.perform(&steps))?,
            TransferTask::Fail { steps, error } => {
                disk.perform(&steps)?;
                return Err(error);
            }
            TransferTask::Finish(steps) => return disk.perform(&steps),
        };
    }
}

/// Build `dockerfile` on `disk`; `runs` gets the arguments of the commands.
fn build(
    disk: &mut Disk,
    dockerfile: Dockerfile,
    request: &BuildRequest,
    status: i32,
    runs: &mut Vec<Vec<String>>,
) -> (Result<BuildResult, Error>, Vec<String>) {
    let mut progress = ProgressEmitter::new(Recorder::default());
    let outcome = solve(disk, dockerfile, request, status, runs, &mut progress);
    (outcome, progress.reporter.lines)
}

fn solve(
    disk: &mut Disk,
    dockerfile: Dockerfile,
    request: &BuildRequest,
    status: i32,
    runs: &mut Vec<Vec<String>>,
    progress: &mut ProgressEmitter<Recorder>,
) -> Result<BuildResult, Error> {
    let took = Duration::from_secs(1);
    let store = LocalImageStore::new(HostPath::parse("/store"));
    let plan = plan_build(dockerfile, request, Platform::linux_amd64())?;
    assert!(is_countable(&plan));
    let (tags, platform) = (plan.tags.clone(), plan.platform.clone());
    let work = work_dir(&HostPath::parse("/store/work"), "1");
    let mut solve = Solve::new(
        plan,
        Host::Posix,
        work,
        request.no_cache,
        request.network,
        request.build_args.clone(),
    );
    let mut task = solve.begin();
    loop {
        task = match task {
            Task::Open(steps) => {
                disk.perform(&steps)?;
                solve.opened(progress)?
            }
            Task::Fetch { image, .. } => {
                let digest = match image {
                    None => Ok(None),
                    Some(name) => Err(Error::Registry(name)),
                };
                solve.fetched(digest, progress, took)?
            }
            Task::Ask(id) => {
                let mut layers = Cached::open(disk, "/store");
                let cached = if layers.has(&id) {
                    let rootfs = HostPath::parse(&layers.resolve(&id));
                    Some(CachedLayer {
                        meta: ImageMeta::new(),
                        rootfs,
                    })
                } else {
                    None
                };
                if matches!(solve.phase, Phase::AskingBase(..)) {
                    solve.base_asked(cached, progress)
                } else {
                    solve.step_asked(cached, progress, took)?
                }
            }
            Task::Prepare { .. } => solve.prepared(Ok(None), progress, took)?,
            Task::Save {
                id,
                parent,
                fs_changed,
                ..
            } => {
                if let Phase::SavingBase(_, _, state) = &solve.phase {
                    let rootfs = state.rootfs.to_text();
                    Cached::open(disk, "/store").save(Host::Posix, &id, &parent, &rootfs, fs_changed);
                    solve.base_saved(progress, took)
                } else {
                    if let Phase::Saving(run, ..) = &solve.phase {
                        let rootfs = run.state.rootfs.to_text();
                        Cached::open(disk, "/store").save(Host::Posix, &id, &parent, &rootfs, fs_changed);
                    }
                    solve.step_saved(progress, took)
                }
            }
            Task::Continue => solve.next(progress, took)?,
            Task::Look(sources) => {
                let found = sources
                    .iter()
                    .map(|source| match source {
                        Source::Url(_) => Node::Other,
                        Source::Stage(path) => disk.node(&path.to_text()),
                        Source::Context(rel) => disk.node(&format!("/ctx/{rel}")),
                    })
                    .collect();
                solve.looked(Ok(found), progress, took)?
            }
            Task::Copy { from, to } => {
                let entries = disk.entries(&from.to_text());
                let steps = buildkit::fs::copy_tree(&entries, &from, &to);
                let outcome = disk.perform(&steps);
                solve.copied(outcome, progress, took)?
            }
            Task::Work(work) => {
                let outcome = match work {
                    Work::Nothing => Ok(()),
                    Work::MakeDir(path) => {
                        disk.create_dir_all(&path);
                        Ok(())
                    }
                    Work::Run(request) => {
                        runs.push(request.args.clone());
                        if let Phase::Working(run, ..) = &solve.phase {
                            let made = format!("{}/made", run.state.rootfs.to_text());
                            disk.put(&made, runs.len().to_string().as_bytes());
                        }
                        run_outcome(Ok(RunResult { status }))
                    }
                    Work::Copy {
                        from,
                        sources,
                        dest_guest,
                    } => {
                        let Phase::Working(run, ..) = &solve.phase else {
                            panic!("not working");
                        };
                        let none = Vec::new();
                        let begun = Transfer::copy(
                            Host::Posix,
                            &run.state.rootfs,
                            &from,
                            &sources,
                            dest_guest,
                            &none,
                            &solve.donors,
                        );
                        match begun {
                            Ok((run, task)) => transfer(disk, run, task),
                            Err(e) => Err(e),
                        }
                    }
                    other => panic!("unexpected {other:?}"),
                };
                solve.worked(outcome, progress, took)?
            }
            Task::Export => break,
        };
    }
    let Phase::Done(last) = &solve.phase else {
        panic!("not done");
    };
    let state = &last.state;
    let vertex = export_start(progress);
    let cache = Cached::open(disk, "/store").cache;
    let blob = cache.layer_blob_path(&state.layer_id);
    let has_blob = blob.as_ref().is_some_and(|p| disk.is_file(&p.to_text()));
    let layer = match export_source(progress, vertex, last, has_blob, blob) {
        ExportSource::Pack(rootfs) => {
            assert_eq!(rootfs.to_text(), state.rootfs.to_text());
            let bytes = pack_rootfs(&disk.entries(&rootfs.to_text()))?;
            disk.perform(&cache.write_layer_blob(&state.layer_id, bytes.clone()))?;
            Ok(ExportLayer::Bytes(bytes))
        }
        ExportSource::Blob(path) => {
            let digest = disk.text(&cache.layer_file(&state.layer_id, "layer.digest").to_text());
            Ok(ExportLayer::File(path, digest.unwrap()))
        }
        ExportSource::Read => panic!("the blob is a file"),
    };
    let layer = layer_ready(progress, vertex, &tags, layer, took)?;
    let mut run = ExportRun::new(layer, &state.meta, &tags, &platform, "buildkit")?;
    while let Some(reference) = run.next()? {
        let dir = store.image_dir(&reference, &platform).to_text();
        let facts = TagFacts {
            stored_digest: disk.text(&format!("{dir}/digest")),
            first_layer: disk.is_file(&format!("{dir}/layers/0.tar.gz")),
            exists_already: disk.there(&dir),
        };
        let steps = run.put(&store, reference, &facts);
        disk.perform(&steps)?;
    }
    export_done(progress, vertex, took);
    Ok(build_finished(progress, tags, &run.written))
}

fn scratch(instructions: Vec<Instruction>) -> Dockerfile {
    Dockerfile {
        args: Vec::new(),
        stages: vec![Stage {
            image: "scratch".into(),
            name: None,
            platform: None,
            instructions,
        }],
    }
}

fn echo() -> Instruction {
    Instruction::Run {
        command: Command::Shell("echo hello".into()),
        heredocs: Vec::new(),
        flags: Vec::new(),
    }
}

#[test]
fn run_goes_to_backend() {
    let mut disk = Disk::new();
    let request = BuildRequest::new(HostPath::parse("/ctx")).tag("run-test:latest");
    let mut runs = Vec::new();
    let (result, _) = build(&mut disk, scratch(vec![echo()]), &request, 0, &mut runs);
    result.unwrap();
    assert_eq!(runs.len(), 1);
    assert_eq!(runs[0], vec!["/bin/sh", "-c", "echo hello"]);
}

#[test]
fn failed_run_fails_the_build() {
    let mut disk = Disk::new();
    let request = BuildRequest::new(HostPath::parse("/ctx"));
    let mut runs = Vec::new();
    let (result, lines) = build(&mut disk, scratch(vec![echo()]), &request, 3, &mut runs);
    assert_eq!(result.unwrap_err().message(), "RUN failed with exit code 3");
    assert_eq!(
        lines,
        [
            "1 [stage-0 1/2] FROM scratch",
            "1 done false",
            "2 [stage-0 2/2] RUN echo hello",
            "2 ... running",
            "2 failed RUN failed with exit code 3",
        ]
    );
}

#[test]
fn builds_scratch_dockerfile() {
    let mut disk = Disk::new();
    let request = BuildRequest::new(HostPath::parse("/ctx")).tag("scratch-test:latest");
    let dockerfile = scratch(vec![
        Instruction::Env {
            pairs: vec![Pair {
                key: "FOO".into(),
                value: "bar".into(),
            }],
        },
        Instruction::Cmd {
            command: Command::Exec(vec!["/hello".into()]),
        },
    ]);
    let (result, lines) = build(&mut disk, dockerfile, &request, 0, &mut Vec::new());
    let result = result.unwrap();
    assert_eq!(result.tags, vec!["scratch-test:latest"]);
    assert!(!result.image_ids.is_empty());
    assert_eq!(
        result.image_ids,
        ["docker.io/library/scratch-test:latest"]
    );
    let dir = "/store/images/docker_io_library_scratch_test_latest_linux_amd64";
    assert!(disk.is_file(&format!("{dir}/layers/0.tar.gz")));
    assert_eq!(disk.text(&format!("{dir}/platform")).unwrap(), "linux/amd64");
    let digest = disk.text(&format!("{dir}/digest")).unwrap();
    assert_eq!(disk.text(&format!("{dir}/layers/digests")).unwrap(), format!("{digest}\n"));
    let config: serde_json::Value =
        serde_json::from_str(&disk.text(&format!("{dir}/config.json")).unwrap()).unwrap();
    assert_eq!(config["os"], "linux");
    assert_eq!(config["config"]["Cmd"][0], "/hello");
    assert_eq!(config["config"]["Env"][1], "FOO=bar");
    assert_eq!(lines.last().unwrap(), "finished docker.io/library/scratch-test:latest");
    assert!(lines.contains(&"2 [stage-0 2/3] ENV FOO=bar".to_string()));
    assert!(lines.contains(&"3 [stage-0 3/3] CMD [\"/hello\"]".to_string()));
}

#[test]
fn second_build_is_cached() {
    let mut disk = Disk::new();
    let request = BuildRequest::new(HostPath::parse("/ctx")).tag("again:latest");
    let mut runs = Vec::new();
    build(&mut disk, scratch(vec![echo()]), &request, 0, &mut runs).0.unwrap();
    let (result, lines) = build(&mut disk, scratch(vec![echo()]), &request, 0, &mut runs);
    result.unwrap();
    assert_eq!(runs.len(), 1);
    assert_eq!(lines[1], "1 done true");
    assert_eq!(lines[3], "2 done true");

    let request = request.no_cache(true);
    build(&mut disk, scratch(vec![echo()]), &request, 0, &mut runs).0.unwrap();
    assert_eq!(runs.len(), 2);
}

#[test]
fn build_arguments_are_those_of_the_request() {
    let dockerfile = || {
        scratch(vec![
            Instruction::Arg {
                decls: vec![ArgDecl {
                    name: "V".into(),
                    default: Some("0".into()),
                }],
            },
            Instruction::Run {
                command: Command::Shell("echo $V".into()),
                heredocs: Vec::new(),
                flags: Vec::new(),
            },
        ])
    };
    let mut disk = Disk::new();
    let request = |v: &str| {
        BuildRequest::new(HostPath::parse("/ctx"))
            .tag("args:latest")
            .arg("V", v)
    };
    let mut runs = Vec::new();
    build(&mut disk, dockerfile(), &request("1"), 0, &mut runs).0.unwrap();
    assert_eq!(runs, [["/bin/sh", "-c", "echo 1"]]);
    let mut runs = Vec::new();
    let (result, lines) = build(&mut disk, dockerfile(), &request("2"), 0, &mut runs);
    result.unwrap();
    assert_eq!(lines[1], "1 done true");
    assert_eq!(lines[3], "2 done true");
    assert_eq!(runs, [["/bin/sh", "-c", "echo 2"]]);
    let mut runs = Vec::new();
    build(&mut disk, dockerfile(), &request("1"), 0, &mut runs).0.unwrap();
    assert!(runs.is_empty());
}

/// The file that a run has made, as the layer of an image holds it.
fn exported_file(disk: &mut Disk, dir: &str) -> String {
    let layer = disk.read(&format!("{dir}/layers/0.tar.gz")).unwrap();
    disk.remove_tree("/out");
    disk.create_dir_all(&HostPath::parse("/out"));
    disk.apply(Host::Posix, "/out", &layer).unwrap();
    disk.text("/out/made").unwrap()
}

#[test]
fn rebuild_without_cache_exports_its_own_layer() {
    let dir = "/store/images/docker_io_library_again_latest_linux_amd64";
    let mut disk = Disk::new();
    let request = BuildRequest::new(HostPath::parse("/ctx")).tag("again:latest");
    let dockerfile = |command: &str| {
        scratch(vec![
            echo(),
            Instruction::Cmd {
                command: Command::Exec(vec![command.into()]),
            },
        ])
    };
    let mut runs = Vec::new();
    build(&mut disk, dockerfile("/a"), &request, 0, &mut runs).0.unwrap();
    assert_eq!(exported_file(&mut disk, dir), "1");
    let bare = request.clone().no_cache(true);
    build(&mut disk, dockerfile("/a"), &bare, 0, &mut runs).0.unwrap();
    assert_eq!(exported_file(&mut disk, dir), "2");
    build(&mut disk, dockerfile("/a"), &request, 0, &mut runs).0.unwrap();
    assert_eq!(exported_file(&mut disk, dir), "2");
    assert_eq!(runs.len(), 2);
}

#[test]
fn changed_config_is_exported_with_the_same_layer() {
    let dir = "/store/images/docker_io_library_again_latest_linux_amd64";
    let mut disk = Disk::new();
    let request = BuildRequest::new(HostPath::parse("/ctx")).tag("again:latest");
    let mut digests = Vec::new();
    for command in ["/a", "/b"] {
        let dockerfile = scratch(vec![
            echo(),
            Instruction::Cmd {
                command: Command::Exec(vec![command.into()]),
            },
        ]);
        build(&mut disk, dockerfile, &request, 0, &mut Vec::new()).0.unwrap();
        digests.push(disk.text(&format!("{dir}/digest")).unwrap());
        let text = disk.text(&format!("{dir}/config.json")).unwrap();
        let config: serde_json::Value = serde_json::from_str(&text).unwrap();
        assert_eq!(config["config"]["Cmd"][0], command);
    }
    assert_eq!(digests[0], digests[1]);
}

#[test]
fn ignored_files_of_a_copied_directory_stay_behind() {
    let mut disk = Disk::new();
    disk.put("/ctx/.dockerignore", b"sub/secret\n");
    disk.put("/ctx/sub/ok", b"1");
    disk.put("/ctx/sub/secret", b"2");
    let request = BuildRequest::new(HostPath::parse("/ctx")).tag("ignored:latest");
    let dockerfile = scratch(vec![copy_line(None, "sub", "/to")]);
    build(&mut disk, dockerfile, &request, 0, &mut Vec::new()).0.unwrap();
    assert_eq!(disk.text("/store/work/1/stage-0/rootfs/to/ok").unwrap(), "1");
    assert!(!disk.there("/store/work/1/stage-0/rootfs/to/secret"));
}

#[test]
fn base_image_that_cannot_be_fetched_fails_the_build() {
    let mut disk = Disk::new();
    let request = BuildRequest::new(HostPath::parse("/ctx")).network(NetworkMode::Host);
    let mut dockerfile = scratch(Vec::new());
    dockerfile.stages[0].image = "alpine".into();
    let (result, lines) = build(&mut disk, dockerfile, &request, 0, &mut Vec::new());
    assert_eq!(result.unwrap_err().message(), "registry error: alpine");
    assert_eq!(
        lines,
        ["1 [stage-0 1/1] FROM alpine", "1 failed registry error: alpine"]
    );
}

fn copy_line(from: Option<&str>, source: &str, destination: &str) -> Instruction {
    Instruction::Copy {
        sources: vec![source.into()],
        destination: destination.into(),
        heredocs: Vec::new(),
        flags: from
            .map(|stage| Flag {
                name: "from".into(),
                value: Some(stage.into()),
            })
            .into_iter()
            .collect(),
    }
}

fn two_stages() -> Dockerfile {
    let mut dockerfile = scratch(vec![
        Instruction::Workdir { path: "out".into() },
        copy_line(None, "data.txt", "made"),
    ]);
    dockerfile.stages[0].name = Some("builder".into());
    dockerfile.stages.push(Stage {
        image: "SCRATCH".into(),
        name: None,
        platform: None,
        instructions: vec![
            copy_line(Some("builder"), "made", "/by-name"),
            copy_line(Some("0"), "/out/made", "/by-number"),
        ],
    });
    dockerfile
}

#[test]
fn later_stage_copies_from_an_earlier_one() {
    let mut disk = Disk::new();
    disk.put("/ctx/data.txt", b"one");
    let request = BuildRequest::new(HostPath::parse("/ctx")).tag("two:latest");
    let (result, lines) = build(&mut disk, two_stages(), &request, 0, &mut Vec::new());
    result.unwrap();
    assert_eq!(disk.text("/store/work/1/stage-1/rootfs/by-name").unwrap(), "one");
    assert_eq!(disk.text("/store/work/1/stage-1/rootfs/by-number").unwrap(), "one");
    assert!(!disk.there("/store/work/1/stage-1/rootfs/out"));
    assert!(lines.contains(&"2 [builder 2/3] WORKDIR out".to_string()));
    assert!(lines.contains(&"4 [stage-1 1/3] FROM scratch".to_string()));
    assert!(lines.contains(&"5 [stage-1 2/3] COPY --from=builder made /by-name".to_string()));

    disk.put("/ctx/data.txt", b"two");
    build(&mut disk, two_stages(), &request, 0, &mut Vec::new()).0.unwrap();
    assert_eq!(disk.text("/store/work/1/stage-1/rootfs/by-name").unwrap(), "two");
}

#[test]
fn target_ends_the_build() {
    let mut disk = Disk::new();
    disk.put("/ctx/data.txt", b"one");
    let request = BuildRequest::new(HostPath::parse("/ctx")).target("builder");
    let (result, lines) = build(&mut disk, two_stages(), &request, 0, &mut Vec::new());
    assert_eq!(result.unwrap().tags, ["buildkit:latest"]);
    assert!(!lines.iter().any(|line| line.contains("stage-1")));

    let request = BuildRequest::new(HostPath::parse("/ctx")).target("missing");
    let (result, _) = build(&mut disk, two_stages(), &request, 0, &mut Vec::new());
    assert_eq!(
        result.unwrap_err().message(),
        "unknown build target stage 'missing'"
    );
}

#[test]
fn cached_rootfs_is_not_written_to() {
    let mut disk = Disk::new();
    disk.put("/ctx/a", b"a");
    let request = BuildRequest::new(HostPath::parse("/ctx"));
    let first = || scratch(vec![copy_line(None, "a", "/a")]);
    build(&mut disk, first(), &request, 0, &mut Vec::new()).0.unwrap();
    disk.put("/ctx/b", b"b");
    let mut second = first();
    second.stages[0].instructions.push(copy_line(None, "b", "/b"));
    let (result, lines) = build(&mut disk, second, &request, 0, &mut Vec::new());
    result.unwrap();
    assert!(lines.contains(&"2 done true".to_string()));
    assert!(lines.contains(&"3 done false".to_string()));
    assert_eq!(disk.text("/store/work/1/stage-0/rootfs/b").unwrap(), "b");
    assert!(!disk
        .items
        .keys()
        .any(|k| k.starts_with("/store/overlay2/") && k.ends_with("/merged/b")));
}

#[test]
fn missing_copy_source_fails_the_build() {
    let mut disk = Disk::new();
    let request = BuildRequest::new(HostPath::parse("/ctx"));
    let dockerfile = scratch(vec![copy_line(None, "nothing", "/x")]);
    let (result, lines) = build(&mut disk, dockerfile, &request, 0, &mut Vec::new());
    assert_eq!(result.unwrap_err().message(), "COPY source not found: /ctx/nothing");
    assert_eq!(lines.last().unwrap(), "2 failed COPY source not found: /ctx/nothing");

    let dockerfile = scratch(vec![copy_line(Some("nowhere"), "a", "/x")]);
    let (result, lines) = build(&mut disk, dockerfile, &request, 0, &mut Vec::new());
    let message = "COPY --from=nowhere: stage not available for cache key";
    assert_eq!(result.unwrap_err().message(), message);
    assert_eq!(lines.last().unwrap(), &format!("2 failed {message}"));
}

// Transfers

fn add(
    disk: &mut Disk,
    remote: &[&str],
    local: &[&str],
    dest_guest: &str,
    heredocs: &Vec<Heredoc>,
) -> Result<(), Error> {
    let list = |items: &[&str]| items.iter().map(|s| s.to_string()).collect::<Vec<_>>();
    let (run, task) = Transfer::add(
        Host::Posix,
        &HostPath::parse("/r"),
        list(remote),
        &list(local),
        remote.len() + local.len(),
        dest_guest.into(),
        heredocs,
    );
    transfer(disk, run, task)
}

#[test]
fn add_fetches_copies_and_writes_documents() {
    let mut disk = Disk::new();
    for dir in ["/ctx", "/r/d"] {
        disk.create_dir_all(&HostPath::parse(dir));
    }
    disk.items.insert("/ctx/f".into(), Item::File(b"local".to_vec()));
    let docs = vec![Heredoc {
        delimiter: "EOF".into(),
        body: "doc\n".into(),
    }];
    add(&mut disk, &["http://h/a?x", "http://h/b"], &["f"], "/d", &docs).unwrap();
    assert_eq!(disk.text("/r/d/a").unwrap(), "http://h/a?x");
    assert_eq!(disk.text("/r/d/b").unwrap(), "http://h/b");
    assert_eq!(disk.text("/r/d/f").unwrap(), "local");
    assert_eq!(disk.text("/r/d/EOF").unwrap(), "doc\n");
    add(&mut disk, &["http://h/c"], &[], "/n/file", &Vec::new()).unwrap();
    assert_eq!(disk.text("/r/n/file").unwrap(), "http://h/c");
}

#[test]
fn failed_transfers() {
    let mut disk = Disk::new();
    disk.create_dir_all(&HostPath::parse("/ctx"));
    let none = Vec::new();
    let mut fails = |remote: &[&str], local: &[&str], dest: &str| {
        add(&mut disk, remote, local, dest, &none).unwrap_err().message()
    };
    assert_eq!(
        fails(&["http://h/a", "http://h/b"], &[], "/d"),
        "when ADD has multiple sources, destination must be a directory"
    );
    assert_eq!(
        fails(&["http://gone/a"], &[], "/d"),
        "ADD: failed to fetch 'http://gone/a': HTTP 404 Not Found"
    );
    assert_eq!(
        fails(&["http://h/a"], &[], "/full"),
        "ADD: failed to write '/r/full': disk full"
    );
    assert_eq!(fails(&[], &["nothing"], "/d"), "COPY source not found: /ctx/nothing");
    assert_eq!(fails(&[], &["/etc"], "/d"), "path '/etc' escapes the build context");
    assert!(!disk.there("/r/d"));
}

#[test]
fn copy_errors_name_both_files() {
    let copy = Step {
        op: FsOp::Copy(HostPath::parse("/a"), HostPath::parse("/b")),
        required: true,
    };
    assert_eq!(
        copy_error(&copy, missing("/b")).message(),
        "copy /a -> /b: no such file"
    );
    let make = Step {
        op: FsOp::CreateDirAll(HostPath::parse("/b")),
        required: true,
    };
    assert!(copy_error(&make, missing("/b")).is_not_found());
}

// Merged trees

#[test]
fn missing_lower_layer_is_reported() {
    let (cache, _) = LayerCache::open(&HostPath::parse("/d"));
    let (mut run, task) = MergeRun::begin(&cache, "top", false);
    let MergeTask::Prepare(steps) = task else {
        panic!("not preparing");
    };
    assert_eq!(steps.len(), 1);
    let MergeTask::Link(spec) = run.prepared(" l/b:l/a\n") else {
        panic!("no link");
    };
    assert_eq!(spec, "l/a");
    let Ok(MergeTask::Link(spec)) = run.linked(&LowerLink::Symlink("../a".into())) else {
        panic!("no second link");
    };
    assert_eq!(spec, "l/b");
    assert_eq!(
        run.linked(&LowerLink::Missing).unwrap_err().message(),
        "build cache: missing overlay2 link 'l/b'"
    );
}

#[test]
fn changesets_are_read_from_the_lowest_to_the_highest() {
    let (cache, _) = LayerCache::open(&HostPath::parse("/d"));
    let (mut run, _) = MergeRun::begin(&cache, "top", true);
    let mut task = run.prepared("l/b:l/a");
    let entries: Vec<Entry> = Vec::new();
    let mut seen = Vec::new();
    loop {
        task = match task {
            MergeTask::Link(spec) => {
                let id = spec.strip_prefix("l/").unwrap().to_string();
                run.linked(&LowerLink::File(id)).unwrap()
            }
            MergeTask::Read(path) => {
                seen.push(path.to_text());
                run.read(if seen.len() == 2 { None } else { Some(&entries) })
            }
            MergeTask::Apply(_) => run.applied(),
            MergeTask::Prepare(_) => panic!("prepared twice"),
            MergeTask::Done => break,
        };
    }
    assert_eq!(
        seen,
        [
            "/d/overlay2/a/diff",
            "/d/overlay2/b/diff",
            "/d/overlay2/top/diff",
        ]
    );
}
