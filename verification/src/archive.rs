//! Gzip-compressed tar layers.

use std::borrow::Cow;
use std::io::Read;
use std::path::MAIN_SEPARATOR;

use flate2::read::GzDecoder;
use flate2::write::GzEncoder;
use flate2::Compression;
use tar::{Archive, Builder, EntryType, Header};
use vstd::prelude::*;
use vstd::utf8::*;

use crate::error::{Error, ErrorView};
use crate::text::{self, copy_bytes, join, to_forward_slashes};
use crate::tree::{Entry, Node};
use crate::winpath::Host;

verus! {

broadcast use vstd::seq_lib::group_seq_properties;

/// One entry of a layer as the archive holds it.
#[derive(Debug)]
pub struct RawEntry {
    /// Path of the entry.
    pub path: Vec<u8>,
    /// Type flag of the entry.
    pub flag: u8,
    /// Contents of the entry, up to where they can be read.
    pub data: Vec<u8>,
    /// Whether the contents could be read without a failure.
    pub whole: bool,
    /// Mode bits, where they are legible.
    pub mode: Option<u32>,
    /// User id, where it is legible.
    pub uid: Option<u64>,
    /// Group id, where it is legible.
    pub gid: Option<u64>,
    /// Target of a link.
    pub link: Option<Vec<u8>>,
}

/// A [`RawEntry`] with its bytes as sequences.
pub struct RawView {
    pub path: Seq<u8>,
    pub flag: u8,
    pub data: Seq<u8>,
    pub whole: bool,
    pub mode: Option<u32>,
    pub uid: Option<u64>,
    pub gid: Option<u64>,
    pub link: Option<Seq<u8>>,
}

impl View for RawEntry {
    type V = RawView;

    open spec fn view(&self) -> RawView {
        RawView {
            path: self.path@,
            flag: self.flag,
            data: self.data@,
            whole: self.whole,
            mode: self.mode,
            uid: self.uid,
            gid: self.gid,
            link: match self.link {
                Some(l) => Some(l@),
                None => None,
            },
        }
    }
}

/// The views of several entries.
pub open spec fn raw_views(entries: Seq<RawEntry>) -> Seq<RawView> {
    entries.map_values(|e: RawEntry| e@)
}

/// The entries of a gzip-compressed tar archive, and what keeps it from being
/// read to its end.
pub uninterp spec fn tar_listing(layer: Seq<u8>) -> (Seq<RawView>, Option<Seq<char>>);

/// `tar::Archive::entries` of the `tar` crate over a `GzDecoder` of the `flate2`
/// crate, each entry with its header fields and its contents, up to the first
/// failure; an entry whose contents break off is the last one. The result depends on
/// the bytes alone.
#[verifier::external_body]
pub(crate) fn list_layer(layer: &[u8]) -> (r: (Option<String>, Vec<RawEntry>))
    ensures
        (raw_views(r.1@), r.0.deep_view()) == tar_listing(layer@),
{
    let mut entries = vec![];
    (Archive::new(GzDecoder::new(layer)).entries().and_then(|mut all| all.try_for_each(|item| {
        let mut e = item?;
        let mut data = vec![];
        let got = e.read_to_end(&mut data);
        let h = e.header();
        entries.push(RawEntry {
            path: e.path_bytes().into(), flag: h.entry_type().as_byte(), data, whole: got.is_ok(),
            mode: h.mode().ok(), uid: h.uid().ok(), gid: h.gid().ok(), link: e.link_name_bytes().map(Cow::into) });
        got.map(drop)
    })).err().map(|x| x.to_string()), entries)
}

/// One entry of a layer to be packed.
#[derive(Debug)]
pub struct PackEntry {
    /// Path in the archive; a directory's ends with a slash.
    pub path: String,
    /// Type flag of the entry.
    pub flag: u8,
    /// Mode bits.
    pub mode: u32,
    /// Contents of a file.
    pub data: Vec<u8>,
}

/// A [`PackEntry`] with its texts as character sequences.
pub struct PackView {
    pub path: Seq<char>,
    pub flag: u8,
    pub mode: u32,
    pub data: Seq<u8>,
}

impl View for PackEntry {
    type V = PackView;

    open spec fn view(&self) -> PackView {
        PackView { path: self.path@, flag: self.flag, mode: self.mode, data: self.data@ }
    }
}

/// The views of several entries.
pub open spec fn pack_views(entries: Seq<PackEntry>) -> Seq<PackView> {
    entries.map_values(|e: PackEntry| e@)
}

/// A relative path of plain components, with or without a slash at its end. What a
/// Windows machine takes for a drive or a separator is no part of a component there.
pub open spec fn clean_path(host: Host, path: Seq<char>) -> bool {
    let p = if path.len() > 0 && path.last() == '/' { path.drop_last() } else { path };
    &&& !path.contains('\0')
    &&& host == Host::Windows ==> !path.contains('\\') && !path.contains(':')
    &&& forall|i: int|
        0 <= i < text::split_at_char(p, '/').len() ==> {
            &&& (#[trigger] text::split_at_char(p, '/')[i]).len() > 0
            &&& text::split_at_char(p, '/')[i] != "."@
            &&& text::split_at_char(p, '/')[i] != ".."@
        }
}

/// A directory's entry.
pub open spec fn dir_entry(path: Seq<char>) -> PackView {
    PackView { path, flag: 53, mode: 0o755, data: Seq::empty() }
}

/// A file's entry.
pub open spec fn file_entry(path: Seq<char>, data: Seq<u8>) -> PackView {
    PackView { path, flag: 48, mode: 0o644, data }
}

/// An entry that is read back as it was written: a file, or a directory without
/// contents, with a clean path and mode bits that fit the header.
pub open spec fn faithful(host: Host, e: PackView) -> bool {
    &&& clean_path(host, e.path)
    &&& e.flag == 48 || (e.flag == 53 && e.data.len() == 0)
    &&& e.mode < 0o10000000
}

/// A packed entry as it is read back: it names no owner.
pub open spec fn unpacked(e: PackView) -> RawView {
    RawView {
        path: encode_utf8(e.path),
        flag: e.flag,
        data: e.data,
        whole: true,
        mode: Some(e.mode),
        uid: None,
        gid: None,
        link: None,
    }
}

/// What keeps a layer from being written.
#[derive(Debug)]
pub enum PackFailure {
    /// The entry with this number could not be added.
    Entry(usize, String),
    /// The archive could not be closed.
    Archive(String),
    /// The compression could not be ended.
    Gzip(String),
}

/// A [`PackFailure`] with its text as a character sequence.
pub enum FailureView {
    Entry(int, Seq<char>),
    Archive(Seq<char>),
    Gzip(Seq<char>),
}

impl View for PackFailure {
    type V = FailureView;

    open spec fn view(&self) -> FailureView {
        match self {
            PackFailure::Entry(i, m) => FailureView::Entry(*i as int, m@),
            PackFailure::Archive(m) => FailureView::Archive(m@),
            PackFailure::Gzip(m) => FailureView::Gzip(m@),
        }
    }
}

/// The machine that separates the components of a path by this character.
pub open spec fn machine(separator: char) -> Host {
    if separator == '\\' {
        Host::Windows
    } else {
        Host::Posix
    }
}

/// The gzip-compressed tar archive with these entries as a machine of this kind writes
/// it, or what keeps it from being written.
pub uninterp spec fn tar_gz(host: Host, entries: Seq<PackView>) -> Result<Seq<u8>, FailureView>;

/// `tar::Builder::append_data` of the `tar` crate for each entry, with a GNU header
/// that has its type flag, mode and size, over a `GzEncoder` of the `flate2` crate at
/// its fast setting. The first part of the result is the separator of the machine this
/// runs on, `std::path::MAIN_SEPARATOR`: the crate takes entry paths for paths of that
/// machine. Apart from it the second part depends on the entries alone. Files, and
/// directories without contents, with clean paths are read back as they were written,
/// and with such entries alone nothing fails: the archive is written to memory.
#[verifier::external_body]
fn write_layer(entries: &Vec<PackEntry>) -> (r: (char, Result<Vec<u8>, PackFailure>))
    requires
        forall|i: int| 0 <= i < entries@.len() ==> !(#[trigger] entries@[i]).path@.contains('\\'),
    ensures
        match r.1 {
            Ok(b) => {
                &&& tar_gz(machine(r.0), pack_views(entries@)) matches Ok(x) && x == b@
                &&& (forall|i: int|
                    0 <= i < entries@.len() ==> faithful(machine(r.0), (#[trigger] entries@[i])@))
                    ==> tar_listing(b@) == (
                    pack_views(entries@).map_values(|e: PackView| unpacked(e)),
                    None::<Seq<char>>,
                )
            },
            Err(e) => {
                &&& tar_gz(machine(r.0), pack_views(entries@)) matches Err(x) && x == e@
                &&& exists|i: int|
                    0 <= i < entries@.len() && !faithful(machine(r.0), (#[trigger] entries@[i])@)
                &&& e matches PackFailure::Entry(i, _) ==> i < entries@.len()
            },
        },
{
    let write = || {
        let mut archive = Builder::new(GzEncoder::new(vec![], Compression::fast()));
        for (i, e) in entries.iter().enumerate() {
            let mut header = Header::new_gnu();
            header.set_entry_type(EntryType::new(e.flag));
            header.set_mode(e.mode);
            header.set_size(e.data.len() as u64);
            let added = archive.append_data(&mut header, &e.path, &*e.data);
            added.map_err(|x| PackFailure::Entry(i, x.to_string()))?;
        }
        let encoder = archive.into_inner().map_err(|x| PackFailure::Archive(x.to_string()))?;
        encoder.finish().map_err(|x| PackFailure::Gzip(x.to_string()))
    };
    (MAIN_SEPARATOR, write())
}

/// What an entry is called in errors.
pub open spec fn entry_label(e: PackView) -> Seq<char> {
    if e.flag == 53 {
        "dir"@
    } else {
        "file"@
    }
}

/// The message for a layer with these entries that could not be written.
pub open spec fn failure_text(entries: Seq<PackView>, f: FailureView) -> Seq<char> {
    match f {
        FailureView::Entry(i, m) => "tar "@ + entry_label(entries[i]) + ": "@ + m,
        FailureView::Archive(m) => "tar finish: "@ + m,
        FailureView::Gzip(m) => "gzip finish: "@ + m,
    }
}

/// The message for a layer that could not be written.
fn describe(entries: &Vec<PackEntry>, f: PackFailure) -> (r: String)
    requires
        f matches PackFailure::Entry(i, _) ==> i < entries@.len(),
    ensures
        r@ == failure_text(pack_views(entries@), f@),
{
    match f {
        PackFailure::Entry(i, m) => {
            assert(pack_views(entries@)[i as int] == entries@[i as int]@);
            let label = if entries[i].flag == 53 {
                "dir"
            } else {
                "file"
            };
            "tar ".to_owned().concat(label).concat(": ").concat(m.as_str())
        },
        PackFailure::Archive(m) => "tar finish: ".to_owned().concat(m.as_str()),
        PackFailure::Gzip(m) => "gzip finish: ".to_owned().concat(m.as_str()),
    }
}

/// The path of an entry in the archive.
pub open spec fn packed_path(rel: Seq<Seq<char>>) -> Seq<char> {
    text::forward_slashes(text::joined(rel, "/"@))
}

/// What a directory contributes to a layer, each directory before its contents.
/// Links and special files are left out.
pub open spec fn packed_entries(entries: Seq<Entry>, prefix: Seq<Seq<char>>) -> Seq<PackView>
    decreases entries, 1int,
{
    if entries.len() == 0 {
        Seq::empty()
    } else {
        packed_entries(entries.drop_last(), prefix) + packed_one(entries.last(), prefix)
    }
}

/// What one entry of a directory contributes to a layer.
pub open spec fn packed_one(e: Entry, prefix: Seq<Seq<char>>) -> Seq<PackView>
    decreases e, 0int,
{
    let rel = prefix.push(e.name@);
    match e.node {
        Node::Dir { entries } => seq![dir_entry(packed_path(rel) + "/"@)] + packed_entries(
            entries@,
            rel,
        ),
        Node::File { data } => seq![file_entry(packed_path(rel), data@)],
        _ => Seq::empty(),
    }
}

/// What one entry of a directory contributes to a layer.
fn pack_entry(e: &Entry, prefix: &Vec<String>, out: &mut Vec<PackEntry>)
    ensures
        pack_views(final(out)@) == pack_views(old(out)@) + packed_one(*e, prefix.deep_view()),
    decreases e, 0int,
{
    let ghost before = pack_views(out@);
    let mut rel = prefix.clone();
    rel.push(e.name.clone());
    assert(rel.deep_view() =~= prefix.deep_view().push(e.name@));
    let path = to_forward_slashes(join(&rel, "/").as_str());
    match &e.node {
        Node::Dir { entries } => {
            out.push(
                PackEntry {
                    path: path.concat("/"),
                    flag: 53,
                    mode: 0o755,
                    data: Vec::new(),
                },
            );
            let ghost head = seq![dir_entry(packed_path(rel.deep_view()) + "/"@)];
            assert(pack_views(out@) =~= before + head);
            add_dir(entries, &rel, out);
            assert(pack_views(out@) =~= before + packed_one(*e, prefix.deep_view()));
        },
        Node::File { data } => {
            out.push(
                PackEntry {
                    path,
                    flag: 48,
                    mode: 0o644,
                    data: copy_bytes(data),
                },
            );
            assert(pack_views(out@) =~= before + packed_one(*e, prefix.deep_view()));
        },
        _ => {
            assert(pack_views(out@) =~= before + packed_one(*e, prefix.deep_view()));
        },
    }
}

/// What a directory contributes to a layer; `prefix` leads to it.
pub fn add_dir(entries: &Vec<Entry>, prefix: &Vec<String>, out: &mut Vec<PackEntry>)
    ensures
        pack_views(final(out)@) == pack_views(old(out)@) + packed_entries(
            entries@,
            prefix.deep_view(),
        ),
    decreases entries, 1int,
{
    let ghost before = pack_views(out@);
    let ghost at = prefix.deep_view();
    assert(before + packed_entries(entries@.take(0), at) =~= before);
    for i in 0..entries.len()
        invariant
            at == prefix.deep_view(),
            pack_views(out@) == before + packed_entries(entries@.take(i as int), at),
        decreases entries.len() - i,
    {
        assert(entries@.take(i + 1).drop_last() =~= entries@.take(i as int));
        pack_entry(&entries[i], prefix, out);
        assert(pack_views(out@) =~= before + packed_entries(entries@.take(i + 1), at));
    }
    assert(entries@.take(entries@.len() as int) =~= entries@);
}

/// Whether `r` is the layer with the directories and files of a root filesystem as a
/// machine of this kind writes it, or the failure to write it. Where all paths are
/// clean, there is a layer, and it holds what was packed.
pub open spec fn packed_rootfs(r: Result<Vec<u8>, Error>, host: Host, entries: Seq<Entry>) -> bool {
    let all = packed_entries(entries, Seq::empty());
    match (r, tar_gz(host, all)) {
        (Ok(b), Ok(x)) => {
            &&& b@ == x
            &&& (forall|i: int| 0 <= i < all.len() ==> clean_path(host, (#[trigger] all[i]).path))
                ==> tar_listing(x) == (
                all.map_values(|e: PackView| unpacked(e)),
                None::<Seq<char>>,
            )
        },
        (Err(e), Err(f)) => {
            &&& e@ == ErrorView::Other(failure_text(all, f))
            &&& exists|i: int| 0 <= i < all.len() && !clean_path(host, (#[trigger] all[i]).path)
        },
        _ => false,
    }
}

/// Pack a root filesystem into a gzip layer. Which kind of machine this runs on is for
/// the machine to say.
pub fn pack_rootfs(entries: &Vec<Entry>) -> (r: Result<Vec<u8>, Error>)
    ensures
        exists|host: Host| #[trigger] packed_rootfs(r, host, entries@),
{
    let mut all: Vec<PackEntry> = Vec::new();
    let none: Vec<String> = Vec::new();
    let ghost packed = packed_entries(entries@, Seq::empty());
    assert(none.deep_view() =~= Seq::<Seq<char>>::empty());
    assert(pack_views(all@) =~= Seq::<PackView>::empty());
    add_dir(entries, &none, &mut all);
    proof {
        lemma_packed_kinds(entries@, Seq::empty());
        assert(pack_views(all@) =~= packed);
        assert forall|i: int| 0 <= i < all@.len() implies (#[trigger] all@[i])@ == packed[i] by {
            assert(pack_views(all@)[i] == all@[i]@);
        }
    }
    let (separator, outcome) = write_layer(&all);
    let r = match outcome {
        Ok(b) => Ok(b),
        Err(f) => Err(Error::Other(describe(&all, f))),
    };
    proof {
        let host = machine(separator);
        if forall|i: int| 0 <= i < packed.len() ==> clean_path(host, (#[trigger] packed[i]).path) {
            assert forall|i: int| 0 <= i < all@.len() implies faithful(
                host,
                (#[trigger] all@[i])@,
            ) by {
                assert(all@[i]@ == packed[i]);
            }
        }
        assert(packed_rootfs(r, host, entries@));
    }
    r
}

/// Packed entries are files, and directories without contents, with forward slashes.
proof fn lemma_packed_kinds(entries: Seq<Entry>, prefix: Seq<Seq<char>>)
    ensures
        forall|i: int|
            0 <= i < packed_entries(entries, prefix).len() ==> {
                let e = #[trigger] packed_entries(entries, prefix)[i];
                &&& e.mode < 0o10000000
                &&& e.flag == 48 || (e.flag == 53 && e.data.len() == 0)
                &&& !e.path.contains('\\')
            },
    decreases entries, 1int,
{
    if entries.len() > 0 {
        let before = packed_entries(entries.drop_last(), prefix);
        let e = entries.last();
        let one = packed_one(e, prefix);
        let all = packed_entries(entries, prefix);
        lemma_packed_kinds(entries.drop_last(), prefix);
        let path = packed_path(prefix.push(e.name@));
        assert(!path.contains('\\') && !(path + "/"@).contains('\\')) by {
            reveal_strlit("/");
            if (path + "/"@).contains('\\') {
                let k = choose|k: int|
                    0 <= k < (path + "/"@).len() && (path + "/"@)[k] == '\\';
                assert(k < path.len());
            }
        }
        match e.node {
            Node::Dir { entries: inner } => {
                lemma_packed_kinds(inner@, prefix.push(e.name@));
            },
            _ => {},
        }
        assert forall|i: int| 0 <= i < all.len() implies {
            let x = #[trigger] all[i];
            &&& x.mode < 0o10000000
            &&& x.flag == 48 || (x.flag == 53 && x.data.len() == 0)
            &&& !x.path.contains('\\')
        } by {
            if i < before.len() {
                assert(all[i] == before[i]);
            } else {
                let k = i - before.len();
                assert(all[i] == one[k]);
                match e.node {
                    Node::Dir { entries: inner } => {
                        if k > 0 {
                            assert(one[k] == packed_entries(inner@, prefix.push(e.name@))[k - 1]);
                        }
                    },
                    _ => {},
                }
            }
        }
    }
}

} // verus!
