//! Content hashes of files and directories.

use vstd::prelude::*;
use vstd::utf8::*;

use crate::digest::{self, layer_digest};
use crate::error::{Error, ErrorView};
use crate::order::{self, sort};
use crate::path::HostPath;
use crate::text::{self, join, to_forward_slashes};
use crate::tree::{self, find_entry, names_of, Entry, Node};

verus! {

/// A path below the hashed directory as it enters the hash: slashes between the
/// components, and slashes in place of backslashes.
pub open spec fn hashed_path(rel: Seq<Seq<char>>) -> Seq<char> {
    text::forward_slashes(text::joined(rel, "/"@))
}

/// What the entries called `order` contribute: for each one its path, a zero
/// byte, and what stands below the directory or in the file.
pub open spec fn dir_bytes(
    entries: Seq<Entry>,
    order: Seq<Seq<char>>,
    rel: Seq<Seq<char>>,
) -> Seq<u8>
    decreases entries, order.len(),
{
    if order.len() == 0 {
        Seq::empty()
    } else {
        let name = order.last();
        let path = rel.push(name);
        let i = tree::first_named(entries, name);
        dir_bytes(entries, order.drop_last(), rel) + encode_utf8(hashed_path(path)) + seq![0u8]
            + if 0 <= i < entries.len() {
            match entries[i].node {
                Node::Dir { entries: inner } => dir_bytes(
                    inner@,
                    order::sorted(tree::names(inner@)),
                    path,
                ),
                Node::File { data } => data@,
                _ => Seq::empty(),
            }
        } else {
            Seq::empty()
        }
    }
}

/// The bytes whose digest identifies what stands at a path.
pub open spec fn content_bytes(n: Node) -> Seq<u8> {
    match n {
        Node::Dir { entries } => dir_bytes(
            entries@,
            order::sorted(tree::names(entries@)),
            Seq::empty(),
        ),
        Node::File { data } => data@,
        _ => encode_utf8("missing"@),
    }
}

/// The content hash of what stands at a path.
pub open spec fn content_hash(n: Node) -> Seq<char> {
    digest::hex(digest::sha256(content_bytes(n)))
}

/// A path below the hashed directory as it enters the hash.
fn hashed_path_text(rel: &Vec<String>) -> (r: String)
    ensures
        r@ == hashed_path(rel.deep_view()),
{
    to_forward_slashes(join(rel, "/").as_str())
}

/// Append `more` to `out`.
pub fn extend(out: &mut Vec<u8>, more: &[u8])
    ensures
        final(out)@ == old(out)@ + more@,
{
    let ghost before = out@;
    for i in 0..more.len()
        invariant
            out@ == before + more@.take(i as int),
    {
        out.push(more[i]);
        assert(out@ =~= before + more@.take(i + 1));
    }
    assert(more@.take(more@.len() as int) =~= more@);
}

/// Append what the entries of a directory contribute, in the order of their
/// names.
pub fn hash_dir(entries: &Vec<Entry>, rel: &Vec<String>, out: &mut Vec<u8>)
    ensures
        final(out)@ == old(out)@ + dir_bytes(
            entries@,
            order::sorted(tree::names(entries@)),
            rel.deep_view(),
        ),
    decreases entries,
{
    let names = sort(&names_of(entries));
    let ghost all = names.deep_view();
    let ghost before = out@;
    let ghost base = rel.deep_view();
    assert(before + dir_bytes(entries@, all.take(0), base) =~= before);
    for k in 0..names.len()
        invariant
            all == names.deep_view(),
            base == rel.deep_view(),
            out@ == before + dir_bytes(entries@, all.take(k as int), base),
    {
        assert(all.take(k + 1).drop_last() =~= all.take(k as int));
        let name = names[k].as_str();
        let mut path = rel.clone();
        path.push(name.to_owned());
        assert(path.deep_view() =~= base.push(name@));
        extend(out, hashed_path_text(&path).as_str().as_bytes());
        out.push(0u8);
        let ghost headed = out@;
        let i: usize = find_entry(entries, name);
        if i < entries.len() {
            match &entries[i].node {
                Node::Dir { entries: inner } => {
                    hash_dir(inner, &path, out);
                },
                Node::File { data } => {
                    extend(out, data.as_slice());
                },
                _ => {
                    assert(out@ =~= headed + Seq::<u8>::empty());
                },
            }
        } else {
            assert(out@ =~= headed + Seq::<u8>::empty());
        }
        assert(out@ =~= before + dir_bytes(entries@, all.take(k + 1), base));
    }
    assert(all.take(all.len() as int) =~= all);
}

/// The content hash of what stands at a path.
pub fn hash_path(node: &Node) -> (r: String)
    ensures
        r@ == content_hash(*node),
{
    match node {
        Node::Dir { entries } => {
            let mut bytes: Vec<u8> = Vec::new();
            let rel: Vec<String> = Vec::new();
            assert(rel.deep_view() =~= Seq::<Seq<char>>::empty());
            hash_dir(entries, &rel, &mut bytes);
            assert(bytes@ =~= content_bytes(*node));
            layer_digest(bytes.as_slice())
        },
        Node::File { data } => layer_digest(data.as_slice()),
        _ => layer_digest("missing".as_bytes()),
    }
}

/// The failure to read what is hashed at `path`.
pub fn hash_failed(path: &HostPath, reason: &str) -> (r: Error)
    ensures
        r@ == ErrorView::Other("cache hash "@ + path@.shown() + ": "@ + reason@),
{
    Error::Other(
        "cache hash ".to_owned().concat(path.to_text().as_str()).concat(": ").concat(reason),
    )
}

} // verus!
