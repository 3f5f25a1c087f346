//! Guest paths: joining onto a working directory, and their place on the host.

use vstd::prelude::*;

use crate::path::HostPath;
use crate::text::{self, chars_of, ends_with_char, join, part, split, starts_with_char};
use crate::winpath::{self, join_root, Host};

verus! {

broadcast use vstd::seq_lib::group_seq_properties;

/// The components of a guest path after `.` and `..` are resolved.
pub open spec fn guest_components(path: Seq<char>) -> Seq<Seq<char>> {
    winpath::reached(Host::Posix, Seq::empty(), text::split_at_char(path, '/'))
}

/// The absolute guest path with the given components.
pub open spec fn absolute(components: Seq<Seq<char>>) -> Seq<char> {
    "/"@ + text::joined(components, "/"@)
}

/// `path` as an absolute guest path without `.`, `..` and empty components.
pub open spec fn normalized(path: Seq<char>) -> Seq<char> {
    absolute(guest_components(path))
}

/// `path` taken relative to `cwd` and normalized.
pub open spec fn workdir_joined(cwd: Seq<char>, path: Seq<char>) -> Seq<char> {
    if path.len() > 0 && path[0] == '/' {
        normalized(path)
    } else if cwd.len() > 0 && cwd.last() == '/' {
        normalized(cwd + path)
    } else {
        normalized(cwd + "/"@ + path)
    }
}

/// `s` without the slashes at its front.
pub open spec fn without_leading(s: Seq<char>, c: char) -> Seq<char>
    decreases s.len(),
{
    if s.len() > 0 && s[0] == c {
        without_leading(s.skip(1), c)
    } else {
        s
    }
}

/// Normalize `.` / `..` in a guest path.
pub fn normalize_guest(path: &str) -> (r: String)
    ensures
        r@ == normalized(path@),
{
    let pieces = split(path, '/');
    let mut stack: Vec<String> = Vec::new();
    let ghost all = pieces.deep_view();
    assert(stack.deep_view() =~= winpath::reached(Host::Posix, Seq::empty(), all.take(0)));
    for i in 0..pieces.len()
        invariant
            all == pieces.deep_view(),
            stack.deep_view() == winpath::reached(Host::Posix, Seq::empty(), all.take(i as int)),
    {
        assert(all.take(i + 1).drop_last() =~= all.take(i as int));
        let ghost before: Seq<Seq<char>> = stack.deep_view();
        let piece = pieces[i].as_str();
        if piece.is_empty() || text::same_text(piece, ".") {
        } else if text::same_text(piece, "..") {
            let _ = stack.pop();
            proof {
                if before.len() > 0 {
                    assert(stack.deep_view() =~= before.drop_last());
                } else {
                    assert(stack.deep_view() =~= before);
                }
            }
        } else {
            stack.push(piece.to_owned());
            assert(stack.deep_view() =~= before.push(piece@));
        }
    }
    assert(all.take(all.len() as int) =~= all);
    "/".to_owned().concat(join(&stack, "/").as_str())
}

/// Join a guest path onto `cwd`, then normalize `.` / `..`.
pub fn join_workdir(cwd: &str, path: &str) -> (r: String)
    ensures
        r@ == workdir_joined(cwd@, path@),
{
    if starts_with_char(path, '/') {
        return normalize_guest(path);
    }
    let base = if ends_with_char(cwd, '/') {
        cwd.to_owned()
    } else {
        cwd.to_owned().concat("/")
    };
    normalize_guest(base.concat(path).as_str())
}

/// `s` without the `c`s at its front.
pub fn trim_leading(s: &str, c: char) -> (r: String)
    ensures
        r@ == without_leading(s@, c),
{
    let v = chars_of(s);
    let mut i: usize = 0;
    assert(v@.skip(0) =~= v@);
    while i < v.len() && v[i] == c
        invariant
            i <= v@.len(),
            v@ == s@,
            without_leading(v@.skip(i as int), c) == without_leading(s@, c),
        decreases v@.len() - i,
    {
        assert(v@.skip(i as int).skip(1) =~= v@.skip(i + 1));
        i += 1;
    }
    assert(v@.skip(i as int) =~= v@.subrange(i as int, v@.len() as int));
    part(&v, i, v.len())
}

/// The host path of a guest path below `rootfs`.
pub fn guest_to_host(host: Host, rootfs: &HostPath, guest: &str) -> (r: HostPath)
    ensures
        r@ == winpath::pushed(host, rootfs@, without_leading(guest@, '/')),
{
    join_root(host, rootfs, trim_leading(guest, '/').as_str())
}

/// A component that normalization keeps.
pub open spec fn plain_component(part: Seq<char>) -> bool {
    &&& part.len() > 0
    &&& part != "."@
    &&& part != ".."@
    &&& !part.contains('/')
}

/// Every component reached along pieces without slashes is a plain one.
proof fn lemma_reached_plain(pieces: Seq<Seq<char>>)
    requires
        forall|i: int| 0 <= i < pieces.len() ==> !(#[trigger] pieces[i]).contains('/'),
    ensures
        forall|i: int|
            0 <= i < winpath::reached(Host::Posix, Seq::empty(), pieces).len() ==> plain_component(
                #[trigger] winpath::reached(Host::Posix, Seq::empty(), pieces)[i],
            ),
    decreases pieces.len(),
{
    if pieces.len() > 0 {
        let rest = pieces.drop_last();
        assert forall|i: int| 0 <= i < rest.len() implies !(#[trigger] rest[i]).contains('/') by {
            assert(rest[i] == pieces[i]);
        }
        lemma_reached_plain(rest);
        assert(!pieces[pieces.len() - 1].contains('/'));
        let before = winpath::reached(Host::Posix, Seq::empty(), rest);
        let after = winpath::reached(Host::Posix, Seq::empty(), pieces);
        assert forall|i: int| 0 <= i < after.len() implies plain_component(#[trigger] after[i]) by {
            if i < before.len() {
                assert(plain_component(before[i]));
            }
        }
    }
}

/// A normalized guest path is absolute, all its components are plain, and the
/// components can be read off it again.
pub proof fn normalized_is_absolute(path: Seq<char>)
    ensures
        normalized(path).len() > 0,
        normalized(path)[0] == '/',
        forall|i: int|
            0 <= i < guest_components(path).len() ==> plain_component(
                #[trigger] guest_components(path)[i],
            ),
        guest_components(normalized(path)) == guest_components(path),
{
    reveal_strlit("/");
    let parts = guest_components(path);
    let empty = Seq::<char>::empty();
    text::lemma_pieces_free(path, '/', '/');
    lemma_reached_plain(text::split_at_char(path, '/'));
    assert("/"@ =~= seq!['/']);
    if parts.len() == 0 {
        assert(normalized(path) =~= seq!['/']);
        assert(seq!['/'].drop_last() =~= empty);
        assert(text::split_at_char(empty, '/') =~= seq![empty]);
        assert(text::split_at_char(seq!['/'], '/') =~= seq![empty, empty]);
        let p = seq![empty, empty];
        assert(p.drop_last() =~= seq![empty]);
        assert(seq![empty].drop_last() =~= Seq::<Seq<char>>::empty());
        assert(winpath::reached(Host::Posix, Seq::empty(), Seq::<Seq<char>>::empty()) =~= Seq::<
            Seq<char>,
        >::empty());
        assert(winpath::reached(Host::Posix, Seq::empty(), seq![empty]) =~= Seq::<Seq<char>>::empty());
        assert(guest_components(normalized(path)) =~= parts);
    } else {
        let all = seq![empty] + parts;
        text::lemma_joined_after_empty(parts, "/"@);
        assert forall|i: int| 0 <= i < all.len() implies !(#[trigger] all[i]).contains('/') by {
            if i > 0 {
                assert(all[i] == parts[i - 1]);
            }
        }
        text::lemma_split_joined(all, '/');
        lemma_reached_from_root(parts);
    }
}

/// An empty piece at the front changes nothing.
proof fn lemma_reached_from_root(parts: Seq<Seq<char>>)
    requires
        forall|i: int| 0 <= i < parts.len() ==> plain_component(#[trigger] parts[i]),
    ensures
        winpath::reached(Host::Posix, Seq::empty(), seq![Seq::<char>::empty()] + parts) == parts,
    decreases parts.len(),
{
    let all = seq![Seq::<char>::empty()] + parts;
    let none = Seq::<Seq<char>>::empty();
    if parts.len() == 0 {
        assert(all.drop_last() =~= none);
        assert(winpath::reached(Host::Posix, none, none) == none);
        assert(parts =~= none);
    } else {
        let rest = parts.drop_last();
        assert forall|i: int| 0 <= i < rest.len() implies plain_component(#[trigger] rest[i]) by {
            assert(rest[i] == parts[i]);
        }
        lemma_reached_from_root(rest);
        assert(all.drop_last() =~= seq![Seq::<char>::empty()] + rest);
        assert(all.last() == parts.last());
        assert(plain_component(parts[parts.len() - 1]));
        assert(rest.push(parts.last()) =~= parts);
    }
}

/// Normalizing a normalized guest path changes nothing.
pub proof fn normalizing_twice_is_once(path: Seq<char>)
    ensures
        normalized(normalized(path)) == normalized(path),
{
    normalized_is_absolute(path);
}

} // verus!
