//! Where paths lead.

use vstd::prelude::*;

use crate::backend::NetworkMode;
use crate::cache;
use crate::dockerfile::Instruction;
use crate::expand;
use crate::fs;
use crate::fsutil;
use crate::laws::instructions;
use crate::meta::MetaView;
use crate::path::{self, PathView};
use crate::stage::{self, StateView, WorkView};
use crate::text;
use crate::winpath::{self, Host};

verus! {

broadcast use vstd::seq_lib::group_seq_properties;

/// One component of a Linux path that names something below its directory.
pub open spec fn component(c: Seq<char>) -> bool {
    &&& c.len() > 0
    &&& c != seq!['.']
    &&& c != seq!['.', '.']
    &&& !c.contains('/')
    &&& !c.contains('\\')
}

/// Components alone.
pub open spec fn components(parts: Seq<Seq<char>>) -> bool {
    forall|i: int| 0 <= i < parts.len() ==> component(#[trigger] parts[i])
}

/// The relative path with these components.
pub open spec fn slashed(parts: Seq<Seq<char>>) -> Seq<char>
    decreases parts.len(),
{
    if parts.len() == 0 {
        Seq::empty()
    } else if parts.len() == 1 {
        parts[0]
    } else {
        parts[0] + seq!['/'] + slashed(parts.skip(1))
    }
}

/// The absolute path with these components.
pub open spec fn rooted(parts: Seq<Seq<char>>) -> Seq<char> {
    seq!['/'] + slashed(parts)
}

pub proof fn lemma_dots()
    ensures
        "."@ == seq!['.'],
        ".."@ == seq!['.', '.'],
        "/"@ == seq!['/'],
{
    reveal_strlit(".");
    reveal_strlit("..");
    reveal_strlit("/");
    assert("."@ =~= seq!['.']);
    assert(".."@ =~= seq!['.', '.']);
    assert("/"@ =~= seq!['/']);
}

/// Putting one more component behind a path.
pub proof fn lemma_slashed_push(parts: Seq<Seq<char>>, last: Seq<char>)
    ensures
        slashed(parts.push(last)) == if parts.len() == 0 {
            last
        } else {
            slashed(parts) + seq!['/'] + last
        },
    decreases parts.len(),
{
    let all = parts.push(last);
    if parts.len() > 0 {
        assert(all.skip(1) =~= parts.skip(1).push(last));
        lemma_slashed_push(parts.skip(1), last);
        if parts.len() == 1 {
            assert(parts.skip(1) =~= Seq::<Seq<char>>::empty());
        }
        assert(slashed(all) =~= slashed(parts) + seq!['/'] + last);
    }
}

/// Joining with slashes writes the path.
pub proof fn lemma_slashed(parts: Seq<Seq<char>>)
    ensures
        text::joined(parts, "/"@) == slashed(parts),
    decreases parts.len(),
{
    lemma_dots();
    if parts.len() > 1 {
        let rest = parts.drop_last();
        lemma_slashed(rest);
        lemma_slashed_push(rest, parts.last());
        assert(rest.push(parts.last()) =~= parts);
    } else if parts.len() == 0 {
        assert(text::joined(parts, "/"@) =~= slashed(parts));
    }
}

/// Two paths in a row.
pub proof fn lemma_slashed_add(a: Seq<Seq<char>>, b: Seq<Seq<char>>)
    requires
        a.len() > 0,
        b.len() > 0,
    ensures
        slashed(a + b) == slashed(a) + seq!['/'] + slashed(b),
    decreases a.len(),
{
    let all = a + b;
    if a.len() == 1 {
        assert(all.skip(1) =~= b);
    } else {
        lemma_slashed_add(a.skip(1), b);
        assert(all.skip(1) =~= a.skip(1) + b);
    }
    assert(slashed(all) =~= slashed(a) + seq!['/'] + slashed(b));
}

/// A character that is in no component is in no relative path, slashes aside.
pub proof fn lemma_slashed_free(parts: Seq<Seq<char>>, c: char)
    requires
        c != '/',
        forall|i: int| 0 <= i < parts.len() ==> !(#[trigger] parts[i]).contains(c),
    ensures
        !slashed(parts).contains(c),
    decreases parts.len(),
{
    if parts.len() > 0 {
        let rest = parts.skip(1);
        assert forall|i: int| 0 <= i < rest.len() implies !(#[trigger] rest[i]).contains(c) by {
            assert(rest[i] == parts[i + 1]);
        }
        lemma_slashed_free(rest, c);
        assert(!parts[0].contains(c));
        let all = slashed(parts);
        if all.contains(c) {
            let k = choose|k: int| 0 <= k < all.len() && all[k] == c;
            if k < parts[0].len() {
                assert(parts[0][k] == c);
            } else if k > parts[0].len() {
                assert(slashed(rest)[k - parts[0].len() - 1] == c);
            }
        }
    }
}

/// A separator that does not occur makes no difference.
pub proof fn lemma_no_backslash(s: Seq<char>)
    requires
        !s.contains('\\'),
    ensures
        text::pieces(s, '/', '\\') == text::split_at_char(s, '/'),
    decreases s.len(),
{
    if s.len() > 0 {
        let t = s.drop_last();
        assert(!t.contains('\\')) by {
            if t.contains('\\') {
                let k = choose|k: int| 0 <= k < t.len() && t[k] == '\\';
                assert(s[k] == '\\');
            }
        }
        assert(s.contains(s.last()));
        lemma_no_backslash(t);
    }
}

/// The pieces of a written path are its components.
pub proof fn lemma_slashed_pieces(parts: Seq<Seq<char>>)
    requires
        components(parts),
        parts.len() > 0,
    ensures
        text::split_at_char(slashed(parts), '/') == parts,
        text::pieces(slashed(parts), '/', '\\') == parts,
        slashed(parts).len() > 0,
        slashed(parts)[0] != '/',
        slashed(parts)[0] != '\\',
        slashed(parts).last() != '/',
{
    lemma_dots();
    lemma_slashed(parts);
    assert forall|i: int| 0 <= i < parts.len() implies !(#[trigger] parts[i]).contains('/')
        && !parts[i].contains('\\') by {
        assert(component(parts[i]));
    }
    text::lemma_split_joined(parts, '/');
    lemma_slashed_free(parts, '\\');
    lemma_no_backslash(slashed(parts));
    assert(component(parts[0]));
    assert(parts[0].contains(parts[0][0]));
    lemma_slashed_front(parts);
    let n = parts.len() - 1;
    assert(component(parts[n]));
    assert(parts[n].contains(parts[n].last()));
    lemma_slashed_push(parts.drop_last(), parts[n]);
    assert(parts.drop_last().push(parts[n]) =~= parts);
}

proof fn lemma_slashed_front(parts: Seq<Seq<char>>)
    requires
        parts.len() > 0,
        parts[0].len() > 0,
    ensures
        slashed(parts).len() > 0,
        slashed(parts)[0] == parts[0][0],
{
}

/// Components lead further down, each under the name that the host has for it.
pub proof fn lemma_down(host: Host, base: Seq<Seq<char>>, parts: Seq<Seq<char>>)
    requires
        components(parts),
    ensures
        winpath::reached(host, base, parts) == base + parts.map_values(
            |c: Seq<char>| winpath::encoded(host, c),
        ),
    decreases parts.len(),
{
    lemma_dots();
    let names = parts.map_values(|c: Seq<char>| winpath::encoded(host, c));
    if parts.len() == 0 {
        assert(base + names =~= base);
    } else {
        let rest = parts.drop_last();
        assert forall|i: int| 0 <= i < rest.len() implies component(#[trigger] rest[i]) by {
            assert(rest[i] == parts[i]);
        }
        lemma_down(host, base, rest);
        assert(component(parts[parts.len() - 1]));
        assert(base + names =~= (base + rest.map_values(
            |c: Seq<char>| winpath::encoded(host, c),
        )).push(winpath::encoded(host, parts.last())));
    }
}

/// A relative Linux path names the place below a directory to which its components
/// lead one after the other; on Posix each has its own name there.
pub proof fn relative_paths_lead_down(host: Host, root: PathView, parts: Seq<Seq<char>>)
    requires
        components(parts),
    ensures
        winpath::pushed(host, root, slashed(parts)) == fs::below(
            root,
            parts.map_values(|c: Seq<char>| winpath::encoded(host, c)),
        ),
        host == Host::Posix ==> winpath::pushed(host, root, slashed(parts)) == (PathView {
            anchor: root.anchor,
            parts: root.parts + parts,
        }),
{
    if parts.len() > 0 {
        lemma_slashed_pieces(parts);
        lemma_down(host, root.parts, parts);
    } else {
        let none = Seq::<char>::empty();
        assert(text::pieces(slashed(parts), '/', '\\') =~= seq![none]);
        assert(seq![none].drop_last() =~= Seq::<Seq<char>>::empty());
        assert(winpath::reached(host, root.parts, Seq::empty()) == root.parts);
        assert(winpath::pushed(host, root, slashed(parts)).parts == root.parts);
        assert(root.parts + parts.map_values(|c: Seq<char>| winpath::encoded(host, c))
            =~= root.parts);
    }
    if host == Host::Posix {
        assert(parts.map_values(|c: Seq<char>| winpath::encoded(host, c)) =~= parts);
    }
}

/// On Posix a name is stored as it is; on Windows so is a name that can be.
pub proof fn names_are_stored_as_they_are(name: Seq<char>)
    ensures
        winpath::encoded(Host::Posix, name) == name,
        winpath::legal_on_windows(name) ==> winpath::encoded(Host::Windows, name) == name,
{
}

/// The components of an absolute path are those it is written with.
pub proof fn lemma_rooted(parts: Seq<Seq<char>>)
    requires
        components(parts),
    ensures
        fsutil::guest_components(rooted(parts)) == parts,
        fsutil::absolute(parts) == rooted(parts),
        fsutil::normalized(rooted(parts)) == rooted(parts),
{
    lemma_dots();
    lemma_slashed(parts);
    let empty = Seq::<char>::empty();
    let all = seq![empty] + parts;
    assert forall|i: int| 0 <= i < parts.len() implies !(#[trigger] parts[i]).contains('/') by {
        assert(component(parts[i]));
    }
    if parts.len() == 0 {
        assert(rooted(parts) =~= seq!['/']);
        assert(seq!['/'].drop_last() =~= empty);
        assert(text::split_at_char(empty, '/') =~= seq![empty]);
        assert(text::split_at_char(rooted(parts), '/') =~= seq![empty, empty]);
        let p = seq![empty, empty];
        assert(p.drop_last() =~= seq![empty]);
        assert(seq![empty].drop_last() =~= Seq::<Seq<char>>::empty());
        assert(winpath::reached(Host::Posix, Seq::empty(), Seq::<Seq<char>>::empty()) =~= parts);
        assert(winpath::reached(Host::Posix, Seq::empty(), seq![empty]) =~= parts);
        assert(fsutil::guest_components(rooted(parts)) =~= parts);
    } else {
        text::lemma_split_joined(parts, '/');
        text::lemma_split_at_first(empty, '/', slashed(parts));
        assert(empty + seq!['/'] + slashed(parts) =~= rooted(parts));
        assert(text::split_at_char(rooted(parts), '/') == all);
        lemma_reached_add(Seq::empty(), seq![empty], parts);
        assert(seq![empty].drop_last() =~= Seq::<Seq<char>>::empty());
        assert(winpath::reached(Host::Posix, Seq::empty(), Seq::<Seq<char>>::empty()).len() == 0);
        assert(winpath::reached(Host::Posix, Seq::empty(), seq![empty]) =~= Seq::<
            Seq<char>,
        >::empty());
        lemma_down(Host::Posix, Seq::empty(), parts);
        assert(Seq::<Seq<char>>::empty() + parts.map_values(
            |c: Seq<char>| winpath::encoded(Host::Posix, c),
        ) =~= parts);
    }
    assert(fsutil::absolute(parts) =~= rooted(parts));
}

/// Two ways in a row.
pub proof fn lemma_reached_add(base: Seq<Seq<char>>, a: Seq<Seq<char>>, b: Seq<Seq<char>>)
    ensures
        winpath::reached(Host::Posix, base, a + b) == winpath::reached(
            Host::Posix,
            winpath::reached(Host::Posix, base, a),
            b,
        ),
    decreases b.len(),
{
    if b.len() == 0 {
        assert(a + b =~= a);
    } else {
        assert((a + b).drop_last() =~= a + b.drop_last());
        assert((a + b).last() == b.last());
        lemma_reached_add(base, a, b.drop_last());
    }
}

/// Taken relative to a directory, an absolute path is itself, a relative one continues
/// the directory, `..` is the directory above and `.` the directory itself.
pub proof fn paths_are_taken_relative_to_a_directory(
    dir: Seq<Seq<char>>,
    rel: Seq<Seq<char>>,
    any: Seq<char>,
)
    requires
        components(dir),
        components(rel),
    ensures
        fsutil::workdir_joined(any, rooted(rel)) == rooted(rel),
        rel.len() > 0 ==> fsutil::workdir_joined(rooted(dir), slashed(rel)) == rooted(dir + rel),
        dir.len() > 0 ==> fsutil::workdir_joined(rooted(dir), seq!['.', '.']) == rooted(
            dir.drop_last(),
        ),
        fsutil::workdir_joined(rooted(dir), seq!['.']) == rooted(dir),
{
    lemma_dots();
    lemma_rooted(rel);
    assert forall|i: int| 0 <= i < (dir + rel).len() implies component(
        #[trigger] (dir + rel)[i],
    ) by {
        if i < dir.len() {
            assert((dir + rel)[i] == dir[i]);
        } else {
            assert((dir + rel)[i] == rel[i - dir.len()]);
        }
    }
    lemma_rooted(dir + rel);
    lemma_rooted(dir);
    if rel.len() > 0 {
        lemma_slashed_pieces(rel);
        if dir.len() == 0 {
            assert(dir + rel =~= rel);
            assert(rooted(dir) =~= seq!['/']);
            assert(rooted(dir) + slashed(rel) =~= rooted(dir + rel));
        } else {
            lemma_slashed_pieces(dir);
            lemma_slashed_add(dir, rel);
            assert(rooted(dir).last() == slashed(dir).last());
            assert(rooted(dir) + "/"@ + slashed(rel) =~= rooted(dir + rel));
        }
    }
    lemma_dot_behind(dir, seq!['.', '.']);
    lemma_dot_behind(dir, seq!['.']);
    if dir.len() > 0 {
        assert forall|i: int| 0 <= i < dir.drop_last().len() implies component(
            #[trigger] dir.drop_last()[i],
        ) by {
            assert(dir.drop_last()[i] == dir[i]);
        }
        lemma_rooted(dir.drop_last());
    }
}

/// What a special piece behind an absolute path leads to.
proof fn lemma_dot_behind(dir: Seq<Seq<char>>, dots: Seq<char>)
    requires
        components(dir),
        dots == seq!['.', '.'] || dots == seq!['.'],
    ensures
        fsutil::workdir_joined(rooted(dir), dots) == fsutil::absolute(
            if dots.len() == 2 && dir.len() > 0 {
                dir.drop_last()
            } else {
                dir
            },
        ),
{
    lemma_dots();
    lemma_rooted(dir);
    assert(dots[0] == '.');
    assert(!dots.contains('/'));
    let all = rooted(dir) + if dir.len() == 0 {
        dots
    } else {
        seq!['/'] + dots
    };
    let whole = if dir.len() == 0 {
        rooted(dir) + dots
    } else {
        rooted(dir) + "/"@ + dots
    };
    assert(all =~= whole);
    if dir.len() > 0 {
        lemma_slashed_pieces(dir);
        assert(rooted(dir).last() == slashed(dir).last());
        let s = rooted(dir) + seq!['/'];
        assert(s.drop_last() =~= rooted(dir));
        let before = text::split_at_char(rooted(dir), '/');
        assert(text::split_at_char(s, '/') == before.push(Seq::<char>::empty()));
        text::lemma_pieces_extend(s, dots, '/');
        assert(Seq::<char>::empty() + dots =~= dots);
        assert(before.push(Seq::<char>::empty()).drop_last().push(dots) =~= before.push(dots));
        assert(s + dots =~= whole);
        assert(text::split_at_char(whole, '/') == before.push(dots));
        assert(before.push(dots).drop_last() =~= before);
    } else {
        let empty = Seq::<char>::empty();
        assert(rooted(dir) =~= seq!['/']);
        assert(rooted(dir).last() == '/');
        let before = text::split_at_char(rooted(dir), '/');
        assert(seq!['/'].drop_last() =~= empty);
        assert(text::split_at_char(empty, '/') =~= seq![empty]);
        assert(before =~= seq![empty, empty]);
        text::lemma_pieces_extend(rooted(dir), dots, '/');
        assert(empty + dots =~= dots);
        assert(before.drop_last().push(dots) =~= seq![empty, dots]);
        let p = seq![empty, dots];
        assert(p.drop_last() =~= seq![empty]);
        assert(seq![empty].drop_last() =~= Seq::<Seq<char>>::empty());
        assert(winpath::reached(Host::Posix, Seq::empty(), Seq::<Seq<char>>::empty()) =~= dir);
        assert(winpath::reached(Host::Posix, Seq::empty(), seq![empty]) =~= dir);
        assert(winpath::reached(Host::Posix, Seq::empty(), p) =~= dir);
    }
}

/// An absolute Linux path, its slash taken off, names the place below a root to which
/// its components lead.
pub proof fn lemma_absolute_on_host(host: Host, root: PathView, parts: Seq<Seq<char>>)
    requires
        components(parts),
    ensures
        winpath::pushed(host, root, fsutil::without_leading(rooted(parts), '/')) == fs::below(
            root,
            parts.map_values(|c: Seq<char>| winpath::encoded(host, c)),
        ),
        host == Host::Posix ==> winpath::pushed(
            host,
            root,
            fsutil::without_leading(rooted(parts), '/'),
        ) == (PathView { anchor: root.anchor, parts: root.parts + parts }),
{
    relative_paths_lead_down(host, root, parts);
    assert(rooted(parts).skip(1) =~= slashed(parts));
    if parts.len() > 0 {
        lemma_slashed_pieces(parts);
    }
    assert(fsutil::without_leading(slashed(parts), '/') == slashed(parts));
}

/// `WORKDIR` with an absolute path sets the working directory to it; with a relative
/// one it continues the working directory. The directory is made in the root
/// filesystem, and nothing else of the stage changes.
pub proof fn workdir_is_set_and_made(
    host: Host,
    state: StateView,
    inst: Instruction,
    globals: Map<Seq<char>, Seq<char>>,
    network: NetworkMode,
    dir: Seq<Seq<char>>,
    rel: Seq<Seq<char>>,
)
    requires
        inst is Workdir,
        components(dir),
        components(rel),
        state.meta.working_dir == rooted(dir),
        ({
            let path = expand::expanded(inst->Workdir_path@, state.vars());
            path == rooted(rel) || rel.len() > 0 && path == slashed(rel)
        }),
    ensures
        ({
            let path = expand::expanded(inst->Workdir_path@, state.vars());
            let parts = if path == rooted(rel) {
                rel
            } else {
                dir + rel
            };
            let after = stage::applied(state, inst, globals);
            &&& instructions::verbatim(inst->Workdir_path@) ==> path == inst->Workdir_path@
            &&& after == (StateView {
                meta: MetaView { working_dir: rooted(parts), ..state.meta },
                ..state
            })
            &&& stage::work_of(host, after, inst, network) matches Ok(WorkView::MakeDir(p))
                && p == fs::below(
                state.rootfs,
                parts.map_values(|c: Seq<char>| winpath::encoded(host, c)),
            )
        }),
{
    let path = expand::expanded(inst->Workdir_path@, state.vars());
    paths_are_taken_relative_to_a_directory(dir, rel, state.meta.working_dir);
    if instructions::verbatim(inst->Workdir_path@) {
        expand::plain_text_is_kept(inst->Workdir_path@, state.vars());
    }
    let parts = if path == rooted(rel) {
        rel
    } else {
        dir + rel
    };
    assert forall|i: int| 0 <= i < parts.len() implies component(#[trigger] parts[i]) by {
        if path != rooted(rel) {
            if i < dir.len() {
                assert(parts[i] == dir[i]);
            } else {
                assert(parts[i] == rel[i - dir.len()]);
            }
        }
    }
    lemma_absolute_on_host(host, state.rootfs, parts);
}

/// The place of a `COPY` or `ADD` in the guest: its destination with variables
/// replaced, an absolute one as it stands, a relative one below the working directory.
pub proof fn destinations_are_taken_from_the_working_directory(
    host: Host,
    state: StateView,
    inst: Instruction,
    network: NetworkMode,
    dir: Seq<Seq<char>>,
    rel: Seq<Seq<char>>,
)
    requires
        components(dir),
        components(rel),
        state.meta.working_dir == rooted(dir),
        match inst {
            Instruction::Copy { destination, .. } => {
                let path = expand::expanded(destination@, state.vars());
                path == rooted(rel) || rel.len() > 0 && path == slashed(rel)
            },
            Instruction::Add { destination, .. } => {
                let path = expand::expanded(destination@, state.vars());
                path == rooted(rel) || rel.len() > 0 && path == slashed(rel)
            },
            _ => false,
        },
    ensures
        ({
            let written = match inst {
                Instruction::Copy { destination, .. } => destination@,
                Instruction::Add { destination, .. } => destination@,
                _ => Seq::empty(),
            };
            let path = expand::expanded(written, state.vars());
            let place = if path == rooted(rel) {
                rooted(rel)
            } else {
                rooted(dir + rel)
            };
            &&& instructions::verbatim(written) ==> path == written
            &&& match stage::work_of(host, state, inst, network) {
                Ok(WorkView::Copy { dest_guest, .. }) => inst is Copy && dest_guest == place,
                Ok(WorkView::Add { dest_guest, .. }) => inst is Add && dest_guest == place,
                _ => false,
            }
        }),
{
    let written = match inst {
        Instruction::Copy { destination, .. } => destination@,
        Instruction::Add { destination, .. } => destination@,
        _ => Seq::empty(),
    };
    if instructions::verbatim(written) {
        expand::plain_text_is_kept(written, state.vars());
    }
    paths_are_taken_relative_to_a_directory(dir, rel, state.meta.working_dir);
}

/// A source of a finished stage stands below that stage's root filesystem: an absolute
/// path there, a relative one below the stage's working directory.
pub proof fn stage_sources_stand_in_the_stage(
    host: Host,
    rootfs: PathView,
    dir: Seq<Seq<char>>,
    rel: Seq<Seq<char>>,
)
    requires
        components(dir),
        components(rel),
    ensures
        cache::stage_path(host, rootfs, rooted(dir), rooted(rel)) == fs::below(
            rootfs,
            rel.map_values(|c: Seq<char>| winpath::encoded(host, c)),
        ),
        rel.len() > 0 ==> cache::stage_path(host, rootfs, rooted(dir), slashed(rel))
            == fs::below(
            rootfs,
            (dir + rel).map_values(|c: Seq<char>| winpath::encoded(host, c)),
        ),
{
    paths_are_taken_relative_to_a_directory(dir, rel, Seq::empty());
    lemma_absolute_on_host(host, rootfs, rel);
    if rel.len() > 0 {
        lemma_slashed_pieces(rel);
        let parts = dir + rel;
        assert forall|i: int| 0 <= i < parts.len() implies component(#[trigger] parts[i]) by {
            if i < dir.len() {
                assert(parts[i] == dir[i]);
            } else {
                assert(parts[i] == rel[i - dir.len()]);
            }
        }
        lemma_absolute_on_host(host, rootfs, parts);
    }
}

/// A host path is read from how it is written: an absolute text names its components
/// below the root, and a relative one continues the path that it is joined to.
pub proof fn host_paths_are_read_from_text(base: PathView, rel: Seq<Seq<char>>)
    requires
        components(rel),
        rel.len() > 0,
    ensures
        PathView::of(rooted(rel)) == (PathView { anchor: seq!['/'], parts: rel }),
        PathView::of(slashed(rel)) == (PathView { anchor: Seq::empty(), parts: rel }),
        base.joined_with(slashed(rel)) == (PathView {
            anchor: base.anchor,
            parts: base.parts + rel,
        }),
        base.joined_with(rooted(rel)) == (PathView { anchor: seq!['/'], parts: rel }),
        (PathView { anchor: seq!['/'], parts: rel }).shown() == rooted(rel),
{
    lemma_dots();
    lemma_slashed(rel);
    lemma_slashed_pieces(rel);
    let empty = Seq::<char>::empty();
    text::lemma_split_at_first(empty, '/', slashed(rel));
    assert(empty + seq!['/'] + slashed(rel) =~= rooted(rel));
    lemma_named(rel, true);
    lemma_named(rel, false);
    lemma_named_front(rel);
    assert(PathView::of(rooted(rel)).parts =~= rel);
}

proof fn lemma_named(rel: Seq<Seq<char>>, relative: bool)
    requires
        components(rel),
    ensures
        path::named_parts(rel, relative) == rel,
    decreases rel.len(),
{
    lemma_dots();
    if rel.len() > 0 {
        let rest = rel.drop_last();
        assert forall|i: int| 0 <= i < rest.len() implies component(#[trigger] rest[i]) by {
            assert(rest[i] == rel[i]);
        }
        lemma_named(rest, relative);
        assert(component(rel[rel.len() - 1]));
        assert(rest.push(rel.last()) =~= rel);
    } else {
        assert(path::named_parts(rel, relative) =~= rel);
    }
}

proof fn lemma_named_front(rel: Seq<Seq<char>>)
    requires
        components(rel),
    ensures
        path::named_parts(seq![Seq::<char>::empty()] + rel, false) == rel,
    decreases rel.len(),
{
    lemma_dots();
    let all = seq![Seq::<char>::empty()] + rel;
    if rel.len() > 0 {
        let rest = rel.drop_last();
        assert forall|i: int| 0 <= i < rest.len() implies component(#[trigger] rest[i]) by {
            assert(rest[i] == rel[i]);
        }
        lemma_named_front(rest);
        assert(component(rel[rel.len() - 1]));
        assert(all.drop_last() =~= seq![Seq::<char>::empty()] + rest);
        assert(all.last() == rel.last());
        assert(rest.push(rel.last()) =~= rel);
    } else {
        assert(all.drop_last() =~= Seq::<Seq<char>>::empty());
        assert(path::named_parts(all.drop_last(), false) =~= rel);
    }
}

/// A path lies in a directory exactly where further components lead from the directory
/// to it, and the directory above a path is the one that its last component leads from.
pub proof fn paths_lie_in_the_directories_above_them(p: PathView, base: PathView, name: Seq<char>)
    ensures
        p.within(base) <==> exists|rel: Seq<Seq<char>>| p == #[trigger] fs::below(base, rel),
        base.child(name).parent() == Some(base),
        base.child(name).within(base),
        base.parts.len() > 0 ==> (base.parent() matches Some(d) && base == d.child(
            base.parts.last(),
        )),
        base.parts.len() == 0 ==> base.parent() is None,
        p.shown() == p.anchor + slashed(p.parts),
{
    lemma_slashed(p.parts);
    let n = base.parts.len() as int;
    if p.within(base) {
        let rel = p.parts.skip(n);
        assert(p.parts =~= base.parts + rel);
        assert(p == fs::below(base, rel));
    }
    if exists|rel: Seq<Seq<char>>| p == #[trigger] fs::below(base, rel) {
        let rel = choose|rel: Seq<Seq<char>>| p == #[trigger] fs::below(base, rel);
        assert((base.parts + rel).take(n) =~= base.parts);
    }
    let c = base.child(name);
    assert(c.parts.drop_last() =~= base.parts);
    assert(c.parts.take(n) =~= base.parts);
    if base.parts.len() > 0 {
        assert(base.parts.drop_last().push(base.parts.last()) =~= base.parts);
    }
}

} // verus!
