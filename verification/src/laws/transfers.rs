//! Where the files of `COPY` and `ADD` come from and where they go.

use vstd::prelude::*;
use vstd::utf8::encode_utf8;

use crate::backend::NetworkMode;
use crate::cache::{self, Donor, SourceView};
use crate::copying;
use crate::dockerfile::{self, Heredoc, Instruction};
use crate::error::ErrorView;
use crate::executor;
use crate::expand;
use crate::fs::{FsOpView, StepView};
use crate::laws::instructions;
use crate::laws::paths;
use crate::path::PathView;
use crate::stage::{self, StateView, WorkView};
use crate::text;
use crate::transfer::{self, TransferPhaseView, TransferPlan, TransferTaskView};
use crate::winpath::Host;

verus! {

broadcast use vstd::seq_lib::group_seq_properties;

/// The place of this name in the directory `dir`.
pub open spec fn in_dir(dir: PathView, name: Seq<char>) -> PathView {
    PathView { anchor: dir.anchor, parts: dir.parts.push(name) }
}

/// A step that has to succeed.
pub open spec fn required(op: FsOpView) -> StepView {
    StepView { op, required: true }
}

/// Whether a source in hand at `src` is read next for the place `to`, once these steps
/// are done.
pub open spec fn read_for(
    after: Result<(TransferPhaseView, TransferTaskView), ErrorView>,
    i: int,
    src: PathView,
    to: PathView,
    first: Seq<StepView>,
) -> bool {
    after matches Ok((phase, task)) && {
        &&& phase == TransferPhaseView::Reading(i, src, to)
        &&& task == (TransferTaskView::Read { steps: first, path: src })
    }
}

/// A path that names a file or a directory by its last component.
pub open spec fn named(src: PathView) -> bool {
    src.parts.len() > 0 && src.parts.last() != seq!['.'] && src.parts.last() != seq!['.', '.']
}

/// Several sources go into the destination as a directory, whatever stands there: each
/// is read for the place in it that has the source's own name, and the directory is
/// made first. So sources with different names go to different places, and none goes
/// to the place of the destination itself.
pub proof fn several_sources_go_into_a_directory(
    p: TransferPlan,
    i: int,
    j: int,
    a: PathView,
    b: PathView,
    is_dir: bool,
)
    requires
        p.sources.len() > 1,
        named(a),
        named(b),
    ensures
        read_for(
            transfer::after_look(p, TransferPhaseView::Source(i, a), is_dir),
            i,
            a,
            in_dir(p.dest, a.parts.last()),
            seq![required(FsOpView::CreateDirAll(p.dest))],
        ),
        read_for(
            transfer::after_look(p, TransferPhaseView::Source(j, b), is_dir),
            j,
            b,
            in_dir(p.dest, b.parts.last()),
            seq![required(FsOpView::CreateDirAll(p.dest))],
        ),
        in_dir(p.dest, a.parts.last()) != p.dest,
        a.parts.last() != b.parts.last() ==> in_dir(p.dest, a.parts.last()) != in_dir(
            p.dest,
            b.parts.last(),
        ),
{
    paths::lemma_dots();
    assert(in_dir(p.dest, a.parts.last()).parts.len() == p.dest.parts.len() + 1);
    assert(in_dir(p.dest, a.parts.last()).parts.last() == a.parts.last());
    assert(in_dir(p.dest, b.parts.last()).parts.last() == b.parts.last());
}

/// A single source goes into a destination that is a directory, or is written with a
/// slash at its end, under its own name; else it takes the place of the destination,
/// and the directory above is made first.
pub proof fn a_single_source_goes_where_it_is_sent(
    p: TransferPlan,
    src: PathView,
    is_dir: bool,
)
    requires
        p.sources.len() == 1,
        named(src),
        p.dest.parts.len() > 0,
    ensures
        ({
            let after = transfer::after_look(p, TransferPhaseView::Source(0, src), is_dir);
            let ends = p.dest_guest.len() > 0 && p.dest_guest[p.dest_guest.len() - 1] == '/';
            if is_dir || ends {
                read_for(
                    after,
                    0,
                    src,
                    in_dir(p.dest, src.parts.last()),
                    seq![required(FsOpView::CreateDirAll(p.dest))],
                )
            } else {
                read_for(
                    after,
                    0,
                    src,
                    p.dest,
                    seq![
                        required(
                            FsOpView::CreateDirAll(
                                PathView {
                                    anchor: p.dest.anchor,
                                    parts: p.dest.parts.drop_last(),
                                },
                            ),
                        ),
                    ],
                )
            }
        }),
{
    paths::lemma_dots();
}

/// A source without a name of its own cannot go into a directory.
pub proof fn nameless_sources_are_refused(p: TransferPlan, i: int, src: PathView, is_dir: bool)
    requires
        p.sources.len() > 1 || is_dir,
        !named(src),
    ensures
        transfer::after_look(p, TransferPhaseView::Source(i, src), is_dir) matches Ok(
            (phase, task),
        ) && phase is Failed && task is Fail,
{
    paths::lemma_dots();
}

/// Every source has its turn: remote ones first, then the others, each in the order in
/// which they are written, then the here-documents, and nothing after them.
pub proof fn every_source_has_its_turn(p: TransferPlan, i: int)
    requires
        0 <= i,
        transfer::none_remote(p.sources),
    ensures
        i < p.remote.len() ==> transfer::at_url(p, i) == (
            TransferPhaseView::Url(i),
            TransferTaskView::Look,
        ),
        transfer::at_url(p, p.remote.len() as int) == transfer::at_source(p, 0),
        i < p.sources.len() ==> match p.sources[i] {
            SourceView::Context(name) => transfer::at_source(p, i) == (
                TransferPhaseView::Resolving(i),
                TransferTaskView::Resolve(name),
            ),
            SourceView::Stage(path) => transfer::at_source(p, i) == (
                TransferPhaseView::Source(i, path),
                TransferTaskView::Look,
            ),
            SourceView::Url(_) => false,
        },
        p.heredocs.len() > 0 ==> transfer::at_source(p, p.sources.len() as int) == (
            TransferPhaseView::Documents,
            TransferTaskView::Look,
        ),
        p.heredocs.len() == 0 ==> transfer::at_source(p, p.sources.len() as int) == (
            TransferPhaseView::Finished,
            TransferTaskView::Finish(Seq::empty()),
        ),
{
    if i < p.sources.len() {
        assert(!(p.sources[i] is Url));
    }
}

/// Here-documents become one file each in a destination that is a directory, or is
/// written with a slash at its end: the delimiter names the file, and the body is what
/// it holds. Else all bodies in a row become the one file at the destination.
pub proof fn heredocs_become_files(
    p: TransferPlan,
    is_dir: bool,
    names: Seq<Seq<Seq<char>>>,
)
    requires
        p.heredocs.len() > 0,
        p.dest.parts.len() > 0,
        names.len() == p.heredocs.len(),
        forall|k: int|
            0 <= k < names.len() ==> names[k].len() > 0 && paths::components(#[trigger] names[k])
                && p.heredocs[k].delimiter@ == paths::slashed(names[k]),
    ensures
        ({
            let ends = p.dest_guest.len() > 0 && p.dest_guest[p.dest_guest.len() - 1] == '/';
            &&& transfer::after_look(p, TransferPhaseView::Documents, is_dir) matches Ok(
                (TransferPhaseView::Finished, TransferTaskView::Finish(steps)),
            )
            &&& (is_dir || ends) ==> {
                &&& steps.len() == p.heredocs.len() + 1
                &&& steps[0] == required(FsOpView::CreateDirAll(p.dest))
                &&& forall|k: int|
                    #![trigger names[k]]
                    0 <= k < names.len() ==> steps[k + 1] == required(
                        FsOpView::Write(
                            PathView { anchor: p.dest.anchor, parts: p.dest.parts + names[k] },
                            encode_utf8(p.heredocs[k].body@),
                        ),
                    )
            }
            &&& !(is_dir || ends) ==> {
                &&& steps.len() == 2
                &&& steps[0] == required(
                    FsOpView::CreateDirAll(
                        PathView { anchor: p.dest.anchor, parts: p.dest.parts.drop_last() },
                    ),
                )
                &&& steps[1] == required(
                    FsOpView::Write(p.dest, encode_utf8(bodies(p.heredocs))),
                )
            }
        }),
{
    lemma_bodies(p.heredocs);
    let steps = copying::heredoc_steps(p.dest, p.dest_guest, is_dir, p.heredocs);
    assert forall|k: int| #![trigger names[k]] 0 <= k < names.len() implies p.dest.joined_with(
        p.heredocs[k].delimiter@,
    ) == (PathView { anchor: p.dest.anchor, parts: p.dest.parts + names[k] }) by {
        assert(paths::components(names[k]));
        paths::host_paths_are_read_from_text(p.dest, names[k]);
    }
    assert forall|k: int|
        #![trigger names[k]]
        0 <= k < names.len() implies copying::heredoc_files(p.dest, p.heredocs)[k] == required(
        FsOpView::Write(
            PathView { anchor: p.dest.anchor, parts: p.dest.parts + names[k] },
            encode_utf8(p.heredocs[k].body@),
        ),
    ) by {
        assert(p.dest.joined_with(p.heredocs[k].delimiter@) == (PathView {
            anchor: p.dest.anchor,
            parts: p.dest.parts + names[k],
        }));
    }
}

/// The bodies of here-documents in a row.
pub open spec fn bodies(docs: Seq<Heredoc>) -> Seq<char> {
    docs.fold_left(Seq::<char>::empty(), |s: Seq<char>, d: Heredoc| s + d.body@)
}

proof fn lemma_bodies(docs: Seq<Heredoc>)
    ensures
        copying::heredoc_text(docs) == bodies(docs),
    decreases docs.len(),
{
    if docs.len() > 0 {
        lemma_bodies(docs.drop_last());
    }
}

/// A fetched file goes into a destination that is a directory, or is written with a
/// slash at its end, under the last component of its address; else a single one takes
/// the place of the destination, and of several none is taken. The address that is
/// fetched is the one that was written.
pub proof fn fetched_files_go_where_they_are_sent(
    p: TransferPlan,
    i: int,
    is_dir: bool,
    name: Seq<char>,
)
    requires
        0 <= i < p.remote.len(),
        p.dest.parts.len() > 0,
        paths::component(name),
        copying::url_name(p.remote[i]) == name,
    ensures
        ({
            let after = transfer::after_look(p, TransferPhaseView::Url(i), is_dir);
            let ends = p.dest_guest.len() > 0 && p.dest_guest[p.dest_guest.len() - 1] == '/';
            if is_dir || ends {
                after == Ok::<(TransferPhaseView, TransferTaskView), ErrorView>(
                    (
                        TransferPhaseView::Fetching(i, in_dir(p.dest, name)),
                        TransferTaskView::Fetch {
                            steps: seq![required(FsOpView::CreateDirAll(p.dest))],
                            url: p.remote[i],
                        },
                    ),
                )
            } else if p.total > 1 {
                after is Err
            } else {
                after == Ok::<(TransferPhaseView, TransferTaskView), ErrorView>(
                    (
                        TransferPhaseView::Fetching(i, p.dest),
                        TransferTaskView::Fetch {
                            steps: seq![
                                required(
                                    FsOpView::CreateDirAll(
                                        PathView {
                                            anchor: p.dest.anchor,
                                            parts: p.dest.parts.drop_last(),
                                        },
                                    ),
                                ),
                            ],
                            url: p.remote[i],
                        },
                    ),
                )
            }
        }),
{
    let one = seq![name];
    assert(paths::components(one)) by {
        assert forall|k: int| 0 <= k < one.len() implies paths::component(#[trigger] one[k]) by {}
    }
    assert(paths::slashed(one) == name);
    paths::host_paths_are_read_from_text(p.dest, one);
    assert(p.dest.parts + one =~= p.dest.parts.push(name));
}

/// The name of a fetched file is what stands behind the last slash of its address, up
/// to a question mark or a number sign.
pub proof fn addresses_name_their_files(front: Seq<char>, name: Seq<char>, query: Seq<char>)
    requires
        !front.contains('?'),
        !front.contains('#'),
        !name.contains('?'),
        !name.contains('#'),
        !name.contains('/'),
        name.len() > 0,
        !text::white(name[0]),
        !text::white(name.last()),
        query.len() == 0 || query[0] == '?' || query[0] == '#',
    ensures
        copying::url_name(front + seq!['/'] + name + query) == name,
{
    let plain = front + seq!['/'] + name;
    let url = plain + query;
    assert(!plain.contains('?') && !plain.contains('#')) by {
        assert forall|c: char| c == '?' || c == '#' implies !plain.contains(c) by {
            if plain.contains(c) {
                let k = choose|k: int| 0 <= k < plain.len() && plain[k] == c;
                if k < front.len() {
                    assert(front[k] == c);
                } else if k > front.len() {
                    assert(name[k - front.len() - 1] == c);
                }
            }
        }
    }
    lemma_first_piece(plain, query);
    let s = front + seq!['/'];
    assert(s.drop_last() =~= front);
    text::lemma_pieces_free(front, '/', '/');
    text::lemma_pieces_extend(s, name, '/');
    assert(s + name =~= plain);
    assert(text::split_at_char(s, '/').last() =~= Seq::<char>::empty());
    assert(Seq::<char>::empty() + name =~= name);
    assert(text::split_at_char(plain, '/').last() == name);
    text::lemma_trimmed_kept(name);
}

/// What stands before the first separator is the first piece.
proof fn lemma_first_piece(plain: Seq<char>, query: Seq<char>)
    requires
        !plain.contains('?'),
        !plain.contains('#'),
        query.len() == 0 || query[0] == '?' || query[0] == '#',
    ensures
        text::pieces(plain + query, '?', '#').len() > 0,
        text::pieces(plain + query, '?', '#')[0] == plain,
        query.len() == 0 ==> text::pieces(plain + query, '?', '#') == seq![plain],
    decreases plain.len() + query.len(),
{
    let all = plain + query;
    if query.len() > 0 {
        let rest = query.drop_last();
        assert(all.drop_last() =~= plain + rest);
        assert(all.last() == query.last());
        lemma_first_piece(plain, rest);
        let before = text::pieces(plain + rest, '?', '#');
        if query.len() == 1 {
            assert(before == seq![plain]);
        } else {
            lemma_two_pieces(plain, rest);
        }
    } else if plain.len() > 0 {
        assert(all =~= plain);
        let rest = plain.drop_last();
        assert(!rest.contains('?') && !rest.contains('#')) by {
            assert forall|c: char| c == '?' || c == '#' implies !rest.contains(c) by {
                if rest.contains(c) {
                    let k = choose|k: int| 0 <= k < rest.len() && rest[k] == c;
                    assert(plain[k] == c);
                }
            }
        }
        lemma_first_piece(rest, query);
        assert(rest + query =~= rest);
        assert(plain.contains(plain.last()));
        assert(text::pieces(plain, '?', '#') =~= seq![plain]) by {
            assert(rest.push(plain.last()) =~= plain);
            assert(seq![rest].drop_last().push(plain) =~= seq![plain]);
        }
    } else {
        assert(all =~= plain);
        assert(text::pieces(all, '?', '#') =~= seq![plain]);
    }
}

/// Behind a separator there is a second piece.
proof fn lemma_two_pieces(plain: Seq<char>, query: Seq<char>)
    requires
        query.len() > 0,
        query[0] == '?' || query[0] == '#',
    ensures
        text::pieces(plain + query, '?', '#').len() > 1,
    decreases query.len(),
{
    let all = plain + query;
    let rest = query.drop_last();
    assert(all.drop_last() =~= plain + rest);
    assert(all.last() == query.last());
    text::lemma_pieces_free(plain + rest, '?', '#');
    if query.len() > 1 {
        lemma_two_pieces(plain, rest);
    }
}

// ---------------------------------------------------------------------------
// Where sources stand
// ---------------------------------------------------------------------------

/// The last donor with a name is one that has it, and none behind it has; there is
/// none where no donor has the name.
pub proof fn the_last_donor_counts(donors: Seq<Donor>, name: Seq<char>)
    ensures
        ({
            let d = cache::last_donor(donors, name);
            &&& d < 0 <==> forall|i: int|
                0 <= i < donors.len() ==> (#[trigger] donors[i]).name@ != name
            &&& d >= 0 ==> d < donors.len() && donors[d].name@ == name
            &&& forall|i: int|
                d < i < donors.len() && 0 <= i ==> (#[trigger] donors[i]).name@ != name
        }),
    decreases donors.len(),
{
    if donors.len() > 0 {
        let rest = donors.drop_last();
        the_last_donor_counts(rest, name);
        assert(forall|i: int| 0 <= i < rest.len() ==> #[trigger] rest[i] == donors[i]);
        assert(donors[donors.len() - 1] == donors.last());
        if cache::last_donor(donors, name) < 0 {
            assert forall|i: int| 0 <= i < donors.len() implies (#[trigger] donors[i]).name@
                != name by {
                if i < rest.len() {
                    assert(rest[i].name@ != name);
                }
            }
        }
        if forall|i: int| 0 <= i < donors.len() ==> (#[trigger] donors[i]).name@ != name {
            assert forall|i: int| 0 <= i < rest.len() implies (
            #[trigger] rest[i]).name@ != name by {
                assert(donors[i].name@ != name);
            }
        }
        let d = cache::last_donor(donors, name);
        assert forall|i: int| d < i < donors.len() && 0 <= i implies (#[trigger] donors[i]).name@
            != name by {
            if i < rest.len() {
                assert(rest[i].name@ != name);
            }
        }
    }
}

/// A finished stage is found by its number and by its name, with the root filesystem
/// and the working directory that it ended with.
pub proof fn finished_stages_are_found(
    before: Seq<Donor>,
    added: Seq<Donor>,
    idx: nat,
    name: Option<Seq<char>>,
    state: StateView,
    asked: Seq<char>,
)
    requires
        executor::donors_for(added, idx, name, state),
        asked == text::decimal(idx) || name == Some(asked),
    ensures
        ({
            let all = before + added;
            let d = cache::last_donor(all, asked);
            &&& 0 <= d < all.len()
            &&& all[d].rootfs@ == state.rootfs
            &&& all[d].working_dir@ == state.meta.working_dir
        }),
{
    let all = before + added;
    let d = cache::last_donor(all, asked);
    the_last_donor_counts(all, asked);
    let k: int = if asked == text::decimal(idx) {
        0
    } else {
        1
    };
    assert(added[k].name@ == asked);
    assert(all[before.len() + k].name@ == asked);
    assert(d >= before.len() + k);
    assert(all[d] == added[d - before.len()]);
}

/// Without `--from` every source is a name in the build context; with it every source
/// is a path of the last finished stage of that name, and a stage that there is not
/// fails the copy.
pub proof fn copies_come_from_the_context_or_a_stage(
    host: Host,
    sources: Seq<Seq<char>>,
    donors: Seq<Donor>,
    from: Seq<char>,
    d: int,
)
    requires
        sources.len() > 0,
        0 <= d < donors.len(),
        donors[d].name@ == from,
        forall|i: int| d < i < donors.len() ==> (#[trigger] donors[i]).name@ != from,
    ensures
        copying::copy_places(host, None, sources, donors) matches Ok(places) && {
            &&& places.len() == sources.len()
            &&& forall|i: int|
                0 <= i < places.len() ==> #[trigger] places[i] == SourceView::Context(sources[i])
        },
        copying::copy_places(host, Some(from), sources, donors) matches Ok(places) && {
            &&& places.len() == sources.len()
            &&& forall|i: int|
                0 <= i < places.len() ==> #[trigger] places[i] == SourceView::Stage(
                    cache::stage_path(
                        host,
                        donors[d].rootfs@,
                        donors[d].working_dir@,
                        sources[i],
                    ),
                )
        },
        forall|other: Seq<char>|
            (forall|i: int| 0 <= i < donors.len() ==> (#[trigger] donors[i]).name@ != other)
                ==> (#[trigger] copying::copy_places(host, Some(other), sources, donors)) is Err,
{
    the_last_donor_counts(donors, from);
    assert(cache::last_donor(donors, from) == d);
    assert forall|other: Seq<char>|
        (forall|i: int| 0 <= i < donors.len() ==> (#[trigger] donors[i]).name@ != other) implies (
    #[trigger] copying::copy_places(host, Some(other), sources, donors)) is Err by {
        the_last_donor_counts(donors, other);
    }
}

/// What a cache key looks at is what is copied: the sources whose contents enter the
/// key of a `COPY` are those that it copies.
pub proof fn keys_look_at_what_is_copied(
    host: Host,
    state: StateView,
    inst: Instruction,
    donors: Seq<Donor>,
    network: NetworkMode,
)
    requires
        inst is Copy,
    ensures
        stage::work_of(host, state, inst, network) matches Ok(
            WorkView::Copy { from, sources, .. },
        ) && match cache::sources_of(host, inst, state.vars(), donors) {
            Ok(looked) => copying::copy_places(host, from, sources, donors) == Ok::<
                Seq<SourceView>,
                Seq<char>,
            >(looked),
            Err(_) => copying::copy_places(host, from, sources, donors) is Err,
        },
{
}

/// A `COPY` asks for its sources with their variables replaced, one for each that is
/// written and in that order, as written where there are none; and it asks for the
/// stage that its flag names.
pub proof fn copy_asks_for_its_sources(
    host: Host,
    state: StateView,
    inst: Instruction,
    network: NetworkMode,
)
    requires
        inst is Copy,
    ensures
        stage::work_of(host, state, inst, network) matches Ok(
            WorkView::Copy { from, sources, .. },
        ) && {
            &&& from == dockerfile::flag_value(inst->Copy_flags@, "from"@)
            &&& sources.len() == inst->Copy_sources@.len()
            &&& forall|i: int|
                0 <= i < sources.len() ==> #[trigger] sources[i] == expand::expanded(
                    inst->Copy_sources@[i]@,
                    state.vars(),
                )
            &&& forall|i: int|
                0 <= i < sources.len() && instructions::verbatim(inst->Copy_sources@[i]@)
                    ==> #[trigger] sources[i] == inst->Copy_sources@[i]@
        },
{
    let written = inst->Copy_sources@;
    assert forall|i: int| 0 <= i < written.len() && instructions::verbatim(
        (#[trigger] written[i])@,
    ) implies expand::expanded(written[i]@, state.vars()) == written[i]@ by {
        expand::plain_text_is_kept(written[i]@, state.vars());
    }
}

/// An address that is fetched over HTTP, in whatever case its scheme is written.
pub open spec fn over_http(src: Seq<char>) -> bool {
    let low = src.map_values(
        |c: char|
            if c == 'H' {
                'h'
            } else if c == 'T' {
                't'
            } else if c == 'P' {
                'p'
            } else if c == 'S' {
                's'
            } else {
                c
            },
    );
    ||| seq!['h', 't', 't', 'p', ':', '/', '/'].is_prefix_of(low)
    ||| seq!['h', 't', 't', 'p', 's', ':', '/', '/'].is_prefix_of(low)
}

proof fn lemma_over_http(src: Seq<char>)
    ensures
        cache::remote_url(src) == over_http(src),
{
    reveal_strlit("http://");
    reveal_strlit("https://");
    let low = src.map_values(
        |c: char|
            if c == 'H' {
                'h'
            } else if c == 'T' {
                't'
            } else if c == 'P' {
                'p'
            } else if c == 'S' {
                's'
            } else {
                c
            },
    );
    let all = text::lowered(src);
    let a = seq!['h', 't', 't', 'p', ':', '/', '/'];
    let b = seq!['h', 't', 't', 'p', 's', ':', '/', '/'];
    assert("http://"@ =~= a);
    assert("https://"@ =~= b);
    assert forall|i: int| #![trigger all[i]] 0 <= i < src.len() implies {
        &&& (all[i] == 'h') == (low[i] == 'h')
        &&& (all[i] == 't') == (low[i] == 't')
        &&& (all[i] == 'p') == (low[i] == 'p')
        &&& (all[i] == 's') == (low[i] == 's')
        &&& (all[i] == ':') == (low[i] == ':')
        &&& (all[i] == '/') == (low[i] == '/')
    } by {
        assert(all[i] == text::ascii_lower(src[i]));
        assert('H' as u32 + 32 == 'h' as u32);
        assert('T' as u32 + 32 == 't' as u32);
        assert('P' as u32 + 32 == 'p' as u32);
        assert('S' as u32 + 32 == 's' as u32);
    }
    lemma_same_start(all, low, a);
    lemma_same_start(all, low, b);
}

/// Two texts that agree on the letters of a word begin with it together.
proof fn lemma_same_start(x: Seq<char>, y: Seq<char>, word: Seq<char>)
    requires
        x.len() == y.len(),
        forall|i: int|
            #![trigger x[i]]
            0 <= i < x.len() && i < word.len() ==> (x[i] == word[i]) == (y[i] == word[i]),
    ensures
        text::has_prefix(x, word) == word.is_prefix_of(y),
{
    if text::has_prefix(x, word) {
        assert forall|i: int| 0 <= i < word.len() implies word[i] == y[i] by {
            assert(x.take(word.len() as int)[i] == word[i]);
        }
        assert(word =~= y.subrange(0, word.len() as int));
    }
    if word.is_prefix_of(y) {
        assert forall|i: int| 0 <= i < word.len() implies word[i] == x[i] by {
            assert(y.subrange(0, word.len() as int)[i] == word[i]);
        }
        assert(x.take(word.len() as int) =~= word);
    }
}

proof fn lemma_sources_where(sources: Seq<Seq<char>>, remote: bool)
    ensures
        copying::sources_where(sources, remote) == sources.filter(
            |s: Seq<char>| over_http(s) == remote,
        ),
    decreases sources.len(),
{
    reveal(Seq::filter);
    if sources.len() > 0 {
        lemma_sources_where(sources.drop_last(), remote);
        lemma_over_http(sources.last());
    }
}

/// An `ADD` fetches those of its sources that are addresses and copies the others from
/// the build context, each in the order in which they are written.
pub proof fn add_fetches_addresses(
    host: Host,
    state: StateView,
    inst: Instruction,
    network: NetworkMode,
)
    requires
        inst is Add,
        forall|i: int|
            0 <= i < inst->Add_sources@.len() ==> instructions::verbatim(
                (#[trigger] inst->Add_sources@[i])@,
            ),
    ensures
        stage::work_of(host, state, inst, network) matches Ok(
            WorkView::Add { remote, local, total, .. },
        ) && {
            let written = inst->Add_sources@.map_values(|s: String| s@);
            &&& remote == written.filter(|s: Seq<char>| over_http(s) == true)
            &&& local == written.filter(|s: Seq<char>| over_http(s) == false)
            &&& total == inst->Add_sources@.len()
        },
{
    let sources = inst->Add_sources@;
    let written = sources.map_values(|s: String| s@);
    let all = expand::expanded_all(inst->Add_sources.deep_view(), state.vars());
    assert(all =~= written) by {
        assert forall|i: int| 0 <= i < sources.len() implies all[i] == written[i] by {
            assert(instructions::verbatim(sources[i]@));
            expand::plain_text_is_kept(sources[i]@, state.vars());
        }
    }
    lemma_sources_where(all, true);
    lemma_sources_where(all, false);
    let local = copying::sources_where(all, false);
    assert forall|i: int| 0 <= i < written.len() implies instructions::verbatim(
        #[trigger] written[i],
    ) by {
        assert(instructions::verbatim(sources[i]@));
    }
    lemma_where_verbatim(written, false);
    assert(expand::expanded_all(local, state.vars()) =~= local) by {
        assert forall|i: int| 0 <= i < local.len() implies expand::expanded(
            local[i],
            state.vars(),
        ) == local[i] by {
            assert(instructions::verbatim(local[i]));
            expand::plain_text_is_kept(local[i], state.vars());
        }
    }
}

proof fn lemma_where_verbatim(sources: Seq<Seq<char>>, remote: bool)
    requires
        forall|i: int| 0 <= i < sources.len() ==> instructions::verbatim(#[trigger] sources[i]),
    ensures
        forall|i: int|
            0 <= i < copying::sources_where(sources, remote).len() ==> instructions::verbatim(
                #[trigger] copying::sources_where(sources, remote)[i],
            ),
    decreases sources.len(),
{
    if sources.len() > 0 {
        let rest = sources.drop_last();
        assert forall|i: int| 0 <= i < rest.len() implies instructions::verbatim(
            #[trigger] rest[i],
        ) by {
            assert(rest[i] == sources[i]);
        }
        lemma_where_verbatim(rest, remote);
        assert(instructions::verbatim(sources[sources.len() - 1]));
        let before = copying::sources_where(rest, remote);
        let all = copying::sources_where(sources, remote);
        assert forall|i: int| 0 <= i < all.len() implies instructions::verbatim(
            #[trigger] all[i],
        ) by {
            if i < before.len() {
                assert(all[i] == before[i]);
            }
        }
    }
}

} // verus!
