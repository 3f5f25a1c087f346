//! Where `COPY`, `ADD` and here-documents put their files.

use vstd::prelude::*;
use vstd::utf8::*;

use crate::cache::{self, context_sources, find_donor, is_remote_url, stage_sources, Donor, Source, SourceView};
use crate::dockerfile::Heredoc;
use crate::error::{Error, ErrorView};
use crate::fs::{self, no_steps, push_must, FsOp, FsOpView, Step, StepView};
use crate::path::{HostPath, PathView};
use crate::text::{self, bytes_of, ends_with_char, split, split_any, trim};
use crate::winpath::Host;

verus! {

broadcast use vstd::seq_lib::group_seq_properties;

/// Where the sources of a `COPY` are read from; an error where `--from` names no
/// finished stage.
pub open spec fn copy_places(
    host: Host,
    from: Option<Seq<char>>,
    sources: Seq<Seq<char>>,
    donors: Seq<Donor>,
) -> Result<Seq<SourceView>, Seq<char>> {
    match from {
        None => Ok(sources.map_values(|s: Seq<char>| SourceView::Context(s))),
        Some(stage) => {
            let d = cache::last_donor(donors, stage);
            if sources.len() == 0 {
                Ok(Seq::empty())
            } else if d < 0 {
                Err("unknown COPY --from stage '"@ + stage + "'"@)
            } else {
                Ok(
                    sources.map_values(
                        |s: Seq<char>|
                            SourceView::Stage(
                                cache::stage_path(
                                    host,
                                    donors[d].rootfs@,
                                    donors[d].working_dir@,
                                    s,
                                ),
                            ),
                    ),
                )
            }
        },
    }
}

/// Where the sources of a `COPY` are read from.
pub fn copy_sources(
    host: Host,
    from: &Option<String>,
    sources: &Vec<String>,
    donors: &Vec<Donor>,
) -> (r: Result<Vec<Source>, Error>)
    ensures
        match r {
            Ok(v) => copy_places(host, from.deep_view(), sources.deep_view(), donors@) == Ok::<
                Seq<SourceView>,
                Seq<char>,
            >(cache::source_views(v@)),
            Err(e) => copy_places(
                host,
                from.deep_view(),
                sources.deep_view(),
                donors@,
            ) matches Err(m) && e@ == ErrorView::Other(m),
        },
{
    match from {
        None => Ok(context_sources(sources)),
        Some(stage) => {
            if sources.len() == 0 {
                let none: Vec<Source> = Vec::new();
                assert(cache::source_views(none@) =~= Seq::<SourceView>::empty());
                return Ok(none);
            }
            match find_donor(donors, stage.as_str()) {
                None => Err(
                    Error::Other(
                        "unknown COPY --from stage '".to_owned().concat(stage.as_str()).concat("'"),
                    ),
                ),
                Some(d) => Ok(stage_sources(host, d, sources)),
            }
        },
    }
}

/// Where one source goes, and which directory has to be there first.
#[derive(Debug)]
pub struct Target {
    /// Steps to perform before the copy.
    pub prepare: Vec<Step>,
    /// Where the source goes; an error once the steps are performed.
    pub path: Result<HostPath, Error>,
}

/// The directory that has to exist before something is put to `dest` itself.
pub open spec fn parent_steps(dest: PathView) -> Seq<StepView> {
    match dest.parent() {
        Some(p) => seq![fs::must(FsOpView::CreateDirAll(p))],
        None => Seq::empty(),
    }
}

/// Create the parent directory of `dest`.
pub fn make_parent(dest: &HostPath) -> (r: Vec<Step>)
    ensures
        fs::step_views(r@) == parent_steps(dest@),
{
    let mut steps = no_steps();
    match dest.parent() {
        Some(p) => {
            push_must(&mut steps, FsOp::CreateDirAll(p));
        },
        None => {},
    }
    assert(fs::step_views(steps@) =~= parent_steps(dest@));
    steps
}

/// Create the directory `dest`.
fn make_dir(dest: &HostPath) -> (r: Vec<Step>)
    ensures
        fs::step_views(r@) == seq![fs::must(FsOpView::CreateDirAll(dest@))],
{
    let mut steps = no_steps();
    push_must(&mut steps, FsOp::CreateDirAll(dest.copy()));
    assert(fs::step_views(steps@) =~= seq![fs::must(FsOpView::CreateDirAll(dest@))]);
    steps
}

/// Whether a destination stands for a directory to put files into: it is written
/// with a slash at its end, there are several sources, or a directory is there.
pub open spec fn into_dir(dest_guest: Seq<char>, multi: bool, dest_is_dir: bool) -> bool {
    (dest_guest.len() > 0 && dest_guest.last() == '/') || multi || dest_is_dir
}

/// Whether a destination stands for a directory to put files into.
pub fn goes_into_dir(dest_guest: &str, multi: bool, dest_is_dir: bool) -> (r: bool)
    ensures
        r == into_dir(dest_guest@, multi, dest_is_dir),
{
    ends_with_char(dest_guest, '/') || multi || dest_is_dir
}

/// Where the source at `src` goes: into the directory `dest` under its own name, or to
/// `dest` itself; and which directory has to be there first.
pub open spec fn copy_target(dest: PathView, as_dir: bool, src: PathView) -> (
    Seq<StepView>,
    Result<PathView, ErrorView>,
) {
    if as_dir {
        (
            seq![fs::must(FsOpView::CreateDirAll(dest))],
            match src.file_name() {
                Some(name) => Ok(dest.child(name)),
                None => Err(ErrorView::Other("invalid COPY source"@)),
            },
        )
    } else {
        (parent_steps(dest), Ok(dest))
    }
}

/// Where the source at `src_host` goes: into the directory `dest_host` under its
/// own name, or to `dest_host` itself.
pub fn copy_dest_path(dest_host: &HostPath, as_dir: bool, src_host: &HostPath) -> (r: Target)
    ensures
        ({
            let (steps, path) = copy_target(dest_host@, as_dir, src_host@);
            &&& fs::step_views(r.prepare@) == steps
            &&& match r.path {
                Ok(p) => path == Ok::<PathView, ErrorView>(p@),
                Err(e) => path == Err::<PathView, ErrorView>(e@),
            }
        }),
{
    if as_dir {
        let path = match src_host.file_name() {
            Some(name) => Ok(dest_host.join(name.as_str())),
            None => Err(Error::other("invalid COPY source")),
        };
        Target { prepare: make_dir(dest_host), path }
    } else {
        Target { prepare: make_parent(dest_host), path: Ok(dest_host.copy()) }
    }
}

/// The last component of an address, without query and fragment and without
/// white space around it; `download` where that is empty.
pub open spec fn url_name(url: Seq<char>) -> Seq<char> {
    let plain = text::pieces(url, '?', '#')[0];
    let name = text::trimmed(text::split_at_char(plain, '/').last());
    if name.len() == 0 {
        "download"@
    } else {
        name
    }
}

/// The file name for what is fetched from an address.
pub fn url_filename(url: &str) -> (r: String)
    ensures
        r@ == url_name(url@),
{
    let parts = split_any(url, '?', '#');
    proof {
        text::lemma_pieces_free(url@, '?', '#');
    }
    let plain = parts[0].as_str();
    let names = split(plain, '/');
    proof {
        text::lemma_pieces_free(plain@, '/', '/');
        assert(names.deep_view().len() == names@.len());
    }
    let name = trim(names[names.len() - 1].as_str());
    if name.as_str().is_empty() {
        "download".to_owned()
    } else {
        name
    }
}

/// Where what is fetched from an address goes.
pub fn url_dest_path(dest_host: &HostPath, as_dir: bool, url: &str) -> (r: (Vec<Step>, HostPath))
    ensures
        if as_dir {
            &&& fs::step_views(r.0@) == seq![fs::must(FsOpView::CreateDirAll(dest_host@))]
            &&& r.1@ == dest_host@.joined_with(url_name(url@))
        } else {
            &&& fs::step_views(r.0@) == parent_steps(dest_host@)
            &&& r.1@ == dest_host@
        },
{
    if as_dir {
        (make_dir(dest_host), dest_host.join_text(url_filename(url).as_str()))
    } else {
        (make_parent(dest_host), dest_host.copy())
    }
}

/// Where the remote source `url` of an `ADD` with `count` sources goes, and which
/// directory has to be there first: several sources need a directory as their
/// destination.
pub open spec fn url_target(
    dest: PathView,
    dest_guest: Seq<char>,
    count: nat,
    dest_is_dir: bool,
    url: Seq<char>,
) -> Result<(Seq<StepView>, PathView), ErrorView> {
    if count > 1 && !into_dir(dest_guest, false, dest_is_dir) {
        Err(
            ErrorView::Other("when ADD has multiple sources, destination must be a directory"@),
        )
    } else if into_dir(dest_guest, count > 1, dest_is_dir) {
        Ok((seq![fs::must(FsOpView::CreateDirAll(dest))], dest.joined_with(url_name(url))))
    } else {
        Ok((parent_steps(dest), dest))
    }
}

/// Where the remote source `url` of an `ADD` with `count` sources goes.
pub fn add_remote(
    dest: &HostPath,
    dest_guest: &str,
    count: usize,
    dest_is_dir: bool,
    url: &str,
) -> (r: Result<(Vec<Step>, HostPath), Error>)
    ensures
        match r {
            Ok(t) => url_target(dest@, dest_guest@, count as nat, dest_is_dir, url@) == Ok::<
                (Seq<StepView>, PathView),
                ErrorView,
            >((fs::step_views(t.0@), t.1@)),
            Err(e) => url_target(dest@, dest_guest@, count as nat, dest_is_dir, url@) == Err::<
                (Seq<StepView>, PathView),
                ErrorView,
            >(e@),
        },
{
    if count > 1 && !goes_into_dir(dest_guest, false, dest_is_dir) {
        return Err(
            Error::other("when ADD has multiple sources, destination must be a directory"),
        );
    }
    Ok(url_dest_path(dest, goes_into_dir(dest_guest, count > 1, dest_is_dir), url))
}

/// The sources of an `ADD` that are fetched, or those that are not.
pub open spec fn sources_where(sources: Seq<Seq<char>>, remote: bool) -> Seq<Seq<char>>
    decreases sources.len(),
{
    if sources.len() == 0 {
        Seq::empty()
    } else {
        let before = sources_where(sources.drop_last(), remote);
        if cache::remote_url(sources.last()) == remote {
            before.push(sources.last())
        } else {
            before
        }
    }
}

/// The sources of an `ADD`: those that are fetched, and those that are copied
/// from the build context afterwards, each in their order.
pub fn split_sources(sources: &Vec<String>) -> (r: (Vec<String>, Vec<String>))
    ensures
        r.0.deep_view() == sources_where(sources.deep_view(), true),
        r.1.deep_view() == sources_where(sources.deep_view(), false),
{
    let mut remote: Vec<String> = Vec::new();
    let mut local: Vec<String> = Vec::new();
    let ghost all = sources.deep_view();
    assert(remote.deep_view() =~= sources_where(all.take(0), true));
    assert(local.deep_view() =~= sources_where(all.take(0), false));
    for i in 0..sources.len()
        invariant
            all == sources.deep_view(),
            remote.deep_view() == sources_where(all.take(i as int), true),
            local.deep_view() == sources_where(all.take(i as int), false),
    {
        assert(all.take(i + 1).drop_last() =~= all.take(i as int));
        let ghost a = remote.deep_view();
        let ghost b = local.deep_view();
        if is_remote_url(sources[i].as_str()) {
            remote.push(sources[i].clone());
            assert(remote.deep_view() =~= a.push(all[i as int]));
        } else {
            local.push(sources[i].clone());
            assert(local.deep_view() =~= b.push(all[i as int]));
        }
    }
    assert(all.take(all.len() as int) =~= all);
    (remote, local)
}

/// Why an address could not be fetched.
#[derive(Debug)]
pub enum FetchFailure {
    /// There is no HTTP client.
    Client(String),
    /// The request failed.
    Send(String),
    /// The answer has this unsuccessful status.
    Status(String),
    /// The body could not be read.
    Read(String),
    /// The file could not be written.
    Write(HostPath, String),
}

/// The message for a failed fetch.
pub open spec fn fetch_message(url: Seq<char>, failure: FetchFailure) -> Seq<char> {
    match failure {
        FetchFailure::Client(e) => "ADD: http client error: "@ + e@,
        FetchFailure::Send(e) => "ADD: failed to fetch '"@ + url + "': "@ + e@,
        FetchFailure::Status(s) => "ADD: failed to fetch '"@ + url + "': HTTP "@ + s@,
        FetchFailure::Read(e) => "ADD: failed to read '"@ + url + "': "@ + e@,
        FetchFailure::Write(p, e) => write_message(p@, e@),
    }
}

/// The message for a fetched file that could not be written.
pub open spec fn write_message(path: PathView, reason: Seq<char>) -> Seq<char> {
    "ADD: failed to write '"@ + path.shown() + "': "@ + reason
}

/// The error for a failed fetch.
pub fn fetch_error(url: &str, failure: &FetchFailure) -> (r: Error)
    ensures
        r@ == ErrorView::Other(fetch_message(url@, *failure)),
{
    let message = match failure {
        FetchFailure::Client(e) => "ADD: http client error: ".to_owned().concat(e.as_str()),
        FetchFailure::Send(e) => "ADD: failed to fetch '".to_owned().concat(url).concat(
            "': ",
        ).concat(e.as_str()),
        FetchFailure::Status(s) => "ADD: failed to fetch '".to_owned().concat(url).concat(
            "': HTTP ",
        ).concat(s.as_str()),
        FetchFailure::Read(e) => "ADD: failed to read '".to_owned().concat(url).concat(
            "': ",
        ).concat(e.as_str()),
        FetchFailure::Write(p, e) => "ADD: failed to write '".to_owned().concat(
            p.to_text().as_str(),
        ).concat("': ").concat(e.as_str()),
    };
    Error::Other(message)
}

/// One file for each here-document, under its delimiter.
pub open spec fn heredoc_files(dest: PathView, heredocs: Seq<Heredoc>) -> Seq<StepView> {
    heredocs.map_values(
        |h: Heredoc|
            fs::must(
                FsOpView::Write(dest.joined_with(h.delimiter@), encode_utf8(h.body@)),
            ),
    )
}

/// The bodies of all here-documents in a row.
pub open spec fn heredoc_text(heredocs: Seq<Heredoc>) -> Seq<char>
    decreases heredocs.len(),
{
    if heredocs.len() == 0 {
        Seq::empty()
    } else {
        heredoc_text(heredocs.drop_last()) + heredocs.last().body@
    }
}

/// How the here-documents of a `COPY` or `ADD` are written: one file each into a
/// directory, or all of them into one file.
pub open spec fn heredoc_steps(
    dest: PathView,
    dest_guest: Seq<char>,
    dest_is_dir: bool,
    heredocs: Seq<Heredoc>,
) -> Seq<StepView> {
    if heredocs.len() == 0 {
        Seq::empty()
    } else if into_dir(dest_guest, false, dest_is_dir) {
        seq![fs::must(FsOpView::CreateDirAll(dest))] + heredoc_files(dest, heredocs)
    } else {
        parent_steps(dest).push(
            fs::must(FsOpView::Write(dest, encode_utf8(heredoc_text(heredocs)))),
        )
    }
}

/// Plan how the here-documents of a `COPY` or `ADD` are written.
pub fn write_heredocs(
    dest: &HostPath,
    heredocs: &Vec<Heredoc>,
    dest_guest: &str,
    dest_is_dir: bool,
) -> (r: Vec<Step>)
    ensures
        fs::step_views(r@) == heredoc_steps(dest@, dest_guest@, dest_is_dir, heredocs@),
{
    if heredocs.len() == 0 {
        return no_steps();
    }
    if goes_into_dir(dest_guest, false, dest_is_dir) {
        let mut steps = make_dir(dest);
        let ghost head = fs::step_views(steps@);
        assert(head + heredoc_files(dest@, heredocs@.take(0)) =~= head);
        for i in 0..heredocs.len()
            invariant
                fs::step_views(steps@) == head + heredoc_files(dest@, heredocs@.take(i as int)),
        {
            let path = dest.join_text(heredocs[i].delimiter.as_str());
            push_must(&mut steps, FsOp::Write(path, bytes_of(heredocs[i].body.as_str())));
            assert(fs::step_views(steps@) =~= head + heredoc_files(dest@, heredocs@.take(i + 1)));
        }
        assert(heredocs@.take(heredocs@.len() as int) =~= heredocs@);
        steps
    } else {
        let mut steps = make_parent(dest);
        let mut body = String::new();
        assert(body@ =~= heredoc_text(heredocs@.take(0)));
        for i in 0..heredocs.len()
            invariant
                body@ == heredoc_text(heredocs@.take(i as int)),
        {
            assert(heredocs@.take(i + 1).drop_last() =~= heredocs@.take(i as int));
            body.append(heredocs[i].body.as_str());
        }
        assert(heredocs@.take(heredocs@.len() as int) =~= heredocs@);
        push_must(&mut steps, FsOp::Write(dest.copy(), bytes_of(body.as_str())));
        steps
    }
}

} // verus!
