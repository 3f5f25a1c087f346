//! Cache keys and chain ids of build instructions.
//!
//! Each instruction produces a chain id: the SHA-256 digest of the parent's id,
//! a line feed and the instruction's key.

use vstd::prelude::*;
use vstd::utf8::*;

use crate::digest::{self, layer_digest};
use crate::dockerfile::{self, find_flag, ArgDecl, Command, Instruction, Pair};
use crate::error::{Error, ErrorView};
use crate::expand::{self, expand, expand_vec};
use crate::fsutil::{self, guest_to_host, join_workdir};
use crate::hash::{self, hash_path};
use crate::meta::{self, merged_vars, ImageMeta, MetaView};
use crate::order::{self, sort};
use crate::path::{HostPath, PathView};
use crate::platform::{Platform, PlatformView};
use crate::shown::{self, list_literal};
use crate::text::{self, join, same_text, starts_with, starts_with_char, to_lower};
use crate::tree::Node;
use crate::vars::Vars;
use crate::winpath::{self, Host};

verus! {

/// The chain id of an instruction with the key `key` behind the layer `parent`.
pub open spec fn chain(parent: Seq<char>, key: Seq<char>) -> Seq<char> {
    digest::hex(digest::sha256(encode_utf8(parent + "\n"@ + key)))
}

/// Compute the chain id `sha256(parent || "\n" || instruction_key)` as hex.
pub fn chain_id(parent: &str, instruction_key: &str) -> (r: String)
    ensures
        r@ == chain(parent@, instruction_key@),
{
    let all = parent.to_owned().concat("\n").concat(instruction_key);
    layer_digest(all.as_str().as_bytes())
}

/// The key of a `FROM` line.
pub open spec fn from_key(
    base: Seq<char>,
    scratch: bool,
    platform: PlatformView,
    digest: Option<Seq<char>>,
) -> Seq<char> {
    let tail = "|"@ + platform.os + "|"@ + platform.architecture;
    if scratch {
        "FROM scratch"@ + tail
    } else {
        "FROM "@ + base + "|digest="@ + (match digest {
            Some(d) => d,
            None => "unknown"@,
        }) + tail
    }
}

/// Instruction key for a `FROM` line. `digest` is the digest that the store has
/// for the base image, when the base is a reference and the store has one.
pub fn from_cache_key(base: &str, scratch: bool, platform: &Platform, digest: &Option<String>) -> (r:
    String)
    ensures
        r@ == from_key(base@, scratch, platform@, digest.deep_view()),
{
    let tail = "|".to_owned().concat(platform.os.as_str()).concat("|").concat(
        platform.architecture.as_str(),
    );
    if scratch {
        return "FROM scratch".to_owned().concat(tail.as_str());
    }
    let known = match digest {
        Some(d) => d.clone(),
        None => "unknown".to_owned(),
    };
    "FROM ".to_owned().concat(base).concat("|digest=").concat(known.as_str()).concat(tail.as_str())
}

/// A finished stage that `COPY --from` can read.
#[derive(Debug)]
pub struct Donor {
    /// Name or number of the stage.
    pub name: String,
    /// Root filesystem of the stage.
    pub rootfs: HostPath,
    /// Working directory at the end of the stage.
    pub working_dir: String,
}

/// The position of the last donor called `name`, or -1 where there is none.
pub open spec fn last_donor(donors: Seq<Donor>, name: Seq<char>) -> int
    decreases donors.len(),
{
    if donors.len() == 0 {
        -1
    } else if donors.last().name@ == name {
        donors.len() - 1
    } else {
        last_donor(donors.drop_last(), name)
    }
}

/// The last donor called `name`.
pub fn find_donor<'a>(donors: &'a Vec<Donor>, name: &str) -> (r: Option<&'a Donor>)
    ensures
        match r {
            Some(d) => 0 <= last_donor(donors@, name@) < donors@.len() && *d == donors@[last_donor(
                donors@,
                name@,
            )],
            None => last_donor(donors@, name@) == -1,
        },
{
    let mut i: usize = donors.len();
    assert(donors@.take(i as int) =~= donors@);
    while i > 0
        invariant
            i <= donors@.len(),
            last_donor(donors@, name@) == last_donor(donors@.take(i as int), name@),
        decreases i,
    {
        assert(donors@.take(i as int).drop_last() =~= donors@.take(i - 1));
        if same_text(donors[i - 1].name.as_str(), name) {
            return Some(&donors[i - 1]);
        }
        i -= 1;
    }
    None
}

/// Whether an `ADD` source is fetched over HTTP.
pub open spec fn remote_url(src: Seq<char>) -> bool {
    let lower = text::lowered(src);
    text::has_prefix(lower, "http://"@) || text::has_prefix(lower, "https://"@)
}

/// Whether an `ADD` source is fetched over HTTP.
pub fn is_remote_url(src: &str) -> (r: bool)
    ensures
        r == remote_url(src@),
{
    let lower = to_lower(src);
    starts_with(lower.as_str(), "http://") || starts_with(lower.as_str(), "https://")
}

/// Where a source of `COPY` or `ADD` is read from.
#[derive(Debug)]
pub enum Source {
    /// Fetched from this address.
    Url(String),
    /// Read from a path of a finished stage.
    Stage(HostPath),
    /// Read from the build context under this relative name.
    Context(String),
}

/// A [`Source`] with its texts as character sequences.
pub enum SourceView {
    Url(Seq<char>),
    Stage(PathView),
    Context(Seq<char>),
}

impl View for Source {
    type V = SourceView;

    open spec fn view(&self) -> SourceView {
        match self {
            Source::Url(u) => SourceView::Url(u@),
            Source::Stage(p) => SourceView::Stage(p@),
            Source::Context(c) => SourceView::Context(c@),
        }
    }
}

/// The views of several sources.
pub open spec fn source_views(sources: Seq<Source>) -> Seq<SourceView> {
    sources.map_values(|s: Source| s@)
}

/// The host path of a source below the root filesystem of a finished stage.
pub open spec fn stage_path(
    host: Host,
    rootfs: PathView,
    working_dir: Seq<char>,
    src: Seq<char>,
) -> PathView {
    let guest = if src.len() > 0 && src[0] == '/' {
        src
    } else {
        fsutil::workdir_joined(working_dir, src)
    };
    winpath::pushed(host, rootfs, fsutil::without_leading(guest, '/'))
}

/// Where an expanded `ADD` source is read from.
pub open spec fn add_source(src: Seq<char>) -> SourceView {
    if remote_url(src) {
        SourceView::Url(src)
    } else {
        SourceView::Context(src)
    }
}

/// Where the sources of an instruction are read from; an error where `COPY
/// --from` names no finished stage.
pub open spec fn sources_of(
    host: Host,
    inst: Instruction,
    vars: Map<Seq<char>, Seq<char>>,
    donors: Seq<Donor>,
) -> Result<Seq<SourceView>, Seq<char>> {
    match inst {
        Instruction::Copy { sources, flags, .. } => {
            let srcs = expand::expanded_all(sources.deep_view(), vars);
            match dockerfile::flag_value(flags@, "from"@) {
                None => Ok(srcs.map_values(|s: Seq<char>| SourceView::Context(s))),
                Some(stage) => {
                    let d = last_donor(donors, stage);
                    if srcs.len() == 0 {
                        Ok(Seq::empty())
                    } else if d < 0 {
                        Err(
                            "COPY --from="@ + stage + ": stage not available for cache key"@,
                        )
                    } else {
                        Ok(
                            srcs.map_values(
                                |s: Seq<char>|
                                    SourceView::Stage(
                                        stage_path(
                                            host,
                                            donors[d].rootfs@,
                                            donors[d].working_dir@,
                                            s,
                                        ),
                                    ),
                            ),
                        )
                    }
                },
            }
        },
        Instruction::Add { sources, .. } => Ok(
            expand::expanded_all(sources.deep_view(), vars).map_values(
                |s: Seq<char>| add_source(s),
            ),
        ),
        _ => Ok(Seq::empty()),
    }
}

/// The host path of a source below the root filesystem of a finished stage.
pub fn donor_path(host: Host, donor: &Donor, src: &str) -> (r: HostPath)
    ensures
        r@ == stage_path(host, donor.rootfs@, donor.working_dir@, src@),
{
    if starts_with_char(src, '/') {
        guest_to_host(host, &donor.rootfs, src)
    } else {
        guest_to_host(host, &donor.rootfs, join_workdir(donor.working_dir.as_str(), src).as_str())
    }
}

/// The context names of expanded sources.
pub(crate) fn context_sources(srcs: &Vec<String>) -> (r: Vec<Source>)
    ensures
        source_views(r@) == srcs.deep_view().map_values(|s: Seq<char>| SourceView::Context(s)),
{
    let mut out: Vec<Source> = Vec::new();
    let ghost all = srcs.deep_view();
    for i in 0..srcs.len()
        invariant
            all == srcs.deep_view(),
            source_views(out@) == all.take(i as int).map_values(
                |s: Seq<char>| SourceView::Context(s),
            ),
    {
        let ghost seen = source_views(out@);
        out.push(Source::Context(srcs[i].clone()));
        assert(source_views(out@) =~= seen.push(SourceView::Context(all[i as int])));
        assert(source_views(out@) =~= all.take(i + 1).map_values(
            |s: Seq<char>| SourceView::Context(s),
        ));
    }
    assert(all.take(all.len() as int) =~= all);
    out
}

/// The paths of expanded sources below a finished stage.
pub(crate) fn stage_sources(host: Host, donor: &Donor, srcs: &Vec<String>) -> (r: Vec<Source>)
    ensures
        source_views(r@) == srcs.deep_view().map_values(
            |s: Seq<char>|
                SourceView::Stage(stage_path(host, donor.rootfs@, donor.working_dir@, s)),
        ),
{
    let mut out: Vec<Source> = Vec::new();
    let ghost all = srcs.deep_view();
    let ghost f = |s: Seq<char>|
        SourceView::Stage(stage_path(host, donor.rootfs@, donor.working_dir@, s));
    for i in 0..srcs.len()
        invariant
            all == srcs.deep_view(),
            f == (|s: Seq<char>|
                SourceView::Stage(stage_path(host, donor.rootfs@, donor.working_dir@, s))),
            source_views(out@) == all.take(i as int).map_values(f),
    {
        let ghost seen = source_views(out@);
        out.push(Source::Stage(donor_path(host, donor, srcs[i].as_str())));
        assert(source_views(out@) =~= seen.push(f(all[i as int])));
        assert(source_views(out@) =~= all.take(i + 1).map_values(f));
    }
    assert(all.take(all.len() as int) =~= all);
    out
}

/// The places of expanded `ADD` sources.
fn add_sources(srcs: &Vec<String>) -> (r: Vec<Source>)
    ensures
        source_views(r@) == srcs.deep_view().map_values(|s: Seq<char>| add_source(s)),
{
    let mut out: Vec<Source> = Vec::new();
    let ghost all = srcs.deep_view();
    for i in 0..srcs.len()
        invariant
            all == srcs.deep_view(),
            source_views(out@) == all.take(i as int).map_values(|s: Seq<char>| add_source(s)),
    {
        let ghost seen = source_views(out@);
        if is_remote_url(srcs[i].as_str()) {
            out.push(Source::Url(srcs[i].clone()));
        } else {
            out.push(Source::Context(srcs[i].clone()));
        }
        assert(source_views(out@) =~= seen.push(add_source(all[i as int])));
        assert(source_views(out@) =~= all.take(i + 1).map_values(|s: Seq<char>| add_source(s)));
    }
    assert(all.take(all.len() as int) =~= all);
    out
}

/// Where the sources of an instruction are read from.
pub fn key_sources(host: Host, inst: &Instruction, vars: &Vars, donors: &Vec<Donor>) -> (r: Result<
    Vec<Source>,
    Error,
>)
    ensures
        match r {
            Ok(v) => sources_of(host, *inst, vars@, donors@) == Ok::<Seq<SourceView>, Seq<char>>(
                source_views(v@),
            ),
            Err(e) => sources_of(host, *inst, vars@, donors@) matches Err(m) && e@
                == ErrorView::Other(m),
        },
{
    match inst {
        Instruction::Copy { sources, flags, .. } => {
            let srcs = expand_vec(sources, vars);
            match find_flag(flags, "from") {
                None => Ok(context_sources(&srcs)),
                Some(stage) => {
                    if srcs.len() == 0 {
                        let none: Vec<Source> = Vec::new();
                        assert(source_views(none@) =~= Seq::<SourceView>::empty());
                        return Ok(none);
                    }
                    match find_donor(donors, stage.as_str()) {
                        None => Err(
                            Error::Other(
                                "COPY --from=".to_owned().concat(stage.as_str()).concat(
                                    ": stage not available for cache key",
                                ),
                            ),
                        ),
                        Some(d) => Ok(stage_sources(host, d, &srcs)),
                    }
                },
            }
        },
        Instruction::Add { sources, .. } => Ok(add_sources(&expand_vec(sources, vars))),
        _ => {
            let none: Vec<Source> = Vec::new();
            assert(source_views(none@) =~= Seq::<SourceView>::empty());
            Ok(none)
        },
    }
}

/// The number of sources of an instruction.
pub open spec fn source_count(inst: Instruction) -> nat {
    match inst {
        Instruction::Copy { sources, .. } => sources@.len(),
        Instruction::Add { sources, .. } => sources@.len(),
        _ => 0,
    }
}

/// A command with its variables replaced, as it enters a cache key or a name.
pub open spec fn command_text(command: Command, vars: Map<Seq<char>, Seq<char>>) -> Seq<char> {
    match command {
        Command::Shell(s) => expand::expanded(s@, vars),
        Command::Exec(args) => shown::listed(expand::expanded_all(args.deep_view(), vars)),
    }
}

/// A command with its variables replaced, as it enters a cache key or a name.
pub fn command_cache_text(command: &Command, vars: &Vars) -> (r: String)
    ensures
        r@ == command_text(*command, vars@),
{
    match command {
        Command::Shell(s) => expand(s.as_str(), vars),
        Command::Exec(args) => list_literal(&expand_vec(args, vars)),
    }
}

/// `key=value` with the value expanded, for each pair.
pub open spec fn pair_texts(pairs: Seq<Pair>, vars: Map<Seq<char>, Seq<char>>) -> Seq<Seq<char>> {
    pairs.map_values(|p: Pair| p.key@ + "="@ + expand::expanded(p.value@, vars))
}

/// `key=value` with the value expanded, for each pair.
pub fn render_pairs(pairs: &Vec<Pair>, vars: &Vars) -> (r: Vec<String>)
    ensures
        r.deep_view() == pair_texts(pairs@, vars@),
{
    let mut out: Vec<String> = Vec::new();
    for i in 0..pairs.len()
        invariant
            out.deep_view() == pair_texts(pairs@.take(i as int), vars@),
    {
        let ghost seen = out.deep_view();
        let t = pairs[i].key.clone().concat("=").concat(
            expand(pairs[i].value.as_str(), vars).as_str(),
        );
        out.push(t);
        assert(out.deep_view() =~= seen.push(t@));
        assert(out.deep_view() =~= pair_texts(pairs@.take(i + 1), vars@));
    }
    assert(pairs@.take(pairs@.len() as int) =~= pairs@);
    out
}

/// `name|default` with the default expanded, for each declaration.
pub open spec fn arg_key_texts(
    decls: Seq<ArgDecl>,
    vars: Map<Seq<char>, Seq<char>>,
) -> Seq<Seq<char>> {
    decls.map_values(
        |a: ArgDecl|
            a.name@ + "|"@ + (match a.default {
                Some(d) => expand::expanded(d@, vars),
                None => Seq::empty(),
            }),
    )
}

/// `name|default` with the default expanded, for each declaration.
fn render_arg_keys(decls: &Vec<ArgDecl>, vars: &Vars) -> (r: Vec<String>)
    ensures
        r.deep_view() == arg_key_texts(decls@, vars@),
{
    let mut out: Vec<String> = Vec::new();
    for i in 0..decls.len()
        invariant
            out.deep_view() == arg_key_texts(decls@.take(i as int), vars@),
    {
        let ghost seen = out.deep_view();
        let d = match &decls[i].default {
            Some(d) => expand(d.as_str(), vars),
            None => String::new(),
        };
        let t = decls[i].name.clone().concat("|").concat(d.as_str());
        out.push(t);
        proof {
            if decls@[i as int].default is None {
                assert(d@ =~= Seq::<char>::empty());
            }
            assert(out.deep_view() =~= seen.push(t@));
            assert(out.deep_view() =~= arg_key_texts(decls@.take(i + 1), vars@));
        }
    }
    assert(decls@.take(decls@.len() as int) =~= decls@);
    out
}

/// `source#hash` for each expanded source; the hash of a source that is fetched
/// is its address.
pub open spec fn source_parts(
    srcs: Seq<Seq<char>>,
    fetches: bool,
    found: Seq<Node>,
) -> Seq<Seq<char>> {
    Seq::new(
        srcs.len(),
        |i: int|
            srcs[i] + "#"@ + if fetches && remote_url(srcs[i]) {
                "url:"@ + srcs[i]
            } else {
                hash::content_hash(found[i])
            },
    )
}

/// `source#hash` for each expanded source.
fn render_sources(srcs: &Vec<String>, fetches: bool, found: &Vec<Node>) -> (r: Vec<String>)
    requires
        found@.len() == srcs@.len(),
    ensures
        r.deep_view() == source_parts(srcs.deep_view(), fetches, found@),
{
    let mut out: Vec<String> = Vec::new();
    let ghost all = srcs.deep_view();
    for i in 0..srcs.len()
        invariant
            all == srcs.deep_view(),
            found@.len() == srcs@.len(),
            out.deep_view() == source_parts(all, fetches, found@).take(i as int),
    {
        let ghost seen = out.deep_view();
        let src = srcs[i].as_str();
        let h = if fetches && is_remote_url(src) {
            "url:".to_owned().concat(src)
        } else {
            hash_path(&found[i])
        };
        let t = src.to_owned().concat("#").concat(h.as_str());
        out.push(t);
        assert(t@ == source_parts(all, fetches, found@)[i as int]);
        assert(out.deep_view() =~= seen.push(t@));
        assert(out.deep_view() =~= source_parts(all, fetches, found@).take(i + 1));
    }
    assert(out.deep_view() =~= source_parts(all, fetches, found@));
    out
}

/// A text, or nothing where there is none.
pub open spec fn or_empty(t: Option<Seq<char>>) -> Seq<char> {
    match t {
        Some(s) => s,
        None => Seq::empty(),
    }
}

/// The cache key of an instruction: its keyword and its texts with the variables
/// expanded, for `RUN` also the working directory, the user, the environment of the
/// image and the network of the build, and for `COPY` and `ADD` what stands at the
/// sources, `found`. The body of a here-document, the flags of a `RUN` and build
/// arguments that its command reads from its environment alone are not part of it.
pub open spec fn instruction_key(
    inst: Instruction,
    meta: MetaView,
    args: Map<Seq<char>, Seq<char>>,
    found: Seq<Node>,
    network: Seq<char>,
) -> Seq<char> {
    let vars = meta::with_env(args, meta.env);
    match inst {
        Instruction::Run { command, .. } => "RUN|"@ + command_text(command, vars) + "|cwd="@
            + meta.working_dir + "|user="@ + or_empty(meta.user) + "|env="@ + text::joined(
            order::sorted(meta.env),
            "\n"@,
        ) + "|net="@ + network,
        Instruction::Copy { sources, destination, flags, .. } => "COPY|--from="@ + or_empty(
            dockerfile::flag_value(flags@, "from"@),
        ) + "|"@ + text::joined(
            source_parts(expand::expanded_all(sources.deep_view(), vars), false, found),
            ","@,
        ) + "|"@ + expand::expanded(destination@, vars),
        Instruction::Add { sources, destination, .. } => "ADD|"@ + text::joined(
            source_parts(expand::expanded_all(sources.deep_view(), vars), true, found),
            ","@,
        ) + "|"@ + expand::expanded(destination@, vars),
        Instruction::Env { pairs } => "ENV|"@ + text::joined(pair_texts(pairs@, vars), " "@),
        Instruction::Label { pairs } => "LABEL|"@ + text::joined(pair_texts(pairs@, vars), " "@),
        Instruction::Arg { decls } => "ARG|"@ + text::joined(arg_key_texts(decls@, vars), ";"@),
        Instruction::Workdir { path } => "WORKDIR|"@ + expand::expanded(path@, vars),
        Instruction::User { spec } => "USER|"@ + expand::expanded(spec@, vars),
        Instruction::Entrypoint { command } => "ENTRYPOINT|"@ + command_text(command, vars),
        Instruction::Cmd { command } => "CMD|"@ + command_text(command, vars),
        Instruction::Expose { ports } => "EXPOSE|"@ + text::joined(
            expand::expanded_all(ports.deep_view(), vars),
            " "@,
        ),
        Instruction::Volume { paths } => "VOLUME|"@ + text::joined(
            expand::expanded_all(paths.deep_view(), vars),
            " "@,
        ),
        Instruction::Shell { args } => "SHELL|"@ + shown::listed(args.deep_view()),
        _ => dockerfile::keyword_text(inst) + "|"@ + dockerfile::keyword_text(inst),
    }
}

/// Whether an instruction may change the root filesystem.
pub open spec fn changes_filesystem(inst: Instruction) -> bool {
    match inst {
        Instruction::Run { .. } => true,
        Instruction::Copy { .. } => true,
        Instruction::Add { .. } => true,
        Instruction::Workdir { .. } => true,
        _ => false,
    }
}

/// Whether an instruction may change the root filesystem.
pub fn instruction_needs_writable(inst: &Instruction) -> (r: bool)
    ensures
        r == changes_filesystem(*inst),
{
    match inst {
        Instruction::Run { .. } => true,
        Instruction::Copy { .. } => true,
        Instruction::Add { .. } => true,
        Instruction::Workdir { .. } => true,
        _ => false,
    }
}

/// Build the cache key for one instruction (expanded, content-aware for
/// `COPY`/`ADD`). `found` holds what stands at each source of the instruction,
/// links followed; what it holds for a source that is fetched does not matter.
/// The second part of the result says whether the instruction may change the
/// root filesystem.
pub fn instruction_cache_key(
    inst: &Instruction,
    meta: &ImageMeta,
    args: &Vars,
    found: &Vec<Node>,
    network: &str,
) -> (r: (String, bool))
    requires
        found@.len() == source_count(*inst),
    ensures
        r.0@ == instruction_key(*inst, meta@, args@, found@, network@),
        r.1 == changes_filesystem(*inst),
{
    let vars = merged_vars(meta, args);
    let changed = instruction_needs_writable(inst);
    let key = match inst {
        Instruction::Run { command, .. } => {
            let user = match &meta.user {
                Some(u) => u.clone(),
                None => String::new(),
            };
            assert(user@ =~= or_empty(meta@.user));
            "RUN|".to_owned().concat(command_cache_text(command, &vars).as_str()).concat(
                "|cwd=",
            ).concat(meta.working_dir.as_str()).concat("|user=").concat(user.as_str()).concat(
                "|env=",
            ).concat(join(&sort(&meta.env), "\n").as_str()).concat("|net=").concat(network)
        },
        Instruction::Copy { sources, destination, flags, .. } => {
            let srcs = expand_vec(sources, &vars);
            assert(srcs.deep_view().len() == sources.deep_view().len());
            let parts = render_sources(&srcs, false, found);
            let from = match find_flag(flags, "from") {
                Some(f) => f,
                None => String::new(),
            };
            assert(from@ =~= or_empty(dockerfile::flag_value(flags@, "from"@)));
            "COPY|--from=".to_owned().concat(from.as_str()).concat("|").concat(
                join(&parts, ",").as_str(),
            ).concat("|").concat(expand(destination.as_str(), &vars).as_str())
        },
        Instruction::Add { sources, destination, .. } => {
            let srcs = expand_vec(sources, &vars);
            assert(srcs.deep_view().len() == sources.deep_view().len());
            let parts = render_sources(&srcs, true, found);
            "ADD|".to_owned().concat(join(&parts, ",").as_str()).concat("|").concat(
                expand(destination.as_str(), &vars).as_str(),
            )
        },
        Instruction::Env { pairs } => "ENV|".to_owned().concat(
            join(&render_pairs(pairs, &vars), " ").as_str(),
        ),
        Instruction::Label { pairs } => "LABEL|".to_owned().concat(
            join(&render_pairs(pairs, &vars), " ").as_str(),
        ),
        Instruction::Arg { decls } => "ARG|".to_owned().concat(
            join(&render_arg_keys(decls, &vars), ";").as_str(),
        ),
        Instruction::Workdir { path } => "WORKDIR|".to_owned().concat(
            expand(path.as_str(), &vars).as_str(),
        ),
        Instruction::User { spec } => "USER|".to_owned().concat(
            expand(spec.as_str(), &vars).as_str(),
        ),
        Instruction::Entrypoint { command } => "ENTRYPOINT|".to_owned().concat(
            command_cache_text(command, &vars).as_str(),
        ),
        Instruction::Cmd { command } => "CMD|".to_owned().concat(
            command_cache_text(command, &vars).as_str(),
        ),
        Instruction::Expose { ports } => "EXPOSE|".to_owned().concat(
            join(&expand_vec(ports, &vars), " ").as_str(),
        ),
        Instruction::Volume { paths } => "VOLUME|".to_owned().concat(
            join(&expand_vec(paths, &vars), " ").as_str(),
        ),
        Instruction::Shell { args } => "SHELL|".to_owned().concat(list_literal(args).as_str()),
        _ => inst.keyword().concat("|").concat(inst.keyword().as_str()),
    };
    (key, changed)
}

/// The order in which environment entries were set does not enter the key of a `RUN`:
/// two environments with the same entries, of which no two set the same variable,
/// give the same key.
pub proof fn run_key_ignores_env_order(
    inst: Instruction,
    a: MetaView,
    b: MetaView,
    args: Map<Seq<char>, Seq<char>>,
    found: Seq<Node>,
    network: Seq<char>,
)
    requires
        inst is Run,
        b == (MetaView { env: b.env, ..a }),
        a.env.to_multiset() == b.env.to_multiset(),
        meta::distinct_names(a.env),
        meta::distinct_names(b.env),
    ensures
        instruction_key(inst, a, args, found, network) == instruction_key(
            inst,
            b,
            args,
            found,
            network,
        ),
{
    order::sorting_ignores_order(a.env, b.env);
    meta::environment_order_does_not_matter(args, a.env, b.env);
}

} // verus!
