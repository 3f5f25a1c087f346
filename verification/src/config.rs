//! OCI image configs.

use std::collections::{HashMap, HashSet};

use oci_distribution::config::{Architecture, Config, ConfigFile, History, Os, Rootfs};
use vstd::prelude::*;

use crate::digest::{self, digest_label};
use crate::error::{Error, ErrorView};
use crate::meta::{self, copy_list, copy_text, ImageMeta, MetaView};
use crate::platform::{Platform, PlatformView};
use crate::text::same_text;
use crate::vars::{self, Vars};

verus! {

broadcast use vstd::seq_lib::group_seq_properties;

/// Operating systems that an image config can name, as far as they matter here.
#[derive(Debug, Clone, Copy, PartialEq, Eq, Structural)]
pub enum ConfigOs {
    /// Linux.
    Linux,
    /// Microsoft Windows.
    Windows,
    /// Apple Darwin.
    Darwin,
    /// Anything else.
    Other,
}

/// The configuration of a base image, as far as a stage takes it over.
#[derive(Debug)]
pub struct BaseConfig {
    /// Environment entries.
    pub env: Option<Vec<String>>,
    /// Working directory.
    pub working_dir: Option<String>,
    /// User.
    pub user: Option<String>,
    /// Entry point.
    pub entrypoint: Option<Vec<String>>,
    /// Default command.
    pub cmd: Option<Vec<String>>,
    /// Labels.
    pub labels: Option<Vars>,
}

/// An image config, as far as this crate reads it.
#[derive(Debug)]
pub struct ImageConfig {
    /// Operating system of the image.
    pub os: ConfigOs,
    /// Execution parameters.
    pub config: Option<BaseConfig>,
}

/// Execution parameters with their texts as character sequences.
#[verifier::ext_equal]
pub struct ExecutionView {
    pub env: Option<Seq<Seq<char>>>,
    pub working_dir: Option<Seq<char>>,
    pub user: Option<Seq<char>>,
    pub entrypoint: Option<Seq<Seq<char>>>,
    pub cmd: Option<Seq<Seq<char>>>,
    pub labels: Option<Map<Seq<char>, Seq<char>>>,
}

/// An image config with its texts as character sequences.
pub struct ConfigView {
    pub os: ConfigOs,
    pub config: Option<ExecutionView>,
}

impl View for BaseConfig {
    type V = ExecutionView;

    open spec fn view(&self) -> ExecutionView {
        ExecutionView {
            env: self.env.deep_view(),
            working_dir: self.working_dir.deep_view(),
            user: self.user.deep_view(),
            entrypoint: self.entrypoint.deep_view(),
            cmd: self.cmd.deep_view(),
            labels: match self.labels {
                Some(l) => Some(l@),
                None => None,
            },
        }
    }
}

impl View for ImageConfig {
    type V = ConfigView;

    open spec fn view(&self) -> ConfigView {
        ConfigView {
            os: self.os,
            config: match self.config {
                Some(c) => Some(c@),
                None => None,
            },
        }
    }
}

/// Execution parameters as they stand in a config file.
#[derive(Debug)]
pub struct RawExecution {
    /// Environment entries.
    pub env: Option<Vec<String>>,
    /// Working directory.
    pub working_dir: Option<String>,
    /// User.
    pub user: Option<String>,
    /// Entry point.
    pub entrypoint: Option<Vec<String>>,
    /// Default command.
    pub cmd: Option<Vec<String>>,
    /// Labels in no particular order.
    pub labels: Option<Vec<(String, String)>>,
}

impl View for RawExecution {
    type V = ExecutionView;

    open spec fn view(&self) -> ExecutionView {
        ExecutionView {
            env: self.env.deep_view(),
            working_dir: self.working_dir.deep_view(),
            user: self.user.deep_view(),
            entrypoint: self.entrypoint.deep_view(),
            cmd: self.cmd.deep_view(),
            labels: match self.labels {
                Some(l) => Some(vars::map_of(vars::pair_views(l@))),
                None => None,
            },
        }
    }
}

/// Everything that a config file says. A date is given by its text in UTC, and the
/// architecture and the operating system by the names that the file has for them.
pub struct FileView {
    pub created: Option<Seq<char>>,
    pub author: Option<Seq<char>>,
    pub architecture: Seq<char>,
    pub os: Seq<char>,
    pub parameters: ConfigView,
    pub stop_signal: Option<Seq<char>>,
    pub exposed_ports: Option<Set<Seq<char>>>,
    pub volumes: Option<Set<Seq<char>>>,
    pub rootfs_type: Seq<char>,
    pub diff_ids: Seq<Seq<char>>,
    pub history: Option<Seq<HistoryView>>,
}

/// What a config file says about how a layer came about.
pub struct HistoryView {
    pub created: Option<Seq<char>>,
    pub author: Option<Seq<char>>,
    pub created_by: Option<Seq<char>>,
    pub comment: Option<Seq<char>>,
    pub empty_layer: Option<bool>,
}

/// What the OCI crate reads in a config file, or the reason why it is none.
pub uninterp spec fn config_file(json: Seq<char>) -> Result<FileView, Seq<char>>;

/// The part of a config file that this crate takes over.
pub open spec fn oci_config(json: Seq<char>) -> Result<ConfigView, Seq<char>> {
    match config_file(json) {
        Ok(f) => Ok(f.parameters),
        Err(m) => Err(m),
    }
}

/// The view of what was read from a config file.
pub open spec fn raw_view(raw: (ConfigOs, Option<RawExecution>)) -> ConfigView {
    ConfigView {
        os: raw.0,
        config: match raw.1 {
            Some(c) => Some(c@),
            None => None,
        },
    }
}

/// `serde_json::from_str` into the `ConfigFile` of the `oci_distribution` crate,
/// with the parsed config taken apart and the error as its text. The result
/// depends on the text alone; labels come in no particular order, so they are
/// claimed as a map.
#[verifier::external_body]
fn read_config(json: &str) -> (r: Result<(ConfigOs, Option<RawExecution>), String>)
    ensures
        match r {
            Ok(raw) => config_file(json@) matches Ok(f) && f.parameters == raw_view(raw),
            Err(e) => config_file(json@) matches Err(m) && m == e@,
        },
{
    let file: ConfigFile = serde_json::from_str(json).map_err(|e| e.to_string())?;
    let os = match file.os {
        Os::Linux => ConfigOs::Linux,
        Os::Windows => ConfigOs::Windows,
        Os::Darwin => ConfigOs::Darwin,
        _ => ConfigOs::Other,
    };
    let Some(c) = file.config else { return Ok((os, None)) };
    let (env, working_dir, user) = (c.env, c.working_dir, c.user);
    let labels = c.labels.map(|l| l.into_iter().collect());
    let (entrypoint, cmd) = (c.entrypoint, c.cmd);
    Ok((os, Some(RawExecution { env, working_dir, user, entrypoint, cmd, labels })))
}

/// A config without empty lists and without an empty set of labels.
pub open spec fn compact(c: ConfigView) -> ConfigView {
    ConfigView {
        os: c.os,
        config: match c.config {
            None => None,
            Some(x) => Some(
                ExecutionView {
                    env: some_nonempty(x.env),
                    working_dir: x.working_dir,
                    user: x.user,
                    entrypoint: some_nonempty(x.entrypoint),
                    cmd: some_nonempty(x.cmd),
                    labels: match x.labels {
                        Some(l) if l != Map::<Seq<char>, Seq<char>>::empty() => Some(l),
                        _ => None,
                    },
                },
            ),
        },
    }
}

/// A set, or nothing where it is empty.
pub open spec fn some_set(set: Option<Set<Seq<char>>>) -> Option<Set<Seq<char>>> {
    match set {
        Some(s) if s != Set::<Seq<char>>::empty() => Some(s),
        _ => None,
    }
}

/// A config file without empty lists, sets and maps.
pub open spec fn compact_file(f: FileView) -> FileView {
    FileView {
        parameters: compact(f.parameters),
        exposed_ports: some_set(f.exposed_ports),
        volumes: some_set(f.volumes),
        history: match f.history {
            Some(h) if h.len() > 0 => Some(h),
            _ => None,
        },
        ..f
    }
}

/// `serde_json::to_string_pretty` of the `ConfigFile` that `json` holds: the same
/// config in an indented layout, without empty lists and maps. It exists exactly
/// where the text is a config file, and it is one itself that says the same: a date is
/// written in the form in which it is read. The text itself is not claimed, since the order of sets
/// and maps in it is arbitrary.
#[verifier::external_body]
fn relayout_config(json: &str) -> (r: Result<String, String>)
    ensures
        match r {
            Ok(t) => config_file(json@) matches Ok(c) && config_file(t@) == Ok::<
                FileView,
                Seq<char>,
            >(compact_file(c)),
            Err(e) => config_file(json@) matches Err(m) && m == e@,
        },
{
    let file: ConfigFile = serde_json::from_str(json).map_err(|e| e.to_string())?;
    serde_json::to_string_pretty(&file).map_err(|e| e.to_string())
}

/// `serde_json::to_string` of the `ConfigFile` that `json` holds: the same config on
/// one line, without empty lists and maps. It exists exactly where the text is a
/// config file, and it is one itself. The text itself is not claimed, since the order
/// of sets and maps in it is arbitrary.
#[verifier::external_body]
fn print_config(json: &str) -> (r: Result<String, String>)
    ensures
        match r {
            Ok(t) => config_file(json@) matches Ok(c) && config_file(t@) == Ok::<
                FileView,
                Seq<char>,
            >(compact_file(c)),
            Err(e) => config_file(json@) matches Err(m) && m == e@,
        },
{
    let file: ConfigFile = serde_json::from_str(json).map_err(|e| e.to_string())?;
    serde_json::to_string(&file).map_err(|e| e.to_string())
}

/// The labels as a map with an order.
fn ordered(pairs: Vec<(String, String)>) -> (r: Vars)
    ensures
        r@ == vars::map_of(vars::pair_views(pairs@)),
{
    let mut out = Vars::new();
    let ghost all = vars::pair_views(pairs@);
    assert(vars::map_of(all.take(0)) =~= Map::<Seq<char>, Seq<char>>::empty());
    for i in 0..pairs.len()
        invariant
            all == vars::pair_views(pairs@),
            out@ == vars::map_of(all.take(i as int)),
    {
        proof {
            let a = all.take(i as int);
            let b = all.take(i + 1);
            assert(b.drop_last() =~= a);
            assert(b.last() == all[i as int]);
            assert(vars::map_of(b) =~= vars::map_of(a).insert(b.last().0, b.last().1));
        }
        out.insert(pairs[i].0.clone(), pairs[i].1.clone());
    }
    assert(all.take(all.len() as int) =~= all);
    out
}

/// Take over what was read from a config file.
pub fn image_config(raw: (ConfigOs, Option<RawExecution>)) -> (r: ImageConfig)
    ensures
        r@ == raw_view(raw),
{
    let config = match raw.1 {
        None => None,
        Some(c) => {
            let labels = match c.labels {
                Some(l) => Some(ordered(l)),
                None => None,
            };
            Some(
                BaseConfig {
                    env: c.env,
                    working_dir: c.working_dir,
                    user: c.user,
                    entrypoint: c.entrypoint,
                    cmd: c.cmd,
                    labels,
                },
            )
        },
    };
    ImageConfig { os: raw.0, config }
}

/// What is said in front of the reason why a config could not be read.
pub open spec fn config_error(what: Seq<char>, reason: Seq<char>) -> ErrorView {
    ErrorView::Other(what + ": "@ + reason)
}

/// Report the outcome of reading a config.
pub fn report_config(
    what: &str,
    raw: Result<(ConfigOs, Option<RawExecution>), String>,
) -> (r: Result<ImageConfig, Error>)
    ensures
        match raw {
            Ok(x) => r matches Ok(c) && c@ == raw_view(x),
            Err(e) => r matches Err(x) && x@ == config_error(what@, e@),
        },
{
    match raw {
        Ok(x) => Ok(image_config(x)),
        Err(e) => Err(Error::Other(what.to_owned().concat(": ").concat(e.as_str()))),
    }
}

/// Parse an image config; `what` names it in the error.
pub fn parse_config(what: &str, json: &str) -> (r: Result<ImageConfig, Error>)
    ensures
        match r {
            Ok(c) => oci_config(json@) == Ok::<ConfigView, Seq<char>>(c@),
            Err(e) => oci_config(json@) matches Err(m) && e@ == config_error(what@, m),
        },
{
    report_config(what, read_config(json))
}

/// The indented form in which a pulled config is stored. What can be read in it is
/// the same config without empty lists and maps.
pub fn stored_config(json: &str) -> (r: Result<String, Error>)
    ensures
        match r {
            Ok(t) => config_file(json@) matches Ok(c) && config_file(t@) == Ok::<
                FileView,
                Seq<char>,
            >(compact_file(c)),
            Err(e) => oci_config(json@) matches Err(m) && e@ == config_error(
                "image config"@,
                m,
            ),
        },
{
    match relayout_config(json) {
        Ok(t) => Ok(t),
        Err(e) => Err(Error::Other("image config".to_owned().concat(": ").concat(e.as_str()))),
    }
}

/// The config on one line. What can be read in it is the same config without empty
/// lists and maps.
pub fn compact_config(what: &str, json: &str) -> (r: Result<String, Error>)
    ensures
        match r {
            Ok(t) => config_file(json@) matches Ok(c) && config_file(t@) == Ok::<
                FileView,
                Seq<char>,
            >(compact_file(c)),
            Err(e) => config_file(json@) matches Err(m) && e@ == config_error(what@, m),
        },
{
    match print_config(json) {
        Ok(t) => Ok(t),
        Err(e) => Err(Error::Other(what.to_owned().concat(": ").concat(e.as_str()))),
    }
}

/// Architectures that an exported image can have.
#[derive(Debug, Clone, Copy, PartialEq, Eq, Structural)]
pub enum ExportArch {
    /// 64-bit Arm.
    Arm64,
    /// 32-bit Arm.
    Arm,
    /// x86-64.
    Amd64,
}

/// Operating systems that an exported image can have.
#[derive(Debug, Clone, Copy, PartialEq, Eq, Structural)]
pub enum ExportOs {
    /// Linux.
    Linux,
}

/// The operating system that is read in a config file with this one.
pub open spec fn read_os(os: ExportOs) -> ConfigOs {
    match os {
        ExportOs::Linux => ConfigOs::Linux,
    }
}

/// The name that a config file has for an operating system.
pub open spec fn os_name(os: ExportOs) -> Seq<char> {
    match os {
        ExportOs::Linux => "linux"@,
    }
}

/// The name that a config file has for an architecture.
pub open spec fn arch_name(architecture: ExportArch) -> Seq<char> {
    match architecture {
        ExportArch::Arm64 => "arm64"@,
        ExportArch::Arm => "arm"@,
        ExportArch::Amd64 => "amd64"@,
    }
}

/// What an exported config says about its only layer.
pub open spec fn squashed(created_by: Option<Seq<char>>, comment: Option<Seq<char>>) -> HistoryView {
    HistoryView { created: None, author: None, created_by, comment, empty_layer: None }
}

/// The config of an image that is exported.
#[derive(Debug)]
pub struct ExportConfig {
    /// Architecture of the image.
    pub architecture: ExportArch,
    /// Operating system of the image.
    pub os: ExportOs,
    /// Environment entries.
    pub env: Vec<String>,
    /// Working directory.
    pub working_dir: String,
    /// User.
    pub user: Option<String>,
    /// Entry point.
    pub entrypoint: Option<Vec<String>>,
    /// Default command.
    pub cmd: Option<Vec<String>>,
    /// Labels, where there are any.
    pub labels: Option<Vec<(String, String)>>,
    /// Exposed ports, where there are any.
    pub exposed_ports: Option<Vec<String>>,
    /// Volumes, where there are any.
    pub volumes: Option<Vec<String>>,
    /// Digests of the layer contents.
    pub diff_ids: Vec<String>,
    /// Command that created the layer.
    pub created_by: String,
    /// What created the layer.
    pub comment: String,
}

/// The architecture that a platform's name stands for.
pub open spec fn export_arch(name: Seq<char>) -> ExportArch {
    if name == "arm64"@ || name == "aarch64"@ {
        ExportArch::Arm64
    } else if name == "arm"@ {
        ExportArch::Arm
    } else {
        ExportArch::Amd64
    }
}

/// A list, or nothing where it is empty.
pub open spec fn some_nonempty(list: Option<Seq<Seq<char>>>) -> Option<Seq<Seq<char>>> {
    match list {
        Some(l) if l.len() > 0 => Some(l),
        _ => None,
    }
}

/// The labels of an exported config.
pub open spec fn label_pairs(labels: Option<Vec<(String, String)>>) -> Option<
    Seq<(Seq<char>, Seq<char>)>,
> {
    match labels {
        Some(l) => Some(vars::pair_views(l@)),
        None => None,
    }
}

/// The texts of a list, or nothing where it is empty.
pub open spec fn listed_set(list: Option<Seq<Seq<char>>>) -> Option<Set<Seq<char>>> {
    match list {
        Some(l) if l.len() > 0 => Some(l.to_set()),
        _ => None,
    }
}

/// What reading a config file with these values gives: empty lists are left out of
/// it.
pub open spec fn read_back(
    architecture: ExportArch,
    os: ExportOs,
    user: Option<Seq<char>>,
    env: Option<Seq<Seq<char>>>,
    cmd: Option<Seq<Seq<char>>>,
    entrypoint: Option<Seq<Seq<char>>>,
    working_dir: Option<Seq<char>>,
    labels: Option<Seq<(Seq<char>, Seq<char>)>>,
    exposed_ports: Option<Seq<Seq<char>>>,
    volumes: Option<Seq<Seq<char>>>,
    diff_ids: Seq<Seq<char>>,
    created_by: Option<Seq<char>>,
    comment: Option<Seq<char>>,
) -> FileView {
    FileView {
        created: None,
        author: None,
        architecture: arch_name(architecture),
        os: os_name(os),
        parameters: ConfigView {
            os: read_os(os),
            config: Some(
                ExecutionView {
                    env: some_nonempty(env),
                    working_dir,
                    user,
                    entrypoint: some_nonempty(entrypoint),
                    cmd: some_nonempty(cmd),
                    labels: match labels {
                        Some(l) if l.len() > 0 => Some(vars::map_of(l)),
                        _ => None,
                    },
                },
            ),
        },
        stop_signal: None,
        exposed_ports: listed_set(exposed_ports),
        volumes: listed_set(volumes),
        rootfs_type: "layers"@,
        diff_ids,
        history: Some(seq![squashed(created_by, comment)]),
    }
}

/// Serialize an exported config: a `ConfigFile` of the `oci_distribution` crate with
/// these values, printed by `serde_json::to_string_pretty`, which fails
/// on no such value. Reading the file back gives the values again, except that empty
/// lists and maps are left out of it. The text itself is not claimed, since the order
/// of sets and maps in it is arbitrary.
#[verifier::external_body]
fn write_config(
    architecture: ExportArch,
    os: ExportOs,
    user: Option<String>,
    env: Option<Vec<String>>,
    cmd: Option<Vec<String>>,
    entrypoint: Option<Vec<String>>,
    working_dir: Option<String>,
    labels: Option<Vec<(String, String)>>,
    exposed_ports: Option<Vec<String>>,
    volumes: Option<Vec<String>>,
    diff_ids: Vec<String>,
    created_by: Option<String>,
    comment: Option<String>,
) -> (r: Result<String, String>)
    ensures
        match r {
            Ok(json) => config_file(json@) matches Ok(c) && c == read_back(
                architecture,
                os,
                user.deep_view(),
                env.deep_view(),
                cmd.deep_view(),
                entrypoint.deep_view(),
                working_dir.deep_view(),
                label_pairs(labels),
                exposed_ports.deep_view(),
                volumes.deep_view(),
                diff_ids.deep_view(),
                created_by.deep_view(),
                comment.deep_view(),
            ),
            Err(_) => false,
        },
{
    let architecture = match architecture {
        ExportArch::Arm64 => Architecture::Arm64,
        ExportArch::Arm => Architecture::Arm,
        ExportArch::Amd64 => Architecture::Amd64,
    };
    let os = match os { ExportOs::Linux => Os::Linux };
    let labels = labels.map(HashMap::from_iter);
    let exposed_ports = exposed_ports.map(HashSet::from_iter);
    let volumes = volumes.map(HashSet::from_iter);
    let config = Some(Config { user, exposed_ports, env, cmd, entrypoint, volumes, working_dir, labels, stop_signal: None });
    let rootfs = Rootfs { diff_ids, ..Rootfs::default() };
    let history = Some(vec![History { created_by, comment, ..History::default() }]);
    let file = ConfigFile { architecture, os, config, rootfs, history, ..ConfigFile::default() };
    serde_json::to_string_pretty(&file).map_err(|e| e.to_string())
}

/// The pairs of a map, in order.
fn pairs_of(m: &Vars) -> (r: Vec<(String, String)>)
    ensures
        vars::pair_views(r@) == m.pairs(),
{
    let mut out: Vec<(String, String)> = Vec::new();
    let n: usize = m.len();
    let ghost all = m.pairs();
    assert(vars::pair_views(out@) =~= all.take(0));
    for i in 0..n
        invariant
            n == all.len(),
            all == m.pairs(),
            vars::pair_views(out@) == all.take(i as int),
    {
        let (k, v) = m.at(i);
        let ghost seen = vars::pair_views(out@);
        out.push((k.clone(), v.clone()));
        assert(vars::pair_views(out@) =~= seen.push(all[i as int]));
        assert(vars::pair_views(out@) =~= all.take(i + 1));
    }
    assert(all.take(all.len() as int) =~= all);
    out
}

/// A list, or nothing where it is empty.
fn nonempty_list(list: &Vec<String>) -> (r: Option<Vec<String>>)
    ensures
        r.deep_view() == some_nonempty(Some(list.deep_view())),
{
    if list.len() == 0 {
        None
    } else {
        Some(list.clone())
    }
}

/// The config of an image with these properties. `comment` says what created it.
pub fn build_config_file(meta: &ImageMeta, platform: &Platform, comment: &str) -> (r: ExportConfig)
    ensures
        r.architecture == export_arch(platform@.architecture),
        r.os == ExportOs::Linux,
        r.env.deep_view() == meta@.env,
        r.working_dir@ == meta@.working_dir,
        r.user.deep_view() == meta@.user,
        r.entrypoint.deep_view() == meta@.entrypoint,
        r.cmd.deep_view() == meta@.cmd,
        label_pairs(r.labels) == (if meta@.labels.len() == 0 {
            None
        } else {
            Some(meta@.labels)
        }),
        r.exposed_ports.deep_view() == some_nonempty(Some(meta@.exposed_ports)),
        r.volumes.deep_view() == some_nonempty(Some(meta@.volumes)),
        r.diff_ids.deep_view() == seq![
            digest::labelled_digest(vstd::utf8::encode_utf8("squash"@)),
        ],
        r.created_by@ == comment@,
        r.comment@ == "buildkit"@,
        // An architecture that a config file has a name for is named so.
        platform@.architecture == "arm64"@ || platform@.architecture == "arm"@
            || platform@.architecture == "amd64"@ ==> arch_name(r.architecture)
            == platform@.architecture,
{
    proof {
        reveal_strlit("arm64");
        reveal_strlit("aarch64");
        reveal_strlit("arm");
        reveal_strlit("amd64");
    }
    let arch = platform.architecture.as_str();
    let architecture = if same_text(arch, "arm64") || same_text(arch, "aarch64") {
        ExportArch::Arm64
    } else if same_text(arch, "arm") {
        ExportArch::Arm
    } else {
        ExportArch::Amd64
    };
    let labels = if meta.labels.len() == 0 {
        None
    } else {
        Some(pairs_of(&meta.labels))
    };
    let diff_ids = vec![digest_label("squash".as_bytes())];
    assert(diff_ids.deep_view() =~= seq![
        digest::labelled_digest(vstd::utf8::encode_utf8("squash"@)),
    ]);
    ExportConfig {
        architecture,
        os: ExportOs::Linux,
        env: meta.env.clone(),
        working_dir: meta.working_dir.clone(),
        user: copy_text(&meta.user),
        entrypoint: copy_list(&meta.entrypoint),
        cmd: copy_list(&meta.cmd),
        labels,
        exposed_ports: nonempty_list(&meta.exposed_ports),
        volumes: nonempty_list(&meta.volumes),
        diff_ids,
        created_by: comment.to_owned(),
        comment: "buildkit".to_owned(),
    }
}

/// What a stage that starts on an exported image takes over.
pub open spec fn exported(meta: MetaView) -> ConfigView {
    ConfigView {
        os: ConfigOs::Linux,
        config: Some(
            ExecutionView {
                env: some_nonempty(Some(meta.env)),
                working_dir: Some(meta.working_dir),
                user: meta.user,
                entrypoint: some_nonempty(meta.entrypoint),
                cmd: some_nonempty(meta.cmd),
                labels: if meta.labels.len() == 0 {
                    None
                } else {
                    Some(vars::map_of(meta.labels))
                },
            },
        ),
    }
}

/// What the config file of an exported image says. `comment` says what created it.
pub open spec fn exported_file(
    meta: MetaView,
    platform: PlatformView,
    comment: Seq<char>,
) -> FileView {
    FileView {
        created: None,
        author: None,
        architecture: arch_name(export_arch(platform.architecture)),
        os: "linux"@,
        parameters: exported(meta),
        stop_signal: None,
        exposed_ports: listed_set(Some(meta.exposed_ports)),
        volumes: listed_set(Some(meta.volumes)),
        rootfs_type: "layers"@,
        diff_ids: seq![digest::labelled_digest(vstd::utf8::encode_utf8("squash"@))],
        history: Some(seq![squashed(Some(comment), Some("buildkit"@))]),
    }
}

/// The config file of an image with these properties. Reading it back gives
/// [`exported_file`].
pub fn export_config(meta: &ImageMeta, platform: &Platform, comment: &str) -> (r: Result<
    String,
    Error,
>)
    ensures
        r matches Ok(json) && config_file(json@) == Ok::<FileView, Seq<char>>(
            exported_file(meta@, platform@, comment@),
        ),
{
    let c = build_config_file(meta, platform, comment);
    let written = write_config(
        c.architecture,
        c.os,
        c.user,
        Some(c.env),
        c.cmd,
        c.entrypoint,
        Some(c.working_dir),
        c.labels,
        c.exposed_ports,
        c.volumes,
        c.diff_ids,
        Some(c.created_by),
        Some(c.comment),
    );
    match written {
        Ok(json) => Ok(json),
        Err(e) => Err(Error::Config(e)),
    }
}

/// What is stored for a config stays as it is when it is read and stored again.
pub proof fn storing_twice_is_once(f: FileView)
    ensures
        compact_file(compact_file(f)) == compact_file(f),
{
}

} // verus!
