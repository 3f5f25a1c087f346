//! The rules of a build: context, cache keys, instructions and destinations.

use buildkit::backend::{run_outcome, NetworkMode, RunResult};
use buildkit::cache::{
    chain_id, from_cache_key, instruction_cache_key, instruction_needs_writable, is_remote_url,
    key_sources, Donor, Source,
};
use buildkit::context::{copy_failed, copy_foreign, default_ignore, match_pattern, BuildContext};
use buildkit::copying::{
    add_remote, copy_dest_path, copy_sources, fetch_error, goes_into_dir, split_sources,
    url_filename, write_heredocs, FetchFailure,
};
use buildkit::dockerfile::{ArgDecl, Command, Dockerfile, Flag, Heredoc, Instruction, Pair, Stage};
use buildkit::error::{Error, IoKind};
use buildkit::executor::{
    dockerfile_path, dockerfile_unreadable, init_stage_from_image, plan_build, resolve_global_args,
    select_stage, stage_platform,
};
use buildkit::expand::{expand, expand_vec};
use buildkit::fs::{FsOp, Step};
use buildkit::fsutil::{guest_to_host, join_workdir, normalize_guest};
use buildkit::hash::{hash_failed, hash_path};
use buildkit::meta::{merged_vars, ImageMeta};
use buildkit::path::HostPath;
use buildkit::platform::{default_pull_platform, platform_resolver, IndexEntry, Platform};
use buildkit::progress::{NullProgress, ProgressEmitter};
use buildkit::request::BuildRequest;
use buildkit::stage::{apply_instruction, instruction_summary, run_environment, StageState, Work};
use buildkit::tree::{Entry, Node};
use buildkit::vars::Vars;
use buildkit::winpath::{component_ok_on_windows, encode_component, host_rel_to_guest, join_root, Host};

fn path(text: &str) -> HostPath {
    HostPath::parse(text)
}

fn vars(pairs: &[(&str, &str)]) -> Vars {
    let mut out = Vars::new();
    for (name, value) in pairs {
        out.insert(name.to_string(), value.to_string());
    }
    out
}

fn words(list: &[&str]) -> Vec<String> {
    list.iter().map(|w| w.to_string()).collect()
}

/// The steps as lines.
fn shown(steps: &[Step]) -> Vec<String> {
    steps
        .iter()
        .map(|step| {
            let text = match &step.op {
                FsOp::CreateDirAll(p) => format!("mkdir {}", p.to_text()),
                FsOp::Copy(a, b) => format!("copy {} {}", a.to_text(), b.to_text()),
                FsOp::Write(p, data) => {
                    format!("write {} {}", p.to_text(), String::from_utf8_lossy(data))
                }
                other => format!("{other:?}"),
            };
            if step.required {
                text
            } else {
                format!("try {text}")
            }
        })
        .collect()
}

// Variables and paths

#[test]
fn expansion_of_odd_dollar_signs() {
    let v = vars(&[("A", "1"), ("A_B", "2"), ("x y", "3")]);
    assert_eq!(expand("$A_B$A", &v), "21");
    assert_eq!(expand("$A-$", &v), "1-$");
    assert_eq!(expand("${A", &v), "${A");
    assert_eq!(expand("$$A", &v), "$1");
    assert_eq!(expand("${x y}", &v), "3");
    assert_eq!(expand("${}|$%", &v), "|$%");
    assert_eq!(expand("${A}${A_B}", &v), "12");
    assert_eq!(expand("no variables", &v), "no variables");
    assert_eq!(expand_vec(&words(&["$A", "b"]), &v), ["1", "b"]);
}

#[test]
fn variables_keep_their_place() {
    let mut v = vars(&[("A", "1"), ("B", "2")]);
    v.insert("A".into(), "3".into());
    assert_eq!(v.len(), 2);
    assert_eq!(v.at(0), (&"A".to_string(), &"3".to_string()));
    assert_eq!(v.at(1), (&"B".to_string(), &"2".to_string()));
    assert_eq!(v.get("C"), None);
    assert!(v.contains_key("B"));
    assert_eq!(v.clone().get("A"), Some(&"3".to_string()));
}

#[test]
fn guest_paths_are_normalized() {
    assert_eq!(normalize_guest("/a/./b//../c"), "/a/c");
    assert_eq!(normalize_guest("../.."), "/");
    assert_eq!(normalize_guest(""), "/");
    assert_eq!(normalize_guest(&normalize_guest("x/../y/")), "/y");
    assert_eq!(join_workdir("/app", "src"), "/app/src");
    assert_eq!(join_workdir("/app/", "../src"), "/src");
    assert_eq!(join_workdir("/app", "/etc"), "/etc");
    assert_eq!(guest_to_host(Host::Posix, &path("/root"), "//etc/x").to_text(), "/root/etc/x");
}

#[test]
fn windows_names() {
    assert!(component_ok_on_windows("a.txt"));
    assert!(component_ok_on_windows(""));
    assert!(component_ok_on_windows(".."));
    for bad in ["a.", "a ", "a:b", "nul.txt", "com1", "a\u{1}"] {
        assert!(!component_ok_on_windows(bad), "{bad}");
    }
    assert_eq!(encode_component(Host::Windows, "a:"), "#bk#613A");
    assert_eq!(encode_component(Host::Posix, "a:"), "a:");
    let stored = join_root(Host::Windows, &path("r"), "d/a:b/../c?");
    assert_eq!(stored.to_text(), "r/d/#bk#633F");
    assert_eq!(host_rel_to_guest(Host::Windows, &path("d/#bk#633F/../x")), "d/c?/../x");
    assert_eq!(host_rel_to_guest(Host::Windows, &path("#bk#zz/#bk#FF")), "#bk#zz/#bk#FF");
}

#[test]
fn host_paths() {
    let p = path("/a//./b/c");
    assert_eq!(p.to_text(), "/a/b/c");
    assert_eq!(p.parent().unwrap().to_text(), "/a/b");
    assert_eq!(p.file_name().unwrap(), "c");
    assert!(p.starts_with(&path("/a/b")));
    assert!(!p.starts_with(&path("/a/bc")));
    assert!(path("/").parent().is_none());
    assert!(path("a/..").file_name().is_none());
    assert_eq!(path("/a").join_text("/b").to_text(), "/b");
    assert_eq!(path("/a").join_text("b/c").to_text(), "/a/b/c");
    assert_eq!(path("./x").to_text(), "./x");
}

// Build context

fn context(dockerignore: &str) -> BuildContext {
    BuildContext::open(path("/ctx"), true, None, Some(dockerignore.into())).unwrap()
}

#[test]
fn context_must_be_a_directory() {
    let err = BuildContext::open(path("/ctx"), false, None, None).unwrap_err();
    assert_eq!(err.message(), "build context is not a directory: /ctx");
}

#[test]
fn ignore_patterns() {
    for (pattern, name, expected) in [
        ("a", "a", true),
        ("a", "a/b", true),
        ("a", "ab", false),
        ("a/**", "a", true),
        ("a/**", "a/b/c", true),
        ("a/*", "a/b", true),
        ("a/*", "a/b/c", false),
        ("a/*", "a", false),
        ("**/x", "x", true),
        ("**/x", "d/x", true),
        ("**/x", "dx", false),
        ("*.log", "d/a.log", true),
        ("tmp*", "tmpdir/x", true),
        ("*", "anything", true),
    ] {
        assert_eq!(match_pattern(pattern, name), expected, "{pattern} {name}");
    }
}

#[test]
fn last_matching_rule_decides() {
    let c = context("# comment\n\n  ./target \n!target/keep\r\n! ./target/keep2\n");
    assert_eq!(c.ignore.len(), default_ignore().len() + 3);
    assert!(c.is_ignored(&path("target/x")));
    assert!(!c.is_ignored(&path("target/keep")));
    assert!(!c.is_ignored(&path("target/keep2")));
    assert!(c.is_ignored(&path(".git/config")));
    assert!(!c.is_ignored(&path("src")));
}

#[test]
fn context_names_stay_inside() {
    let c = context("");
    let inside = c.resolve("./a", Ok(path("/real")), Some(Ok(path("/real/a"))));
    assert_eq!(inside.unwrap().to_text(), "/real/a");
    let outside = c.resolve("./l", Ok(path("/real")), Some(Ok(path("/etc"))));
    assert_eq!(outside.unwrap_err().message(), "path 'l' escapes the build context");
    assert_eq!(c.resolve(".", Ok(path("/real")), None).unwrap().to_text(), "/ctx");
    assert_eq!(c.resolve("gone", Ok(path("/real")), None).unwrap().to_text(), "/ctx/gone");
    assert_eq!(
        c.resolve("/etc", Ok(path("/real")), None).unwrap_err().message(),
        "path '/etc' escapes the build context"
    );
    assert_eq!(
        c.resolve("a", Err("gone".into()), None).unwrap_err().message(),
        "context: gone"
    );
    assert_eq!(
        c.resolve("a", Ok(path("/real")), Some(Err("denied".into())))
            .unwrap_err()
            .message(),
        "context path '/ctx/a': denied"
    );
}

fn file(name: &str, data: &str) -> Entry {
    Entry {
        name: name.into(),
        node: Node::File { data: data.into() },
    }
}

fn dir(name: &str, entries: Vec<Entry>) -> Entry {
    Entry {
        name: name.into(),
        node: Node::Dir { entries },
    }
}

#[test]
fn copying_honors_the_rules() {
    let c = context("s/skip\na\n*.log\n!s/keep.log\n");
    let tree = Node::Dir {
        entries: vec![
            file("a", ""),
            dir("skip", vec![file("b", "")]),
            dir("d", vec![file("x.log", ""), file("y", "")]),
            file("keep.log", ""),
            Entry {
                name: "link".into(),
                node: Node::Link { target: "a".into() },
            },
        ],
    };
    let steps = c.copy_into(&tree, &path("/ctx/s"), &path("/r/t")).unwrap();
    assert_eq!(
        shown(&steps),
        [
            "mkdir /r/t",
            "copy /ctx/s/a /r/t/a",
            "mkdir /r/t/d",
            "copy /ctx/s/d/y /r/t/d/y",
            "copy /ctx/s/keep.log /r/t/keep.log",
        ]
    );
    let one = Node::File { data: Vec::new() };
    let steps = c.copy_into(&one, &path("/ctx/s/x.txt"), &path("/r/t/f")).unwrap();
    assert_eq!(shown(&steps), ["mkdir /r/t", "copy /ctx/s/x.txt /r/t/f"]);
    let steps = c.copy_into(&one, &path("/ctx/s/x.log"), &path("/r/t/f")).unwrap();
    assert!(steps.is_empty());
    assert_eq!(
        copy_failed(&path("/a"), &path("/b"), "full").message(),
        "copy /a -> /b: full"
    );
}

#[test]
fn rules_are_seen_from_the_context() {
    let tree = Node::Dir {
        entries: vec![file("ok", ""), file("secret", "")],
    };
    let copied = ["mkdir /d", "copy /ctx/sub/ok /d/ok"];
    let c = context("sub/secret\n");
    let steps = c.copy_into(&tree, &path("/ctx/sub"), &path("/d")).unwrap();
    assert_eq!(shown(&steps), copied);
    let c = context("secret\n");
    let steps = c.copy_into(&tree, &path("/ctx/sub"), &path("/d")).unwrap();
    assert_eq!(shown(&steps).len(), 3);

    let rules = Some("sub/secret\n".to_string());
    let c = BuildContext::open(path("/link"), true, Some(path("/ctx")), rules).unwrap();
    let steps = c.copy_into(&tree, &path("/ctx/sub"), &path("/d")).unwrap();
    assert_eq!(shown(&steps), copied);
    let steps = c.copy_into(&tree, &path("/link/sub"), &path("/d")).unwrap();
    assert_eq!(shown(&steps), ["mkdir /d", "copy /link/sub/ok /d/ok"]);
}

#[test]
fn rules_end_with_the_context() {
    let tree = Node::Dir {
        entries: vec![file("ok", ""), file("secret", "")],
    };
    let expected = ["mkdir /d", "copy /s/sub/ok /d/ok", "copy /s/sub/secret /d/secret"];
    let c = context("*secret\n");
    let steps = c.copy_into(&tree, &path("/s/sub"), &path("/d")).unwrap();
    assert_eq!(shown(&steps), expected);
    let steps = copy_foreign(&tree, &path("/s/sub"), &path("/d")).unwrap();
    assert_eq!(shown(&steps), expected);
    let missing = copy_foreign(&Node::Other, &path("/s/x"), &path("/d")).unwrap_err();
    assert_eq!(missing.message(), "COPY source not found: /s/x");
}

// Cache keys

fn copy_inst(from: Option<&str>, sources: &[&str], destination: &str) -> Instruction {
    Instruction::Copy {
        sources: words(sources),
        destination: destination.into(),
        heredocs: Vec::new(),
        flags: from
            .map(|s| Flag {
                name: "from".into(),
                value: Some(s.into()),
            })
            .into_iter()
            .collect(),
    }
}

fn run_inst(command: Command) -> Instruction {
    Instruction::Run {
        command,
        heredocs: Vec::new(),
        flags: Vec::new(),
    }
}

fn key(inst: &Instruction, meta: &ImageMeta, args: &Vars, found: Vec<Node>) -> String {
    instruction_cache_key(inst, meta, args, &found, "host").0
}

#[test]
fn chain_ids_are_sha256() {
    assert_eq!(
        chain_id("", "FROM scratch|linux|amd64"),
        "00cb145b60aa3b34d4d096c34533a8398abbbac6739b3f864f3b519385caa888"
    );
    assert_eq!(
        chain_id("abc", "USER|me"),
        "692dc5b15c5a58121c41c1066de5ca1a994e81eeee9c0a90aa180bb9bb626777"
    );
}

#[test]
fn from_keys() {
    let p = Platform::linux_amd64();
    assert_eq!(from_cache_key("x", true, &p, &None), "FROM scratch|linux|amd64");
    assert_eq!(
        from_cache_key("alpine", false, &p, &Some("sha256:1".into())),
        "FROM alpine|digest=sha256:1|linux|amd64"
    );
    assert_eq!(
        from_cache_key("alpine", false, &p, &None),
        "FROM alpine|digest=unknown|linux|amd64"
    );
}

#[test]
fn instruction_keys() {
    let mut meta = ImageMeta::new();
    meta.set_env("B", "b");
    meta.set_env("A", "a");
    let args = vars(&[("V", "1")]);
    let shell = run_inst(Command::Shell("echo $V$A".into()));
    assert_eq!(
        key(&shell, &meta, &args, vec![]),
        "RUN|echo 1a|cwd=/|user=|env=A=a\nB=b\nPATH=/usr/local/sbin:/usr/local/bin:/usr/sbin:/usr/bin:/sbin:/bin|net=host"
    );
    let exec = Instruction::Cmd {
        command: Command::Exec(words(&["a\"b", "$V"])),
    };
    assert_eq!(key(&exec, &meta, &args, vec![]), "CMD|[\"a\\\"b\", \"1\"]");
    let hello = "2cf24dba5fb0a30e26e83b2ac5b9e29e1b161e5c1fa7425e73043362938b9824";
    let missing = "ffa63583dfa6706b87d284b86b0d693a161e4840aad2c5cf6b5d27c3b9621f7d";
    assert_eq!(
        key(
            &copy_inst(Some("base"), &["f", "$V"], "/d$V"),
            &meta,
            &args,
            vec![Node::File { data: b"hello".to_vec() }, Node::Other],
        ),
        format!("COPY|--from=base|f#{hello},1#{missing}|/d1")
    );
    let add = Instruction::Add {
        sources: words(&["HTTP://x/y", "f"]),
        destination: ".".into(),
        heredocs: Vec::new(),
    };
    assert_eq!(
        key(&add, &meta, &args, vec![Node::Other, Node::Other]),
        format!("ADD|HTTP://x/y#url:HTTP://x/y,f#{missing}|.")
    );
    let env = Instruction::Env {
        pairs: vec![Pair { key: "K".into(), value: "$V".into() }],
    };
    assert_eq!(key(&env, &meta, &args, vec![]), "ENV|K=1");
    let arg = Instruction::Arg {
        decls: vec![
            ArgDecl { name: "X".into(), default: None },
            ArgDecl { name: "Y".into(), default: Some("$V".into()) },
        ],
    };
    assert_eq!(key(&arg, &meta, &args, vec![]), "ARG|X|;Y|1");
    let shell = Instruction::Shell { args: words(&["sh", "$V"]) };
    assert_eq!(key(&shell, &meta, &args, vec![]), "SHELL|[\"sh\", \"$V\"]");
    assert_eq!(key(&Instruction::OnBuild, &meta, &args, vec![]), "ONBUILD|ONBUILD");
    let ports = Instruction::Expose { ports: words(&["80", "$V"]) };
    assert_eq!(key(&ports, &meta, &args, vec![]), "EXPOSE|80 1");
}

#[test]
fn run_key_ignores_env_order() {
    let (mut one, mut two) = (ImageMeta::new(), ImageMeta::new());
    one.set_env("A", "1");
    one.set_env("B", "2");
    two.set_env("B", "2");
    two.set_env("A", "1");
    let run = run_inst(Command::Shell("x".into()));
    assert_ne!(one.env, two.env);
    assert_eq!(
        key(&run, &one, &Vars::new(), vec![]),
        key(&run, &two, &Vars::new(), vec![])
    );
}

#[test]
fn which_instructions_change_files() {
    assert!(instruction_needs_writable(&run_inst(Command::Shell("x".into()))));
    assert!(instruction_needs_writable(&copy_inst(None, &["a"], "b")));
    assert!(instruction_needs_writable(&Instruction::Workdir { path: "/".into() }));
    assert!(!instruction_needs_writable(&Instruction::User { spec: "me".into() }));
}

#[test]
fn content_hash_of_a_directory() {
    let tree = Node::Dir {
        entries: vec![file("b", "x"), dir("a", vec![file("c", "y")])],
    };
    assert_eq!(
        hash_path(&tree),
        "148233a167a9da3f7145e581b548c06ea0614016a76315e5a10540bf8a2a7eac"
    );
    assert_eq!(hash_failed(&path("/x"), "denied").message(), "cache hash /x: denied");
}

#[test]
fn sources_of_a_copy() {
    let donors = vec![
        Donor {
            name: "0".into(),
            rootfs: path("/s0"),
            working_dir: "/w".into(),
        },
        Donor {
            name: "base".into(),
            rootfs: path("/s0"),
            working_dir: "/w".into(),
        },
    ];
    let found = key_sources(
        Host::Posix,
        &copy_inst(Some("base"), &["/a", "b"], "/"),
        &Vars::new(),
        &donors,
    )
    .unwrap();
    assert!(matches!(&found[0], Source::Stage(p) if p.to_text() == "/s0/a"));
    assert!(matches!(&found[1], Source::Stage(p) if p.to_text() == "/s0/w/b"));
    let err = copy_sources(Host::Posix, &Some("x".into()), &words(&["a"]), &donors).unwrap_err();
    assert_eq!(err.message(), "unknown COPY --from stage 'x'");
    let err = key_sources(
        Host::Posix,
        &copy_inst(Some("x"), &["a"], "/"),
        &Vars::new(),
        &donors,
    )
    .unwrap_err();
    assert_eq!(err.message(), "COPY --from=x: stage not available for cache key");
}

// Destinations

#[test]
fn destinations() {
    assert!(goes_into_dir("/d/", false, false));
    assert!(goes_into_dir("/d", true, false));
    assert!(goes_into_dir("/d", false, true));
    assert!(!goes_into_dir("/d", false, false));
    let t = copy_dest_path(&path("/r/d"), true, &path("/ctx/f"));
    assert_eq!(shown(&t.prepare), ["mkdir /r/d"]);
    assert_eq!(t.path.unwrap().to_text(), "/r/d/f");
    let t = copy_dest_path(&path("/r/d"), false, &path("/ctx/f"));
    assert_eq!(shown(&t.prepare), ["mkdir /r"]);
    assert_eq!(t.path.unwrap().to_text(), "/r/d");
    let t = copy_dest_path(&path("/r/d"), true, &path("/"));
    assert_eq!(t.path.unwrap_err().message(), "invalid COPY source");
}

#[test]
fn remote_sources() {
    assert!(is_remote_url("HTTPS://x"));
    assert!(!is_remote_url("ftp://x"));
    assert_eq!(url_filename("http://h/a/b.tgz?x=/y#z"), "b.tgz");
    assert_eq!(url_filename("http://h/ "), "download");
    let (remote, local) = split_sources(&words(&["a", "http://h/b", "c"]));
    assert_eq!(remote, ["http://h/b"]);
    assert_eq!(local, ["a", "c"]);
    let dest = path("/r/d");
    let (steps, target) = add_remote(&dest, "/d", 1, false, "http://h/b").unwrap();
    assert_eq!(shown(&steps), ["mkdir /r"]);
    assert_eq!(target.to_text(), "/r/d");
    let (steps, target) = add_remote(&dest, "/d", 2, true, "http://h/b").unwrap();
    assert_eq!(shown(&steps), ["mkdir /r/d"]);
    assert_eq!(target.to_text(), "/r/d/b");
    let err = add_remote(&dest, "/d", 2, false, "http://h/b").unwrap_err();
    assert_eq!(
        err.message(),
        "when ADD has multiple sources, destination must be a directory"
    );
}

#[test]
fn failed_fetches() {
    let url = "http://h/x";
    for (failure, expected) in [
        (FetchFailure::Client("c".into()), "ADD: http client error: c"),
        (FetchFailure::Send("s".into()), "ADD: failed to fetch 'http://h/x': s"),
        (
            FetchFailure::Status("404 Not Found".into()),
            "ADD: failed to fetch 'http://h/x': HTTP 404 Not Found",
        ),
        (FetchFailure::Read("r".into()), "ADD: failed to read 'http://h/x': r"),
        (
            FetchFailure::Write(path("/r/x"), "w".into()),
            "ADD: failed to write '/r/x': w",
        ),
    ] {
        assert_eq!(fetch_error(url, &failure).message(), expected);
    }
}

#[test]
fn here_documents() {
    let docs = vec![
        Heredoc {
            delimiter: "A".into(),
            body: "one\n".into(),
        },
        Heredoc {
            delimiter: "B".into(),
            body: "two\n".into(),
        },
    ];
    let steps = write_heredocs(&path("/r/d"), &docs, "/d", true);
    assert_eq!(shown(&steps), ["mkdir /r/d", "write /r/d/A one\n", "write /r/d/B two\n"]);
    let steps = write_heredocs(&path("/r/d"), &docs, "/d", false);
    assert_eq!(shown(&steps), ["mkdir /r", "write /r/d one\ntwo\n"]);
    assert!(write_heredocs(&path("/r/d"), &Vec::new(), "/d", true).is_empty());
}

// Instructions

fn stage() -> StageState {
    init_stage_from_image(None, &path("/w/rootfs"), &vars(&[("CLI", "c")]))
}

fn apply(state: &mut StageState, inst: &Instruction) -> Result<Work, Error> {
    let mut progress = ProgressEmitter::new(NullProgress);
    let globals = vars(&[("GLOBAL", "g"), ("CLI", "other")]);
    apply_instruction(
        Host::Posix,
        state,
        inst,
        &globals,
        NetworkMode::Bridge,
        &mut progress,
        1,
    )
}

#[test]
fn arguments_and_environment() {
    let mut s = stage();
    let decl = |name: &str, default: Option<&str>| ArgDecl {
        name: name.into(),
        default: default.map(|d| d.into()),
    };
    let inst = Instruction::Arg {
        decls: vec![
            decl("CLI", Some("x")),
            decl("GLOBAL", None),
            decl("D", Some("$GLOBAL-$CLI")),
            decl("NONE", None),
        ],
    };
    apply(&mut s, &inst).unwrap();
    assert_eq!(s.args.get("CLI").unwrap(), "c");
    assert_eq!(s.args.get("GLOBAL").unwrap(), "g");
    assert_eq!(s.args.get("D").unwrap(), "g-c");
    assert!(!s.args.contains_key("NONE"));

    let pair = |key: &str, value: &str| Pair {
        key: key.into(),
        value: value.into(),
    };
    let inst = Instruction::Env {
        pairs: vec![pair("E", "$D"), pair("F", "$E!"), pair("E", "last")],
    };
    apply(&mut s, &inst).unwrap();
    assert_eq!(&s.meta.env[1..], ["F=g-c!", "E=last"]);
    assert_eq!(merged_vars(&s.meta, &s.args).get("E").unwrap(), "last");
    let mut env = run_environment(&s);
    env.drain(..3);
    assert_eq!(env, ["CLI=c", "GLOBAL=g", "D=g-c"]);
}

#[test]
fn metadata_instructions() {
    let mut s = stage();
    apply(&mut s, &Instruction::Shell { args: words(&["bash", "-c"]) }).unwrap();
    let start = Instruction::Entrypoint {
        command: Command::Shell("run $CLI".into()),
    };
    apply(&mut s, &start).unwrap();
    apply(&mut s, &Instruction::User { spec: "me:$CLI".into() }).unwrap();
    apply(&mut s, &Instruction::Expose { ports: words(&["80"]) }).unwrap();
    apply(&mut s, &Instruction::Expose { ports: words(&["81/udp"]) }).unwrap();
    apply(&mut s, &Instruction::Volume { paths: words(&["/v"]) }).unwrap();
    let label = Instruction::Label {
        pairs: vec![Pair { key: "l".into(), value: "$CLI".into() }],
    };
    apply(&mut s, &label).unwrap();
    let work = apply(&mut s, &Instruction::Workdir { path: "sub/../app".into() }).unwrap();
    assert!(matches!(work, Work::MakeDir(p) if p.to_text() == "/w/rootfs/app"));
    assert_eq!(s.meta.entrypoint.as_ref().unwrap(), &["bash", "-c", "run c"]);
    assert_eq!(s.meta.user.as_deref(), Some("me:c"));
    assert_eq!(s.meta.exposed_ports, ["80", "81/udp"]);
    assert_eq!(s.meta.volumes, ["/v"]);
    assert_eq!(s.meta.labels.get("l").unwrap(), "c");
    assert_eq!(s.meta.working_dir, "/app");
    assert!(matches!(apply(&mut s, &Instruction::StopSignal), Ok(Work::Nothing)));
}

#[test]
fn run_requests() {
    let mut s = stage();
    let run = |heredocs: Vec<&str>, network: Option<&str>, command: Command| Instruction::Run {
        command,
        heredocs: heredocs
            .into_iter()
            .map(|body| Heredoc {
                delimiter: "EOF".into(),
                body: body.into(),
            })
            .collect(),
        flags: network
            .map(|n| Flag {
                name: "network".into(),
                value: Some(n.into()),
            })
            .into_iter()
            .collect(),
    };
    let inst = run(vec!["a", "b"], Some(" HOST "), Command::Shell("cat $CLI".into()));
    let Work::Run(request) = apply(&mut s, &inst).unwrap() else {
        panic!("no run");
    };
    assert_eq!(request.args, ["/bin/sh", "-c", "cat c\na\nb"]);
    assert_eq!(request.network, NetworkMode::Host);
    assert_eq!(request.rootfs.to_text(), "/w/rootfs");
    assert_eq!(request.cwd, "/");
    let inst = run(vec!["a"], None, Command::Exec(words(&["x"])));
    let Work::Run(request) = apply(&mut s, &inst).unwrap() else {
        panic!("no run");
    };
    assert_eq!(request.args, ["/bin/sh", "-c", "a"]);
    assert_eq!(request.network, NetworkMode::Bridge);
    let inst = run(vec![], Some("wifi"), Command::Exec(words(&["x"])));
    assert_eq!(
        apply(&mut s, &inst).unwrap_err().message(),
        "unknown network mode 'wifi' (expected bridge, host, or none)"
    );
}

#[test]
fn settings_reach_later_runs() {
    let mut s = stage();
    let before = s.meta.working_dir.clone();
    for ignored in [
        Instruction::Maintainer,
        Instruction::OnBuild,
        Instruction::StopSignal,
        Instruction::Healthcheck,
        Instruction::Unknown { keyword: "X".into() },
    ] {
        assert!(matches!(apply(&mut s, &ignored), Ok(Work::Nothing)));
    }
    assert_eq!(s.meta.working_dir, before);
    let env = Instruction::Env {
        pairs: vec![Pair { key: "A".into(), value: "1".into() }],
    };
    for inst in [
        Instruction::Workdir { path: "/srv".into() },
        Instruction::User { spec: "me".into() },
        Instruction::Shell { args: words(&["bash", "-c"]) },
        env,
    ] {
        apply(&mut s, &inst).unwrap();
    }
    let Work::Run(request) = apply(&mut s, &run_inst(Command::Shell("ls $A".into()))).unwrap()
    else {
        panic!("no run");
    };
    assert_eq!(request.cwd, "/srv");
    assert_eq!(request.user.as_deref(), Some("me"));
    assert_eq!(request.args, ["bash", "-c", "ls 1"]);
    assert!(request.env.contains(&"A=1".to_string()));
}

#[test]
fn add_sorts_its_sources() {
    let mut s = stage();
    s.args.insert("IN".into(), "$CLI".into());
    let inst = Instruction::Add {
        sources: words(&["http://h/$CLI", "$IN"]),
        destination: "d/".into(),
        heredocs: Vec::new(),
    };
    let Work::Add {
        remote,
        local,
        total,
        dest_guest,
    } = apply(&mut s, &inst).unwrap()
    else {
        panic!("no add");
    };
    assert_eq!(remote, ["http://h/c"]);
    assert_eq!(local, ["c"]);
    assert_eq!(total, 2);
    assert_eq!(dest_guest, "/d");
}

#[test]
fn summaries() {
    let s = stage();
    for (inst, expected) in [
        (run_inst(Command::Exec(words(&["a", "$CLI"]))), "RUN [\"a\", \"c\"]"),
        (copy_inst(Some("b"), &["x", "y"], "/z"), "COPY --from=b x y /z"),
        (copy_inst(None, &["$CLI"], "/z"), "COPY c /z"),
        (Instruction::Maintainer, "MAINTAINER"),
        (Instruction::Shell { args: words(&["x"]) }, "SHELL"),
        (
            Instruction::Unknown {
                keyword: "WHAT".into(),
            },
            "WHAT",
        ),
        (
            Instruction::Arg {
                decls: vec![ArgDecl {
                    name: "A".into(),
                    default: Some("$CLI".into()),
                }],
            },
            "ARG A=c",
        ),
    ] {
        assert_eq!(instruction_summary(&inst, &s), expected);
    }
}

// Plans

fn stages(names: &[Option<&str>]) -> Vec<Stage> {
    names
        .iter()
        .map(|name| Stage {
            image: "scratch".into(),
            name: name.map(|n| n.into()),
            platform: None,
            instructions: Vec::new(),
        })
        .collect()
}

#[test]
fn stage_selection() {
    let all = stages(&[Some("a"), None, Some("7")]);
    assert_eq!(select_stage(&all, &None).unwrap(), 2);
    assert_eq!(select_stage(&all, &Some("a".into())).unwrap(), 0);
    assert_eq!(select_stage(&all, &Some("+1".into())).unwrap(), 1);
    assert_eq!(select_stage(&all, &Some("7".into())).unwrap(), 2);
    assert_eq!(
        select_stage(&all, &Some("9".into())).unwrap_err().message(),
        "unknown build target stage '9'"
    );
}

#[test]
fn global_arguments() {
    let decls = vec![
        ArgDecl { name: "A".into(), default: Some("1".into()) },
        ArgDecl { name: "B".into(), default: Some("$A$C".into()) },
        ArgDecl { name: "C".into(), default: None },
    ];
    let out = resolve_global_args(&decls, &vars(&[("A", "x"), ("Z", "z")]));
    assert_eq!(out.get("A").unwrap(), "x");
    assert_eq!(out.get("B").unwrap(), "x");
    assert_eq!(out.get("Z").unwrap(), "z");
    assert!(!out.contains_key("C"));
}

#[test]
fn plans() {
    let request = BuildRequest::new(path("/ctx"))
        .dockerfile(path("Dockerfile.prod"))
        .arg("VERSION", "1.0")
        .target("a")
        .platform(Platform::parse("linux/ARM64").unwrap())
        .pull(true)
        .network(NetworkMode::Host);
    let file = Dockerfile {
        args: Vec::new(),
        stages: stages(&[Some("a"), None]),
    };
    let plan = plan_build(file, &request, Platform::linux_amd64()).unwrap();
    assert_eq!(plan.target, 0);
    assert_eq!(plan.tags, ["buildkit:latest"]);
    assert_eq!(plan.platform.to_text(), "linux/arm64");
    assert_eq!(plan.global_args.get("VERSION").unwrap(), "1.0");
    assert_eq!(dockerfile_path(&request.context, &request.dockerfile).to_text(), "/ctx/Dockerfile.prod");
    assert_eq!(dockerfile_path(&request.context, &path("/x/D")).to_text(), "/x/D");
    let none = Dockerfile {
        args: Vec::new(),
        stages: Vec::new(),
    };
    let err = plan_build(none, &request, Platform::linux_amd64()).unwrap_err();
    assert_eq!(err.message(), "dockerfile: no FROM instruction found");
    let err = dockerfile_unreadable(&path("/x/D"), IoKind::NotFound, None, "gone");
    assert!(err.is_not_found());
    assert_eq!(err.message(), "failed to read /x/D: failed to read Dockerfile: gone");
}

#[test]
fn request_tags_add_up() {
    let request = BuildRequest::new(path("./app"))
        .tag("myapp:latest")
        .tags(words(&["a:1", "b:2"]));
    assert_eq!(request.tags, ["myapp:latest", "a:1", "b:2"]);
    assert_eq!(request.dockerfile.to_text(), "Dockerfile");
    assert!(!request.pull && !request.no_cache);
    assert_eq!(request.network, NetworkMode::default());
}

#[test]
fn platforms() {
    assert_eq!(Platform::parse(" LINUX/Arm64 ").unwrap().to_text(), "linux/arm64");
    assert_eq!(
        Platform::parse("linux").unwrap_err(),
        "expected os/architecture, got \"linux\""
    );
    assert_eq!(Platform::parse("/x").unwrap_err(), "invalid platform \"/x\"");
    assert_eq!(
        Platform::parse("Windows/AMD64").unwrap_err(),
        "only linux/* platforms are supported (got windows/amd64)"
    );
    assert_eq!(default_pull_platform(true).to_text(), "linux/arm64");
    assert_eq!(default_pull_platform(false).to_text(), "linux/amd64");
    let mut one = stages(&[None]).remove(0);
    assert_eq!(stage_platform(&one, &Platform::linux_amd64()).unwrap().to_text(), "linux/amd64");
    one.platform = Some("darwin/arm64".into());
    let err = stage_platform(&one, &Platform::linux_amd64()).unwrap_err();
    assert_eq!(
        err.message(),
        "only linux/* platforms are supported (got darwin/arm64)"
    );
}

#[test]
fn index_entries() {
    let entry = |platform: Option<&str>, digest: &str| IndexEntry {
        platform: platform.map(|p| Platform::parse(p).unwrap()),
        digest: digest.into(),
    };
    let index = vec![
        entry(None, "0"),
        entry(Some("linux/arm64"), "1"),
        entry(Some("linux/amd64"), "2"),
        entry(Some("linux/amd64"), "3"),
    ];
    assert_eq!(platform_resolver(&Platform::linux_amd64(), &index).unwrap(), "2");
    let other = Platform::parse("linux/s390x").unwrap();
    assert_eq!(platform_resolver(&other, &index), None);
}

#[test]
fn network_names() {
    for mode in [NetworkMode::Bridge, NetworkMode::Host, NetworkMode::Disabled] {
        assert_eq!(NetworkMode::parse(mode.as_str()).unwrap(), mode);
    }
    assert_eq!(NetworkMode::parse("").unwrap(), NetworkMode::Bridge);
    assert_eq!(NetworkMode::parse(" Default\n").unwrap(), NetworkMode::Bridge);
    assert_eq!(NetworkMode::Disabled.as_str(), "none");
    assert!(NetworkMode::parse("x").is_err());
}

#[test]
fn run_outcomes() {
    assert!(run_outcome(Ok(RunResult::success())).is_ok());
    assert_eq!(
        run_outcome(Ok(RunResult { status: -7 })).unwrap_err().message(),
        "RUN failed with exit code -7"
    );
    let err = run_outcome(Err("no runtime".into())).unwrap_err();
    assert!(matches!(&err, Error::Backend(m) if m == "no runtime"));
    assert_eq!(err.message(), "backend: no runtime");
}

#[test]
fn error_messages() {
    assert_eq!(
        Error::Reference("x".into()).message(),
        "invalid image reference: x"
    );
    assert_eq!(Error::Config("x".into()).message(), "invalid image config: x");
    assert_eq!(Error::Dockerfile("x".into()).message(), "x");
    let io = Error::from_io(IoKind::Other, Some(5), "broken");
    assert_eq!(io.message(), "failed to read <io>: broken");
    assert_eq!(io.raw_os_error(), Some(5));
    assert!(!io.is_not_found());
    assert_eq!(Error::other("x").raw_os_error(), None);
}
