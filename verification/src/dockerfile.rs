//! A parsed Dockerfile.

use vstd::prelude::*;

use crate::text::same_text;

verus! {

/// A parsed Dockerfile: the `ARG`s before the first `FROM`, then the stages.
#[derive(Debug)]
pub struct Dockerfile {
    /// `ARG` declarations before the first `FROM`.
    pub args: Vec<ArgDecl>,
    /// Build stages in file order.
    pub stages: Vec<Stage>,
}

/// One build stage: a `FROM` line and the instructions that follow it.
#[derive(Debug)]
pub struct Stage {
    /// Base image as written.
    pub image: String,
    /// Name given by `AS`.
    pub name: Option<String>,
    /// Value of `--platform`.
    pub platform: Option<String>,
    /// Instructions after the `FROM` line.
    pub instructions: Vec<Instruction>,
}

/// One declaration of an `ARG` line.
#[derive(Debug)]
pub struct ArgDecl {
    /// Argument name.
    pub name: String,
    /// Default value as written.
    pub default: Option<String>,
}

/// One `key=value` pair of an `ENV` or `LABEL` line.
#[derive(Debug)]
pub struct Pair {
    /// Name.
    pub key: String,
    /// Value as written.
    pub value: String,
}

/// One `--name=value` flag of an instruction.
#[derive(Debug)]
pub struct Flag {
    /// Name without the dashes.
    pub name: String,
    /// Text after the equals sign.
    pub value: Option<String>,
}

/// A here-document that follows an instruction.
#[derive(Debug)]
pub struct Heredoc {
    /// The word that ends the document.
    pub delimiter: String,
    /// The text of the document.
    pub body: String,
}

/// A command in shell form or exec form.
#[derive(Debug)]
pub enum Command {
    /// Text handed to the shell.
    Shell(String),
    /// Program and arguments.
    Exec(Vec<String>),
}

/// One Dockerfile instruction.
#[derive(Debug)]
pub enum Instruction {
    /// `RUN`
    Run {
        /// What to run.
        command: Command,
        /// Here-documents fed to the shell.
        heredocs: Vec<Heredoc>,
        /// `--network` and other flags.
        flags: Vec<Flag>,
    },
    /// `COPY`
    Copy {
        /// Sources as written.
        sources: Vec<String>,
        /// Destination as written.
        destination: String,
        /// Here-documents that become files.
        heredocs: Vec<Heredoc>,
        /// `--from` and other flags.
        flags: Vec<Flag>,
    },
    /// `ADD`
    Add {
        /// Sources as written.
        sources: Vec<String>,
        /// Destination as written.
        destination: String,
        /// Here-documents that become files.
        heredocs: Vec<Heredoc>,
    },
    /// `WORKDIR`
    Workdir {
        /// Directory as written.
        path: String,
    },
    /// `ENV`
    Env {
        /// Variables in order.
        pairs: Vec<Pair>,
    },
    /// `ARG`
    Arg {
        /// Declarations in order.
        decls: Vec<ArgDecl>,
    },
    /// `LABEL`
    Label {
        /// Labels in order.
        pairs: Vec<Pair>,
    },
    /// `ENTRYPOINT`
    Entrypoint {
        /// The entry point.
        command: Command,
    },
    /// `CMD`
    Cmd {
        /// The default command.
        command: Command,
    },
    /// `USER`
    User {
        /// User as written.
        spec: String,
    },
    /// `EXPOSE`
    Expose {
        /// Ports as written.
        ports: Vec<String>,
    },
    /// `VOLUME`
    Volume {
        /// Paths as written.
        paths: Vec<String>,
    },
    /// `SHELL`
    Shell {
        /// Program and arguments that precede a shell-form command.
        args: Vec<String>,
    },
    /// `FROM`
    From,
    /// `MAINTAINER`
    Maintainer,
    /// `ONBUILD`
    OnBuild,
    /// `STOPSIGNAL`
    StopSignal,
    /// `HEALTHCHECK`
    Healthcheck,
    /// Any other keyword.
    Unknown {
        /// The keyword in upper case.
        keyword: String,
    },
}

/// The keyword of an instruction.
pub open spec fn keyword_text(inst: Instruction) -> Seq<char> {
    match inst {
        Instruction::Run { .. } => "RUN"@,
        Instruction::Copy { .. } => "COPY"@,
        Instruction::Add { .. } => "ADD"@,
        Instruction::Workdir { .. } => "WORKDIR"@,
        Instruction::Env { .. } => "ENV"@,
        Instruction::Arg { .. } => "ARG"@,
        Instruction::Label { .. } => "LABEL"@,
        Instruction::Entrypoint { .. } => "ENTRYPOINT"@,
        Instruction::Cmd { .. } => "CMD"@,
        Instruction::User { .. } => "USER"@,
        Instruction::Expose { .. } => "EXPOSE"@,
        Instruction::Volume { .. } => "VOLUME"@,
        Instruction::Shell { .. } => "SHELL"@,
        Instruction::From => "FROM"@,
        Instruction::Maintainer => "MAINTAINER"@,
        Instruction::OnBuild => "ONBUILD"@,
        Instruction::StopSignal => "STOPSIGNAL"@,
        Instruction::Healthcheck => "HEALTHCHECK"@,
        Instruction::Unknown { keyword } => keyword@,
    }
}

impl Instruction {
    /// The keyword of this instruction.
    pub fn keyword(&self) -> (r: String)
        ensures
            r@ == keyword_text(*self),
    {
        match self {
            Instruction::Run { .. } => "RUN".to_owned(),
            Instruction::Copy { .. } => "COPY".to_owned(),
            Instruction::Add { .. } => "ADD".to_owned(),
            Instruction::Workdir { .. } => "WORKDIR".to_owned(),
            Instruction::Env { .. } => "ENV".to_owned(),
            Instruction::Arg { .. } => "ARG".to_owned(),
            Instruction::Label { .. } => "LABEL".to_owned(),
            Instruction::Entrypoint { .. } => "ENTRYPOINT".to_owned(),
            Instruction::Cmd { .. } => "CMD".to_owned(),
            Instruction::User { .. } => "USER".to_owned(),
            Instruction::Expose { .. } => "EXPOSE".to_owned(),
            Instruction::Volume { .. } => "VOLUME".to_owned(),
            Instruction::Shell { .. } => "SHELL".to_owned(),
            Instruction::From => "FROM".to_owned(),
            Instruction::Maintainer => "MAINTAINER".to_owned(),
            Instruction::OnBuild => "ONBUILD".to_owned(),
            Instruction::StopSignal => "STOPSIGNAL".to_owned(),
            Instruction::Healthcheck => "HEALTHCHECK".to_owned(),
            Instruction::Unknown { keyword } => keyword.clone(),
        }
    }
}

/// The value of the first flag called `name`: nothing where there is no such
/// flag, or where the first one has no value.
pub open spec fn flag_value(flags: Seq<Flag>, name: Seq<char>) -> Option<Seq<char>>
    decreases flags.len(),
{
    if flags.len() == 0 {
        None
    } else if flags[0].name@ == name {
        match flags[0].value {
            Some(v) => Some(v@),
            None => None,
        }
    } else {
        flag_value(flags.skip(1), name)
    }
}

impl Flag {
    /// Whether this flag is called `name`.
    pub fn is(&self, name: &str) -> (r: bool)
        ensures
            r == (self.name@ == name@),
    {
        same_text(self.name.as_str(), name)
    }
}

/// The value of the first flag called `name`.
pub fn find_flag(flags: &Vec<Flag>, name: &str) -> (r: Option<String>)
    ensures
        r.deep_view() == flag_value(flags@, name@),
{
    assert(flags@.skip(0) =~= flags@);
    for i in 0..flags.len()
        invariant
            flag_value(flags@, name@) == flag_value(flags@.skip(i as int), name@),
    {
        assert(flags@.skip(i as int).skip(1) =~= flags@.skip(i + 1));
        if flags[i].is(name) {
            return match &flags[i].value {
                Some(v) => Some(v.clone()),
                None => None,
            };
        }
    }
    None
}

} // verus!
