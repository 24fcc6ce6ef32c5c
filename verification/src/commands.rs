//! The programs that are started, with their arguments and environments.
use crate::config::{managed_python_of, ProcessConfig, ProcessConfigView};
use crate::files::{byte_views, bytes_of, copy_bytes, join_path, joined_path};
use crate::text::all_ascii;
use vstd::prelude::*;
use vstd::utf8::encode_utf8;

verus! {

/// A variable in the environment of a program.
#[derive(Debug)]
pub struct Variable {
    pub name: String,
    pub value: Vec<u8>,
}

/// A program with its arguments and additions to its environment.
#[derive(Debug)]
pub struct CommandLine {
    pub program: Vec<u8>,
    pub args: Vec<Vec<u8>>,
    pub env: Vec<Variable>,
}

/// The content of a [`CommandLine`].
#[verifier::ext_equal]
pub struct CommandLineView {
    pub program: Seq<u8>,
    pub args: Seq<Seq<u8>>,
    pub env: Seq<(Seq<char>, Seq<u8>)>,
}

/// The content of each variable.
pub open spec fn variable_views(variables: Seq<Variable>) -> Seq<(Seq<char>, Seq<u8>)> {
    Seq::new(variables.len(), |i: int| (variables[i].name@, variables[i].value@))
}

impl View for CommandLine {
    type V = CommandLineView;

    open spec fn view(&self) -> CommandLineView {
        CommandLineView {
            program: self.program@,
            args: byte_views(self.args@),
            env: variable_views(self.env@),
        }
    }
}

impl CommandLine {
    fn new(program: Vec<u8>) -> (r: CommandLine)
        ensures
            r@ == (CommandLineView {
                program: program@,
                args: Seq::empty(),
                env: Seq::empty(),
            }),
    {
        let r = CommandLine { program, args: Vec::new(), env: Vec::new() };
        assert(r@ =~= (CommandLineView {
            program: program@,
            args: Seq::empty(),
            env: Seq::empty(),
        }));
        r
    }

    fn arg(&mut self, arg: Vec<u8>)
        ensures
            final(self)@ == (CommandLineView { args: old(self)@.args.push(arg@), ..old(self)@ }),
    {
        self.args.push(arg);
        assert(self@.args =~= old(self)@.args.push(arg@));
    }

    fn word(&mut self, arg: &str)
        ensures
            final(self)@ == (CommandLineView {
                args: old(self)@.args.push(encode_utf8(arg@)),
                ..old(self)@
            }),
    {
        self.arg(bytes_of(arg));
    }

    fn variable(&mut self, name: &str, value: Vec<u8>)
        ensures
            final(self)@ == (CommandLineView {
                env: old(self)@.env.push((name@, value@)),
                ..old(self)@
            }),
    {
        self.env.push(Variable { name: name.to_owned(), value });
        assert(self@.env =~= old(self)@.env.push((name@, value@)));
    }
}

/// The recorder: raw 16 kHz mono audio with signed 16 bit samples on its output.
pub open spec fn recorder() -> CommandLineView {
    CommandLineView {
        program: encode_utf8("pw-record"@),
        args: seq![
            encode_utf8("--raw"@),
            encode_utf8("--format"@),
            encode_utf8("s16"@),
            encode_utf8("--rate"@),
            encode_utf8("16000"@),
            encode_utf8("--channels"@),
            encode_utf8("1"@),
            encode_utf8("--latency"@),
            encode_utf8("50ms"@),
            encode_utf8("-"@),
        ],
        env: Seq::empty(),
    }
}

/// The recorder: raw 16 kHz mono audio with signed 16 bit samples on its output.
pub fn recorder_command() -> (r: CommandLine)
    ensures
        r@ == recorder(),
{
    let mut r = CommandLine::new(bytes_of("pw-record"));
    r.word("--raw");
    r.word("--format");
    r.word("s16");
    r.word("--rate");
    r.word("16000");
    r.word("--channels");
    r.word("1");
    r.word("--latency");
    r.word("50ms");
    r.word("-");
    assert(r@ =~= recorder());
    r
}

/// The worker process, told which model to load.
pub open spec fn start_command(config: ProcessConfigView) -> CommandLineView {
    CommandLineView {
        program: config.worker_python,
        args: seq![encode_utf8("-m"@), encode_utf8(config.worker_module)],
        env: seq![
            ("PYTHONUNBUFFERED"@, encode_utf8("1"@)),
            ("NATSU_TYPELESS_MODEL"@, encode_utf8(config.model_id)),
            ("NATSU_TYPELESS_MODEL_REVISION"@, encode_utf8(config.model_revision)),
        ],
    }
}

/// The worker process, told which model to load.
pub fn worker_command(config: &ProcessConfig) -> (r: CommandLine)
    ensures
        r@ == start_command(config@),
{
    let mut r = CommandLine::new(copy_bytes(config.worker_python.as_slice()));
    r.word("-m");
    r.word(config.worker_module.as_str());
    r.variable("PYTHONUNBUFFERED", bytes_of("1"));
    r.variable("NATSU_TYPELESS_MODEL", bytes_of(config.model_id.as_str()));
    r.variable("NATSU_TYPELESS_MODEL_REVISION", bytes_of(config.model_revision.as_str()));
    r
}

/// The download of the model.
pub fn installer_command(config: &ProcessConfig) -> (r: CommandLine)
    ensures
        r@ == (CommandLineView {
            program: config.worker_python@,
            args: seq![encode_utf8("-m"@), encode_utf8("natsu_typeless_asr.setup"@)],
            env: seq![
                ("NATSU_TYPELESS_MODEL"@, encode_utf8(config.model_id@)),
                ("NATSU_TYPELESS_MODEL_REVISION"@, encode_utf8(config.model_revision@)),
            ],
        }),
{
    let mut r = CommandLine::new(copy_bytes(config.worker_python.as_slice()));
    r.word("-m");
    r.word("natsu_typeless_asr.setup");
    r.variable("NATSU_TYPELESS_MODEL", bytes_of(config.model_id.as_str()));
    r.variable("NATSU_TYPELESS_MODEL_REVISION", bytes_of(config.model_revision.as_str()));
    r
}

/// A probe that succeeds if `name` is a command.
pub fn probe_command(name: &[u8]) -> (r: CommandLine)
    ensures
        r@ == (CommandLineView {
            program: encode_utf8("sh"@),
            args: seq![
                encode_utf8("-c"@),
                encode_utf8("command -v \"$1\" >/dev/null 2>&1"@),
                encode_utf8("sh"@),
                name@,
            ],
            env: Seq::empty(),
        }),
{
    let mut r = CommandLine::new(bytes_of("sh"));
    r.word("-c");
    r.word("command -v \"$1\" >/dev/null 2>&1");
    r.word("sh");
    r.arg(copy_bytes(name));
    r
}

/// A command with what it is for.
#[derive(Debug)]
pub struct SetupStep {
    pub command: CommandLine,
    pub description: String,
}

/// The directory that setup fills.
pub open spec fn setup_root_of(data_home: Seq<u8>) -> Seq<u8> {
    joined_path(data_home, encode_utf8("natsu-typeless"@))
}

/// The environment that setup creates.
pub open spec fn venv_of(data_home: Seq<u8>) -> Seq<u8> {
    joined_path(setup_root_of(data_home), encode_utf8("venv"@))
}

/// The directory that setup fills.
pub fn setup_root(data_home: &[u8]) -> (r: Vec<u8>)
    ensures
        r@ == setup_root_of(data_home@),
{
    join_path(data_home, "natsu-typeless")
}

/// The environment that setup creates.
pub fn setup_venv(data_home: &[u8]) -> (r: Vec<u8>)
    ensures
        r@ == venv_of(data_home@),
{
    let root = setup_root(data_home);
    join_path(root.as_slice(), "venv")
}

/// Creation of the environment.
pub open spec fn create_venv(venv: Seq<u8>) -> CommandLineView {
    CommandLineView {
        program: encode_utf8("uv"@),
        args: seq![
            encode_utf8("venv"@),
            encode_utf8("--python"@),
            encode_utf8("3.12"@),
            venv,
        ],
        env: Seq::empty(),
    }
}

/// Installation of what the worker depends on.
pub open spec fn install_worker(source: Seq<u8>, venv: Seq<u8>) -> CommandLineView {
    CommandLineView {
        program: encode_utf8("uv"@),
        args: seq![
            encode_utf8("sync"@),
            encode_utf8("--project"@),
            source,
            encode_utf8("--locked"@),
            encode_utf8("--no-dev"@),
            encode_utf8("--python"@),
            encode_utf8("3.12"@),
        ],
        env: seq![("UV_PROJECT_ENVIRONMENT"@, venv)],
    }
}

/// Download of the model.
pub open spec fn download_model(venv: Seq<u8>) -> CommandLineView {
    CommandLineView {
        program: joined_path(venv, encode_utf8("bin/python"@)),
        args: seq![encode_utf8("-m"@), encode_utf8("natsu_typeless_asr.setup"@)],
        env: Seq::empty(),
    }
}

/// What setup runs, in order. Nothing is run without the source of the worker.
pub fn setup_steps(source: &[u8], source_exists: bool, data_home: &[u8]) -> (r: Option<
    Vec<SetupStep>,
>)
    ensures
        r is Some == source_exists,
        r matches Some(steps) ==> {
            let venv = venv_of(data_home@);
            &&& steps@.len() == 3
            &&& steps@[0].command@ == create_venv(venv)
            &&& steps@[0].description@ == "create ASR virtual environment"@
            &&& steps@[1].command@ == install_worker(source@, venv)
            &&& steps@[1].description@ == "install ASR worker dependencies"@
            &&& steps@[2].command@ == download_model(venv)
            &&& steps@[2].description@ == "download the pinned Qwen3-ASR model"@
        },
{
    if !source_exists {
        return None;
    }
    let venv = setup_venv(data_home);
    let mut create = CommandLine::new(bytes_of("uv"));
    create.word("venv");
    create.word("--python");
    create.word("3.12");
    create.arg(copy_bytes(venv.as_slice()));
    assert(create@ =~= create_venv(venv@));
    let mut install = CommandLine::new(bytes_of("uv"));
    install.word("sync");
    install.word("--project");
    install.arg(copy_bytes(source));
    install.word("--locked");
    install.word("--no-dev");
    install.word("--python");
    install.word("3.12");
    install.variable("UV_PROJECT_ENVIRONMENT", copy_bytes(venv.as_slice()));
    assert(install@ =~= install_worker(source@, venv@));
    let mut download = CommandLine::new(join_path(venv.as_slice(), "bin/python"));
    download.word("-m");
    download.word("natsu_typeless_asr.setup");
    assert(download@ =~= download_model(venv@));
    let mut steps: Vec<SetupStep> = Vec::new();
    steps.push(
        SetupStep { command: create, description: "create ASR virtual environment".to_owned() },
    );
    steps.push(
        SetupStep { command: install, description: "install ASR worker dependencies".to_owned() },
    );
    steps.push(
        SetupStep {
            command: download,
            description: "download the pinned Qwen3-ASR model".to_owned(),
        },
    );
    Some(steps)
}

/// The worker runs as the configured module of the configured interpreter, and is
/// told the configured model.
pub proof fn the_worker_is_told_its_model(config: ProcessConfigView)
    ensures
        ({
            let command = start_command(config);
            &&& command.program == config.worker_python
            &&& command.args.len() == 2
            &&& command.args[1] == encode_utf8(config.worker_module)
            &&& command.env.contains(("NATSU_TYPELESS_MODEL"@, encode_utf8(config.model_id)))
            &&& command.env.contains(
                ("NATSU_TYPELESS_MODEL_REVISION"@, encode_utf8(config.model_revision)),
            )
        }),
{
    let env = start_command(config).env;
    assert(env[1] == ("NATSU_TYPELESS_MODEL"@, encode_utf8(config.model_id)));
    assert(env[2] == ("NATSU_TYPELESS_MODEL_REVISION"@, encode_utf8(config.model_revision)));
}

/// What setup creates is where the daemon looks for its interpreter.
pub proof fn setup_installs_the_managed_interpreter(data_home: Seq<u8>)
    ensures
        download_model(venv_of(data_home)).program == managed_python_of(data_home),
        create_venv(venv_of(data_home)).args.last() == venv_of(data_home),
        forall|source: Seq<u8>|
            #![trigger install_worker(source, venv_of(data_home))]
            install_worker(source, venv_of(data_home)).args[2] == source && install_worker(
                source,
                venv_of(data_home),
            ).env == seq![("UV_PROJECT_ENVIRONMENT"@, venv_of(data_home))],
{
    reveal_strlit("natsu-typeless");
    reveal_strlit("venv");
    reveal_strlit("bin");
    reveal_strlit("python");
    reveal_strlit("bin/python");
    lemma_ascii_path("bin"@);
    lemma_ascii_path("venv"@);
    lemma_ascii_path("python"@);
    lemma_ascii_path("bin/python"@);
    let venv = venv_of(data_home);
    let bin = encode_utf8("bin"@);
    let python = encode_utf8("python"@);
    assert(encode_utf8("bin/python"@) =~= bin.push(0x2F) + python);
    assert(joined_path(joined_path(venv, bin), python) =~= joined_path(
        venv,
        encode_utf8("bin/python"@),
    ));
}

/// The bytes of ASCII text are its characters.
proof fn lemma_ascii_path(s: Seq<char>)
    requires
        all_ascii(s),
    ensures
        encode_utf8(s).len() == s.len(),
        forall|i: int| 0 <= i < s.len() ==> #[trigger] encode_utf8(s)[i] == s[i] as u8,
    decreases s.len(),
{
    if s.len() > 0 {
        let rest = s.drop_first();
        assert forall|i: int| 0 <= i < rest.len() implies (#[trigger] rest[i]) as u32 <= 0x7F by {
            assert(rest[i] == s[i + 1]);
        }
        lemma_ascii_path(rest);
        assert(s[0] as u32 <= 0x7F);
        lemma_ascii_byte(s[0]);
        assert forall|i: int| 0 <= i < s.len() implies #[trigger] encode_utf8(s)[i]
            == s[i] as u8 by {
            if i > 0 {
                assert(encode_utf8(s)[i] == encode_utf8(rest)[i - 1]);
                assert(rest[i - 1] == s[i]);
            }
        }
    }
}

proof fn lemma_ascii_byte(c: char)
    requires
        c as u32 <= 0x7F,
    ensures
        vstd::utf8::encode_scalar(c as u32) == seq![c as u8],
{
    let n = c as u32;
    assert(n <= 0x7F ==> (n & 0x7F) as u8 == n as u8) by (bit_vector);
}

} // verus!
