//! Where the daemon finds its worker, its model and its data.
use crate::files::{bytes_of, copy_bytes, join_path, joined_path};
use crate::protocol::{default_config, RuntimeConfig, RuntimeConfigView};
use crate::text::option_view;
use vstd::prelude::*;
use vstd::utf8::encode_utf8;

verus! {

/// The recognition model.
pub const MODEL_ID: &'static str = "Qwen/Qwen3-ASR-0.6B-hf";

/// The pinned revision of the recognition model.
pub const MODEL_REVISION: &'static str = "7f1569a48a89f3e3f4dc3a5c9d28bddd903bc76c";

/// The module that the worker process runs.
pub const WORKER_MODULE: &'static str = "natsu_typeless_asr.worker";

/// The interpreter of a development checkout.
pub const DEVELOPMENT_PYTHON: &'static str = "worker/.venv/bin/python";

/// How the worker is started. Paths are bytes.
#[derive(Debug)]
pub struct ProcessConfig {
    pub runtime: RuntimeConfig,
    pub model_id: String,
    pub model_revision: String,
    pub worker_python: Vec<u8>,
    pub worker_module: String,
}

/// The content of a [`ProcessConfig`].
#[verifier::ext_equal]
pub struct ProcessConfigView {
    pub runtime: RuntimeConfigView,
    pub model_id: Seq<char>,
    pub model_revision: Seq<char>,
    pub worker_python: Seq<u8>,
    pub worker_module: Seq<char>,
}

impl View for ProcessConfig {
    type V = ProcessConfigView;

    open spec fn view(&self) -> ProcessConfigView {
        ProcessConfigView {
            runtime: self.runtime@,
            model_id: self.model_id@,
            model_revision: self.model_revision@,
            worker_python: self.worker_python@,
            worker_module: self.worker_module@,
        }
    }
}

impl Clone for ProcessConfig {
    fn clone(&self) -> (r: Self)
        ensures
            r@ == self@,
    {
        ProcessConfig {
            runtime: self.runtime.clone(),
            model_id: self.model_id.clone(),
            model_revision: self.model_revision.clone(),
            worker_python: copy_bytes(self.worker_python.as_slice()),
            worker_module: self.worker_module.clone(),
        }
    }
}

/// What the environment says of the worker.
#[derive(Debug)]
pub struct Environment {
    /// `NATSU_TYPELESS_WORKER_PYTHON`
    pub worker_python: Option<Vec<u8>>,
    /// `NATSU_TYPELESS_MODEL`
    pub model: Option<String>,
    /// `NATSU_TYPELESS_MODEL_REVISION`
    pub model_revision: Option<String>,
    /// `NATSU_TYPELESS_WORKER_MODULE`
    pub worker_module: Option<String>,
    /// The interpreter of [`managed_python`] exists.
    pub managed_exists: bool,
    /// The interpreter of a development checkout exists.
    pub development_exists: bool,
}

/// The bytes of an optional path.
pub open spec fn path_view(path: Option<Vec<u8>>) -> Option<Seq<u8>> {
    match path {
        Some(path) => Some(path@),
        None => None,
    }
}

/// `value`, or `default` if there is none.
pub open spec fn text_or(value: Option<Seq<char>>, default: Seq<char>) -> Seq<char> {
    match value {
        Some(value) => value,
        None => default,
    }
}

fn or_default(value: Option<String>, default: &str) -> (r: String)
    ensures
        r@ == text_or(option_view(value), default@),
{
    match value {
        Some(value) => value,
        None => default.to_owned(),
    }
}

/// The interpreter that setup installs.
pub open spec fn managed_python_of(data_home: Seq<u8>) -> Seq<u8> {
    joined_path(
        joined_path(
            joined_path(
                joined_path(data_home, encode_utf8("natsu-typeless"@)),
                encode_utf8("venv"@),
            ),
            encode_utf8("bin"@),
        ),
        encode_utf8("python"@),
    )
}

/// The interpreter that setup installs.
pub fn managed_python(data_home: &[u8]) -> (r: Vec<u8>)
    ensures
        r@ == managed_python_of(data_home@),
{
    let root = join_path(data_home, "natsu-typeless");
    let venv = join_path(root.as_slice(), "venv");
    let bin = join_path(venv.as_slice(), "bin");
    join_path(bin.as_slice(), "python")
}

/// The interpreter that runs the worker: the requested one, else the installed
/// one, else that of a development checkout, else the one in the path.
pub open spec fn worker_python_of(environment: Environment, data_home: Seq<u8>) -> Seq<u8> {
    match environment.worker_python {
        Some(path) => path@,
        None => if environment.managed_exists {
            managed_python_of(data_home)
        } else if environment.development_exists {
            encode_utf8(DEVELOPMENT_PYTHON@)
        } else {
            encode_utf8("python3"@)
        },
    }
}

impl ProcessConfig {
    /// The configuration that follows from the environment.
    pub fn resolve(environment: Environment, data_home: &[u8]) -> (r: ProcessConfig)
        ensures
            r@ == (ProcessConfigView {
                runtime: default_config(),
                model_id: text_or(option_view(environment.model), MODEL_ID@),
                model_revision: text_or(option_view(environment.model_revision), MODEL_REVISION@),
                worker_python: worker_python_of(environment, data_home@),
                worker_module: text_or(option_view(environment.worker_module), WORKER_MODULE@),
            }),
    {
        let worker_python = match environment.worker_python {
            Some(path) => path,
            None => if environment.managed_exists {
                managed_python(data_home)
            } else if environment.development_exists {
                bytes_of(DEVELOPMENT_PYTHON)
            } else {
                bytes_of("python3")
            },
        };
        ProcessConfig {
            runtime: RuntimeConfig::default(),
            model_id: or_default(environment.model, MODEL_ID),
            model_revision: or_default(environment.model_revision, MODEL_REVISION),
            worker_python,
            worker_module: or_default(environment.worker_module, WORKER_MODULE),
        }
    }
}

/// The directory for data: `XDG_DATA_HOME`, else `.local/share` under `HOME`,
/// else `.local/share`.
pub open spec fn data_home_of(xdg: Option<Seq<u8>>, home: Option<Seq<u8>>) -> Seq<u8> {
    match xdg {
        Some(path) => path,
        None => match home {
            Some(home) => joined_path(home, encode_utf8(".local/share"@)),
            None => encode_utf8(".local/share"@),
        },
    }
}

/// The directory for data: `XDG_DATA_HOME`, else `.local/share` under `HOME`,
/// else `.local/share`.
pub fn data_home(xdg: Option<Vec<u8>>, home: Option<Vec<u8>>) -> (r: Vec<u8>)
    ensures
        r@ == data_home_of(path_view(xdg), path_view(home)),
{
    match xdg {
        Some(path) => path,
        None => match home {
            Some(home) => join_path(home.as_slice(), ".local/share"),
            None => bytes_of(".local/share"),
        },
    }
}

/// The source of the worker: the requested one, else that of a development
/// checkout, else the installed one.
pub open spec fn worker_source_of(
    requested: Option<Seq<u8>>,
    development_exists: bool,
) -> Seq<u8> {
    match requested {
        Some(path) => path,
        None => if development_exists {
            encode_utf8("worker"@)
        } else {
            encode_utf8("/usr/share/natsu-typeless/worker"@)
        },
    }
}

/// The source of the worker: the requested one, else that of a development
/// checkout (if its project file exists), else the installed one.
pub fn worker_source(requested: Option<Vec<u8>>, development_exists: bool) -> (r: Vec<u8>)
    ensures
        r@ == worker_source_of(path_view(requested), development_exists),
{
    match requested {
        Some(path) => path,
        None => if development_exists {
            bytes_of("worker")
        } else {
            bytes_of("/usr/share/natsu-typeless/worker")
        },
    }
}

/// What is requested is used as it is, whatever it is; what is found stands in for
/// it, and a default for that.
pub proof fn what_is_requested_is_used(
    environment: Environment,
    data_home: &[u8],
    path: Seq<u8>,
    home: Option<Seq<u8>>,
    development_exists: bool,
    r: ProcessConfig,
)
    requires
        call_ensures(ProcessConfig::resolve, (environment, data_home), r),
    ensures
        environment.model matches Some(model) ==> r.model_id@ == model@,
        environment.model is None ==> r.model_id@ == MODEL_ID@,
        environment.model_revision matches Some(revision) ==> r.model_revision@ == revision@,
        environment.model_revision is None ==> r.model_revision@ == MODEL_REVISION@,
        environment.worker_module matches Some(module) ==> r.worker_module@ == module@,
        environment.worker_module is None ==> r.worker_module@ == WORKER_MODULE@,
        environment.worker_python matches Some(python) ==> r.worker_python@ == python@,
        environment.worker_python is None ==> {
            &&& environment.managed_exists ==> r.worker_python@ == managed_python_of(data_home@)
            &&& !environment.managed_exists && environment.development_exists ==> r.worker_python@
                == encode_utf8(DEVELOPMENT_PYTHON@)
            &&& !environment.managed_exists && !environment.development_exists ==> r.worker_python@
                == encode_utf8("python3"@)
        },
        data_home_of(Some(path), home) == path,
        home matches Some(home) ==> data_home_of(None, Some(home)) == joined_path(
            home,
            encode_utf8(".local/share"@),
        ),
        worker_source_of(Some(path), development_exists) == path,
{
    assert(r@.model_id == r.model_id@);
    assert(r@.model_revision == r.model_revision@);
    assert(r@.worker_module == r.worker_module@);
    assert(r@.worker_python == r.worker_python@);
}

} // verus!
