use natsu_typeless::audio::AudioError;
use natsu_typeless::commands::{
    installer_command, probe_command, recorder_command, setup_root, setup_steps, setup_venv,
    worker_command, CommandLine,
};
use natsu_typeless::config::{
    data_home, managed_python, worker_source, Environment, ProcessConfig, MODEL_ID,
    MODEL_REVISION,
};
use natsu_typeless::ctl::{diagnose, key_line, status_lines, DaemonStatus, Findings};
use natsu_typeless::dbus::{caller, end_step, error_code, error_code_of, EndEvent, EndTask};
use natsu_typeless::protocol::PipelineState;
use natsu_typeless::secrets::{
    check_entered_key, clear_asr_api_key, clear_cloud_api_key, get_asr_api_key, get_cloud_api_key,
    has_asr_api_key, has_cloud_api_key, set_asr_api_key, set_cloud_api_key, KeyAnswer, KeySource,
    KeyStep, SecretError,
};

fn value(text: &str) -> KeyAnswer {
    KeyAnswer::Value(text.into())
}

fn args(command: &CommandLine) -> Vec<&str> {
    command.args.iter().map(|arg| std::str::from_utf8(arg).unwrap()).collect()
}

fn env(command: &CommandLine) -> Vec<(&str, &str)> {
    command
        .env
        .iter()
        .map(|variable| {
            (variable.name.as_str(), std::str::from_utf8(&variable.value).unwrap())
        })
        .collect()
}

fn environment() -> Environment {
    Environment {
        worker_python: None,
        model: None,
        model_revision: None,
        worker_module: None,
        managed_exists: false,
        development_exists: false,
    }
}

#[test]
fn errors_are_announced_as_codes() {
    assert_eq!(error_code(&AudioError::NoSpeech.message()), "audio_failed");
    assert_eq!(error_code("Qwen ASR returned NO SPEECH"), "audio_failed");
    assert_eq!(error_code("read ASR Audio"), "audio_failed");
    assert_eq!(error_code("Worker frame too large"), "asr_failed");
    assert_eq!(error_code("ASR inference failed: x"), "asr_failed");
    assert_eq!(error_code(&AudioError::TooLong.message()), "pipeline_failed");
    assert_eq!(error_code("ÀUDIO"), "pipeline_failed");
    assert_eq!(error_code_of("asr"), "asr_failed");
    assert_eq!(error_code_of("ASR"), "pipeline_failed");
}

#[test]
fn an_ended_session_is_announced_stage_by_stage() {
    let announced = |event: EndEvent| {
        let step = end_step(event);
        (step.announce.map(|it| (it.state, it.detail)), step.task)
    };
    assert_eq!(
        announced(EndEvent::Ended(Ok(()))),
        (Some((PipelineState::Transcribing, String::new())), EndTask::Transcribe)
    );
    assert_eq!(announced(EndEvent::Transcribed(Ok(()))), (None, EndTask::MarkPolishing));
    assert_eq!(
        announced(EndEvent::Marked(true)),
        (Some((PipelineState::Polishing, String::new())), EndTask::Polish)
    );
    assert_eq!(
        announced(EndEvent::Stored(true)),
        (Some((PipelineState::ResultReady, String::new())), EndTask::SignalResult)
    );
    assert_eq!(announced(EndEvent::Marked(false)), (None, EndTask::Stop));
    assert_eq!(announced(EndEvent::Stored(false)), (None, EndTask::Stop));
    assert_eq!(
        announced(EndEvent::Ended(Err("there is no active recording".into()))),
        (Some((PipelineState::Error, "pipeline_failed".into())), EndTask::Stop)
    );
    assert_eq!(
        announced(EndEvent::Transcribed(Err("ASR inference failed: secret words".into()))),
        (Some((PipelineState::Error, "asr_failed".into())), EndTask::Stop)
    );
}

#[test]
fn requests_need_a_sender() {
    assert_eq!(caller(Some(":1.7".into())).unwrap(), ":1.7");
    assert_eq!(caller(None).unwrap_err().message(), "DBus caller has no unique name");
}

#[test]
fn states_have_names() {
    assert_eq!(PipelineState::ResultReady.as_str(), "result_ready");
    assert_eq!(PipelineState::Idle.as_str(), "idle");
}

#[test]
fn the_cleanup_key_is_searched_in_order() {
    let asks_variable = |step: KeyStep, name: &str| {
        assert!(matches!(step, KeyStep::Ask(KeySource::Variable(asked)) if asked == name));
    };
    let asks_secret = |step: KeyStep, name: &str| {
        assert!(matches!(step, KeyStep::Ask(KeySource::Secret(asked)) if asked == name));
    };
    let blank = || value(" \t");
    asks_variable(get_cloud_api_key(&[]), "OPENAI_API_KEY");
    asks_variable(get_cloud_api_key(&[KeyAnswer::Missing]), "GEMINI_API_KEY");
    asks_secret(get_cloud_api_key(&[blank(), blank()]), "openai-compatible-api-key");
    asks_secret(
        get_cloud_api_key(&[KeyAnswer::Missing, blank(), KeyAnswer::Missing]),
        "gemini-api-key",
    );
    assert!(matches!(
        get_cloud_api_key(&[value(" key ")]),
        KeyStep::Found(key) if key == " key "
    ));
    assert!(matches!(
        get_cloud_api_key(&[blank(), value("second")]),
        KeyStep::Found(key) if key == "second"
    ));
    let missing = || KeyAnswer::Missing;
    assert!(matches!(
        get_cloud_api_key(&[missing(), missing(), missing(), value("legacy")]),
        KeyStep::Found(key) if key == "legacy"
    ));
    assert!(matches!(
        get_cloud_api_key(&[missing(), missing(), KeyAnswer::Unavailable]),
        KeyStep::Failed(SecretError::Unavailable)
    ));
    match get_cloud_api_key(&[missing(), missing(), missing(), missing()]) {
        KeyStep::Failed(error) => assert_eq!(
            error.message(),
            "cloud API key is not configured; run `natsu-typelessctl key set`"
        ),
        _ => panic!("found a key"),
    }
    assert_eq!(has_cloud_api_key(&[]), None);
    assert_eq!(has_cloud_api_key(&[value("key")]), Some(true));
    assert_eq!(has_cloud_api_key(&[missing(), missing(), missing(), missing()]), Some(false));
}

#[test]
fn the_recognition_key_is_kept_apart() {
    assert!(matches!(
        get_asr_api_key(&[]),
        KeyStep::Ask(KeySource::Variable(name)) if name == "NATSU_TYPELESS_ASR_API_KEY"
    ));
    assert!(matches!(
        get_asr_api_key(&[KeyAnswer::Missing]),
        KeyStep::Ask(KeySource::Variable(name)) if name == "DASHSCOPE_API_KEY"
    ));
    assert!(matches!(
        get_asr_api_key(&[KeyAnswer::Missing, KeyAnswer::Missing]),
        KeyStep::Ask(KeySource::Secret(name)) if name == "asr-api-key"
    ));
    assert_eq!(has_asr_api_key(&[KeyAnswer::Missing, value("x")]), Some(true));
    assert_eq!(
        has_asr_api_key(&[KeyAnswer::Missing, KeyAnswer::Missing, KeyAnswer::Missing]),
        Some(false)
    );
    let write = set_asr_api_key(" secret\n");
    assert_eq!((write.account.as_str(), write.secret.as_str()), ("asr-api-key", "secret"));
    let write = set_cloud_api_key("\tsecret ");
    assert_eq!(
        (write.account.as_str(), write.secret.as_str()),
        ("openai-compatible-api-key", "secret")
    );
    assert_eq!(clear_cloud_api_key(), vec!["openai-compatible-api-key", "gemini-api-key"]);
    assert_eq!(clear_asr_api_key(), vec!["asr-api-key"]);
    assert_eq!(check_entered_key("x"), Ok(()));
    assert_eq!(check_entered_key(" \n").unwrap_err().message(), "key was empty");
}

#[test]
fn the_worker_is_found() {
    let config = ProcessConfig::resolve(environment(), b"/data");
    assert_eq!(config.worker_python, b"python3");
    assert_eq!(config.model_id, MODEL_ID);
    assert_eq!(config.model_revision, MODEL_REVISION);
    assert_eq!(config.worker_module, "natsu_typeless_asr.worker");
    let mut with_checkout = environment();
    with_checkout.development_exists = true;
    assert_eq!(
        ProcessConfig::resolve(with_checkout, b"/data").worker_python,
        b"worker/.venv/bin/python"
    );
    let mut installed = environment();
    installed.development_exists = true;
    installed.managed_exists = true;
    assert_eq!(
        ProcessConfig::resolve(installed, b"/data").worker_python,
        b"/data/natsu-typeless/venv/bin/python"
    );
    let mut requested = environment();
    requested.managed_exists = true;
    requested.worker_python = Some(b"/my/python".to_vec());
    requested.model = Some("other/model".into());
    let config = ProcessConfig::resolve(requested, b"/data");
    assert_eq!(config.worker_python, b"/my/python");
    assert_eq!(config.model_id, "other/model");
    assert_eq!(managed_python(b""), b"natsu-typeless/venv/bin/python");
}

#[test]
fn data_has_a_home() {
    assert_eq!(data_home(Some(b"/xdg".to_vec()), Some(b"/home/me".to_vec())), b"/xdg");
    assert_eq!(data_home(None, Some(b"/home/me".to_vec())), b"/home/me/.local/share");
    assert_eq!(data_home(None, None), b".local/share");
    assert_eq!(worker_source(Some(b"/src".to_vec()), true), b"/src");
    assert_eq!(worker_source(None, true), b"worker");
    assert_eq!(worker_source(None, false), b"/usr/share/natsu-typeless/worker");
}

#[test]
fn programs_get_their_arguments() {
    let recorder = recorder_command();
    assert_eq!(recorder.program, b"pw-record");
    assert_eq!(
        args(&recorder),
        [
            "--raw", "--format", "s16", "--rate", "16000", "--channels", "1", "--latency", "50ms",
            "-"
        ]
    );
    let config = ProcessConfig::resolve(environment(), b"/data");
    let worker = worker_command(&config);
    assert_eq!(args(&worker), ["-m", "natsu_typeless_asr.worker"]);
    assert_eq!(
        env(&worker),
        [
            ("PYTHONUNBUFFERED", "1"),
            ("NATSU_TYPELESS_MODEL", MODEL_ID),
            ("NATSU_TYPELESS_MODEL_REVISION", MODEL_REVISION)
        ]
    );
    assert_eq!(args(&installer_command(&config)), ["-m", "natsu_typeless_asr.setup"]);
    assert_eq!(env(&installer_command(&config)).len(), 2);
    let probe = probe_command(b"fcitx5");
    assert_eq!(probe.program, b"sh");
    assert_eq!(args(&probe), ["-c", "command -v \"$1\" >/dev/null 2>&1", "sh", "fcitx5"]);
}

#[test]
fn setup_runs_three_steps() {
    assert!(setup_steps(b"worker", false, b"/data").is_none());
    let steps = setup_steps(b"worker", true, b"/data").unwrap();
    assert_eq!(steps.len(), 3);
    assert_eq!(args(&steps[0].command), ["venv", "--python", "3.12", "/data/natsu-typeless/venv"]);
    assert_eq!(
        args(&steps[1].command),
        ["sync", "--project", "worker", "--locked", "--no-dev", "--python", "3.12"]
    );
    assert_eq!(
        env(&steps[1].command),
        [("UV_PROJECT_ENVIRONMENT", "/data/natsu-typeless/venv")]
    );
    assert_eq!(steps[2].command.program, b"/data/natsu-typeless/venv/bin/python");
    assert_eq!(steps[2].description, "download the pinned Qwen3-ASR model");
    assert_eq!(setup_root(b"/data"), b"/data/natsu-typeless");
    assert_eq!(setup_venv(b"/data"), b"/data/natsu-typeless/venv");
}

#[test]
fn the_diagnosis_lists_every_check() {
    let mut findings = Findings {
        fcitx5: true,
        pw_record: true,
        worker_python: true,
        cloud_key: true,
        asr_key: false,
        daemon: Ok(DaemonStatus { state: "idle".into(), ready: false, detail: String::new() }),
    };
    let diagnosis = diagnose(&findings);
    assert!(diagnosis.healthy);
    assert_eq!(
        diagnosis.lines,
        [
            "[ok] fcitx5",
            "[ok] pw-record",
            "[ok] ASR Python",
            "[ok] cloud API key",
            "[optional] ASR API key (only required for remote ASR)",
            "state: idle",
            "ASR ready: false",
            "[ok] daemon DBus",
            "All required checks passed."
        ]
    );
    findings.cloud_key = false;
    findings.fcitx5 = false;
    findings.daemon = Err("no bus".into());
    let diagnosis = diagnose(&findings);
    assert!(!diagnosis.healthy);
    assert_eq!(diagnosis.lines[0], "[fail] fcitx5");
    assert_eq!(diagnosis.lines[3], "[missing] cloud API key");
    assert_eq!(diagnosis.lines[5], "[fail] daemon DBus: no bus");
    assert_eq!(diagnosis.lines.len(), 6);
    let failing = DaemonStatus { state: "error".into(), ready: true, detail: "why".into() };
    assert_eq!(status_lines(&failing), ["state: error", "ASR ready: true", "detail: why"]);
    assert_eq!(key_line("ASR API key", true), "ASR API key: configured");
    assert_eq!(key_line("Cloud API key", false), "Cloud API key: missing");
}

#[test]
fn a_stored_key_is_found() {
    let stored = set_cloud_api_key(" secret ");
    let answers = [KeyAnswer::Missing, value(" "), KeyAnswer::Value(stored.secret)];
    assert!(matches!(get_cloud_api_key(&answers), KeyStep::Found(key) if key == "secret"));
    let stored = set_asr_api_key(" secret ");
    let answers = [KeyAnswer::Missing, value(" "), KeyAnswer::Value(stored.secret)];
    assert!(matches!(get_asr_api_key(&answers), KeyStep::Found(key) if key == "secret"));
}
