use natsu_typeless::audio::{AudioError, Recording};
use natsu_typeless::config::{Environment, ProcessConfig};
use natsu_typeless::protocol::{TranscriptResult, WorkerResponse};
use natsu_typeless::worker::{
    accept_response, encode_request, request_frame, response_length, worker_header, worker_request,
    AttemptStep, WorkerManager,
};

fn manager() -> WorkerManager {
    let environment = Environment {
        worker_python: Some(b"/opt/python".to_vec()),
        model: None,
        model_revision: None,
        worker_module: None,
        managed_exists: false,
        development_exists: false,
    };
    WorkerManager::new(ProcessConfig::resolve(environment, b"/data"))
}

fn answer(request_id: &str, text: &str) -> WorkerResponse {
    WorkerResponse {
        version: 1,
        request_id: request_id.into(),
        ok: true,
        text: text.into(),
        language: "zh".into(),
        error: "reason".into(),
        inference_ms: 5,
    }
}

fn transcript(text: &str) -> TranscriptResult {
    TranscriptResult { text: text.into(), language: "zh".into() }
}

#[test]
fn requests_describe_the_recording() {
    let request = worker_request("id", &[0; 32_000], "zh", &["Opus".into()]).unwrap();
    assert_eq!(request.version, 1);
    assert_eq!(request.request_id, "id");
    assert_eq!(request.sample_rate, 16_000);
    assert_eq!(request.language, "zh");
    assert_eq!(request.vocabulary, vec!["Opus"]);
    assert_eq!(request.max_new_tokens, 128);
    assert_eq!(request.pcm_bytes, 32_000);
}

#[test]
fn the_token_budget_is_eight_for_every_second() {
    let budget = |bytes: usize| {
        let exact = ((bytes as f64 / 32_000.0 * 8.0).ceil() as u32).clamp(128, 2048);
        let request = worker_request("id", &vec![0; bytes], "auto", &[]).unwrap();
        assert_eq!(request.max_new_tokens, exact, "{bytes} bytes");
        exact
    };
    assert_eq!(budget(0), 128);
    assert_eq!(budget(512_000), 128);
    assert_eq!(budget(512_001), 129);
    assert_eq!(budget(516_000), 129);
    assert_eq!(budget(516_001), 130);
    assert_eq!(budget(3_840_000), 960);
    assert_eq!(budget(8_192_000), 2_048);
    assert_eq!(budget(9_600_000), 2_048);
}

#[test]
fn frames_carry_length_header_and_audio() {
    let frame = request_frame(b"{}", &[7, 8]).unwrap();
    assert_eq!(frame, [2, 0, 0, 0, b'{', b'}', 7, 8]);
    let long = request_frame(&[1; 70_000], &[]).unwrap();
    assert_eq!(&long[..4], &70_000_u32.to_le_bytes());
    assert_eq!(response_length(&[long[0], long[1], long[2], long[3]]).unwrap(), 70_000);
}

#[test]
fn answers_have_a_bounded_length() {
    assert_eq!(response_length(&[0, 0, 16, 0]).unwrap(), 1_048_576);
    let error = response_length(&[1, 0, 16, 0]).unwrap_err();
    assert_eq!(error.message(), "invalid worker response length: 1048577");
    let error = response_length(&[0; 4]).unwrap_err();
    assert_eq!(error.message(), "invalid worker response length: 0");
    let error = response_length(&[255; 4]).unwrap_err();
    assert_eq!(error.message(), "invalid worker response length: 4294967295");
}

#[test]
fn answers_are_checked() {
    let heard = accept_response(answer("id", " 你好 \n"), "id").unwrap();
    assert_eq!(heard.text, "你好");
    assert_eq!(heard.language, "zh");
    let message = |response: WorkerResponse| accept_response(response, "id").unwrap_err().message();
    assert_eq!(
        message(answer("other", "x")),
        "ASR worker returned a mismatched protocol response"
    );
    let mut old = answer("id", "x");
    old.version = 2;
    assert_eq!(message(old), "ASR worker returned a mismatched protocol response");
    let mut bad = answer("id", "x");
    bad.ok = false;
    assert_eq!(message(bad), "ASR inference failed: reason");
    assert_eq!(message(answer("id", "  ")), "ASR returned no speech");
}

#[test]
fn a_worker_is_started_once_and_must_report() {
    let mut worker = manager();
    let command = worker.warm().unwrap();
    assert_eq!(command.program, b"/opt/python");
    let error = worker.started(answer("other", "")).unwrap_err();
    assert_eq!(error.message(), "ASR worker failed to initialize: reason");
    let mut bad = answer("__ready__", "");
    bad.ok = false;
    assert!(worker.started(bad).is_err());
    assert!(!worker.is_ready());
    worker.started(answer("__ready__", "")).unwrap();
    assert!(worker.is_ready());
    assert!(worker.warm().is_none());
    assert!(worker.stop());
    assert!(!worker.is_ready());
    assert!(!worker.stop());
}

#[test]
fn a_failure_is_retried_once() {
    let mut worker = manager();
    worker.started(answer("__ready__", "")).unwrap();
    let first = match worker.transcribe(None, Err("pipe closed".into())) {
        AttemptStep::Restart { first_error, kill } => {
            assert!(kill);
            first_error
        }
        AttemptStep::Finished { .. } => panic!("no retry"),
    };
    assert_eq!(first, "pipe closed");
    assert!(!worker.is_ready());
    match worker.transcribe(Some(first), Err("again".into())) {
        AttemptStep::Finished { outcome, .. } => {
            assert_eq!(outcome.unwrap_err(), "ASR worker failed after restart: pipe closed");
        }
        AttemptStep::Restart { .. } => panic!("second retry"),
    }
    match worker.transcribe(Some("first".into()), Ok(transcript("fine"))) {
        AttemptStep::Finished { outcome, .. } => assert_eq!(outcome.unwrap().text, "fine"),
        AttemptStep::Restart { .. } => panic!("retry after success"),
    }
}

#[test]
fn only_the_latest_use_unloads_the_model() {
    let mut worker = manager();
    let first = worker.schedule_idle_unload();
    assert_eq!(first.seconds, 15 * 60);
    assert!(worker.idle_unload_due(first));
    worker.set_idle_minutes(500);
    let second = worker.schedule_idle_unload();
    assert_eq!(second.seconds, 120 * 60);
    assert!(!worker.idle_unload_due(first));
    assert!(worker.idle_unload_due(second));
    worker.set_idle_minutes(0);
    assert_eq!(worker.schedule_idle_unload().seconds, 60);
}

#[test]
fn recordings_are_bounded() {
    let mut recording = Recording::start(1);
    assert_eq!(recording.push(&[1; 32_000]), Ok(()));
    assert_eq!(recording.push(&[]), Ok(()));
    assert_eq!(recording.finish().unwrap().len(), 32_000);
}

#[test]
fn a_recording_that_grew_too_long_comes_to_nothing() {
    let mut recording = Recording::start(1);
    assert_eq!(recording.push(&[1; 31_999]), Ok(()));
    assert_eq!(recording.push(&[1; 2]), Err(AudioError::TooLong));
    assert_eq!(recording.push(&[1]), Err(AudioError::TooLong));
    assert_eq!(
        recording.finish().unwrap_err().message(),
        "recording exceeded the configured maximum duration"
    );
}

#[test]
fn too_little_audio_is_no_speech() {
    let mut recording = Recording::start(5);
    recording.push(&[1; 3_199]).unwrap();
    assert_eq!(recording.finish().unwrap_err().message(), "no speech audio was captured");
    let mut recording = Recording::start(5);
    recording.push(&[1; 3_000]).unwrap();
    recording.push(&[2; 200]).unwrap();
    let pcm = recording.finish().unwrap();
    assert_eq!((pcm[2_999], pcm[3_000], pcm.len()), (1, 2, 3_200));
}

#[test]
fn the_framed_header_is_the_request() {
    let terms = ["\"Opus\"".to_string(), "字".to_string()];
    let request = worker_request("id", &[7, 8, 9], "zh", &terms).unwrap();
    let header: serde_json::Value = serde_json::from_str(&worker_header(&request)).unwrap();
    assert_eq!(header.as_object().unwrap().len(), 7);
    assert_eq!(header["version"], 1);
    assert_eq!(header["request_id"], "id");
    assert_eq!(header["sample_rate"], 16_000);
    assert_eq!(header["language"], "zh");
    assert_eq!(header["vocabulary"], serde_json::Value::from(terms.to_vec()));
    assert_eq!(header["max_new_tokens"], 128);
    assert_eq!(header["pcm_bytes"], 3);
    let frame = encode_request(&request, &[7, 8, 9]).unwrap();
    let length = u32::from_le_bytes([frame[0], frame[1], frame[2], frame[3]]) as usize;
    assert_eq!(&frame[4..4 + length], worker_header(&request).as_bytes());
    assert_eq!(&frame[4 + length..], &[7, 8, 9]);
}
