use natsu_typeless::asr::{
    api_request, nonempty_text, openai_transcript, pcm_to_wav, qwen_body, qwen_request, qwen_transcript,
    transcription_request, AsrCall, AsrError, AsrRouter, QwenChoice, Readiness,
};
use natsu_typeless::config::{Environment, ProcessConfig};
use natsu_typeless::endpoint::{authorized, compact_error, endpoint_error, endpoint_url};
use natsu_typeless::protocol::{AsrProvider, RuntimeConfig, WorkerResponse};
use natsu_typeless::worker::WorkerManager;

fn router() -> AsrRouter {
    let environment = Environment {
        worker_python: None,
        model: None,
        model_revision: None,
        worker_module: None,
        managed_exists: false,
        development_exists: false,
    };
    AsrRouter::new(WorkerManager::new(ProcessConfig::resolve(environment, b"/data")))
}

fn remote(provider: AsrProvider) -> RuntimeConfig {
    RuntimeConfig {
        asr_provider: provider,
        asr_base_url: "http://127.0.0.1:8000/v1".into(),
        asr_model: "qwen3-asr-flash".into(),
        asr_timeout_ms: 2_000,
        ..RuntimeConfig::default()
    }
}

#[test]
fn wraps_pcm_as_mono_16khz_wav() {
    let wav = pcm_to_wav(&[1, 2, 3, 4]).unwrap();
    assert_eq!(&wav[..4], b"RIFF");
    assert_eq!(&wav[8..12], b"WAVE");
    assert_eq!(u16::from_le_bytes([wav[22], wav[23]]), 1);
    assert_eq!(
        u32::from_le_bytes([wav[24], wav[25], wav[26], wav[27]]),
        16_000
    );
    assert_eq!(&wav[44..], &[1, 2, 3, 4]);
}

#[test]
fn the_wav_header_is_complete() {
    let wav = pcm_to_wav(&[9; 10]).unwrap();
    let mut header = b"RIFF".to_vec();
    header.extend_from_slice(&46_u32.to_le_bytes());
    header.extend_from_slice(b"WAVEfmt ");
    header.extend_from_slice(&16_u32.to_le_bytes());
    header.extend_from_slice(&1_u16.to_le_bytes());
    header.extend_from_slice(&1_u16.to_le_bytes());
    header.extend_from_slice(&16_000_u32.to_le_bytes());
    header.extend_from_slice(&32_000_u32.to_le_bytes());
    header.extend_from_slice(&2_u16.to_le_bytes());
    header.extend_from_slice(&16_u16.to_le_bytes());
    header.extend_from_slice(b"data");
    header.extend_from_slice(&10_u32.to_le_bytes());
    assert_eq!(&wav[..44], header.as_slice());
    assert_eq!(wav.len(), 54);
}

#[test]
fn qwen_provider_uses_audio_chat_contract() {
    let config = remote(AsrProvider::QwenApi);
    let request = qwen_request(
        &config,
        &Some("asr-secret".into()),
        &[0, 0, 1, 0],
        "zh",
        &["Natsu Typeless".into()],
    )
    .unwrap();
    assert_eq!(request.url, "http://127.0.0.1:8000/v1/chat/completions");
    assert_eq!(request.bearer.as_deref(), Some("asr-secret"));
    assert_eq!(request.timeout_ms, 2_000);
    assert_eq!(request.model, "qwen3-asr-flash");
    assert!(request.audio.starts_with("data:audio/wav;base64,UklGR"));
    assert_eq!(request.language.as_deref(), Some("zh"));
    assert_eq!(
        request.context.as_deref(),
        Some("语音识别上下文与实体词表：Natsu Typeless")
    );
    assert!(request.enable_itn);
    assert!(!request.stream);
    let body = qwen_body(&request);
    assert!(body.contains(r#""model":"qwen3-asr-flash""#));
    assert!(body.contains(r#""type":"input_audio""#));
    assert!(body.contains("data:audio/wav;base64,UklGR"));
    assert!(body.contains(r#""language":"zh""#));
    assert!(body.contains("Natsu Typeless"));

    let output = qwen_transcript(
        &[QwenChoice {
            content: "你好，世界。".into(),
            languages: vec!["zh".into()],
        }],
        "zh",
    )
    .unwrap();
    assert_eq!(output.text, "你好，世界。");
    assert_eq!(output.language, "zh");
}

#[test]
fn generic_provider_uses_multipart_transcriptions_contract() {
    let mut config = remote(AsrProvider::OpenaiCompatible);
    config.asr_model = "whisper-1".into();
    let request =
        transcription_request(&config, &None, &[0, 0, 1, 0], "en", &["Typeless".into()]).unwrap();
    assert_eq!(request.url, "http://127.0.0.1:8000/v1/audio/transcriptions");
    assert_eq!(request.bearer, None);
    assert_eq!(request.model, "whisper-1");
    assert_eq!(request.response_format, "json");
    assert_eq!(request.file_name, "recording.wav");
    assert_eq!(request.mime_type, "audio/wav");
    assert!(request.wav.starts_with(b"RIFF"));
    assert_eq!(request.language.as_deref(), Some("en"));
    assert_eq!(request.prompt.as_deref(), Some("Typeless"));

    let output = openai_transcript("generic transcript".into(), "en".into(), "en").unwrap();
    assert_eq!(output.text, "generic transcript");
    assert_eq!(output.language, "en");
}

#[test]
fn audio_is_sent_as_standard_base64() {
    let config = remote(AsrProvider::QwenApi);
    let request = qwen_request(&config, &None, &[0xFB, 0xFF, 0xBF, 7], "auto", &[]).unwrap();
    assert_eq!(
        request.audio,
        "data:audio/wav;base64,UklGRigAAABXQVZFZm10IBAAAAABAAEAgD4AAAB9AAACABAAZGF0YQQAAAD7/78H"
    );
    assert_eq!(request.language, None);
    assert_eq!(request.context, None);
    let one_left = qwen_request(&config, &None, &[0, 0, 0, 0, 0], "auto", &[]).unwrap();
    assert!(one_left.audio.ends_with("AAAAAA=="));
    let two_left = qwen_request(&config, &None, &[0, 0, 0, 0, 0, 0], "auto", &[]).unwrap();
    assert!(two_left.audio.ends_with("AAAAAAA="));
}

#[test]
fn terms_are_joined_as_each_provider_wants() {
    let terms = ["Opus".to_string(), "Haiku".to_string()];
    let qwen = qwen_request(&remote(AsrProvider::QwenApi), &None, &[], "auto", &terms).unwrap();
    assert_eq!(qwen.context.as_deref(), Some("语音识别上下文与实体词表：Opus、Haiku"));
    let openai =
        transcription_request(&remote(AsrProvider::OpenaiCompatible), &None, &[], "auto", &terms)
            .unwrap();
    assert_eq!(openai.prompt.as_deref(), Some("Opus, Haiku"));
    assert_eq!(openai.language, None);
}

#[test]
fn data_urls_are_limited() {
    let config = remote(AsrProvider::QwenApi);
    // 22 characters in front of four for every three bytes of audio with its header.
    let largest = (10_485_760 - 22) / 4 * 3 - 44;
    assert!(qwen_request(&config, &None, &vec![0; largest], "auto", &[]).is_ok());
    let error = qwen_request(&config, &None, &vec![0; largest + 1], "auto", &[]).unwrap_err();
    assert!(matches!(error, AsrError::TooLargeForDataUrl));
    assert_eq!(error.message(), "recording exceeds Qwen ASR's 10 MB Data URL limit");
}

#[test]
fn answers_without_speech_are_refused() {
    let error = qwen_transcript(&[], "zh").unwrap_err();
    assert_eq!(error.message(), "Qwen ASR endpoint returned no choices");
    let silent = [QwenChoice { content: " \n".into(), languages: vec![] }];
    assert_eq!(qwen_transcript(&silent, "zh").unwrap_err().message(), "Qwen ASR returned no speech");
    assert_eq!(
        openai_transcript("".into(), "".into(), "en").unwrap_err().message(),
        "OpenAI-compatible ASR returned no speech"
    );
    assert_eq!(nonempty_text("  kept ".into(), "x").unwrap(), "kept");
}

#[test]
fn the_requested_language_stands_in_for_a_missing_one() {
    let choice = |languages: Vec<String>| [QwenChoice { content: "text".into(), languages }];
    let detected = qwen_transcript(&choice(vec![" ".into(), "fr".into(), "de".into()]), "zh");
    assert_eq!(detected.unwrap().language, "fr");
    assert_eq!(qwen_transcript(&choice(vec!["".into()]), "zh").unwrap().language, "zh");
    assert_eq!(openai_transcript("text".into(), " ".into(), "zh").unwrap().language, "zh");
}

#[test]
fn the_configured_provider_is_called_and_no_other() {
    let router = router();
    let key = Some("key".to_string());
    let local = RuntimeConfig::default();
    assert!(matches!(router.transcribe(&local, &None, &[0], "auto", &[]), Ok(AsrCall::Local)));
    assert!(matches!(
        router.transcribe(&remote(AsrProvider::QwenApi), &key, &[0], "auto", &[]),
        Ok(AsrCall::Qwen(_))
    ));
    assert!(matches!(
        router.transcribe(&remote(AsrProvider::OpenaiCompatible), &key, &[0], "auto", &[]),
        Ok(AsrCall::OpenAi(_))
    ));
    assert_eq!(
        api_request(&local, &key, &[0], "auto", &[]).unwrap_err().message(),
        "local ASR was routed to the API client"
    );
}

#[test]
fn a_required_key_must_be_there() {
    let router = router();
    let mut config = remote(AsrProvider::QwenApi);
    let error = router.transcribe(&config, &None, &[0], "auto", &[]).unwrap_err();
    assert_eq!(
        error.message(),
        "ASR API key is unavailable; run `natsu-typelessctl asr-key set`"
    );
    config.asr_api_key_required = false;
    assert!(router.transcribe(&config, &None, &[0], "auto", &[]).is_ok());
}

#[test]
fn choosing_a_remote_provider_gives_the_worker_up() {
    let mut router = router();
    assert!(router.local_mut().warm().is_some());
    router
        .local_mut()
        .started(WorkerResponse {
            version: 1,
            request_id: "__ready__".into(),
            ok: true,
            text: String::new(),
            language: String::new(),
            error: String::new(),
            inference_ms: 0,
        })
        .unwrap();
    let local = RuntimeConfig::default();
    assert!(!router.configure(&local));
    assert!(router.local().is_ready());
    assert_eq!(router.is_ready(&local), Readiness::Known(true));
    assert!(router.configure(&remote(AsrProvider::QwenApi)));
    assert!(!router.local().is_ready());
    assert!(!router.configure(&remote(AsrProvider::QwenApi)));
}

#[test]
fn readiness_depends_on_the_provider() {
    let router = router();
    assert!(router.prewarm(&RuntimeConfig::default()));
    assert_eq!(router.is_ready(&RuntimeConfig::default()), Readiness::Known(false));
    let mut config = remote(AsrProvider::OpenaiCompatible);
    assert!(!router.prewarm(&config));
    assert_eq!(router.is_ready(&config), Readiness::WithKey);
    config.asr_api_key_required = false;
    assert_eq!(router.is_ready(&config), Readiness::Known(true));
}

#[test]
fn error_reports_are_compact() {
    assert_eq!(compact_error("  bad\n\trequest  "), "bad request");
    assert_eq!(compact_error(&"字 ".repeat(300)).chars().count(), 240);
    assert_eq!(compact_error(""), "");
    assert_eq!(
        endpoint_error("Qwen ASR", "401 Unauthorized", "{\n \"error\": 1 }"),
        "Qwen ASR endpoint returned 401 Unauthorized: { \"error\": 1 }"
    );
}

#[test]
fn blank_keys_do_not_authorize() {
    assert_eq!(authorized(&Some(" \t".into())), None);
    assert_eq!(authorized(&Some(" key ".into())).as_deref(), Some(" key "));
    assert_eq!(authorized(&None), None);
    assert_eq!(endpoint_url("http://host/v1//", "/path"), "http://host/v1/path");
}

#[test]
fn the_chat_body_is_laid_out_for_the_service() {
    let config = remote(AsrProvider::QwenApi);
    let request = qwen_request(&config, &None, &[1, 2], "zh", &["\"Opus\"".into()]).unwrap();
    let body: serde_json::Value = serde_json::from_str(&qwen_body(&request)).unwrap();
    assert_eq!(body.as_object().unwrap().len(), 4);
    assert_eq!(body["model"], "qwen3-asr-flash");
    assert_eq!(body["stream"], false);
    assert_eq!(body["asr_options"]["enable_itn"], true);
    assert_eq!(body["asr_options"]["language"], "zh");
    let messages = body["messages"].as_array().unwrap();
    assert_eq!(messages.len(), 2);
    assert_eq!(messages[0]["role"], "system");
    assert_eq!(messages[0]["content"][0]["type"], "text");
    assert_eq!(
        messages[0]["content"][0]["text"],
        "语音识别上下文与实体词表：\"Opus\""
    );
    assert_eq!(messages[1]["role"], "user");
    assert_eq!(messages[1]["content"].as_array().unwrap().len(), 1);
    assert_eq!(messages[1]["content"][0]["type"], "input_audio");
    assert_eq!(messages[1]["content"][0]["input_audio"]["data"], request.audio.as_str());
    let bare = qwen_request(&config, &None, &[1, 2], "auto", &[]).unwrap();
    let body: serde_json::Value = serde_json::from_str(&qwen_body(&bare)).unwrap();
    assert_eq!(body["messages"].as_array().unwrap().len(), 1);
    assert_eq!(body["asr_options"].as_object().unwrap().len(), 1);
}
