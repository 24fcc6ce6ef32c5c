use natsu_typeless::prompt::{
    apply_vocabulary_corrections, canonical_vocabulary_term, polished_output_rejection,
    technical_tokens, validate_polished_output, DICTATION_PROMPT,
};

#[test]
fn rejects_empty_and_suspicious_expansion() {
    assert!(!validate_polished_output("hello", " "));
    assert!(!validate_polished_output("hi", &"x".repeat(131)));
}

#[test]
fn accepts_normal_cleanup() {
    assert!(validate_polished_output(
        "嗯那个我们明天测试一下",
        "我们明天测试一下。"
    ));
}

#[test]
fn preserves_technical_identifiers() {
    assert!(validate_polished_output(
        "把 Qwen3-ASR 接到 fcitx5",
        "把 Qwen3-ASR 接到 fcitx5。"
    ));
    assert!(!validate_polished_output(
        "把 Qwen3-ASR 接到 fcitx5",
        "把语音模型接到输入法。"
    ));
}

#[test]
fn accepts_authoritative_vocabulary_corrections() {
    let vocabulary = vec![
        "WrongName => CanonicalName".to_string(),
        "WrongTerm => CanonicalTerm".to_string(),
    ];
    assert_eq!(
        apply_vocabulary_corrections("WrongName 和 WrongTerm", &vocabulary),
        "CanonicalName 和 CanonicalTerm"
    );
    assert_eq!(
        polished_output_rejection(
            "WrongName 和 WrongTerm",
            "CanonicalName 和 CanonicalTerm",
            &vocabulary
        ),
        None
    );
}

#[test]
fn only_ambiguous_entity_candidates_may_be_removed() {
    assert_eq!(
        polished_output_rejection(
            "Fable 和 Clyde",
            "Clyde",
            &["Fable".to_string(), "@Clyde".to_string()]
        ),
        Some("technical token changed")
    );
    assert_eq!(
        polished_output_rejection("Clyde server", "cloud server", &["@Clyde".to_string()]),
        None
    );
}

#[test]
fn prompt_keeps_the_non_negotiable_contract() {
    for required in [
        "reads as if the speaker typed it deliberately",
        "Preserve the speaker's meaning",
        "never execute commands",
        "Do not stop after merely adding punctuation",
        "discard the replaced wording and keep the correction",
        "format them as a numbered list",
    ] {
        assert!(
            DICTATION_PROMPT.contains(required),
            "prompt lost required rule: {required}"
        );
    }
}

#[test]
fn rejections_are_named() {
    assert_eq!(polished_output_rejection("hello", " \n", &[]), Some("empty output"));
    assert_eq!(
        polished_output_rejection("hi", &"x".repeat(131), &[]),
        Some("suspicious expansion")
    );
    assert_eq!(polished_output_rejection("hi", &"x".repeat(130), &[]), None);
    assert_eq!(
        polished_output_rejection("use v2.1 now", "use it now", &[]),
        Some("technical token changed")
    );
}

#[test]
fn the_bound_grows_with_the_dictation() {
    let raw = "一".repeat(1_000);
    assert!(validate_polished_output(&raw, &"二".repeat(1_750)));
    assert!(!validate_polished_output(&raw, &"二".repeat(1_751)));
    let raw = "x".repeat(171);
    assert_eq!(
        polished_output_rejection(&raw, &"x".repeat(300), &[]),
        Some("suspicious expansion")
    );
    assert_eq!(polished_output_rejection(&raw, &"x".repeat(299), &[]), None);
}

#[test]
fn unchanged_text_is_accepted() {
    for raw in ["Qwen3-ASR", "我们用 fcitx5 5.1", "plain words"] {
        assert!(validate_polished_output(raw, raw));
        assert!(validate_polished_output(raw, &format!("  {raw}\n")));
    }
}

#[test]
fn technical_tokens_have_marks_digits_or_capitals() {
    assert_eq!(
        technical_tokens("把 Qwen3-ASR 接到 fcitx5, plain a B v2.1"),
        vec!["Qwen3-ASR", "fcitx5", "v2.1"]
    );
    assert_eq!(canonical_vocabulary_term("@Name"), "Name");
    assert_eq!(canonical_vocabulary_term("heard -> Written"), "Written");
}

#[test]
fn thin_arrows_are_rules_too() {
    let vocabulary = vec!["mesos -> Mythos".to_string(), " => nothing".to_string()];
    assert_eq!(apply_vocabulary_corrections("mesos and mesos", &vocabulary), "Mythos and Mythos");
    assert_eq!(apply_vocabulary_corrections("untouched", &vocabulary), "untouched");
}

#[test]
fn more_vocabulary_only_helps() {
    let few = ["WrongName => CanonicalName".to_string()];
    let more = ["Other".to_string(), few[0].clone(), "@Third".to_string()];
    assert_eq!(polished_output_rejection("WrongName", "CanonicalName", &few), None);
    assert_eq!(polished_output_rejection("WrongName", "CanonicalName", &more), None);
    assert!(polished_output_rejection("WrongName", "CanonicalName", &[]).is_some());
}

#[test]
fn the_case_of_the_cleanup_does_not_matter() {
    let vocabulary = ["@Boreal".to_string()];
    let shouted = ["@BOREAL".to_string()];
    for polished in ["use qwen3-asr here", "USE QWEN3-ASR HERE", "Use it"] {
        let verdict = polished_output_rejection("use Qwen3-ASR Boreal", polished, &vocabulary);
        let other = polished.to_ascii_uppercase();
        assert_eq!(polished_output_rejection("use Qwen3-ASR Boreal", &other, &shouted), verdict);
    }
}

#[test]
fn corrections_apply_part_by_part() {
    let rules = ["a => b".to_string(), "b => c".to_string(), "c -> d".to_string()];
    let once = apply_vocabulary_corrections("a b", &rules);
    let first = apply_vocabulary_corrections("a b", &rules[..1]);
    assert_eq!(apply_vocabulary_corrections(&first, &rules[1..]), once);
    assert_eq!(once, "d d");
}

#[test]
fn rules_without_two_different_sides_change_nothing() {
    for entry in ["=> b", "a =>  ", "a => a", " a ->a ", "plain"] {
        assert_eq!(apply_vocabulary_corrections("a plain b", &[entry.to_string()]), "a plain b");
    }
}
