use natsu_typeless::vocabulary::{
    deduplicate, load_domain_vocabulary, load_domain_vocabulary_from, may_read, merge_vocabulary,
    parse_entity_rules, parse_vocabulary, replace_ascii_word, resolve_contextual_entities,
    resolve_contextual_entities_in, resolve_with_rules, select_files, split_terms,
    vocabulary_directories, FileMetadata, VocabularyFile,
};

#[test]
fn parses_comments_and_keeps_correction_rules() {
    assert_eq!(
        parse_vocabulary("# entities\nAcmeAI\n\nacme => AcmeAI\n"),
        vec!["AcmeAI", "acme => AcmeAI"]
    );
}

#[test]
fn user_entries_win_case_insensitive_deduplication() {
    assert_eq!(
        merge_vocabulary(
            vec!["acmeai".into(), "WrongName => CanonicalName".into()],
            vec!["AcmeAI".into(), "OtherModel".into()]
        ),
        vec!["acmeai", "WrongName => CanonicalName", "OtherModel"]
    );
}

#[test]
fn entity_rules_disambiguate_both_directions_from_context() {
    let rules = parse_entity_rules("AcmeAI\tacme\tAI,模型,订阅,Max\tserver,storage,部署,区域\n");
    assert_eq!(
        resolve_with_rules("acme Max 订阅", &rules),
        "AcmeAI Max 订阅"
    );
    assert_eq!(
        resolve_with_rules("部署 AcmeAI server 到测试区域", &rules),
        "部署 acme server 到测试区域"
    );
    assert_eq!(
        resolve_with_rules("同步 acme 文件", &rules),
        "同步 acme 文件"
    );
    assert_eq!(
        replace_ascii_word("acmeplus acme", "acme", "AcmeAI"),
        "acmeplus AcmeAI"
    );
}

fn file(name: &str, content: &str) -> VocabularyFile {
    VocabularyFile {
        name: name.as_bytes().to_vec(),
        metadata: Some(FileMetadata {
            is_file: true,
            length: content.len() as u64,
        }),
        content: Some(content.to_string()),
    }
}

#[test]
fn entity_names_are_candidates_and_not_terms() {
    let vocabulary = load_domain_vocabulary_from(&[
        file("ai.tsv", "AcmeAI\tacme\tmodel\tserver\n"),
        file("ai.txt", "Opus\n# comment\nHaiku\n"),
    ]);
    assert!(vocabulary.iter().any(|term| term == "@AcmeAI"));
    assert!(!vocabulary.iter().any(|term| term == "AcmeAI"));
    assert_eq!(vocabulary, vec!["@AcmeAI", "Opus", "Haiku"]);
}

#[test]
fn files_that_cannot_be_read_bring_nothing() {
    let mut too_long = file("long.txt", "Long\n");
    too_long.metadata = Some(FileMetadata { is_file: true, length: 262_145 });
    let mut directory = file("directory.txt", "Directory\n");
    directory.metadata = Some(FileMetadata { is_file: false, length: 10 });
    let mut unknown = file("unknown.txt", "Unknown\n");
    unknown.metadata = None;
    let mut unreadable = file("unreadable.txt", "");
    unreadable.content = None;
    let files = vec![too_long, directory, unknown, unreadable, file("good.txt", "Good\n")];
    assert_eq!(load_domain_vocabulary_from(&files), vec!["Good"]);
    assert_eq!(load_domain_vocabulary(&[files, vec![file("b.txt", "good\nMore\n")]]), vec!["Good", "More"]);
}

#[test]
fn entities_are_resolved_in_all_directories() {
    let first = vec![file("a.tsv", "AcmeAI\tacme\tmodel\tserver\n")];
    let second = vec![file("b.tsv", "Boreal\tborreal\tmodel\tforest\n")];
    assert_eq!(
        resolve_contextual_entities("acme and borreal model", &[first, second]),
        "AcmeAI and Boreal model"
    );
    assert_eq!(
        resolve_contextual_entities_in("acme server", &[file("a.tsv", "AcmeAI\tacme\tmodel\tserver\n")]),
        "acme server"
    );
}

#[test]
fn a_tie_between_contexts_changes_nothing() {
    let rules = parse_entity_rules("AcmeAI\tacme\tmodel\tserver\nNoAlias\t\tx\ty\nshort\tline\n");
    assert_eq!(rules.len(), 1);
    assert_eq!(resolve_with_rules("acme model on a server", &rules), "acme model on a server");
}

#[test]
fn deduplication_keeps_the_first_spelling() {
    let once = deduplicate(vec!["A".into(), " a ".into(), "b".into(), "B".into(), "A".into()]);
    assert_eq!(once, vec!["A", "b"]);
    assert_eq!(deduplicate(once.clone()), once);
}

#[test]
fn terms_are_trimmed_and_cut() {
    assert_eq!(split_terms(" one, ,two ,"), vec!["one", "two"]);
    assert_eq!(split_terms(&"x".repeat(100)), vec!["x".repeat(80)]);
}

#[test]
fn files_are_read_in_byte_order_up_to_a_limit() {
    let names: Vec<Vec<u8>> = ["b.txt", "a.tsv", "B.txt", "notes.md", ".txt", "c.txt"]
        .iter()
        .map(|name| name.as_bytes().to_vec())
        .collect();
    let all: Vec<Vec<u8>> = ["B.txt", "a.tsv", "b.txt", "c.txt"]
        .iter()
        .map(|name| name.as_bytes().to_vec())
        .collect();
    assert_eq!(select_files(names.clone(), false), all);
    assert_eq!(select_files(names, true), vec![b"a.tsv".to_vec()]);
    let many: Vec<Vec<u8>> = (0..40).map(|i| format!("{i:02}.txt").into_bytes()).collect();
    let first: Vec<Vec<u8>> = (0..32).map(|i| format!("{i:02}.txt").into_bytes()).collect();
    let reversed: Vec<Vec<u8>> = many.into_iter().rev().collect();
    assert_eq!(select_files(reversed, false), first);
}

#[test]
fn long_files_are_not_read() {
    assert!(may_read(&Some(FileMetadata { is_file: true, length: 262_144 })));
    assert!(!may_read(&Some(FileMetadata { is_file: true, length: 262_145 })));
    assert!(!may_read(&None));
}

#[test]
fn a_requested_directory_comes_first() {
    let own = b"/data/natsu-typeless/vocabulary.d".to_vec();
    let installed = b"/usr/share/natsu-typeless/vocabulary.d".to_vec();
    assert_eq!(
        vocabulary_directories(Some(b"/tmp/words".to_vec()), b"/data"),
        vec![b"/tmp/words".to_vec(), own.clone(), installed.clone()]
    );
    assert_eq!(vocabulary_directories(None, b"/data/"), vec![own, installed]);
}

#[test]
fn hotwords_never_replace_text() {
    let rules = "AcmeAI\tacme\tmodel\tserver\n";
    assert_eq!(resolve_contextual_entities_in("acme model", &[file("a.txt", rules)]), "acme model");
    assert_eq!(resolve_contextual_entities_in("acme model", &[file("a.md", rules)]), "acme model");
    assert_eq!(
        resolve_contextual_entities_in("acme model", &[file("a.txt", "x\n"), file("a.tsv", rules)]),
        "AcmeAI model"
    );
    assert!(load_domain_vocabulary_from(&[file("a.md", "Word\n")]).is_empty());
}

#[test]
fn a_directory_is_read_in_order_and_up_to_the_limit() {
    let files: Vec<VocabularyFile> = (0..40)
        .rev()
        .map(|i| file(&format!("{i:02}.txt"), &format!("term{i:02}\n")))
        .collect();
    let expected: Vec<String> = (0..32).map(|i| format!("term{i:02}")).collect();
    assert_eq!(load_domain_vocabulary_from(&files), expected);
    let mut rules: Vec<VocabularyFile> =
        (0..32).map(|i| file(&format!("{i:02}.tsv"), "")).collect();
    rules.push(file("99.tsv", "AcmeAI\tacme\tmodel\tserver\n"));
    assert_eq!(resolve_contextual_entities_in("acme model", &rules), "acme model");
}

#[test]
fn rules_apply_part_by_part() {
    let both = parse_entity_rules("One\teins\tx\ty\nTwo\tone\tx\ty\n");
    let first = resolve_with_rules("eins x", &both[..1]);
    assert_eq!(first, "One x");
    assert_eq!(resolve_with_rules(&first, &both[1..]), resolve_with_rules("eins x", &both));
}

#[test]
fn hotword_files_can_be_joined() {
    let mut apart = parse_vocabulary("A\n# b\n");
    apart.extend(parse_vocabulary("C\r\n\nD"));
    assert_eq!(parse_vocabulary("A\n# b\n\nC\r\n\nD"), apart);
    assert_eq!(apart, vec!["A", "C", "D"]);
}

#[test]
fn merging_twice_is_merging_once() {
    let domain = || vec!["b".to_string(), "C".to_string()];
    let once = merge_vocabulary(vec!["A".into(), "B".into()], domain());
    assert_eq!(once, vec!["A", "B", "C"]);
    assert_eq!(merge_vocabulary(once.clone(), domain()), once);
}
