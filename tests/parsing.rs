use transcript_audio::transcript::{produce, Conversation};

fn pairs(c: &Conversation) -> Vec<(String, String)> {
    c.interjections.iter().map(|i| (i.voice.clone(), i.words.clone())).collect()
}

#[test]
fn parses_one_utterance_per_line_in_order() {
    let c = produce("Alice: Hello there\nBob: Hi!\n").unwrap();
    assert_eq!(
        pairs(&c),
        vec![
            ("Alice".to_string(), "Hello there".to_string()),
            ("Bob".to_string(), "Hi!".to_string()),
        ]
    );
}

#[test]
fn splits_on_first_separator_only() {
    let c = produce("Narrator: Time: 10: 30 ").unwrap();
    assert_eq!(pairs(&c), vec![("Narrator".to_string(), "Time: 10: 30".to_string())]);
}

#[test]
fn trims_lines_and_words() {
    let c = produce("   Alice:    spaced words   \r\n").unwrap();
    assert_eq!(pairs(&c), vec![("Alice".to_string(), "spaced words".to_string())]);
}

#[test]
fn blank_lines_are_skipped() {
    let c = produce("\n\nA: one\n   \n\t\nB: two\n\n").unwrap();
    assert_eq!(
        pairs(&c),
        vec![("A".to_string(), "one".to_string()), ("B".to_string(), "two".to_string())]
    );
}

#[test]
fn empty_transcript_has_no_utterances() {
    let c = produce("").unwrap();
    assert!(c.interjections.is_empty());
    let c = produce("  \n \n").unwrap();
    assert!(c.interjections.is_empty());
}

#[test]
fn line_without_separator_fails_whole_transcript() {
    let e = produce("A: one\n  no label here  \nB: two\n").unwrap_err();
    assert_eq!(e.line, "no label here");
}

#[test]
fn colon_without_space_is_not_a_separator() {
    assert!(produce("A:one").is_err());
    assert!(produce("A :\tone").is_err());
}

#[test]
fn empty_label_is_kept() {
    let c = produce(": words").unwrap();
    assert_eq!(pairs(&c), vec![("".to_string(), "words".to_string())]);
}

#[test]
fn trailing_separator_space_is_trimmed_away() {
    assert!(produce("Label: \n").is_err());
    let c = produce("Label:  x").unwrap();
    assert_eq!(pairs(&c), vec![("Label".to_string(), "x".to_string())]);
}

#[test]
fn non_ascii_text_is_kept() {
    let c = produce("Zoë: ¿Qué tal? 🙂").unwrap();
    assert_eq!(pairs(&c), vec![("Zoë".to_string(), "¿Qué tal? 🙂".to_string())]);
}
