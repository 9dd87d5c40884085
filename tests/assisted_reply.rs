use transcript_audio::assisted::{build_prompt, clean_model_output, reply_text, AssistError, PROMPT_HEAD};

#[test]
fn prompt_ends_with_the_transcript() {
    let p = build_prompt("A: hi");
    assert!(p.starts_with("You are given a raw transcript"));
    assert!(p.ends_with("Transcript:\nA: hi"));
    assert_eq!(p.len(), PROMPT_HEAD.len() + 5);
}

#[test]
fn fences_are_removed() {
    assert_eq!(clean_model_output("  ```json\n{\"a\": 1}\n```  "), "{\"a\": 1}");
}

#[test]
fn unfenced_reply_is_only_trimmed() {
    assert_eq!(clean_model_output("\n {\"interjections\": []} \n"), "{\"interjections\": []}");
}

#[test]
fn repeated_fences_are_all_removed() {
    assert_eq!(clean_model_output("```json```json{}``````"), "{}");
}

#[test]
fn plain_triple_backtick_prefix_is_kept() {
    assert_eq!(clean_model_output("```\n{}\n```"), "```\n{}");
}

#[test]
fn reply_without_content_is_an_error() {
    assert_eq!(reply_text(&vec![]), Err(AssistError::NoContent));
}

#[test]
fn first_content_block_is_used() {
    let r = reply_text(&vec!["```json{}```".to_string(), "other".to_string()]);
    assert_eq!(r, Ok("{}".to_string()));
}
