use transcript_audio::output::{output_file_name, plan_run, VoiceMap};
use transcript_audio::transcript::produce;

#[test]
fn file_names_for_five_utterances_are_unpadded() {
    let names: Vec<String> = (1..=5).map(|i| output_file_name(i, 5)).collect();
    assert_eq!(names, vec!["1.mp3", "2.mp3", "3.mp3", "4.mp3", "5.mp3"]);
}

#[test]
fn file_names_for_fifteen_utterances_have_two_digits() {
    assert_eq!(output_file_name(1, 15), "01.mp3");
    assert_eq!(output_file_name(9, 15), "09.mp3");
    assert_eq!(output_file_name(10, 15), "10.mp3");
    assert_eq!(output_file_name(15, 15), "15.mp3");
}

#[test]
fn file_names_pad_to_the_width_of_the_total() {
    assert_eq!(output_file_name(7, 100), "007.mp3");
    assert_eq!(output_file_name(100, 100), "100.mp3");
    assert_eq!(output_file_name(3, 12), "03.mp3");
}

fn voices() -> VoiceMap {
    let mut v = VoiceMap::new();
    v.insert("Alice".to_string(), "voice-a".to_string());
    v.insert("Bob".to_string(), "voice-b".to_string());
    v
}

#[test]
fn voice_map_lookup_and_replace() {
    let mut v = voices();
    assert_eq!(v.get(&"Alice".to_string()).unwrap(), "voice-a");
    assert!(v.get(&"Carol".to_string()).is_none());
    v.insert("Alice".to_string(), "voice-z".to_string());
    assert_eq!(v.get(&"Alice".to_string()).unwrap(), "voice-z");
    assert_eq!(v.get(&"Bob".to_string()).unwrap(), "voice-b");
}

#[test]
fn plan_covers_every_utterance_in_order() {
    let c = produce("Alice: one\nBob: two\nAlice: three\n").unwrap();
    let plan = plan_run(&c, &vec![false, false, false], &voices());
    assert!(plan.missing_voice.is_none());
    let got: Vec<(usize, String, String, String)> = plan
        .jobs
        .iter()
        .map(|j| (j.index, j.file_name.clone(), j.voice_id.clone(), j.words.clone()))
        .collect();
    assert_eq!(
        got,
        vec![
            (1, "1.mp3".to_string(), "voice-a".to_string(), "one".to_string()),
            (2, "2.mp3".to_string(), "voice-b".to_string(), "two".to_string()),
            (3, "3.mp3".to_string(), "voice-a".to_string(), "three".to_string()),
        ]
    );
}

#[test]
fn plan_skips_existing_third_file() {
    let text = "Alice: a\nBob: b\nAlice: c\nBob: d\nAlice: e\nBob: f\nAlice: g\nBob: h\nAlice: i\nBob: j\n";
    let c = produce(text).unwrap();
    let mut done = vec![false; 10];
    done[2] = true;
    let plan = plan_run(&c, &done, &voices());
    assert!(plan.missing_voice.is_none());
    let names: Vec<String> = plan.jobs.iter().map(|j| j.file_name.clone()).collect();
    assert_eq!(
        names,
        vec!["01.mp3", "02.mp3", "04.mp3", "05.mp3", "06.mp3", "07.mp3", "08.mp3", "09.mp3", "10.mp3"]
    );
}

#[test]
fn plan_stops_at_missing_voice() {
    let c = produce("Alice: one\nCarol: two\nBob: three\n").unwrap();
    let plan = plan_run(&c, &vec![false, false, false], &voices());
    assert_eq!(plan.missing_voice.as_deref(), Some("Carol"));
    assert_eq!(plan.jobs.len(), 1);
    assert_eq!(plan.jobs[0].index, 1);
}

#[test]
fn missing_voice_of_a_done_utterance_is_not_needed() {
    let c = produce("Alice: one\nCarol: two\nBob: three\n").unwrap();
    let plan = plan_run(&c, &vec![false, true, false], &voices());
    assert!(plan.missing_voice.is_none());
    let idx: Vec<usize> = plan.jobs.iter().map(|j| j.index).collect();
    assert_eq!(idx, vec![1, 3]);
}
