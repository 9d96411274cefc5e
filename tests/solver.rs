use wordle_solver::{apply, survives};
use wordle_solver::Tag::{Absent, Correct, Present};

fn words(v: &[&str]) -> Vec<String> {
    v.iter().map(|w| w.to_string()).collect()
}

#[test]
fn crane_scenario_keeps_only_consistent_words() {
    let dict = words(&["crane", "trace", "grape", "place", "stage"]);
    let f = vec![Present, Absent, Absent, Correct, Absent];
    // `c` must occur off position 0 and `n` must sit at position 3: no word
    // besides the guess has `n` there, so nothing is left.
    let r = apply(&dict, "crane", &f);
    assert_eq!(r, Vec::<String>::new());
}

#[test]
fn crane_scenario_position_rules() {
    // A word that meets every position of the same row is kept.
    let f = vec![Present, Absent, Absent, Correct, Absent];
    assert!(survives("bocny", "crane", &f));
    assert!(!survives("grape", "crane", &f));
    assert!(!survives("stage", "crane", &f));
}

#[test]
fn all_absent_row_drops_words_sharing_letters() {
    let dict = words(&["trace", "crane", "blimp", "fjord"]);
    let f = vec![Absent; 5];
    let r = apply(&dict, "trace", &f);
    // `fjord` holds the `r` of the guess.
    assert_eq!(r, words(&["blimp"]));
}

#[test]
fn whole_word_shortcut_needs_every_tag_absent() {
    let f = vec![Absent, Absent, Absent, Absent, Present];
    // `ethos` shares `t` with the guess, but one tag is not absent.
    assert!(survives("ethos", "trace", &f));
    assert!(!survives("ethos", "trace", &vec![Absent; 5]));
}

#[test]
fn filtering_twice_equals_filtering_once() {
    let dict = words(&["crane", "trace", "grape", "place", "stage", "brace", "grace"]);
    let f = vec![Absent, Correct, Correct, Absent, Correct];
    let once = apply(&dict, "trace", &f);
    let twice = apply(&once, "trace", &f);
    assert_eq!(once, words(&["crane", "grape"]));
    assert_eq!(twice, once);
}

#[test]
fn filtering_never_adds_candidates() {
    let dict = words(&["crane", "trace", "grape", "place", "stage"]);
    let f = vec![Absent, Absent, Correct, Absent, Correct];
    let r = apply(&dict, "crane", &f);
    assert!(r.len() <= dict.len());
    assert!(r.iter().all(|w| dict.contains(w)));
    assert_eq!(r, words(&["place", "stage"]));
}

#[test]
fn truthful_feedback_keeps_the_secret() {
    // Secret `stage` against guess `crane`.
    let dict = words(&["crane", "trace", "grape", "place", "stage"]);
    let f = vec![Absent, Absent, Correct, Absent, Correct];
    assert!(apply(&dict, "crane", &f).contains(&"stage".to_string()));
    // Secret `abbey` against guess `babes`: the second `b` matches, the first is elsewhere.
    let f = vec![Present, Present, Correct, Correct, Absent];
    assert!(survives("abbey", "babes", &f));
}

#[test]
fn all_correct_row_keeps_everything() {
    let dict = words(&["crane", "trace"]);
    let r = apply(&dict, "crane", &vec![Correct; 5]);
    assert_eq!(r, dict);
}

#[test]
fn guess_is_removed_with_every_copy() {
    let dict = words(&["crane", "crane", "brine"]);
    let f = vec![Absent, Correct, Absent, Correct, Correct];
    assert_eq!(apply(&dict, "crane", &f), words(&["brine"]));
}

#[test]
fn single_candidate_is_removed_by_wrong_row() {
    let dict = words(&["crane"]);
    let f = vec![Correct, Correct, Correct, Correct, Absent];
    assert!(apply(&dict, "crane", &f).is_empty());
}
