use wordle_solver::{Phase, Session, SolveError, Tag};

fn words(v: &[&str]) -> Vec<String> {
    v.iter().map(|w| w.to_string()).collect()
}

fn states(v: &[&str]) -> Vec<String> {
    words(v)
}

#[test]
fn all_correct_row_solves() {
    let mut s = Session::new(words(&["crane", "trace"]), 6);
    assert_eq!(s.phase(), Phase::Guessing);
    let p = s.record(&"trace".to_string(), &vec![Tag::Correct; 5]);
    assert_eq!(p, Phase::Solved);
    assert_eq!(s.answer(), Some("trace".to_string()));
    assert_eq!(s.rows_used(), 1);
}

#[test]
fn rows_run_out_without_solution() {
    let mut s = Session::new(words(&["crane", "trace", "grape", "place", "stage", "brace"]), 2);
    let f = vec![Tag::Absent, Tag::Absent, Tag::Absent, Tag::Absent, Tag::Absent];
    assert_eq!(s.record(&"zzzzz".to_string(), &f), Phase::Guessing);
    assert_eq!(s.record(&"yyyyy".to_string(), &f), Phase::Exhausted);
    assert_eq!(s.answer(), None);
    // Further rows change nothing.
    assert_eq!(s.record(&"crane".to_string(), &vec![Tag::Correct; 5]), Phase::Exhausted);
}

#[test]
fn no_rows_means_exhausted() {
    let s = Session::new(words(&["crane"]), 0);
    assert_eq!(s.phase(), Phase::Exhausted);
}

#[test]
fn last_candidate_removed_then_pick_fails() {
    let mut s = Session::new(words(&["crane"]), 6);
    let g = s.next_guess().unwrap();
    assert_eq!(g, "crane");
    let p = s.record(&g, &vec![Tag::Correct, Tag::Correct, Tag::Correct, Tag::Correct, Tag::Absent]);
    assert_eq!(p, Phase::Guessing);
    assert!(s.candidates().is_empty());
    assert_eq!(s.next_guess(), Err(SolveError::EmptyCandidateSet));
}

#[test]
fn next_guess_is_a_candidate() {
    let s = Session::new(words(&["crane", "trace", "grape"]), 6);
    for _ in 0..50 {
        let g = s.next_guess().unwrap();
        assert!(s.candidates().contains(&g));
    }
}

#[test]
fn pick_by_index() {
    let s = Session::new(words(&["crane", "trace"]), 6);
    assert_eq!(s.pick(1), Ok("trace".to_string()));
    let e = Session::new(Vec::new(), 6);
    assert_eq!(e.pick(0), Err(SolveError::EmptyCandidateSet));
}

#[test]
fn observe_filters_candidates() {
    let mut s = Session::new(words(&["crane", "trace", "grape", "place", "stage"]), 6);
    let p = s.observe(&"crane".to_string(), &states(&["absent", "absent", "correct", "absent", "correct"]));
    assert_eq!(p, Ok(Phase::Guessing));
    assert_eq!(s.candidates(), &words(&["place", "stage"]));
    assert_eq!(s.rows_used(), 1);
}

#[test]
fn observe_rejects_unknown_state() {
    let mut s = Session::new(words(&["crane", "trace"]), 6);
    let p = s.observe(&"crane".to_string(), &states(&["absent", "absent", "tbd", "absent", "absent"]));
    assert_eq!(p, Err(SolveError::MalformedFeedback));
    assert_eq!(s.rows_used(), 0);
    assert_eq!(s.candidates().len(), 2);
}

#[test]
fn observe_all_correct_solves() {
    let mut s = Session::new(words(&["crane", "trace"]), 6);
    let p = s.observe(&"crane".to_string(), &states(&["correct"; 5]));
    assert_eq!(p, Ok(Phase::Solved));
    assert_eq!(s.answer(), Some("crane".to_string()));
}
