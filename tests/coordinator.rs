use zip_cracker::error::SetupError;
use zip_cracker::search::{begin_search, search, SearchOutcome, SearchReport, SearchState, Verdict};

fn words(list: &[&str]) -> Vec<String> {
    list.iter().map(|w| w.to_string()).collect()
}

fn true_password(p: &'static str) -> impl Fn(&String) -> Verdict {
    move |c: &String| if c == p { Verdict::Match } else { Verdict::NoMatch }
}

fn found(report: &SearchReport) -> Option<(String, usize)> {
    match &report.outcome {
        SearchOutcome::Found { password, attempts } => Some((password.clone(), *attempts)),
        SearchOutcome::Exhausted { .. } => None,
    }
}

fn exhausted(report: &SearchReport) -> Option<usize> {
    match &report.outcome {
        SearchOutcome::Exhausted { attempts } => Some(*attempts),
        SearchOutcome::Found { .. } => None,
    }
}

#[test]
fn search_finds_correct_in_middle() {
    let report = search(&words(&["wrong1", "correct", "wrong2"]), true_password("correct")).unwrap();
    assert_eq!(found(&report), Some(("correct".to_string(), 3)));
    assert!(report.errors.is_empty());
}

#[test]
fn search_exhausts_without_password() {
    let report = search(&words(&["a", "b", "c"]), true_password("zzz")).unwrap();
    assert_eq!(exhausted(&report), Some(3));
}

#[test]
fn search_empty_wordlist_fails() {
    let r = search(&Vec::new(), true_password("x"));
    assert!(matches!(r, Err(SetupError::EmptyWordlist)));
}

#[test]
fn search_single_candidate() {
    let report = search(&words(&["only"]), true_password("only")).unwrap();
    assert_eq!(found(&report), Some(("only".to_string(), 1)));
}

#[test]
fn search_errors_are_not_matches() {
    let verify = |c: &String| {
        if c == "plain" {
            Verdict::NoMatch
        } else {
            Verdict::Error(format!("corrupt for {c}"))
        }
    };
    let report = search(&words(&["x", "plain", "y", "z"]), verify).unwrap();
    assert_eq!(exhausted(&report), Some(4));
    assert_eq!(report.errors.len(), 3);
    assert_eq!(report.errors[0].candidate, "x");
    assert_eq!(report.errors[0].reason, "corrupt for x");
    assert_eq!(report.errors[2].candidate, "z");
}

#[test]
fn search_all_errors_still_exhausts() {
    let verify = |_: &String| Verdict::Error("bad archive".to_string());
    let report = search(&words(&["a", "b"]), verify).unwrap();
    assert_eq!(exhausted(&report), Some(2));
    assert_eq!(report.errors.len(), 2);
}

#[test]
fn search_many_matches_keeps_first() {
    let verify = |c: &String| if c.starts_with("ok") { Verdict::Match } else { Verdict::NoMatch };
    let report = search(&words(&["no", "ok1", "ok2", "ok3"]), verify).unwrap();
    assert_eq!(found(&report), Some(("ok1".to_string(), 4)));
}

#[test]
fn search_stops_dispatch_after_match() {
    let calls = std::cell::Cell::new(0usize);
    let verify = |c: &String| {
        calls.set(calls.get() + 1);
        if c == "b" { Verdict::Match } else { Verdict::NoMatch }
    };
    let report = search(&words(&["a", "b", "c", "d"]), verify).unwrap();
    assert_eq!(found(&report), Some(("b".to_string(), 4)));
    assert_eq!(calls.get(), 2);
}

#[test]
fn search_duplicates_are_harmless() {
    let report = search(&words(&["p", "p", "q"]), true_password("p")).unwrap();
    assert_eq!(found(&report), Some(("p".to_string(), 3)));
}

#[test]
fn begin_search_checks_setup() {
    assert!(matches!(begin_search(3, 0), Err(SetupError::InvalidConcurrency)));
    assert!(matches!(begin_search(0, 0), Err(SetupError::InvalidConcurrency)));
    assert!(matches!(begin_search(0, 4), Err(SetupError::EmptyWordlist)));
    let s = begin_search(3, 4).unwrap();
    assert!(s.should_attempt());
    assert!(!s.is_stopped());
    assert_eq!(s.winner(), None);
}

#[test]
fn state_first_winner_is_kept() {
    let mut s = SearchState::new();
    s.record(&"w1".to_string(), Verdict::Match);
    assert!(s.is_stopped());
    assert!(!s.should_attempt());
    s.record(&"w2".to_string(), Verdict::Match);
    assert_eq!(s.winner(), Some("w1".to_string()));
    let report = s.into_report(5);
    assert_eq!(found(&report), Some(("w1".to_string(), 5)));
}

#[test]
fn state_errors_do_not_stop() {
    let mut s = SearchState::new();
    s.record(&"a".to_string(), Verdict::Error("io".to_string()));
    s.record(&"b".to_string(), Verdict::NoMatch);
    assert!(s.should_attempt());
    assert_eq!(s.error_len(), 1);
    assert_eq!(s.winner(), None);
    let report = s.into_report(2);
    assert_eq!(exhausted(&report), Some(2));
    assert_eq!(report.errors[0].reason, "io");
}

#[test]
fn state_result_independent_of_order() {
    let cands = words(&["wrong1", "correct", "wrong2"]);
    let orders: [[usize; 3]; 3] = [[0, 1, 2], [2, 1, 0], [1, 0, 2]];
    for order in orders {
        let mut s = SearchState::new();
        for i in order {
            let v = if cands[i] == "correct" { Verdict::Match } else { Verdict::NoMatch };
            s.record(&cands[i], v);
        }
        assert_eq!(found(&s.into_report(3)), Some(("correct".to_string(), 3)));
    }
}
