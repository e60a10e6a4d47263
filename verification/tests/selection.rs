use uipilot::candidates::{
    choose_best_by_heuristic, rank_score, resolve_candidate_index, Candidate, UiCandidate,
};

fn chars(s: &str) -> Vec<char> {
    s.chars().collect()
}

fn cand(id: usize, tag: &str, text: &str, aria: &str, rect: Option<(i32, i32, i32, i32)>, visible: bool, disabled: bool) -> Candidate {
    Candidate {
        meta: UiCandidate {
            id,
            tag: chars(tag),
            text: chars(text),
            aria: chars(aria),
            role: chars(""),
            type_attr: chars(""),
            name: chars(""),
            value: chars(""),
            data_test: chars(""),
        },
        rect,
        visible,
        disabled,
    }
}

#[test]
fn heuristic_is_deterministic() {
    let prompt = chars("click the Send button");
    let cands = vec![
        cand(0, "A", "Home", "", Some((0, 0, 80, 20)), true, false),
        cand(1, "BUTTON", "Send message", "", Some((100, 100, 120, 40)), true, false),
        cand(2, "BUTTON", "Cancel", "", Some((240, 100, 120, 40)), true, false),
    ];
    let first = choose_best_by_heuristic(&prompt, &cands, 1280, 800);
    for _ in 0..5 {
        assert_eq!(choose_best_by_heuristic(&prompt, &cands, 1280, 800), first);
    }
}

#[test]
fn heuristic_prefers_matching_button() {
    let prompt = chars("send the reply");
    let cands = vec![
        cand(0, "A", "About us", "", Some((0, 0, 200, 50)), true, false),
        cand(1, "BUTTON", "Send", "", Some((10, 10, 100, 30)), true, false),
        cand(2, "DIV", "sidebar", "", Some((0, 0, 300, 900)), true, false),
    ];
    assert_eq!(choose_best_by_heuristic(&prompt, &cands, 1280, 800), 1);
}

#[test]
fn heuristic_skips_hidden_and_disabled() {
    let prompt = chars("send");
    let cands = vec![
        cand(0, "BUTTON", "Send", "", Some((0, 0, 100, 30)), false, false),
        cand(1, "BUTTON", "Send", "", Some((0, 0, 100, 30)), true, true),
        cand(2, "A", "other", "", Some((0, 0, 100, 30)), true, false),
    ];
    assert_eq!(choose_best_by_heuristic(&prompt, &cands, 1280, 800), 2);
}

#[test]
fn heuristic_with_nothing_eligible_falls_back_to_zero() {
    let prompt = chars("send");
    let cands = vec![
        cand(0, "BUTTON", "Send", "", None, false, false),
        cand(1, "BUTTON", "Send", "", None, true, true),
    ];
    assert_eq!(choose_best_by_heuristic(&prompt, &cands, 1280, 800), 0);
}

#[test]
fn matching_is_case_insensitive() {
    let prompt = chars("SEND");
    let a = cand(0, "DIV", "send now", "", None, true, false);
    let b = cand(1, "DIV", "nothing here", "", None, true, false);
    let sa = rank_score(&prompt, &a, 1280, 800);
    let sb = rank_score(&prompt, &b, 1280, 800);
    assert!(sa > sb);
}

#[test]
fn aria_label_counts_like_text() {
    let prompt = chars("submit the form");
    let a = cand(0, "DIV", "", "submit order", None, true, false);
    let b = cand(1, "DIV", "", "", None, true, false);
    assert!(rank_score(&prompt, &a, 1280, 800) > rank_score(&prompt, &b, 1280, 800));
}

#[test]
fn valid_model_id_wins_over_heuristic() {
    let prompt = chars("send");
    let cands = vec![
        cand(0, "BUTTON", "Send", "", None, true, false),
        cand(1, "A", "other", "", None, true, false),
    ];
    assert_eq!(resolve_candidate_index(&Some(Some(1)), &prompt, &cands, 1280, 800), 1);
}

#[test]
fn out_of_range_or_missing_id_falls_back() {
    let prompt = chars("send");
    let cands = vec![
        cand(0, "A", "other", "", None, true, false),
        cand(1, "BUTTON", "Send", "", None, true, false),
    ];
    assert_eq!(resolve_candidate_index(&Some(Some(7)), &prompt, &cands, 1280, 800), 1);
    assert_eq!(resolve_candidate_index(&Some(None), &prompt, &cands, 1280, 800), 1);
    assert_eq!(resolve_candidate_index(&None, &prompt, &cands, 1280, 800), 1);
}
