use meev::suggest::{
    active_within_week, common_interests, interest_overlap, interest_reason, rank_indices,
    suggestion_reasons,
};

fn strings(v: &[&str]) -> Vec<String> {
    v.iter().map(|s| s.to_string()).collect()
}

const DAY: i64 = 86_400_000_000;

#[test]
fn overlap_is_case_insensitive() {
    let mine = strings(&["Rust", "go", "music"]);
    let theirs = strings(&["rust", "GO", "art", "Art"]);
    assert_eq!(interest_overlap(&mine, &theirs), (2, 4));
    assert_eq!(interest_overlap(&vec![], &theirs), (0, 3));
    assert_eq!(interest_overlap(&vec![], &vec![]), (0, 0));
}

#[test]
fn common_interests_in_candidate_order() {
    let mine = strings(&["Rust", "music"]);
    let theirs = strings(&["Music", "art", "RUST", "rust"]);
    assert_eq!(common_interests(&mine, &theirs), strings(&["Music", "RUST", "rust"]));
}

#[test]
fn interest_reason_lists_three() {
    assert_eq!(interest_reason(&vec![]), None);
    assert_eq!(interest_reason(&strings(&["a"])), Some("اهتمامات مشتركة: a".to_string()));
    assert_eq!(
        interest_reason(&strings(&["a", "b", "c", "d"])),
        Some("اهتمامات مشتركة: a، b، c".to_string())
    );
}

#[test]
fn reasons_in_order_with_fallback() {
    let r = suggestion_reasons(&strings(&["rust"]), Some("12"), 3);
    assert_eq!(
        r,
        strings(&["اهتمامات مشتركة: rust", "قريب منك جغرافياً (12 كم)", "أصدقاء/متابعات مشتركة: 3"])
    );
    assert_eq!(suggestion_reasons(&vec![], None, 0), strings(&["نشط في MEEV"]));
    assert_eq!(suggestion_reasons(&vec![], None, -2), strings(&["نشط في MEEV"]));
    assert_eq!(suggestion_reasons(&vec![], None, 10), strings(&["أصدقاء/متابعات مشتركة: 10"]));
}

#[test]
fn recent_activity_window() {
    let now = 100 * DAY;
    assert!(active_within_week(now, Some(now)));
    assert!(active_within_week(now, Some(now - 7 * DAY)));
    assert!(active_within_week(now, Some(now - 8 * DAY + 1)));
    assert!(!active_within_week(now, Some(now - 8 * DAY)));
    assert!(active_within_week(now, Some(now + 30 * DAY)));
    assert!(!active_within_week(now, None));
}

#[test]
fn ranking_is_stable_by_score() {
    let scores = vec![10, 30, 20, 30, 5, 0, 7];
    assert_eq!(rank_indices(&scores, 6), vec![1, 3, 2, 0, 6, 4]);
    assert_eq!(rank_indices(&scores, 1), vec![1, 3, 2, 0, 6, 4]);
    assert_eq!(rank_indices(&scores, 60), vec![1, 3, 2, 0, 6, 4, 5]);
    assert!(rank_indices(&vec![], 10).is_empty());
}

#[test]
fn shared_interests_never_exceed_union() {
    let a = strings(&["x", "Y", "z"]);
    let b = strings(&["y", "X", "w", "v"]);
    let (inter, union) = interest_overlap(&a, &b);
    assert!(inter <= union);
    assert_eq!((inter, union), (2, 5));
}
