use meev::error::AppError;
use meev::routes::{
    attachment_usable, attachments_enabled, clean_optional, clean_text, dm_peer, escape_like,
    follow_status, follow_target, group_members, is_member_sql, login_identifier, message_content,
    message_not_empty, page_limit, page_offset, prefix_pattern, search_pattern, search_query,
    suggestion_limit, unread_count, username_key,
};

fn bad_request_msg<T: std::fmt::Debug>(r: Result<T, AppError>) -> String {
    match r {
        Err(AppError::BadRequest(m)) => m,
        other => panic!("expected BadRequest, got {:?}", other),
    }
}

#[test]
fn free_text_is_cleaned() {
    assert_eq!(clean_text("  Cairo\u{0}, Egypt  ", 120), "Cairo, Egypt");
    assert_eq!(clean_text("abcdef", 3), "abc");
    assert_eq!(clean_optional(Some("  \u{1} "), 60), None);
    assert_eq!(clean_optional(Some("  Team "), 60), Some("Team".to_string()));
    assert_eq!(clean_optional(None, 60), None);
}

#[test]
fn message_content_rules() {
    assert_eq!(message_content(Some("  hi\n\tthere\u{7}  "), 4000), "hi\n\tthere");
    assert_eq!(message_content(Some("abcdef"), 4), "abcd");
    assert_eq!(message_content(None, 10), "");
}

#[test]
fn message_checks() {
    assert_eq!(bad_request_msg(attachments_enabled(0)), "المرفقات معطلة.");
    assert!(attachments_enabled(1).is_ok());
    assert_eq!(bad_request_msg(attachment_usable(false)), "المرفق غير موجود أو تم استخدامه من قبل.");
    assert!(attachment_usable(true).is_ok());
    assert_eq!(bad_request_msg(message_not_empty("   ", false)), "لا يمكن إرسال رسالة فارغة.");
    assert!(message_not_empty("   ", true).is_ok());
    assert!(message_not_empty("x", false).is_ok());
}

#[test]
fn direct_message_needs_another_user() {
    assert_eq!(bad_request_msg(dm_peer(5, 5)), "لا يمكنك مراسلة نفسك.");
    assert!(dm_peer(5, 6).is_ok());
}

#[test]
fn group_members_are_sorted_and_unique() {
    assert_eq!(group_members(&vec![9, 3, 9], 5).unwrap(), vec![3, 5, 9]);
    assert_eq!(
        bad_request_msg(group_members(&vec![], 5)),
        "المجموعة يجب أن تضم بين 1 و 49 عضواً غيرك."
    );
    let fifty: Vec<u128> = (0..50).collect();
    assert_eq!(
        bad_request_msg(group_members(&fifty, 100)),
        "المجموعة يجب أن تضم بين 1 و 49 عضواً غيرك."
    );
    assert_eq!(
        bad_request_msg(group_members(&vec![3, 3], 5)),
        "المجموعة تحتاج عضواً واحداً على الأقل غيرك."
    );
    assert_eq!(
        bad_request_msg(group_members(&vec![5, 7], 5)),
        "المجموعة تحتاج عضواً واحداً على الأقل غيرك."
    );
}

#[test]
fn unread_marker() {
    assert_eq!(unread_count(Some((10, 2)), Some(5), 1), 1);
    assert_eq!(unread_count(Some((10, 1)), Some(5), 1), 0);
    assert_eq!(unread_count(Some((5, 2)), Some(5), 1), 0);
    assert_eq!(unread_count(Some((1, 2)), None, 1), 1);
    assert_eq!(unread_count(Some((-1, 2)), None, 1), 0);
    assert_eq!(unread_count(None, None, 1), 0);
}

#[test]
fn paging_values() {
    assert_eq!(page_limit(None, 50, 1, 100), 50);
    assert_eq!(page_limit(Some(0), 50, 1, 100), 1);
    assert_eq!(page_limit(Some(500), 50, 1, 100), 100);
    assert_eq!(page_offset(Some(-3)), 0);
    assert_eq!(page_offset(Some(7)), 7);
    assert_eq!(page_offset(None), 0);
    assert_eq!(suggestion_limit(None), 24);
    assert_eq!(suggestion_limit(Some(1)), 6);
    assert_eq!(suggestion_limit(Some(99)), 60);
    assert_eq!(suggestion_limit(Some(30)), 30);
}

#[test]
fn like_patterns_escape_wildcards() {
    assert_eq!(escape_like("50%_a\\b"), "50\\%\\_a\\\\b");
    assert_eq!(search_pattern("a_b"), "%a\\_b%");
    assert_eq!(prefix_pattern("c%"), "c\\%%");
    assert_eq!(search_query("  ali "), Some("ali".to_string()));
    assert_eq!(search_query("   "), None);
}

#[test]
fn login_identifier_rules() {
    assert_eq!(login_identifier("  Bob@X.io ", "pw").unwrap(), "bob@x.io");
    assert_eq!(bad_request_msg(login_identifier("   ", "pw")), "أدخل اسم المستخدم/البريد وكلمة المرور.");
    assert_eq!(bad_request_msg(login_identifier("bob", "")), "أدخل اسم المستخدم/البريد وكلمة المرور.");
    assert_eq!(username_key("  Bob "), "bob");
}

#[test]
fn follow_rules() {
    assert_eq!(bad_request_msg(follow_target(1, 1)), "لا يمكنك متابعة نفسك.");
    assert!(follow_target(1, 2).is_ok());
    assert_eq!(follow_status(true), "pending");
    assert_eq!(follow_status(false), "accepted");
}

#[test]
fn membership_query_is_parameterized() {
    assert_eq!(
        is_member_sql(),
        "SELECT EXISTS(SELECT 1 FROM conversation_members WHERE conversation_id = $1 AND user_id = $2)"
    );
}

fn like_literal(p: &str) -> Option<String> {
    let mut out = String::new();
    let mut it = p.chars();
    while let Some(c) = it.next() {
        match c {
            '\\' => out.push(it.next()?),
            '%' | '_' => return None,
            other => out.push(other),
        }
    }
    Some(out)
}

#[test]
fn escaped_queries_match_literally() {
    for q in ["50%_a\\b", "plain", "", "\\", "%%", "_x_", "نص%"] {
        assert_eq!(like_literal(&escape_like(q)).as_deref(), Some(q));
    }
    assert_eq!(like_literal("a%"), None);
}
