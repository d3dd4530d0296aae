use smbn::util::{format_duration, new_id, parse_principals, suffixed_id, with_random_suffix};

#[test]
fn principals_are_split_trimmed_sorted_and_deduplicated() {
    let list = parse_principals(" bob ; Alice,\r\nalice\n\n ,carol ");
    assert_eq!(list, vec!["Alice".to_string(), "bob".to_string(), "carol".to_string()]);
}

#[test]
fn principals_keep_the_first_spelling() {
    let list = parse_principals("USERS, Users, users");
    assert_eq!(list, vec!["USERS".to_string()]);
    assert!(parse_principals(" ,; \r\n").is_empty());
}

#[test]
fn principals_sort_by_lowered_name() {
    let list = parse_principals("b,A,_x,Z");
    assert_eq!(list, vec!["_x".to_string(), "A".to_string(), "b".to_string(), "Z".to_string()]);
}

#[test]
fn durations_below_a_day() {
    assert_eq!(format_duration(0), "00:00:00");
    assert_eq!(format_duration(59), "00:00:59");
    assert_eq!(format_duration(3_661), "01:01:01");
    assert_eq!(format_duration(86_399), "23:59:59");
}

#[test]
fn durations_with_days() {
    assert_eq!(format_duration(86_400), "1天 00:00:00");
    assert_eq!(format_duration(2 * 86_400 + 3 * 3_600 + 4 * 60 + 5), "2天 03:04:05");
    assert_eq!(format_duration(u64::MAX), "213503982334601天 07:00:15");
}

#[test]
fn new_ids_have_ten_lowercase_characters() {
    let id = new_id("share");
    assert_eq!(id.len(), "share-".len() + 10);
    assert!(id.starts_with("share-"));
    assert!(id["share-".len()..].chars().all(|c| c.is_ascii_lowercase() || c.is_ascii_digit()));
    assert_ne!(new_id("share"), new_id("share"));
}

#[test]
fn random_suffix_has_the_requested_length() {
    let name = with_random_suffix("x", 24);
    assert_eq!(name.len(), 26);
    assert_eq!(&name[..2], "x-");
}

#[test]
fn principal_lists_survive_the_editor() {
    for text in ["bob; Alice,\r\nalice\n\n ,carol ", "USERS, Users", "", " x ,\ty\u{3000}"] {
        let list = parse_principals(text);
        let shown = smbn::status::join_with(&list, "\r\n");
        assert_eq!(parse_principals(&shown), list, "{text:?}");
    }
}

#[test]
fn suffixed_ids_lower_the_drawn_characters() {
    assert_eq!(suffixed_id("share", "Ab9XyZ0q1W"), "share-ab9xyz0q1w");
    assert_eq!(suffixed_id("", "Q"), "-q");
    assert_eq!(suffixed_id("user", ""), "user-");
}
