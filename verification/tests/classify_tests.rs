use dearrow_cli::classify::{classify, Submission, SubmissionDetails, SubmissionInfo};
use dearrow_cli::row::format_row;
use dearrow_cli::view::{compute_shared_width, sort_by_newest};
use dearrow_cli::width::compute_field_width;

fn title(
    votes: i32,
    downvotes: i32,
    score: i32,
    locked: bool,
    removed: bool,
    shadow_hidden: bool,
    vip: bool,
    original: bool,
    unverified: bool,
) -> Submission {
    Submission {
        info: SubmissionInfo {
            uuid: String::from("uuid-1"),
            user_id: String::from("user-1"),
            username: None,
            votes,
            downvotes,
            score,
            locked,
            removed,
            shadow_hidden,
            vip,
            original,
            time_submitted: 0,
        },
        details: SubmissionDetails::Title {
            title: String::from("a title"),
            unverified,
        },
    }
}

fn thumbnail(
    votes: i32,
    downvotes: i32,
    score: i32,
    locked: bool,
    removed: bool,
    shadow_hidden: bool,
    vip: bool,
    original: bool,
    timestamp: Option<String>,
) -> Submission {
    Submission {
        info: SubmissionInfo {
            uuid: String::from("uuid-2"),
            user_id: String::from("user-2"),
            username: None,
            votes,
            downvotes,
            score,
            locked,
            removed,
            shadow_hidden,
            vip,
            original,
            time_submitted: 0,
        },
        details: SubmissionDetails::Thumbnail { timestamp },
    }
}

#[test]
fn field_width_unsigned_values() {
    assert_eq!(compute_field_width(&vec![0], false), 1);
    assert_eq!(compute_field_width(&vec![7], false), 1);
    assert_eq!(compute_field_width(&vec![9], false), 1);
    assert_eq!(compute_field_width(&vec![10], false), 2);
    assert_eq!(compute_field_width(&vec![999], false), 3);
    assert_eq!(compute_field_width(&vec![1000], false), 4);
}

#[test]
fn field_width_signed_values() {
    assert_eq!(compute_field_width(&vec![0], true), 1);
    assert_eq!(compute_field_width(&vec![-7], true), 2);
    assert_eq!(compute_field_width(&vec![-10], true), 3);
    assert_eq!(compute_field_width(&vec![-999], true), 4);
}

#[test]
fn field_width_takes_maximum() {
    assert_eq!(compute_field_width(&vec![], false), 1);
    assert_eq!(compute_field_width(&vec![3, 1234, 56], false), 4);
    assert_eq!(compute_field_width(&vec![-12, 5], true), 3);
}

#[test]
fn classify_is_deterministic() {
    let s = title(3, 7, -2, true, false, true, true, true, true);
    let first = classify(&s, 3);
    let second = classify(&s, 3);
    assert_eq!(first.0, second.0);
    assert_eq!(first.1, second.1);
}

#[test]
fn removed_wins_over_downvoted() {
    // removed fires before the downvote rule, so the group result is only `m`
    let s = title(-5, 10, 0, false, true, false, false, false, false);
    let (flags, _) = classify(&s, 2);
    assert_eq!(flags, "m");
}

#[test]
fn original_title_with_positive_score_gets_only_o() {
    let s = title(3, 0, 3, false, false, false, false, true, false);
    let (flags, _) = classify(&s, 1);
    assert_eq!(flags, "o");
}

#[test]
fn zero_downvotes_render_as_dash_zero() {
    // W = 2: the downvotes sub-cell is exactly `-0`, two characters
    let s = title(0, 0, 0, false, false, false, false, false, false);
    let (_, cell) = classify(&s, 2);
    assert_eq!(cell, " 0 (+0 | -0)");
}

#[test]
fn zero_downvotes_blank_padding_at_width_four() {
    let s = title(0, 0, 0, false, false, false, false, false, false);
    let (_, cell) = classify(&s, 4);
    assert_eq!(cell, "   0 (  +0 |   -0)");
}

#[test]
fn downvotes_pad_with_dash_trail() {
    // W = 3, downvotes = 5: the sub-cell is `--5`
    let s = title(4, 5, 0, false, false, false, false, false, false);
    let (_, cell) = classify(&s, 3);
    assert_eq!(cell, "  0 ( +4 | --5)");
}

#[test]
fn negative_score_and_votes_render_signs() {
    let s = title(-3, 2, -12, false, false, false, false, false, false);
    let (flags, cell) = classify(&s, 3);
    assert_eq!(flags, "d");
    assert_eq!(cell, "-12 ( -3 | --2), d");
}

#[test]
fn negative_downvotes_degrade_gracefully() {
    // the service does not guarantee downvotes >= 0; rendering must not panic
    let s = title(0, -4, 0, false, false, false, false, false, false);
    let (flags, cell) = classify(&s, 2);
    assert_eq!(flags, "");
    assert_eq!(cell, " 0 (+0 | -4)");
}

#[test]
fn shadow_hidden_and_removed_combine() {
    let s = title(0, 0, 0, false, true, true, false, false, false);
    let (flags, _) = classify(&s, 1);
    assert_eq!(flags, "mx");
}

#[test]
fn downvoted_title_gets_d() {
    let s = title(3, 5, 0, false, false, false, false, false, false);
    let (flags, _) = classify(&s, 1);
    assert_eq!(flags, "d");
}

#[test]
fn negative_votes_title_gets_r() {
    let s = title(-1, 0, 0, false, false, false, false, false, false);
    let (flags, _) = classify(&s, 1);
    assert_eq!(flags, "r");
}

#[test]
fn hidden_title_needs_unlocked_negative_score() {
    let s = title(1, 0, -1, false, false, false, false, false, false);
    let (flags, _) = classify(&s, 1);
    assert_eq!(flags, "h");
    let locked = title(1, 0, -1, true, false, false, false, false, false);
    let (flags, _) = classify(&locked, 1);
    assert_eq!(flags, "l");
}

#[test]
fn independent_flags_keep_fixed_order() {
    let s = title(5, 0, 5, true, false, false, true, true, true);
    let (flags, _) = classify(&s, 1);
    assert_eq!(flags, "oulv");
}

#[test]
fn original_thumbnail_needs_positive_score() {
    // an original thumbnail with score 0 is below its visibility threshold
    let s = thumbnail(0, 0, 0, false, false, false, false, true, None);
    let (flags, _) = classify(&s, 1);
    assert_eq!(flags, "oh");
    let shown = thumbnail(0, 0, 1, false, false, false, false, true, None);
    let (flags, _) = classify(&shown, 1);
    assert_eq!(flags, "o");
}

#[test]
fn thumbnail_negative_votes_do_not_get_r() {
    // the replaced-by-submitter rule is title-only
    let s = thumbnail(-1, 0, 0, false, false, false, false, false, None);
    let (flags, _) = classify(&s, 1);
    assert_eq!(flags, "");
}

#[test]
fn flags_appended_after_comma() {
    let s = title(0, 0, 0, true, false, false, false, false, false);
    let (flags, cell) = classify(&s, 1);
    assert_eq!(flags, "l");
    assert_eq!(cell, "0 (+0 | -0), l");
}

#[test]
fn shared_width_spans_all_numeric_fields() {
    let a = title(123, 0, -4, false, false, false, false, false, false);
    let b = title(0, 45678, 0, false, false, false, false, false, false);
    assert_eq!(compute_shared_width(&vec![a, b]), 5);
    assert_eq!(compute_shared_width(&vec![]), 1);
}

#[test]
fn format_row_renders_datetime_in_utc() {
    let mut s = title(0, 0, 0, false, false, false, false, false, false);
    s.info.time_submitted = 947638923004;
    let row = format_row(&s, 1);
    assert_eq!(row[0], "2000-01-12 01:02:03");
    assert_eq!(row[1], "a title");
    assert_eq!(row[3], "uuid-1");
    assert_eq!(row[4], "");
    assert_eq!(row[5], "user-1");
}

#[test]
fn format_row_falls_back_to_raw_milliseconds() {
    let mut s = title(0, 0, 0, false, false, false, false, false, false);
    s.info.time_submitted = i64::MAX;
    let row = format_row(&s, 1);
    assert_eq!(row[0], "9223372036854775807");
    let mut s2 = title(0, 0, 0, false, false, false, false, false, false);
    s2.info.time_submitted = i64::MIN;
    let row2 = format_row(&s2, 1);
    assert_eq!(row2[0], "-9223372036854775808");
}

#[test]
fn format_row_quotes_username() {
    let mut s = title(0, 0, 0, false, false, false, false, false, false);
    s.info.username = Some(String::from("alice"));
    let row = format_row(&s, 1);
    assert_eq!(row[4], "\"alice\"");
}

#[test]
fn format_row_thumbnail_cells() {
    let with_time = thumbnail(0, 0, 0, false, false, false, false, false, Some(String::from("12.34")));
    assert_eq!(format_row(&with_time, 1)[1], "12.34");
    let original = thumbnail(0, 0, 1, false, false, false, false, true, None);
    assert_eq!(format_row(&original, 1)[1], "Original");
    let unknown = thumbnail(0, 0, 0, false, false, false, false, false, None);
    assert_eq!(format_row(&unknown, 1)[1], "Unknown");
}

#[test]
fn sort_orders_newest_first() {
    let mut a = title(0, 0, 0, false, false, false, false, false, false);
    a.info.time_submitted = 10;
    a.info.uuid = String::from("a");
    let mut b = title(0, 0, 0, false, false, false, false, false, false);
    b.info.time_submitted = 30;
    b.info.uuid = String::from("b");
    let mut c = title(0, 0, 0, false, false, false, false, false, false);
    c.info.time_submitted = 20;
    c.info.uuid = String::from("c");
    let sorted = sort_by_newest(vec![a, b, c]);
    let ids: Vec<String> = sorted.iter().map(|s| s.info.uuid.clone()).collect();
    assert_eq!(ids, vec!["b", "c", "a"]);
}

#[test]
fn sort_keeps_input_order_of_equal_times() {
    let mut subs: Vec<Submission> = Vec::new();
    for (id, ts) in [("p", 5), ("q", 9), ("r", 5), ("s", 9), ("t", 5)] {
        let mut sub = title(0, 0, 0, false, false, false, false, false, false);
        sub.info.uuid = String::from(id);
        sub.info.time_submitted = ts;
        subs.push(sub);
    }
    let sorted = sort_by_newest(subs);
    let ids: Vec<String> = sorted.iter().map(|s| s.info.uuid.clone()).collect();
    assert_eq!(ids, vec!["q", "s", "p", "r", "t"]);
}
