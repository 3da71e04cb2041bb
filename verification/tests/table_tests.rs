use dearrow_cli::classify::{Submission, SubmissionDetails, SubmissionInfo};
use dearrow_cli::cli::{SubmissionKind, WarningKind};
use dearrow_cli::table::{render, try_render, ColumnCap};
use dearrow_cli::view::submission_table;
use dearrow_cli::wrap::truncate_cell_chars;

fn strings(cells: &[&str]) -> Vec<String> {
    cells.iter().map(|c| c.to_string()).collect()
}

#[test]
fn render_exact_grid_at_natural_width() {
    let headers = strings(&["A", "B"]);
    let rows = vec![strings(&["x", "yy"])];
    let text = render(&headers, &rows, 10, &Vec::new());
    assert_eq!(
        text,
        "+---+----+\n| A | B  |\n+---+----+\n| x | yy |\n+---+----+\n"
    );
}

#[test]
fn render_expands_narrowest_column_first() {
    let headers = strings(&["A", "B"]);
    let rows = vec![strings(&["x", "yy"])];
    let text = render(&headers, &rows, 12, &Vec::new());
    assert_eq!(
        text,
        "+-----+----+\n| A   | B  |\n+-----+----+\n| x   | yy |\n+-----+----+\n"
    );
}

#[test]
fn render_fills_terminal_exactly() {
    // natural width 80, terminal 120: every rendered line is exactly 120 wide
    let headers = strings(&["left", "right"]);
    let long = "a".repeat(60);
    let rows = vec![vec![long, "b".repeat(13)]];
    let text = render(&headers, &rows, 120, &Vec::new());
    assert!(!text.is_empty());
    for line in text.lines() {
        assert_eq!(line.chars().count(), 120);
    }
}

#[test]
fn render_wraps_widest_column_to_fit() {
    let headers = strings(&["A"]);
    let rows = vec![strings(&["aa bb"])];
    let text = render(&headers, &rows, 8, &Vec::new());
    assert_eq!(
        text,
        "+------+\n| A    |\n+------+\n| aa   |\n| bb   |\n+------+\n"
    );
}

#[test]
fn render_never_exceeds_terminal_when_tokens_allow() {
    // natural width far above 40: word-wrapping keeps every line within it
    let headers = strings(&["one", "two"]);
    let rows = vec![
        vec!["alpha beta gamma delta epsilon".to_string(), "zeta eta theta iota kappa".to_string()],
        vec!["lambda mu nu xi omicron pi".to_string(), "rho sigma tau upsilon".to_string()],
    ];
    let text = render(&headers, &rows, 40, &Vec::new());
    for line in text.lines() {
        assert!(line.chars().count() <= 40, "line too long: {:?}", line);
    }
}

#[test]
fn unbreakable_token_forces_minimum_width() {
    let headers = strings(&["A"]);
    let rows = vec![strings(&["abcdef"])];
    let text = render(&headers, &rows, 5, &Vec::new());
    // the six-character token cannot wrap: the table keeps its minimum width
    for line in text.lines() {
        assert_eq!(line.chars().count(), 10);
    }
    assert_eq!(
        text,
        "+--------+\n| A      |\n+--------+\n| abcdef |\n+--------+\n"
    );
}

#[test]
fn shrink_ties_break_to_lowest_column() {
    // both columns are 5 wide; shrinking one unit must hit column 0, whose
    // cell then wraps onto a second visual line without duplicating column 1
    let headers = strings(&["A", "B"]);
    let rows = vec![strings(&["aa aa", "bb bb"])];
    let text = render(&headers, &rows, 16, &Vec::new());
    assert_eq!(
        text,
        "+------+-------+\n| A    | B     |\n+------+-------+\n| aa   | bb bb |\n| aa   |       |\n+------+-------+\n"
    );
}

#[test]
fn render_is_idempotent() {
    let headers = strings(&["Submitted", "Title", "Score"]);
    let rows = vec![
        strings(&["2024-01-01 00:00:00", "some title", "3 (+3 | -0)"]),
        strings(&["2024-01-02 00:00:00", "other", "0 (+0 | -0), l"]),
    ];
    let caps = vec![ColumnCap { column: 1, cap: 8 }];
    let first = render(&headers, &rows, 60, &caps);
    let second = render(&headers, &rows, 60, &caps);
    assert_eq!(first, second);
}

#[test]
fn truncation_caps_cell_at_sixteen_characters() {
    let cell: Vec<char> = "averylongusernamethatoverflows".chars().collect();
    let cut = truncate_cell_chars(&cell, 16);
    let text: String = cut.iter().collect();
    assert_eq!(text.chars().count(), 16);
    assert!(text.ends_with("..."));
    assert_eq!(text, "averylonguser"
        .chars()
        .chain("...".chars())
        .collect::<String>());
}

#[test]
fn truncation_keeps_short_cells_whole() {
    let cell: Vec<char> = "short".chars().collect();
    let cut = truncate_cell_chars(&cell, 16);
    let text: String = cut.iter().collect();
    assert_eq!(text, "short");
}

#[test]
fn render_applies_column_caps() {
    let headers = strings(&["Name", "Id"]);
    let rows = vec![strings(&["averylongusernamethatoverflows", "7"])];
    let caps = vec![ColumnCap { column: 0, cap: 16 }];
    let text = render(&headers, &rows, 27, &caps);
    assert!(text.contains("averylonguser..."));
    assert!(!text.contains("averylongusername"));
}

#[test]
fn try_render_rejects_ragged_rows() {
    let headers = strings(&["A", "B"]);
    let rows = vec![strings(&["only one cell"])];
    assert!(try_render(&headers, &rows, 20, &Vec::new()).is_none());
}

#[test]
fn try_render_matches_render() {
    let headers = strings(&["A", "B"]);
    let rows = vec![strings(&["x", "yy"])];
    let direct = render(&headers, &rows, 10, &Vec::new());
    let checked = try_render(&headers, &rows, 10, &Vec::new());
    assert_eq!(checked, Some(direct));
}

#[test]
fn submission_table_truncates_long_usernames() {
    let sub = Submission {
        info: SubmissionInfo {
            uuid: String::from("uuid"),
            user_id: String::from("user"),
            username: Some(String::from("averylongusernamethatoverflows")),
            votes: 1,
            downvotes: 0,
            score: 1,
            locked: false,
            removed: false,
            shadow_hidden: false,
            vip: false,
            original: false,
            time_submitted: 947638923004,
        },
        details: SubmissionDetails::Title {
            title: String::from("a title"),
            unverified: false,
        },
    };
    let text = submission_table(&vec![sub], SubmissionKind::Title, 120).unwrap();
    // quoted and cut to exactly 16 characters ending in the ellipsis
    assert!(text.contains("\"averylonguse..."));
    assert!(!text.contains("averylongusernamethatoverflows"));
    assert!(text.contains("Submitted"));
    assert!(text.contains("2000-01-12 01:02:03"));
    for line in text.lines() {
        assert_eq!(line.chars().count(), 120);
    }
}

#[test]
fn submission_table_exact_output_at_natural_width() {
    let sub = Submission {
        info: SubmissionInfo {
            uuid: String::from("u"),
            user_id: String::from("i"),
            username: None,
            votes: 1,
            downvotes: 0,
            score: 1,
            locked: false,
            removed: false,
            shadow_hidden: false,
            vip: false,
            original: false,
            time_submitted: 0,
        },
        details: SubmissionDetails::Title {
            title: String::from("t"),
            unverified: false,
        },
    };
    // natural column widths: 19, 5, 11, 4, 8, 7; grid width 73
    let text = submission_table(&vec![sub], SubmissionKind::Title, 73).unwrap();
    let rule = format!(
        "+{}+{}+{}+{}+{}+{}+",
        "-".repeat(21),
        "-".repeat(7),
        "-".repeat(13),
        "-".repeat(6),
        "-".repeat(10),
        "-".repeat(9)
    );
    let header = format!(
        "| {:<19} | {:<5} | {:<11} | {:<4} | {:<8} | {:<7} |",
        "Submitted", "Title", "Score", "UUID", "Username", "User ID"
    );
    let data = format!(
        "| {:<19} | {:<5} | {:<11} | {:<4} | {:<8} | {:<7} |",
        "1970-01-01 00:00:00", "t", "1 (+1 | -0)", "u", "", "i"
    );
    let expected = format!("{rule}\n{header}\n{rule}\n{data}\n{rule}\n");
    assert_eq!(text, expected);
}

#[test]
fn submission_table_thumbnail_headers() {
    let sub = Submission {
        info: SubmissionInfo {
            uuid: String::from("uuid"),
            user_id: String::from("user"),
            username: None,
            votes: 0,
            downvotes: 0,
            score: 1,
            locked: false,
            removed: false,
            shadow_hidden: false,
            vip: false,
            original: true,
            time_submitted: 0,
        },
        details: SubmissionDetails::Thumbnail { timestamp: None },
    };
    let text = submission_table(&vec![sub], SubmissionKind::Thumbnail, 100).unwrap();
    assert!(text.contains("Timestamp"));
    assert!(text.contains("Original"));
    assert!(text.contains("1970-01-01 00:00:00"));
}

#[test]
fn render_header_only_table() {
    let headers = strings(&["A"]);
    let rows: Vec<Vec<String>> = Vec::new();
    let text = render(&headers, &rows, 5, &Vec::new());
    assert_eq!(text, "+---+\n| A |\n+---+\n+---+\n");
}

#[test]
fn submission_table_of_no_submissions() {
    let text = submission_table(&Vec::new(), SubmissionKind::Title, 80).unwrap();
    assert!(text.contains("| Submitted "));
    assert!(text.contains("| User ID"));
    for line in text.lines() {
        assert_eq!(line.chars().count(), 80);
    }
}

#[test]
fn warning_kind_names() {
    assert_eq!(WarningKind::Issued.name(), "issued");
    assert_eq!(WarningKind::Received.name(), "received");
}
