//! Row formatter: maps one submission and the shared numeric width to the
//! fixed-order sequence of display cells that the table layout engine
//! renders.

use vstd::prelude::*;

use crate::classify::{classify, classify_cell, Submission, SubmissionDetails};
use crate::text::{chars_to_string, i64_chars, int_chars, push_all, str_chars, strs_view};

verus! {

/// What the datetime library renders for an epoch-milliseconds timestamp as
/// a UTC `YYYY-MM-DD HH:MM:SS` string: `None` exactly for the out-of-range
/// timestamps it rejects. The text depends on the timestamp alone.
pub uninterp spec fn datetime_text(ms: int) -> Option<Seq<char>>;

/// Relies on chrono's `DateTime::<Utc>::from_timestamp_millis`, which
/// returns `None` exactly on an out-of-range number of milliseconds, and on
/// chrono's formatting of the resulting UTC datetime with
/// `%Y-%m-%d %H:%M:%S`; both results are functions of the timestamp alone.
#[verifier::external_body]
fn datetime_cell(ms: i64) -> (r: Option<String>)
    ensures
        match r {
            Option::Some(s) => datetime_text(ms as int) == Option::Some(s@),
            Option::None => datetime_text(ms as int) is None,
        },
{
    chrono::DateTime::<chrono::Utc>::from_timestamp_millis(ms).map(
        |dt| dt.format("%Y-%m-%d %H:%M:%S").to_string(),
    )
}

/// The submission-time cell: the timestamp as a UTC datetime string, or the
/// raw millisecond count when the timestamp is out of the datetime range.
pub open spec fn submitted_cell(ms: int) -> Seq<char> {
    match datetime_text(ms) {
        Option::Some(s) => s,
        Option::None => int_chars(ms),
    }
}

/// The text standing for an uploader-provided default thumbnail.
pub open spec fn original_text() -> Seq<char> {
    seq!['O', 'r', 'i', 'g', 'i', 'n', 'a', 'l']
}

/// The text standing for a thumbnail whose frame offset the service did not
/// send.
pub open spec fn unknown_text() -> Seq<char> {
    seq!['U', 'n', 'k', 'n', 'o', 'w', 'n']
}

/// The kind cell: a title submission's text; a thumbnail's frame offset, or
/// `Original` when absent for an uploader-provided default, or `Unknown`
/// otherwise.
pub open spec fn kind_cell(s: Submission) -> Seq<char> {
    match s.details {
        SubmissionDetails::Title { title, .. } => title@,
        SubmissionDetails::Thumbnail { timestamp } => match timestamp {
            Option::Some(t) => t@,
            Option::None => if s.info.original {
                original_text()
            } else {
                unknown_text()
            },
        },
    }
}

/// The username cell: the display name in literal double quotes when
/// present, empty otherwise.
pub open spec fn username_cell(u: Option<String>) -> Seq<char> {
    match u {
        Option::Some(name) => seq!['"'] + name@ + seq!['"'],
        Option::None => Seq::<char>::empty(),
    }
}

/// The fixed-order display cells of one submission at shared numeric width
/// `w`: submission time, title or frame offset, the classifier's vote/score
/// cell, the submission id, the quoted username and the submitter id.
pub open spec fn row_cells(s: Submission, w: nat) -> Seq<Seq<char>> {
    seq![
        submitted_cell(s.info.time_submitted as int),
        kind_cell(s),
        classify_cell(s, w),
        s.info.uuid@,
        username_cell(s.info.username),
        s.info.user_id@,
    ]
}

/// The display row of one submission at shared numeric width `w`.
pub fn format_row(s: &Submission, w: u32) -> (r: Vec<String>)
    ensures
        strs_view(r@) == row_cells(*s, w as nat),
        r@.len() == 6,
{
    let submitted = match datetime_cell(s.info.time_submitted) {
        Option::Some(text) => text,
        Option::None => chars_to_string(&i64_chars(s.info.time_submitted)),
    };
    let kind = match &s.details {
        SubmissionDetails::Title { title, .. } => title.clone(),
        SubmissionDetails::Thumbnail { timestamp } => match timestamp {
            Option::Some(t) => t.clone(),
            Option::None => {
                if s.info.original {
                    let text = "Original".to_owned();
                    proof {
                        reveal_strlit("Original");
                        assert(text@ =~= original_text());
                    }
                    text
                } else {
                    let text = "Unknown".to_owned();
                    proof {
                        reveal_strlit("Unknown");
                        assert(text@ =~= unknown_text());
                    }
                    text
                }
            },
        },
    };
    let score = classify(s, w).1;
    let uuid = s.info.uuid.clone();
    let username = match &s.info.username {
        Option::Some(name) => {
            let mut q: Vec<char> = Vec::new();
            q.push('"');
            let name_chars = str_chars(name.as_str());
            push_all(&mut q, &name_chars);
            q.push('"');
            proof {
                assert(q@ =~= username_cell(s.info.username));
            }
            chars_to_string(&q)
        },
        Option::None => String::new(),
    };
    let user_id = s.info.user_id.clone();
    let mut r: Vec<String> = Vec::new();
    r.push(submitted);
    r.push(kind);
    r.push(score);
    r.push(uuid);
    r.push(username);
    r.push(user_id);
    proof {
        assert(strs_view(r@) =~= row_cells(*s, w as nat));
    }
    r
}

} // verus!
