//! Status classifier: turns a submission's voting and moderation state into
//! an ordered sequence of single-letter flags and a formatted vote/score
//! cell.

use vstd::prelude::*;

use crate::text::{
    char_repeat, chars_to_string, i64_chars, i64_signed_chars, int_chars, pad_left,
    pad_left_chars, push_all, repeat_chars, signed_int_chars,
};

verus! {

/// Fields shared by every submission kind.
pub struct SubmissionInfo {
    /// Opaque stable identifier.
    pub uuid: String,
    /// Opaque submitter identifier.
    pub user_id: String,
    /// Optional display name of the submitter.
    pub username: Option<String>,
    /// Net upvotes minus simple downvotes recorded by ordinary users.
    pub votes: i32,
    /// Count of votes explicitly flagging the submission as low quality.
    pub downvotes: i32,
    /// The service's own weighted ranking value.
    pub score: i32,
    /// Pinned by a trusted moderator, immune to demotion by votes.
    pub locked: bool,
    /// Hard-removed by a trusted moderator.
    pub removed: bool,
    /// Hidden without the submitter's knowledge.
    pub shadow_hidden: bool,
    /// Submitted by a trusted moderator.
    pub vip: bool,
    /// Represents the uploader-provided default rather than an alternative.
    pub original: bool,
    /// Submission time in epoch milliseconds.
    pub time_submitted: i64,
}

/// The part of a submission specific to its kind.
pub enum SubmissionDetails {
    /// An alternate title.
    Title {
        /// The proposed title text.
        title: String,
        /// Submitter not yet identity-verified.
        unverified: bool,
    },
    /// An alternate thumbnail. The frame offset is carried as its decimal
    /// rendering, prepared by the caller; `None` when the service sent no
    /// timestamp.
    Thumbnail { timestamp: Option<String> },
}

/// One community-contributed alternate title or thumbnail for a video.
pub struct Submission {
    pub info: SubmissionInfo,
    pub details: SubmissionDetails,
}

/// Whether the submission is a title submission.
pub open spec fn is_title(s: Submission) -> bool {
    s.details is Title
}

/// Whether the submitter of a title submission is unverified; thumbnails
/// carry no such mark.
pub open spec fn is_unverified(s: Submission) -> bool {
    match s.details {
        SubmissionDetails::Title { unverified, .. } => unverified,
        SubmissionDetails::Thumbnail { .. } => false,
    }
}

/// Whether the submission falls short of the score its kind needs to be
/// shown: a title needs a non-negative score, an original thumbnail a
/// positive one.
pub open spec fn below_visibility_threshold(s: Submission) -> bool {
    match s.details {
        SubmissionDetails::Title { .. } => s.info.score < 0,
        SubmissionDetails::Thumbnail { .. } => (s.info.original && s.info.score < 1)
            || s.info.score < 0,
    }
}

/// The mutually-exclusive flag group. The first applicable branch decides:
/// moderator removal and shadow-hiding (the only branch with two letters),
/// then removal by accumulated downvotes, then replacement by the
/// submitter's own later title, then a score below the visibility threshold
/// of an unlocked submission.
pub open spec fn group_flags(s: Submission) -> Seq<char> {
    if s.info.removed || s.info.shadow_hidden {
        (if s.info.removed {
            seq!['m']
        } else {
            Seq::<char>::empty()
        }) + (if s.info.shadow_hidden {
            seq!['x']
        } else {
            Seq::<char>::empty()
        })
    } else if s.info.votes - s.info.downvotes < -1 {
        seq!['d']
    } else if is_title(s) && s.info.votes < 0 {
        seq!['r']
    } else if !s.info.locked && below_visibility_threshold(s) {
        seq!['h']
    } else {
        Seq::<char>::empty()
    }
}

/// The full flag sequence: `'o'` for an original submission first, then the
/// exclusive group, then `'u'` (unverified title submitter), `'l'` (locked)
/// and `'v'` (submitted by a trusted moderator), in this fixed order.
pub open spec fn submission_flags(s: Submission) -> Seq<char> {
    (if s.info.original {
        seq!['o']
    } else {
        Seq::<char>::empty()
    }) + group_flags(s) + (if is_unverified(s) {
        seq!['u']
    } else {
        Seq::<char>::empty()
    }) + (if s.info.locked {
        seq!['l']
    } else {
        Seq::<char>::empty()
    }) + (if s.info.vip {
        seq!['v']
    } else {
        Seq::<char>::empty()
    })
}

/// The downvotes sub-cell of width `w`: zero downvotes render as `w - 2`
/// blanks followed by the literal `-0`; otherwise the negated count is
/// right-aligned to `w` with a `'-'` fill, so growing magnitude extends a
/// dash trail.
pub open spec fn down_cell(downvotes: int, w: nat) -> Seq<char> {
    if downvotes == 0 {
        char_repeat(' ', if w >= 2 {
            (w - 2) as nat
        } else {
            0nat
        }) + seq!['-', '0']
    } else {
        pad_left(int_chars(-downvotes), w, '-')
    }
}

/// The vote/score cell without flags: the score right-aligned to `w`, then
/// the net votes with a mandatory sign right-aligned to `w`, then the
/// downvotes sub-cell, in the shape `score (votes | downvotes)`.
pub open spec fn score_cell(score: int, votes: int, downvotes: int, w: nat) -> Seq<char> {
    pad_left(int_chars(score), w, ' ') + seq![' ', '('] + pad_left(signed_int_chars(votes), w, ' ')
        + seq![' ', '|', ' '] + down_cell(downvotes, w) + seq![')']
}

/// The complete classifier cell: the vote/score cell, extended with `", "`
/// and the flags when any flag fired.
pub open spec fn classify_cell(s: Submission, w: nat) -> Seq<char> {
    let flags = submission_flags(s);
    score_cell(s.info.score as int, s.info.votes as int, s.info.downvotes as int, w) + (
    if flags.len() == 0 {
        Seq::<char>::empty()
    } else {
        seq![',', ' '] + flags
    })
}

/// Classification is deterministic and total: the flag sequence and the
/// vote/score cell are functions of the submission's state and the shared
/// width alone, defined for every boolean and integer combination, so two
/// classifications of equal submissions at equal widths are identical.
pub proof fn lemma_classify_deterministic(s1: Submission, w1: nat, s2: Submission, w2: nat)
    requires
        s1 == s2,
        w1 == w2,
    ensures
        submission_flags(s1) == submission_flags(s2),
        classify_cell(s1, w1) == classify_cell(s2, w2),
{
}

/// The flag letters of `s`, in canonical order.
pub fn compute_flags(s: &Submission) -> (r: Vec<char>)
    ensures
        r@ == submission_flags(*s),
{
    let mut r: Vec<char> = Vec::new();
    if s.info.original {
        r.push('o');
    }
    if s.info.removed || s.info.shadow_hidden {
        if s.info.removed {
            r.push('m');
        }
        if s.info.shadow_hidden {
            r.push('x');
        }
    } else if (s.info.votes as i64) - (s.info.downvotes as i64) < -1 {
        r.push('d');
    } else if matches!(s.details, SubmissionDetails::Title { .. }) && s.info.votes < 0 {
        r.push('r');
    } else if !s.info.locked {
        let unmet = match s.details {
            SubmissionDetails::Title { .. } => s.info.score < 0,
            SubmissionDetails::Thumbnail { .. } => (s.info.original && s.info.score < 1)
                || s.info.score < 0,
        };
        if unmet {
            r.push('h');
        }
    }
    let unverified = match s.details {
        SubmissionDetails::Title { unverified, .. } => unverified,
        SubmissionDetails::Thumbnail { .. } => false,
    };
    if unverified {
        r.push('u');
    }
    if s.info.locked {
        r.push('l');
    }
    if s.info.vip {
        r.push('v');
    }
    proof {
        assert(r@ =~= submission_flags(*s));
    }
    r
}

/// The downvotes sub-cell of width `w`.
pub fn compute_down_cell(downvotes: i32, w: u32) -> (r: Vec<char>)
    ensures
        r@ == down_cell(downvotes as int, w as nat),
{
    if downvotes == 0 {
        let blanks = if w >= 2 {
            (w - 2) as usize
        } else {
            0usize
        };
        let mut r = repeat_chars(' ', blanks);
        r.push('-');
        r.push('0');
        proof {
            assert(r@ =~= down_cell(downvotes as int, w as nat));
        }
        r
    } else {
        let digits = i64_chars(-(downvotes as i64));
        pad_left_chars(&digits, w as usize, '-')
    }
}

/// The vote/score cell of width `w`, without flags.
pub fn compute_score_cell(score: i32, votes: i32, downvotes: i32, w: u32) -> (r: Vec<char>)
    ensures
        r@ == score_cell(score as int, votes as int, downvotes as int, w as nat),
{
    let score_digits = i64_chars(score as i64);
    let mut r = pad_left_chars(&score_digits, w as usize, ' ');
    r.push(' ');
    r.push('(');
    let vote_digits = i64_signed_chars(votes as i64);
    let votes_part = pad_left_chars(&vote_digits, w as usize, ' ');
    push_all(&mut r, &votes_part);
    r.push(' ');
    r.push('|');
    r.push(' ');
    let down_part = compute_down_cell(downvotes, w);
    push_all(&mut r, &down_part);
    r.push(')');
    proof {
        assert(r@ =~= score_cell(score as int, votes as int, downvotes as int, w as nat));
    }
    r
}

/// Classifies a submission at the shared numeric width `w`: returns the
/// ordered flag string and the finished vote/score cell (flags included).
/// Classification is total and deterministic: the result is a function of
/// the submission and the width alone.
pub fn classify(s: &Submission, w: u32) -> (r: (String, String))
    ensures
        r.0@ == submission_flags(*s),
        r.1@ == classify_cell(*s, w as nat),
{
    let flags = compute_flags(s);
    let mut cell = compute_score_cell(s.info.score, s.info.votes, s.info.downvotes, w);
    if flags.len() > 0 {
        cell.push(',');
        cell.push(' ');
        push_all(&mut cell, &flags);
    }
    proof {
        assert(cell@ =~= classify_cell(*s, w as nat));
    }
    (chars_to_string(&flags), chars_to_string(&cell))
}

} // verus!
