//! The view pipeline: orders submissions newest first, computes the shared
//! numeric width of a submission set, formats every submission into a
//! display row, and renders the bordered table for a terminal of known
//! width.

use vstd::multiset::Multiset;
use vstd::prelude::*;
use vstd::seq_lib::group_to_multiset_ensures;

use crate::classify::Submission;
use crate::cli::SubmissionKind;
use crate::row::{format_row, row_cells};
use crate::table::{layout_fits, render_spec, try_render, ColumnCap};
use crate::text::{str_matrix_view, strs_view};
use crate::width::{compute_value_width, field_width, value_width};

verus! {

/// The width the three numeric sub-fields of one submission need: the score
/// is the only signed quantity; the vote and downvote counts are aligned as
/// unsigned magnitudes because their signs are rendered separately.
pub open spec fn submission_width(s: Submission) -> nat {
    let a = value_width(s.info.score as int, true);
    let b = value_width(s.info.votes as int, false);
    let c = value_width(s.info.downvotes as int, false);
    if a >= b && a >= c {
        a
    } else if b >= c {
        b
    } else {
        c
    }
}

/// The shared alignment width of a submission set: the largest width any
/// submission's score, votes or downvotes needs; at least 1.
pub open spec fn shared_width(subs: Seq<Submission>) -> nat
    decreases subs.len(),
{
    if subs.len() == 0 {
        1
    } else {
        let rest = shared_width(subs.drop_last());
        let last = submission_width(subs.last());
        if last >= rest {
            last
        } else {
            rest
        }
    }
}

/// The shared alignment width of a submission set.
pub fn compute_shared_width(subs: &Vec<Submission>) -> (r: u32)
    ensures
        r as nat == shared_width(subs@),
        1 <= r <= 22,
{
    let n = subs.len();
    let mut r: u32 = 1;
    let mut i: usize = 0;
    while i < n
        invariant
            n == subs@.len(),
            i <= n,
            r as nat == shared_width(subs@.subrange(0, i as int)),
            1 <= r <= 22,
        decreases n - i,
    {
        let a = compute_value_width(subs[i].info.score as i64, true);
        let b = compute_value_width(subs[i].info.votes as i64, false);
        let c = compute_value_width(subs[i].info.downvotes as i64, false);
        let w = if a >= b && a >= c {
            a
        } else if b >= c {
            b
        } else {
            c
        };
        if w > r {
            r = w;
        }
        proof {
            assert(subs@.subrange(0, i + 1).drop_last() =~= subs@.subrange(0, i as int));
            assert(subs@.subrange(0, i + 1).last() == subs@[i as int]);
        }
        i = i + 1;
    }
    proof {
        assert(subs@.subrange(0, n as int) =~= subs@);
    }
    r
}

/// The scores of a submission set, in order.
pub open spec fn scores_of(subs: Seq<Submission>) -> Seq<int> {
    subs.map_values(|s: Submission| s.info.score as int)
}

/// The net vote counts of a submission set, in order.
pub open spec fn votes_of(subs: Seq<Submission>) -> Seq<int> {
    subs.map_values(|s: Submission| s.info.votes as int)
}

/// The downvote counts of a submission set, in order.
pub open spec fn downvotes_of(subs: Seq<Submission>) -> Seq<int> {
    subs.map_values(|s: Submission| s.info.downvotes as int)
}

/// The shared width is the width model applied once per table, over the
/// union of all submissions' scores (the only signed field), net votes and
/// downvotes: the largest of the three columns' field widths.
pub proof fn lemma_shared_width_is_field_width(subs: Seq<Submission>)
    ensures
        ({
            let a = field_width(scores_of(subs), true);
            let b = field_width(votes_of(subs), false);
            let c = field_width(downvotes_of(subs), false);
            shared_width(subs) == if a >= b && a >= c {
                a
            } else if b >= c {
                b
            } else {
                c
            }
        }),
    decreases subs.len(),
{
    if subs.len() > 0 {
        let init = subs.drop_last();
        lemma_shared_width_is_field_width(init);
        assert(scores_of(subs).drop_last() =~= scores_of(init));
        assert(votes_of(subs).drop_last() =~= votes_of(init));
        assert(downvotes_of(subs).drop_last() =~= downvotes_of(init));
        assert(scores_of(subs).last() == subs.last().info.score as int);
        assert(votes_of(subs).last() == subs.last().info.votes as int);
        assert(downvotes_of(subs).last() == subs.last().info.downvotes as int);
    }
}

/// The header cells of a title table.
pub open spec fn title_header() -> Seq<Seq<char>> {
    seq![
        seq!['S', 'u', 'b', 'm', 'i', 't', 't', 'e', 'd'],
        seq!['T', 'i', 't', 'l', 'e'],
        seq!['S', 'c', 'o', 'r', 'e'],
        seq!['U', 'U', 'I', 'D'],
        seq!['U', 's', 'e', 'r', 'n', 'a', 'm', 'e'],
        seq!['U', 's', 'e', 'r', ' ', 'I', 'D'],
    ]
}

/// The header cells of a thumbnail table.
pub open spec fn thumbnail_header() -> Seq<Seq<char>> {
    seq![
        seq!['S', 'u', 'b', 'm', 'i', 't', 't', 'e', 'd'],
        seq!['T', 'i', 'm', 'e', 's', 't', 'a', 'm', 'p'],
        seq!['S', 'c', 'o', 'r', 'e'],
        seq!['U', 'U', 'I', 'D'],
        seq!['U', 's', 'e', 'r', 'n', 'a', 'm', 'e'],
        seq!['U', 's', 'e', 'r', ' ', 'I', 'D'],
    ]
}

/// The header cells of a table of the given submission kind.
pub open spec fn table_header(kind: SubmissionKind) -> Seq<Seq<char>> {
    match kind {
        SubmissionKind::Title => title_header(),
        SubmissionKind::Thumbnail => thumbnail_header(),
    }
}

/// The header cells of a table of the given submission kind.
pub fn header_cells(kind: SubmissionKind) -> (r: Vec<String>)
    ensures
        strs_view(r@) == table_header(kind),
        r@.len() == 6,
{
    let mut r: Vec<String> = Vec::new();
    let submitted = "Submitted".to_owned();
    let second = match kind {
        SubmissionKind::Title => "Title".to_owned(),
        SubmissionKind::Thumbnail => "Timestamp".to_owned(),
    };
    let score = "Score".to_owned();
    let uuid = "UUID".to_owned();
    let username = "Username".to_owned();
    let user_id = "User ID".to_owned();
    proof {
        reveal_strlit("Submitted");
        reveal_strlit("Title");
        reveal_strlit("Timestamp");
        reveal_strlit("Score");
        reveal_strlit("UUID");
        reveal_strlit("Username");
        reveal_strlit("User ID");
    }
    r.push(submitted);
    r.push(second);
    r.push(score);
    r.push(uuid);
    r.push(username);
    r.push(user_id);
    proof {
        assert(strs_view(r@) =~~= table_header(kind));
    }
    r
}

/// The truncation rules of a submission table: the username column is capped
/// at 16 visible characters.
pub open spec fn username_caps() -> Seq<ColumnCap> {
    seq![ColumnCap { column: 4, cap: 16 }]
}

/// The truncation rules of a submission table.
pub fn username_caps_cells() -> (r: Vec<ColumnCap>)
    ensures
        r@ == username_caps(),
{
    let mut r: Vec<ColumnCap> = Vec::new();
    r.push(ColumnCap { column: 4, cap: 16 });
    proof {
        assert(r@ =~= username_caps());
    }
    r
}

/// The display rows of a submission set, each formatted at the set's shared
/// numeric width.
pub open spec fn submission_rows(subs: Seq<Submission>) -> Seq<Seq<Seq<char>>> {
    Seq::new(subs.len(), |i: int| row_cells(subs[i], shared_width(subs)))
}

/// Renders the table of a submission set for a terminal of the given width:
/// the fixed header of the submission kind, one row per submission in the
/// given order, the username column capped at 16 characters. Returns `None`
/// exactly when the truncated grid is too wide for the machine's size type.
pub fn submission_table(subs: &Vec<Submission>, kind: SubmissionKind, terminal_width: usize) -> (r:
    Option<String>)
    ensures
        match r {
            Option::Some(text) => layout_fits(
                table_header(kind),
                submission_rows(subs@),
                username_caps(),
            ) && text@ == render_spec(
                table_header(kind),
                submission_rows(subs@),
                terminal_width as nat,
                username_caps(),
            ),
            Option::None => !layout_fits(table_header(kind), submission_rows(subs@), username_caps()),
        },
{
    let w = compute_shared_width(subs);
    let n = subs.len();
    let mut rows: Vec<Vec<String>> = Vec::new();
    let mut i: usize = 0;
    while i < n
        invariant
            n == subs@.len(),
            w as nat == shared_width(subs@),
            i <= n,
            rows@.len() == i,
            forall|i2: int|
                0 <= i2 < i ==> strs_view((#[trigger] rows@[i2])@) == submission_rows(subs@)[i2]
                    && rows@[i2]@.len() == 6,
        decreases n - i,
    {
        let row = format_row(&subs[i], w);
        rows.push(row);
        i = i + 1;
    }
    let header = header_cells(kind);
    let caps = username_caps_cells();
    proof {
        assert(str_matrix_view(rows@) =~= submission_rows(subs@));
    }
    try_render(&header, &rows, terminal_width, &caps)
}

/// Whether a submission sequence is ordered newest first.
pub open spec fn sorted_newest_first(subs: Seq<Submission>) -> bool {
    forall|i: int, j: int|
        0 <= i < j < subs.len() ==> (#[trigger] subs[i]).info.time_submitted
            >= (#[trigger] subs[j]).info.time_submitted
}

/// The submissions of `subs` submitted at exactly time `t`, in their order.
pub open spec fn with_time(subs: Seq<Submission>, t: i64) -> Seq<Submission> {
    subs.filter(|s: Submission| s.info.time_submitted == t)
}

/// Splitting a sequence splits its submissions of any one time.
proof fn lemma_with_time_add(a: Seq<Submission>, b: Seq<Submission>, t: i64)
    ensures
        with_time(a + b, t) == with_time(a, t) + with_time(b, t),
{
    Seq::filter_distributes_over_add(a, b, |s: Submission| s.info.time_submitted == t);
}

/// One submission filters to itself or to nothing, by its time.
proof fn lemma_with_time_single(x: Submission, t: i64)
    ensures
        x.info.time_submitted == t ==> with_time(seq![x], t) == seq![x],
        x.info.time_submitted != t ==> with_time(seq![x], t) == Seq::<Submission>::empty(),
{
    reveal_with_fuel(Seq::filter, 3);
    assert(seq![x].drop_last() =~= Seq::<Submission>::empty());
    assert(seq![x].last() == x);
    if x.info.time_submitted == t {
        assert(with_time(seq![x], t) =~= seq![x]);
    } else {
        assert(with_time(seq![x], t) =~= Seq::<Submission>::empty());
    }
}

/// Taking the first submission of the newest time out of the remaining input
/// and appending it to the sorted output keeps the joint subsequence of the
/// submissions of any one time.
proof fn lemma_with_time_step_one(out0: Seq<Submission>, input0: Seq<Submission>, best: int, t: i64)
    requires
        0 <= best < input0.len(),
        forall|k: int|
            0 <= k < best ==> (#[trigger] input0[k]).info.time_submitted
                < input0[best].info.time_submitted,
    ensures
        with_time(out0.push(input0[best]), t) + with_time(input0.remove(best), t) == with_time(
            out0,
            t,
        ) + with_time(input0, t),
{
    let x = input0[best];
    let pre = input0.subrange(0, best);
    let post = input0.subrange(best + 1, input0.len() as int);
    assert(input0 =~= pre + seq![x] + post);
    assert(input0.remove(best) =~= pre + post);
    assert(out0.push(x) =~= out0 + seq![x]);
    lemma_with_time_add(pre + seq![x], post, t);
    lemma_with_time_add(pre, seq![x], t);
    lemma_with_time_add(pre, post, t);
    lemma_with_time_add(out0, seq![x], t);
    lemma_with_time_single(x, t);
    let fo = with_time(out0, t);
    let fx = with_time(seq![x], t);
    let fpre = with_time(pre, t);
    let fpost = with_time(post, t);
    assert(with_time(out0.push(x), t) == fo + fx);
    assert(with_time(input0.remove(best), t) == fpre + fpost);
    assert(with_time(input0, t) == (fpre + fx) + fpost);
    if t == x.info.time_submitted {
        // x is the first submission of the newest time, so no earlier
        // remaining submission shares its time
        assert forall|k: int| 0 <= k < pre.len() implies (#[trigger] pre[k]).info.time_submitted
            != t by {
            assert(pre[k] == input0[k]);
        }
        lemma_with_time_none(pre, t);
    } else {
        assert(fx == Seq::<Submission>::empty());
    }
    lemma_concat_shuffle(fo, fx, fpre, fpost);
}

/// Concatenation in either grouping agrees when one of the two middle parts
/// is empty.
proof fn lemma_concat_shuffle(
    fo: Seq<Submission>,
    fx: Seq<Submission>,
    fpre: Seq<Submission>,
    fpost: Seq<Submission>,
)
    requires
        fpre == Seq::<Submission>::empty() || fx == Seq::<Submission>::empty(),
    ensures
        (fo + fx) + (fpre + fpost) == fo + ((fpre + fx) + fpost),
{
    assert((fo + fx) + (fpre + fpost) =~= fo + ((fpre + fx) + fpost));
}

/// A sequence with no submission of time `t` filters to nothing.
proof fn lemma_with_time_none(s: Seq<Submission>, t: i64)
    requires
        forall|k: int| 0 <= k < s.len() ==> (#[trigger] s[k]).info.time_submitted != t,
    ensures
        with_time(s, t) == Seq::<Submission>::empty(),
    decreases s.len(),
{
    reveal(Seq::filter);
    if s.len() > 0 {
        assert forall|k: int|
            0 <= k < s.drop_last().len() implies (#[trigger] s.drop_last()[k]).info.time_submitted
            != t by {
            assert(s.drop_last()[k] == s[k]);
        }
        lemma_with_time_none(s.drop_last(), t);
    }
}

/// Orders a submission set newest first: the result is sorted by submission
/// time, descending, holds exactly the input submissions, and is stable:
/// submissions of equal time keep their input order.
pub fn sort_by_newest(subs: Vec<Submission>) -> (r: Vec<Submission>)
    ensures
        sorted_newest_first(r@),
        r@.to_multiset() == subs@.to_multiset(),
        r@.len() == subs@.len(),
        forall|t: i64| #[trigger] with_time(r@, t) == with_time(subs@, t),
{
    broadcast use group_to_multiset_ensures;

    let ghost orig = subs@;
    let mut input = subs;
    let mut out: Vec<Submission> = Vec::new();
    while input.len() > 0
        invariant
            out@.to_multiset().add(input@.to_multiset()) == orig.to_multiset(),
            out@.len() + input@.len() == orig.len(),
            sorted_newest_first(out@),
            forall|a: int, b: int|
                0 <= a < out@.len() && 0 <= b < input@.len() ==> (#[trigger] out@[a]).info.time_submitted
                    >= (#[trigger] input@[b]).info.time_submitted,
            forall|t: i64|
                #[trigger] with_time(out@, t) + with_time(input@, t) == with_time(orig, t),
        decreases input@.len(),
    {
        let m = input.len();
        let mut best: usize = 0;
        let mut i: usize = 1;
        while i < m
            invariant
                m == input@.len(),
                1 <= i <= m,
                best < i,
                forall|k: int|
                    0 <= k < i ==> (#[trigger] input@[k]).info.time_submitted
                        <= input@[best as int].info.time_submitted,
                forall|k: int|
                    0 <= k < best ==> (#[trigger] input@[k]).info.time_submitted
                        < input@[best as int].info.time_submitted,
            decreases m - i,
        {
            if input[i].info.time_submitted > input[best].info.time_submitted {
                best = i;
            }
            i = i + 1;
        }
        let ghost input0 = input@;
        let x = input.remove(best);
        proof {
            input0.to_multiset_ensures();
            assert(input@ =~= input0.remove(best as int));
            assert(input0.remove(best as int).to_multiset() =~= input0.to_multiset().remove(
                input0[best as int],
            ));
        }
        let ghost out0 = out@;
        out.push(x);
        proof {
            out0.to_multiset_ensures();
            assert(out@ =~= out0.push(x));
            assert(out0.push(x).to_multiset() =~= out0.to_multiset().insert(x));
            assert(out@.to_multiset() =~= out0.to_multiset().insert(x));
            assert(out@.to_multiset().add(input@.to_multiset()) =~= orig.to_multiset());
            assert forall|a: int, b: int|
                0 <= a < out@.len() && 0 <= b
                    < input@.len() implies (#[trigger] out@[a]).info.time_submitted
                >= (#[trigger] input@[b]).info.time_submitted by {
                if b < best {
                    assert(input@[b] == input0[b]);
                } else {
                    assert(input@[b] == input0[b + 1]);
                }
                if a < out0.len() {
                    assert(out@[a] == out0[a]);
                } else {
                    assert(out@[a] == x);
                }
            }
            assert(sorted_newest_first(out@));
            assert(out@ == out0.push(input0[best as int]));
            assert(input@ == input0.remove(best as int));
            assert forall|t: i64| #[trigger] with_time(out@, t) + with_time(input@, t) == with_time(
                orig,
                t,
            ) by {
                lemma_with_time_step_one(out0, input0, best as int, t);
                assert(with_time(out0, t) + with_time(input0, t) == with_time(orig, t));
            }
        }
    }
    proof {
        assert(input@.to_multiset() =~= Multiset::<Submission>::empty());
        assert(out@.to_multiset() =~= orig.to_multiset());
        assert forall|t: i64| #[trigger] with_time(out@, t) == with_time(orig, t) by {
            lemma_with_time_none(input@, t);
            assert(with_time(out@, t) =~= with_time(out@, t) + with_time(input@, t));
        }
    }
    out
}

} // verus!
