//! Cell-level text transforms of the table layout engine: hard truncation
//! with an ellipsis, splitting a cell into unbreakable tokens, and greedy
//! word-wrapping to a column width.

use vstd::prelude::*;

use crate::text::chars_view;

verus! {

/// A cell longer than `cap` is cut to `cap - 3` characters and a
/// three-character ellipsis, giving exactly `cap` characters; anything else
/// (including a cap too small for an ellipsis) is kept whole.
pub open spec fn truncate_cell(s: Seq<char>, cap: nat) -> Seq<char> {
    if cap >= 3 && s.len() > cap {
        s.subrange(0, cap - 3) + seq!['.', '.', '.']
    } else {
        s
    }
}

/// The end of the unbreakable token starting at `i`: the first position at
/// or after `i` holding a blank, or the end of the cell.
pub open spec fn token_end(s: Seq<char>, i: int) -> int
    recommends
        0 <= i <= s.len(),
    decreases s.len() - i,
{
    if i < 0 || i >= s.len() {
        s.len() as int
    } else if s[i] == ' ' {
        i
    } else {
        token_end(s, i + 1)
    }
}

pub proof fn lemma_token_end(s: Seq<char>, i: int)
    requires
        0 <= i <= s.len(),
    ensures
        i <= token_end(s, i) <= s.len(),
        i < s.len() && s[i] != ' ' ==> token_end(s, i) > i,
    decreases s.len() - i,
{
    if i < s.len() && s[i] != ' ' {
        lemma_token_end(s, i + 1);
    }
}

#[via_fn]
proof fn tokens_from_decreases(s: Seq<char>, i: int) {
    if 0 <= i < s.len() && s[i] != ' ' {
        lemma_token_end(s, i);
    }
}

/// The unbreakable tokens of `s` from position `i` on: maximal runs of
/// non-blank characters, in order.
pub open spec fn tokens_from(s: Seq<char>, i: int) -> Seq<Seq<char>>
    recommends
        0 <= i <= s.len(),
    decreases s.len() - i,
        via tokens_from_decreases
{
    if i < 0 || i >= s.len() {
        Seq::<Seq<char>>::empty()
    } else if s[i] == ' ' {
        tokens_from(s, i + 1)
    } else {
        seq![s.subrange(i, token_end(s, i))] + tokens_from(s, token_end(s, i))
    }
}

/// The unbreakable tokens of a cell.
pub open spec fn tokens(s: Seq<char>) -> Seq<Seq<char>> {
    tokens_from(s, 0)
}

/// The length of the longest sequence among `xs` (0 when `xs` is empty).
pub open spec fn max_len(xs: Seq<Seq<char>>) -> nat
    decreases xs.len(),
{
    if xs.len() == 0 {
        0
    } else {
        let rest = max_len(xs.drop_last());
        if xs.last().len() >= rest {
            xs.last().len()
        } else {
            rest
        }
    }
}

/// The longest unbreakable token of a cell.
pub open spec fn max_token_len(s: Seq<char>) -> nat {
    max_len(tokens(s))
}

/// Every token of `s` from `i` on fits inside the remaining characters.
pub proof fn lemma_tokens_bounded(s: Seq<char>, i: int)
    requires
        0 <= i <= s.len(),
    ensures
        forall|k: int|
            0 <= k < tokens_from(s, i).len() ==> (#[trigger] tokens_from(s, i)[k]).len() <= s.len()
                - i,
    decreases s.len() - i,
{
    if i < s.len() {
        if s[i] == ' ' {
            lemma_tokens_bounded(s, i + 1);
            assert forall|k: int| 0 <= k < tokens_from(s, i).len() implies (#[trigger] tokens_from(
                s,
                i,
            )[k]).len() <= s.len() - i by {
                assert(tokens_from(s, i)[k] == tokens_from(s, i + 1)[k]);
            }
        } else {
            lemma_token_end(s, i);
            let e = token_end(s, i);
            lemma_tokens_bounded(s, e);
            assert forall|k: int| 0 <= k < tokens_from(s, i).len() implies (#[trigger] tokens_from(
                s,
                i,
            )[k]).len() <= s.len() - i by {
                if k == 0 {
                    assert(tokens_from(s, i)[0] == s.subrange(i, e));
                } else {
                    assert(tokens_from(s, i)[k] == tokens_from(s, e)[k - 1]);
                }
            }
        }
    }
}

/// No token of a cell is longer than the cell.
pub proof fn lemma_max_token_le_len(s: Seq<char>)
    ensures
        max_token_len(s) <= s.len(),
{
    lemma_tokens_bounded(s, 0);
    lemma_max_len_bound(tokens(s), s.len() as nat);
}

/// A bound on every member's length bounds `max_len`.
pub proof fn lemma_max_len_bound(xs: Seq<Seq<char>>, b: nat)
    requires
        forall|k: int| 0 <= k < xs.len() ==> (#[trigger] xs[k]).len() <= b,
    ensures
        max_len(xs) <= b,
    decreases xs.len(),
{
    if xs.len() > 0 {
        lemma_max_len_bound(xs.drop_last(), b);
    }
}

/// `max_len` is attained: every member is at most `max_len`.
pub proof fn lemma_max_len_ge(xs: Seq<Seq<char>>, k: int)
    requires
        0 <= k < xs.len(),
    ensures
        xs[k].len() <= max_len(xs),
    decreases xs.len(),
{
    if k < xs.len() - 1 {
        lemma_max_len_ge(xs.drop_last(), k);
    }
}

/// Greedy wrapping of the tokens after an open line: a token joins the open
/// line when one blank and the token still fit in `w`; otherwise the line is
/// closed and the token opens the next one.
pub open spec fn wrap_tokens_acc(toks: Seq<Seq<char>>, w: nat, line: Seq<char>) -> Seq<Seq<char>>
    decreases toks.len(),
{
    if toks.len() == 0 {
        seq![line]
    } else if line.len() + 1 + toks[0].len() <= w {
        wrap_tokens_acc(toks.drop_first(), w, line + seq![' '] + toks[0])
    } else {
        seq![line] + wrap_tokens_acc(toks.drop_first(), w, toks[0])
    }
}

/// The wrapped lines of a cell at width `w`. A cell that fits is kept whole,
/// blanks included; a longer cell is split into tokens and wrapped greedily.
/// A too-long cell of nothing but blanks wraps to no lines at all.
pub open spec fn wrap_cell(s: Seq<char>, w: nat) -> Seq<Seq<char>> {
    if s.len() <= w {
        seq![s]
    } else if tokens(s).len() == 0 {
        Seq::<Seq<char>>::empty()
    } else {
        wrap_tokens_acc(tokens(s).drop_first(), w, tokens(s)[0])
    }
}

/// When every token fits in `w` and the open line does too, every wrapped
/// line fits in `w`.
pub proof fn lemma_wrap_acc_fits(toks: Seq<Seq<char>>, w: nat, line: Seq<char>)
    requires
        line.len() <= w,
        forall|k: int| 0 <= k < toks.len() ==> (#[trigger] toks[k]).len() <= w,
    ensures
        forall|k: int|
            0 <= k < wrap_tokens_acc(toks, w, line).len() ==> (#[trigger] wrap_tokens_acc(
                toks,
                w,
                line,
            )[k]).len() <= w,
    decreases toks.len(),
{
    if toks.len() > 0 {
        assert forall|k: int| 0 <= k < toks.drop_first().len() implies (#[trigger] toks.drop_first()[k]).len()
            <= w by {
            assert(toks.drop_first()[k] == toks[k + 1]);
        }
        if line.len() + 1 + toks[0].len() <= w {
            lemma_wrap_acc_fits(toks.drop_first(), w, line + seq![' '] + toks[0]);
            assert forall|k: int|
                0 <= k < wrap_tokens_acc(toks, w, line).len() implies (#[trigger] wrap_tokens_acc(
                toks,
                w,
                line,
            )[k]).len() <= w by {
                assert(wrap_tokens_acc(toks, w, line)[k] == wrap_tokens_acc(
                    toks.drop_first(),
                    w,
                    line + seq![' '] + toks[0],
                )[k]);
            }
        } else {
            lemma_wrap_acc_fits(toks.drop_first(), w, toks[0]);
            assert forall|k: int|
                0 <= k < wrap_tokens_acc(toks, w, line).len() implies (#[trigger] wrap_tokens_acc(
                toks,
                w,
                line,
            )[k]).len() <= w by {
                if k > 0 {
                    assert(wrap_tokens_acc(toks, w, line)[k] == wrap_tokens_acc(
                        toks.drop_first(),
                        w,
                        toks[0],
                    )[k - 1]);
                }
            }
        }
    }
}

/// When a cell's longest token fits in `w`, every wrapped line fits in `w`.
pub proof fn lemma_wrap_cell_fits(s: Seq<char>, w: nat)
    requires
        max_token_len(s) <= w,
    ensures
        forall|k: int|
            0 <= k < wrap_cell(s, w).len() ==> (#[trigger] wrap_cell(s, w)[k]).len() <= w,
{
    if s.len() <= w {
    } else if tokens(s).len() == 0 {
    } else {
        assert forall|k: int| 0 <= k < tokens(s).len() implies (#[trigger] tokens(s)[k]).len()
            <= w by {
            lemma_max_len_ge(tokens(s), k);
        }
        assert forall|k: int|
            0 <= k < tokens(s).drop_first().len() implies (#[trigger] tokens(
            s,
        ).drop_first()[k]).len() <= w by {
            assert(tokens(s).drop_first()[k] == tokens(s)[k + 1]);
        }
        lemma_wrap_acc_fits(tokens(s).drop_first(), w, tokens(s)[0]);
    }
}

/// A cell cut to `cap` characters with a trailing ellipsis when it is longer
/// than the cap.
pub fn truncate_cell_chars(s: &Vec<char>, cap: usize) -> (r: Vec<char>)
    ensures
        r@ == truncate_cell(s@, cap as nat),
{
    if cap >= 3 && s.len() > cap {
        let mut r: Vec<char> = Vec::new();
        let mut i: usize = 0;
        let keep = cap - 3;
        while i < keep
            invariant
                keep == cap - 3,
                keep < s@.len(),
                i <= keep,
                r@ == s@.subrange(0, i as int),
            decreases keep - i,
        {
            r.push(s[i]);
            proof {
                assert(r@ =~= s@.subrange(0, i + 1));
            }
            i = i + 1;
        }
        r.push('.');
        r.push('.');
        r.push('.');
        proof {
            assert(r@ =~= truncate_cell(s@, cap as nat));
        }
        r
    } else {
        let mut r: Vec<char> = Vec::new();
        crate::text::push_all(&mut r, s);
        proof {
            assert(r@ =~= truncate_cell(s@, cap as nat));
        }
        r
    }
}

/// The unbreakable tokens of a cell, in order.
pub fn tokenize(s: &Vec<char>) -> (r: Vec<Vec<char>>)
    ensures
        chars_view(r@) == tokens(s@),
{
    let n = s.len();
    let mut r: Vec<Vec<char>> = Vec::new();
    let mut i: usize = 0;
    while i < n
        invariant
            n == s@.len(),
            i <= n,
            chars_view(r@) + tokens_from(s@, i as int) == tokens(s@),
        decreases n - i,
    {
        if s[i] == ' ' {
            i = i + 1;
        } else {
            let mut tok: Vec<char> = Vec::new();
            let start = i;
            while i < n && s[i] != ' '
                invariant
                    n == s@.len(),
                    start <= i <= n,
                    tok@ == s@.subrange(start as int, i as int),
                    token_end(s@, start as int) == token_end(s@, i as int),
                decreases n - i,
            {
                tok.push(s[i]);
                proof {
                    assert(tok@ =~= s@.subrange(start as int, i + 1));
                }
                i = i + 1;
            }
            proof {
                assert(token_end(s@, i as int) == i as int);
                assert(tok@ == s@.subrange(start as int, token_end(s@, start as int)));
                assert(tokens_from(s@, start as int) == seq![tok@] + tokens_from(s@, i as int));
                assert(i > start);
            }
            r.push(tok);
            proof {
                assert(chars_view(r@) =~= chars_view(r@.drop_last()) + seq![tok@]);
                assert(chars_view(r@) + tokens_from(s@, i as int) =~= tokens(s@));
            }
        }
    }
    proof {
        assert(chars_view(r@) =~= tokens(s@));
    }
    r
}

/// The longest unbreakable token of a cell.
pub fn max_token_len_chars(s: &Vec<char>) -> (r: usize)
    ensures
        r == max_token_len(s@),
{
    let toks = tokenize(s);
    let n = toks.len();
    let mut r: usize = 0;
    let mut i: usize = 0;
    while i < n
        invariant
            n == toks@.len(),
            chars_view(toks@) == tokens(s@),
            i <= n,
            r == max_len(tokens(s@).subrange(0, i as int)),
        decreases n - i,
    {
        proof {
            assert(tokens(s@).subrange(0, i + 1).drop_last() =~= tokens(s@).subrange(0, i as int));
            assert(tokens(s@)[i as int] == toks@[i as int]@);
            lemma_tokens_bounded(s@, 0);
        }
        let len = toks[i].len();
        if len > r {
            r = len;
        }
        i = i + 1;
    }
    proof {
        assert(tokens(s@).subrange(0, n as int) =~= tokens(s@));
    }
    r
}

/// The wrapped lines of a cell at width `w`.
pub fn wrap_cell_chars(s: &Vec<char>, w: usize) -> (r: Vec<Vec<char>>)
    ensures
        chars_view(r@) == wrap_cell(s@, w as nat),
{
    if s.len() <= w {
        let mut line: Vec<char> = Vec::new();
        crate::text::push_all(&mut line, s);
        let mut r: Vec<Vec<char>> = Vec::new();
        r.push(line);
        proof {
            assert(chars_view(r@) =~= wrap_cell(s@, w as nat));
        }
        return r;
    }
    let toks = tokenize(s);
    let n = toks.len();
    let mut r: Vec<Vec<char>> = Vec::new();
    if n == 0 {
        proof {
            assert(chars_view(r@) =~= wrap_cell(s@, w as nat));
        }
        return r;
    }
    let mut line: Vec<char> = Vec::new();
    crate::text::push_all(&mut line, &toks[0]);
    proof {
        assert(tokens(s@).subrange(1, n as int) =~= tokens(s@).drop_first());
        assert(line@ == tokens(s@)[0]);
    }
    let mut i: usize = 1;
    while i < n
        invariant
            n == toks@.len(),
            chars_view(toks@) == tokens(s@),
            n > 0,
            1 <= i <= n,
            chars_view(r@) + wrap_tokens_acc(
                tokens(s@).subrange(i as int, n as int),
                w as nat,
                line@,
            ) == wrap_cell(s@, w as nat),
            s@.len() > w,
        decreases n - i,
    {
        let ghost rest = tokens(s@).subrange(i as int, n as int);
        let ghost line0 = line@;
        proof {
            assert(rest[0] == toks@[i as int]@);
            assert(rest.drop_first() =~= tokens(s@).subrange(i + 1, n as int));
        }
        // the open line, one blank and the token must together fit in w
        if line.len() < w && toks[i].len() <= w - 1 - line.len() {
            line.push(' ');
            crate::text::push_all(&mut line, &toks[i]);
            proof {
                assert(line0.len() + 1 + rest[0].len() <= w);
                assert(line@ =~= line0 + seq![' '] + rest[0]);
            }
        } else {
            let mut next: Vec<char> = Vec::new();
            crate::text::push_all(&mut next, &toks[i]);
            r.push(line);
            line = next;
            proof {
                assert(!(line0.len() + 1 + rest[0].len() <= w));
                assert(chars_view(r@) =~= chars_view(r@.drop_last()) + seq![line0]);
                assert(line@ == rest[0]);
            }
        }
        i = i + 1;
    }
    proof {
        assert(tokens(s@).subrange(n as int, n as int) =~= Seq::<Seq<char>>::empty());
    }
    r.push(line);
    proof {
        assert(chars_view(r@) =~= chars_view(r@.drop_last()) + seq![r@.last()@]);
        assert(chars_view(r@) =~= wrap_cell(s@, w as nat));
    }
    r
}

} // verus!
