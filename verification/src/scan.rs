//! Token-stream scanners shared by the parsing stages.
//!
//! Every scanner exists twice: as a recursive spec function over
//! `Seq<TokModel>`, which is the definition, and as an executable loop
//! over `Vec<Tok>` proved to return exactly what the spec function says.
//! The scanners track two kinds of nesting: `gdepth` counts bracketed
//! groups, and `adepth` counts `<`/`>` angle brackets (a `>` preceded by
//! a glued `-` or `=` belongs to an arrow and never closes an angle).

use vstd::prelude::*;

use crate::token::{copy_range, ints_of, mdl, mdl2, is_close, is_joint_punct, is_kw, is_open, is_punct, Delim, Tok, TokModel};

verus! {

/// Spec: the token is a glued `-` or `=`, so a `>` right after it is
/// the tail of an arrow, not an angle bracket.
pub open spec fn arrow_head(t: TokModel) -> bool {
    is_joint_punct(t, '-') || is_joint_punct(t, '=')
}

/// Whether the token is a glued `-` or `=`.
pub fn arrow_head_x(t: &Tok) -> (r: bool)
    ensures
        r == arrow_head(t@),
{
    t.is_joint_punct_ch('-') || t.is_joint_punct_ch('=')
}

/// Whether the token opens a group with delimiter `d`.
pub fn opens_x(t: &Tok, d: Delim) -> (r: bool)
    ensures
        r == (t@ == TokModel::Open(d)),
{
    match t {
        Tok::Open(x) => *x == d,
        _ => false,
    }
}

/// Spec: index of the `Close` matching the `Open` just before `i`,
/// given `depth` groups opened since it.
pub open spec fn group_close(ts: Seq<TokModel>, i: int, depth: int) -> Option<int>
    decreases ts.len() - i,
{
    if i < 0 || i >= ts.len() {
        None
    } else if is_open(ts[i]) {
        group_close(ts, i + 1, depth + 1)
    } else if is_close(ts[i]) {
        if depth == 0 {
            Some(i)
        } else {
            group_close(ts, i + 1, depth - 1)
        }
    } else {
        group_close(ts, i + 1, depth)
    }
}

/// On success, `group_close` stays inside the stream, at or past its start.
pub proof fn lemma_group_close_bounds(ts: Seq<TokModel>, i: int, depth: int)
    ensures
        group_close(ts, i, depth) matches Some(k) ==> i <= k < ts.len(),
    decreases ts.len() - i,
{
    if 0 <= i < ts.len() {
        lemma_group_close_bounds(ts, i + 1, depth + 1);
        lemma_group_close_bounds(ts, i + 1, depth - 1);
        lemma_group_close_bounds(ts, i + 1, depth);
    }
}

/// Index of the `Close` matching the `Open` just before `start`.
#[verifier::loop_isolation(false)]
pub fn group_close_x(ts: &Vec<Tok>, start: usize) -> (r: Option<usize>)
    ensures
        match r {
            Some(k) => group_close(mdl(ts@), start as int, 0) == Some(k as int) && start <= k
                < ts.len(),
            None => group_close(mdl(ts@), start as int, 0) is None,
        },
{
    let ghost dv = mdl(ts@);
    let mut i: usize = start;
    let mut depth: usize = 0;
    loop
        invariant
            start <= i,
            depth <= i - start,
            dv.len() == ts.len(),
            group_close(dv, i as int, depth as int) == group_close(dv, start as int, 0),
        decreases ts.len() - i,
    {
        if i >= ts.len() {
            return None;
        }
        proof {
            assert(dv[i as int] == ts@[i as int]@);
        }
        match &ts[i] {
            Tok::Open(_) => {
                depth = depth + 1;
            },
            Tok::Close(_) => {
                if depth == 0 {
                    proof {
                        lemma_group_close_bounds(dv, start as int, 0);
                    }
                    return Some(i);
                }
                depth = depth - 1;
            },
            _ => {},
        }
        i = i + 1;
    }
}

/// Spec: skip outer attributes (`#[...]`) and a `pub` visibility
/// (with an optional parenthesized restriction) starting at `i`.
pub open spec fn skip_outer(ts: Seq<TokModel>, i: int) -> int
    decreases ts.len() - i,
    via skip_outer_decreases
{
    if i < 0 || i >= ts.len() {
        i
    } else if is_punct(ts[i], '#') && i + 1 < ts.len() && ts[i + 1] == TokModel::Open(
        Delim::Bracket,
    ) {
        match group_close(ts, i + 2, 0) {
            Some(k) => skip_outer(ts, k + 1),
            None => i,
        }
    } else if is_kw(ts[i], "pub"@) {
        if i + 1 < ts.len() && ts[i + 1] == TokModel::Open(Delim::Paren) {
            match group_close(ts, i + 2, 0) {
                Some(k) => skip_outer(ts, k + 1),
                None => i,
            }
        } else {
            skip_outer(ts, i + 1)
        }
    } else {
        i
    }
}

#[via_fn]
proof fn skip_outer_decreases(ts: Seq<TokModel>, i: int) {
    lemma_group_close_bounds(ts, i + 2, 0);
}

/// `skip_outer` never moves backwards nor past the end.
pub proof fn lemma_skip_outer_bounds(ts: Seq<TokModel>, i: int)
    requires
        0 <= i <= ts.len(),
    ensures
        i <= skip_outer(ts, i) <= ts.len(),
    decreases ts.len() - i,
{
    if i < ts.len() {
        lemma_group_close_bounds(ts, i + 2, 0);
        if is_punct(ts[i], '#') && i + 1 < ts.len() && ts[i + 1] == TokModel::Open(Delim::Bracket) {
            match group_close(ts, i + 2, 0) {
                Some(k) => lemma_skip_outer_bounds(ts, k + 1),
                None => {},
            }
        } else if is_kw(ts[i], "pub"@) {
            if i + 1 < ts.len() && ts[i + 1] == TokModel::Open(Delim::Paren) {
                match group_close(ts, i + 2, 0) {
                    Some(k) => lemma_skip_outer_bounds(ts, k + 1),
                    None => {},
                }
            } else {
                lemma_skip_outer_bounds(ts, i + 1);
            }
        }
    }
}

/// Skip outer attributes and visibility starting at `start`.
#[verifier::loop_isolation(false)]
pub fn skip_outer_x(ts: &Vec<Tok>, start: usize) -> (r: usize)
    requires
        start <= ts.len(),
    ensures
        r == skip_outer(mdl(ts@), start as int),
        start <= r <= ts.len(),
{
    let ghost dv = mdl(ts@);
    let mut i: usize = start;
    loop
        invariant
            start <= i <= ts.len(),
            dv.len() == ts.len(),
            skip_outer(dv, i as int) == skip_outer(dv, start as int),
        decreases ts.len() - i,
    {
        proof {
            lemma_skip_outer_bounds(dv, i as int);
        }
        if i >= ts.len() {
            return i;
        }
        proof {
            assert(dv[i as int] == ts@[i as int]@);
            if i + 1 < ts.len() {
                assert(dv[i as int + 1] == ts@[i as int + 1]@);
            }
        }
        if ts[i].is_punct_ch('#') && i + 1 < ts.len() && opens_x(&ts[i + 1], Delim::Bracket) {
            match group_close_x(ts, i + 2) {
                Some(k) => {
                    i = k + 1;
                },
                None => {
                    return i;
                },
            }
        } else if ts[i].is_ident_str("pub") {
            if i + 1 < ts.len() && opens_x(&ts[i + 1], Delim::Paren) {
                match group_close_x(ts, i + 2) {
                    Some(k) => {
                        i = k + 1;
                    },
                    None => {
                        return i;
                    },
                }
            } else {
                i = i + 1;
            }
        } else {
            return i;
        }
    }
}

/// Spec: index of the first `Open(Brace)` that stands outside every
/// group and outside every angle bracket, scanning from `i`.
pub open spec fn find_body(
    ts: Seq<TokModel>,
    i: int,
    gdepth: int,
    adepth: int,
    arrowed: bool,
) -> Option<int>
    decreases ts.len() - i,
{
    if i < 0 || i >= ts.len() {
        None
    } else if is_open(ts[i]) {
        if gdepth == 0 && adepth == 0 && ts[i] == TokModel::Open(Delim::Brace) {
            Some(i)
        } else {
            find_body(ts, i + 1, gdepth + 1, adepth, false)
        }
    } else if is_close(ts[i]) {
        if gdepth == 0 {
            None
        } else {
            find_body(ts, i + 1, gdepth - 1, adepth, false)
        }
    } else if gdepth > 0 {
        find_body(ts, i + 1, gdepth, adepth, false)
    } else if is_punct(ts[i], '<') {
        find_body(ts, i + 1, 0, adepth + 1, false)
    } else if is_punct(ts[i], '>') && !arrowed {
        if adepth == 0 {
            None
        } else {
            find_body(ts, i + 1, 0, adepth - 1, false)
        }
    } else {
        find_body(ts, i + 1, gdepth, adepth, arrow_head(ts[i]))
    }
}

/// On success, `find_body` lands inside the stream, at or past its start.
pub proof fn lemma_find_body_bounds(
    ts: Seq<TokModel>,
    i: int,
    gdepth: int,
    adepth: int,
    arrowed: bool,
)
    ensures
        find_body(ts, i, gdepth, adepth, arrowed) matches Some(k) ==> i <= k < ts.len(),
    decreases ts.len() - i,
{
    if 0 <= i < ts.len() {
        lemma_find_body_bounds(ts, i + 1, gdepth + 1, adepth, false);
        lemma_find_body_bounds(ts, i + 1, gdepth - 1, adepth, false);
        lemma_find_body_bounds(ts, i + 1, gdepth, adepth, false);
        lemma_find_body_bounds(ts, i + 1, 0, adepth + 1, false);
        lemma_find_body_bounds(ts, i + 1, 0, adepth - 1, false);
        lemma_find_body_bounds(ts, i + 1, gdepth, adepth, arrow_head(ts[i]));
    }
}

/// Index of the first top-level brace `Open`, scanning from `start`.
#[verifier::loop_isolation(false)]
pub fn find_body_x(ts: &Vec<Tok>, start: usize) -> (r: Option<usize>)
    ensures
        match r {
            Some(k) => find_body(mdl(ts@), start as int, 0, 0, false) == Some(k as int)
                && start <= k < ts.len(),
            None => find_body(mdl(ts@), start as int, 0, 0, false) is None,
        },
{
    let ghost dv = mdl(ts@);
    let mut i: usize = start;
    let mut gdepth: usize = 0;
    let mut adepth: usize = 0;
    let mut arrowed: bool = false;
    loop
        invariant
            start <= i,
            gdepth <= i - start,
            adepth <= i - start,
            dv.len() == ts.len(),
            find_body(dv, i as int, gdepth as int, adepth as int, arrowed) == find_body(
                dv,
                start as int,
                0,
                0,
                false,
            ),
        decreases ts.len() - i,
    {
        if i >= ts.len() {
            return None;
        }
        proof {
            assert(dv[i as int] == ts@[i as int]@);
        }
        match &ts[i] {
            Tok::Open(d) => {
                if gdepth == 0 && adepth == 0 && *d == Delim::Brace {
                    proof {
                        lemma_find_body_bounds(dv, start as int, 0, 0, false);
                    }
                    return Some(i);
                }
                gdepth = gdepth + 1;
                arrowed = false;
            },
            Tok::Close(_) => {
                if gdepth == 0 {
                    return None;
                }
                gdepth = gdepth - 1;
                arrowed = false;
            },
            _ => {
                if gdepth > 0 {
                    arrowed = false;
                } else if ts[i].is_punct_ch('<') {
                    adepth = adepth + 1;
                    arrowed = false;
                } else if ts[i].is_punct_ch('>') && !arrowed {
                    if adepth == 0 {
                        return None;
                    }
                    adepth = adepth - 1;
                    arrowed = false;
                } else {
                    arrowed = arrow_head_x(&ts[i]);
                }
            },
        }
        i = i + 1;
    }
}

/// Spec: index of the `>` that closes the `<` just before `i`, with
/// `adepth` further angles opened since it.
pub open spec fn find_gt(
    ts: Seq<TokModel>,
    i: int,
    gdepth: int,
    adepth: int,
    arrowed: bool,
) -> Option<int>
    decreases ts.len() - i,
{
    if i < 0 || i >= ts.len() {
        None
    } else if is_open(ts[i]) {
        find_gt(ts, i + 1, gdepth + 1, adepth, false)
    } else if is_close(ts[i]) {
        if gdepth == 0 {
            None
        } else {
            find_gt(ts, i + 1, gdepth - 1, adepth, false)
        }
    } else if gdepth > 0 {
        find_gt(ts, i + 1, gdepth, adepth, false)
    } else if is_punct(ts[i], '<') {
        find_gt(ts, i + 1, 0, adepth + 1, false)
    } else if is_punct(ts[i], '>') && !arrowed {
        if adepth == 0 {
            Some(i)
        } else {
            find_gt(ts, i + 1, 0, adepth - 1, false)
        }
    } else {
        find_gt(ts, i + 1, gdepth, adepth, arrow_head(ts[i]))
    }
}

/// On success, `find_gt` lands inside the stream, at or past its start.
pub proof fn lemma_find_gt_bounds(
    ts: Seq<TokModel>,
    i: int,
    gdepth: int,
    adepth: int,
    arrowed: bool,
)
    ensures
        find_gt(ts, i, gdepth, adepth, arrowed) matches Some(k) ==> i <= k < ts.len(),
    decreases ts.len() - i,
{
    if 0 <= i < ts.len() {
        lemma_find_gt_bounds(ts, i + 1, gdepth + 1, adepth, false);
        lemma_find_gt_bounds(ts, i + 1, gdepth - 1, adepth, false);
        lemma_find_gt_bounds(ts, i + 1, gdepth, adepth, false);
        lemma_find_gt_bounds(ts, i + 1, 0, adepth + 1, false);
        lemma_find_gt_bounds(ts, i + 1, 0, adepth - 1, false);
        lemma_find_gt_bounds(ts, i + 1, gdepth, adepth, arrow_head(ts[i]));
    }
}

/// Index of the `>` closing the `<` just before `start`.
#[verifier::loop_isolation(false)]
pub fn find_gt_x(ts: &Vec<Tok>, start: usize) -> (r: Option<usize>)
    ensures
        match r {
            Some(k) => find_gt(mdl(ts@), start as int, 0, 0, false) == Some(k as int) && start
                <= k < ts.len(),
            None => find_gt(mdl(ts@), start as int, 0, 0, false) is None,
        },
{
    let ghost dv = mdl(ts@);
    let mut i: usize = start;
    let mut gdepth: usize = 0;
    let mut adepth: usize = 0;
    let mut arrowed: bool = false;
    loop
        invariant
            start <= i,
            gdepth <= i - start,
            adepth <= i - start,
            dv.len() == ts.len(),
            find_gt(dv, i as int, gdepth as int, adepth as int, arrowed) == find_gt(
                dv,
                start as int,
                0,
                0,
                false,
            ),
        decreases ts.len() - i,
    {
        if i >= ts.len() {
            return None;
        }
        proof {
            assert(dv[i as int] == ts@[i as int]@);
        }
        match &ts[i] {
            Tok::Open(_) => {
                gdepth = gdepth + 1;
                arrowed = false;
            },
            Tok::Close(_) => {
                if gdepth == 0 {
                    return None;
                }
                gdepth = gdepth - 1;
                arrowed = false;
            },
            _ => {
                if gdepth > 0 {
                    arrowed = false;
                } else if ts[i].is_punct_ch('<') {
                    adepth = adepth + 1;
                    arrowed = false;
                } else if ts[i].is_punct_ch('>') && !arrowed {
                    if adepth == 0 {
                        proof {
                            lemma_find_gt_bounds(dv, start as int, 0, 0, false);
                        }
                        return Some(i);
                    }
                    adepth = adepth - 1;
                    arrowed = false;
                } else {
                    arrowed = arrow_head_x(&ts[i]);
                }
            },
        }
        i = i + 1;
    }
}

/// Spec: index of the first top-level identifier spelled `kw` in the
/// region `[i, end)`.
pub open spec fn find_kw(
    ts: Seq<TokModel>,
    i: int,
    end: int,
    kw: Seq<char>,
    gdepth: int,
    adepth: int,
    arrowed: bool,
) -> Option<int>
    decreases end - i,
{
    if i < 0 || i >= end || end > ts.len() {
        None
    } else if gdepth == 0 && adepth == 0 && is_kw(ts[i], kw) {
        Some(i)
    } else if is_open(ts[i]) {
        find_kw(ts, i + 1, end, kw, gdepth + 1, adepth, false)
    } else if is_close(ts[i]) {
        if gdepth == 0 {
            None
        } else {
            find_kw(ts, i + 1, end, kw, gdepth - 1, adepth, false)
        }
    } else if gdepth > 0 {
        find_kw(ts, i + 1, end, kw, gdepth, adepth, false)
    } else if is_punct(ts[i], '<') {
        find_kw(ts, i + 1, end, kw, 0, adepth + 1, false)
    } else if is_punct(ts[i], '>') && !arrowed {
        if adepth == 0 {
            None
        } else {
            find_kw(ts, i + 1, end, kw, 0, adepth - 1, false)
        }
    } else {
        find_kw(ts, i + 1, end, kw, gdepth, adepth, arrow_head(ts[i]))
    }
}

/// On success, `find_kw` lands inside the region, at or past its start.
pub proof fn lemma_find_kw_bounds(
    ts: Seq<TokModel>,
    i: int,
    end: int,
    kw: Seq<char>,
    gdepth: int,
    adepth: int,
    arrowed: bool,
)
    ensures
        find_kw(ts, i, end, kw, gdepth, adepth, arrowed) matches Some(k) ==> i <= k < end,
    decreases end - i,
{
    if 0 <= i < end && end <= ts.len() {
        lemma_find_kw_bounds(ts, i + 1, end, kw, gdepth + 1, adepth, false);
        lemma_find_kw_bounds(ts, i + 1, end, kw, gdepth - 1, adepth, false);
        lemma_find_kw_bounds(ts, i + 1, end, kw, gdepth, adepth, false);
        lemma_find_kw_bounds(ts, i + 1, end, kw, 0, adepth + 1, false);
        lemma_find_kw_bounds(ts, i + 1, end, kw, 0, adepth - 1, false);
        lemma_find_kw_bounds(ts, i + 1, end, kw, gdepth, adepth, arrow_head(ts[i]));
    }
}

/// Index of the first top-level identifier spelled `kw` in `[start, end)`.
#[verifier::loop_isolation(false)]
pub fn find_kw_x(ts: &Vec<Tok>, start: usize, end: usize, kw: &str) -> (r: Option<usize>)
    requires
        end <= ts.len(),
    ensures
        match r {
            Some(k) => find_kw(mdl(ts@), start as int, end as int, kw@, 0, 0, false) == Some(
                k as int,
            ) && start <= k < end,
            None => find_kw(mdl(ts@), start as int, end as int, kw@, 0, 0, false) is None,
        },
{
    let ghost dv = mdl(ts@);
    let mut i: usize = start;
    let mut gdepth: usize = 0;
    let mut adepth: usize = 0;
    let mut arrowed: bool = false;
    loop
        invariant
            start <= i,
            gdepth <= i - start,
            adepth <= i - start,
            end <= ts.len(),
            dv.len() == ts.len(),
            find_kw(dv, i as int, end as int, kw@, gdepth as int, adepth as int, arrowed)
                == find_kw(dv, start as int, end as int, kw@, 0, 0, false),
        decreases end - i,
    {
        if i >= end {
            return None;
        }
        proof {
            assert(dv[i as int] == ts@[i as int]@);
        }
        if gdepth == 0 && adepth == 0 && ts[i].is_ident_str(kw) {
            proof {
                lemma_find_kw_bounds(dv, start as int, end as int, kw@, 0, 0, false);
            }
            return Some(i);
        }
        match &ts[i] {
            Tok::Open(_) => {
                gdepth = gdepth + 1;
                arrowed = false;
            },
            Tok::Close(_) => {
                if gdepth == 0 {
                    return None;
                }
                gdepth = gdepth - 1;
                arrowed = false;
            },
            _ => {
                if gdepth > 0 {
                    arrowed = false;
                } else if ts[i].is_punct_ch('<') {
                    adepth = adepth + 1;
                    arrowed = false;
                } else if ts[i].is_punct_ch('>') && !arrowed {
                    if adepth == 0 {
                        return None;
                    }
                    adepth = adepth - 1;
                    arrowed = false;
                } else {
                    arrowed = arrow_head_x(&ts[i]);
                }
            },
        }
        i = i + 1;
    }
}

/// Spec: exclusive end of the comma-separated segment starting at `i`:
/// the index of the next top-level `,`, or the stream's end.  With
/// `angles`, a comma between `<` and `>` does not end the segment.
pub open spec fn seg_end(
    ts: Seq<TokModel>,
    i: int,
    angles: bool,
    gdepth: int,
    adepth: int,
    arrowed: bool,
) -> int
    decreases ts.len() - i,
{
    if i < 0 || i >= ts.len() {
        ts.len() as int
    } else if is_open(ts[i]) {
        seg_end(ts, i + 1, angles, gdepth + 1, adepth, false)
    } else if is_close(ts[i]) {
        seg_end(ts, i + 1, angles, if gdepth > 0 { (gdepth - 1) as int } else { 0int }, adepth, false)
    } else if gdepth > 0 {
        seg_end(ts, i + 1, angles, gdepth, adepth, false)
    } else if is_punct(ts[i], ',') && adepth == 0 {
        i
    } else if angles && is_punct(ts[i], '<') {
        seg_end(ts, i + 1, angles, 0, adepth + 1, false)
    } else if angles && is_punct(ts[i], '>') && !arrowed && adepth > 0 {
        seg_end(ts, i + 1, angles, 0, adepth - 1, false)
    } else {
        seg_end(ts, i + 1, angles, gdepth, adepth, arrow_head(ts[i]))
    }
}

/// `seg_end` stays between its start and the stream's end.
pub proof fn lemma_seg_end_bounds(
    ts: Seq<TokModel>,
    i: int,
    angles: bool,
    gdepth: int,
    adepth: int,
    arrowed: bool,
)
    requires
        0 <= i <= ts.len(),
    ensures
        i <= seg_end(ts, i, angles, gdepth, adepth, arrowed) <= ts.len(),
    decreases ts.len() - i,
{
    if i < ts.len() {
        lemma_seg_end_bounds(ts, i + 1, angles, gdepth + 1, adepth, false);
        lemma_seg_end_bounds(
            ts,
            i + 1,
            angles,
            if gdepth > 0 {
                (gdepth - 1) as int
            } else {
                0int
            },
            adepth,
            false,
        );
        lemma_seg_end_bounds(ts, i + 1, angles, gdepth, adepth, false);
        lemma_seg_end_bounds(ts, i + 1, angles, 0, adepth + 1, false);
        lemma_seg_end_bounds(ts, i + 1, angles, 0, adepth - 1, false);
        lemma_seg_end_bounds(ts, i + 1, angles, gdepth, adepth, arrow_head(ts[i]));
    }
}

/// Exclusive end of the comma-separated segment starting at `start`.
#[verifier::loop_isolation(false)]
pub fn seg_end_x(ts: &Vec<Tok>, start: usize, angles: bool) -> (r: usize)
    ensures
        r == seg_end(mdl(ts@), start as int, angles, 0, 0, false),
        r <= ts.len(),
        start <= ts.len() ==> start <= r,
{
    let ghost dv = mdl(ts@);
    let mut i: usize = start;
    let mut gdepth: usize = 0;
    let mut adepth: usize = 0;
    let mut arrowed: bool = false;
    loop
        invariant
            start <= i,
            gdepth <= i - start,
            adepth <= i - start,
            dv.len() == ts.len(),
            seg_end(dv, i as int, angles, gdepth as int, adepth as int, arrowed) == seg_end(
                dv,
                start as int,
                angles,
                0,
                0,
                false,
            ),
        decreases ts.len() - i,
    {
        if i >= ts.len() {
            proof {
                if start <= ts.len() {
                    lemma_seg_end_bounds(dv, start as int, angles, 0, 0, false);
                }
            }
            return ts.len();
        }
        proof {
            assert(dv[i as int] == ts@[i as int]@);
        }
        match &ts[i] {
            Tok::Open(_) => {
                gdepth = gdepth + 1;
                arrowed = false;
            },
            Tok::Close(_) => {
                if gdepth > 0 {
                    gdepth = gdepth - 1;
                }
                arrowed = false;
            },
            _ => {
                if gdepth > 0 {
                    arrowed = false;
                } else if ts[i].is_punct_ch(',') && adepth == 0 {
                    proof {
                        lemma_seg_end_bounds(dv, start as int, angles, 0, 0, false);
                    }
                    return i;
                } else if angles && ts[i].is_punct_ch('<') {
                    adepth = adepth + 1;
                    arrowed = false;
                } else if angles && ts[i].is_punct_ch('>') && !arrowed && adepth > 0 {
                    adepth = adepth - 1;
                    arrowed = false;
                } else {
                    arrowed = arrow_head_x(&ts[i]);
                }
            },
        }
        i = i + 1;
    }
}

/// Spec: the comma-separated segments of `ts` from `i` on, each given
/// as its verbatim tokens, separating commas dropped.
pub open spec fn split_segments(ts: Seq<TokModel>, i: int, angles: bool) -> Seq<Seq<TokModel>>
    decreases ts.len() - i,
    via split_segments_decreases
{
    if i < 0 || i >= ts.len() {
        Seq::empty()
    } else {
        let e = seg_end(ts, i, angles, 0, 0, false);
        if e >= ts.len() {
            seq![ts.subrange(i, ts.len() as int)]
        } else {
            seq![ts.subrange(i, e)] + split_segments(ts, e + 1, angles)
        }
    }
}

#[via_fn]
proof fn split_segments_decreases(ts: Seq<TokModel>, i: int, angles: bool) {
    if 0 <= i < ts.len() {
        lemma_seg_end_bounds(ts, i, angles, 0, 0, false);
    }
}

/// The comma-separated segments of `ts` from `start` on, as fresh copies.
#[verifier::loop_isolation(false)]
pub fn split_segments_x(ts: &Vec<Tok>, start: usize, angles: bool) -> (r: Vec<Vec<Tok>>)
    ensures
        mdl2(r@) == split_segments(mdl(ts@), start as int, angles),
{
    let ghost dv = mdl(ts@);
    let mut out: Vec<Vec<Tok>> = Vec::new();
    proof {
        assert(mdl2(out@) =~= Seq::<Seq<TokModel>>::empty());
        assert(mdl2(out@) + split_segments(dv, start as int, angles) =~= split_segments(
            dv,
            start as int,
            angles,
        ));
    }
    let mut i: usize = start;
    while i < ts.len()
        invariant
            start <= i,
            dv.len() == ts.len(),
            mdl2(out@) + split_segments(dv, i as int, angles) == split_segments(
                dv,
                start as int,
                angles,
            ),
        decreases ts.len() - i,
    {
        let e = seg_end_x(ts, i, angles);
        let seg = copy_range(ts, i, e);
        let ghost pre = mdl2(out@);
        out.push(seg);
        proof {
            assert(mdl2(out@) =~= pre.push(mdl(seg@)));
        }
        if e >= ts.len() {
            proof {
                assert(split_segments(dv, i as int, angles) =~= seq![
                    dv.subrange(i as int, dv.len() as int),
                ]);
                assert(pre + split_segments(dv, i as int, angles) =~= pre.push(
                    dv.subrange(i as int, dv.len() as int),
                ));
                assert(mdl2(out@) =~= split_segments(dv, start as int, angles));
            }
            return out;
        }
        proof {
            assert(pre + (seq![dv.subrange(i as int, e as int)] + split_segments(
                dv,
                e + 1,
                angles,
            )) =~= pre.push(dv.subrange(i as int, e as int)) + split_segments(dv, e + 1, angles));
            assert(mdl2(out@) + split_segments(dv, e + 1, angles) =~= split_segments(
                dv,
                start as int,
                angles,
            ));
        }
        i = e + 1;
    }
    proof {
        assert(split_segments(dv, i as int, angles) =~= Seq::<Seq<TokModel>>::empty());
        assert(mdl2(out@) =~= split_segments(dv, start as int, angles));
    }
    out
}

/// Spec: the start index of each comma-separated segment of `ts` from
/// `i` on, each shifted by `base`: the position of each segment in the
/// stream the region was cut from.
pub open spec fn split_offsets(ts: Seq<TokModel>, i: int, base: int, angles: bool) -> Seq<int>
    decreases ts.len() - i,
    via split_offsets_decreases
{
    if i < 0 || i >= ts.len() {
        Seq::empty()
    } else {
        let e = seg_end(ts, i, angles, 0, 0, false);
        if e >= ts.len() {
            seq![base + i]
        } else {
            seq![base + i] + split_offsets(ts, e + 1, base, angles)
        }
    }
}

#[via_fn]
proof fn split_offsets_decreases(ts: Seq<TokModel>, i: int, base: int, angles: bool) {
    if 0 <= i < ts.len() {
        lemma_seg_end_bounds(ts, i, angles, 0, 0, false);
    }
}

/// There is one segment offset per segment.
pub proof fn lemma_split_lengths(ts: Seq<TokModel>, i: int, base: int, angles: bool)
    ensures
        split_offsets(ts, i, base, angles).len() == split_segments(ts, i, angles).len(),
    decreases ts.len() - i,
{
    if 0 <= i < ts.len() {
        lemma_seg_end_bounds(ts, i, angles, 0, 0, false);
        let e = seg_end(ts, i, angles, 0, 0, false);
        if e < ts.len() {
            lemma_split_lengths(ts, e + 1, base, angles);
        }
    }
}

/// The start index of each comma-separated segment of `ts` from
/// `start` on, shifted by `base`.
#[verifier::loop_isolation(false)]
pub fn split_offsets_x(ts: &Vec<Tok>, start: usize, base: usize, angles: bool) -> (r: Vec<usize>)
    requires
        base + ts.len() <= usize::MAX,
    ensures
        ints_of(r@) == split_offsets(mdl(ts@), start as int, base as int, angles),
{
    let ghost dv = mdl(ts@);
    let mut out: Vec<usize> = Vec::new();
    proof {
        assert(ints_of(out@) =~= Seq::<int>::empty());
        assert(ints_of(out@) + split_offsets(dv, start as int, base as int, angles)
            =~= split_offsets(dv, start as int, base as int, angles));
    }
    let mut i: usize = start;
    while i < ts.len()
        invariant
            start <= i,
            ints_of(out@) + split_offsets(dv, i as int, base as int, angles) == split_offsets(
                dv,
                start as int,
                base as int,
                angles,
            ),
        decreases ts.len() - i,
    {
        let e = seg_end_x(ts, i, angles);
        let ghost pre = ints_of(out@);
        out.push(base + i);
        proof {
            assert(ints_of(out@) =~= pre.push(base + i));
        }
        if e >= ts.len() {
            proof {
                assert(split_offsets(dv, i as int, base as int, angles) =~= seq![
                    base + i as int,
                ]);
                assert(pre + split_offsets(dv, i as int, base as int, angles) =~= pre.push(
                    base + i as int,
                ));
                assert(ints_of(out@) =~= split_offsets(dv, start as int, base as int, angles));
            }
            return out;
        }
        proof {
            assert(pre + (seq![base + i as int] + split_offsets(dv, e + 1, base as int, angles))
                =~= pre.push(base + i as int) + split_offsets(dv, e + 1, base as int, angles));
            assert(ints_of(out@) + split_offsets(dv, e + 1, base as int, angles) =~= split_offsets(
                dv,
                start as int,
                base as int,
                angles,
            ));
        }
        i = e + 1;
    }
    proof {
        assert(split_offsets(dv, i as int, base as int, angles) =~= Seq::<int>::empty());
        assert(ints_of(out@) =~= split_offsets(dv, start as int, base as int, angles));
    }
    out
}

} // verus!
