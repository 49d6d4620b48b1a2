//! Parsing the invocation's input: one enum item, then one impl item,
//! with nothing left over.
//!
//! The grammar is stated by the spec functions (`parse_enum`,
//! `parse_impl`, `parse_members`, …); each executable parser is proved
//! to return exactly what its spec function says.
//!
//! The grammar works at the token level: it locates the few things the
//! rewrite reads — the two items' extents, the enum's name and
//! variants, the impl's generics, target and methods — and passes
//! everything else through verbatim.  An input whose token shape does
//! not split into the two items is rejected with the structural fault;
//! finer wellformedness is left to the host compiler, which parses the
//! emitted tokens as written.  The parsed impl also records, as token
//! indexes into the input, where its `impl` keyword, its target type
//! and each generic parameter stand, so a diagnostic can anchor there.

use vstd::prelude::*;

use crate::error::Fault;
use crate::scan::{
    find_body, find_body_x, find_gt, find_gt_x, find_kw, find_kw_x, group_close, group_close_x,
    lemma_find_body_bounds, lemma_find_kw_bounds, lemma_group_close_bounds,
    lemma_skip_outer_bounds, lemma_split_lengths, skip_outer, skip_outer_x, split_offsets,
    split_offsets_x, split_segments, split_segments_x,
};
use crate::token::{
    chars_of, copy_range, ints_of, is_ident, is_kw, is_open, is_close, is_punct, mdl, mdl2, Delim,
    Tok, TokModel,
};

verus! {

/// Spelling of an identifier token (empty for any other token).
pub open spec fn ident_chars(t: TokModel) -> Seq<char> {
    match t {
        TokModel::Ident(s) => s,
        _ => Seq::empty(),
    }
}

/// The parsed enum item, in the model.
#[verifier::ext_equal]
pub struct EnumModel {
    /// The item's verbatim tokens: a prefix of the input.
    pub toks: Seq<TokModel>,
    /// The enum's identifier.
    pub name: Seq<char>,
    /// The variant identifiers, in declaration order.
    pub variants: Seq<Seq<char>>,
    /// Index of the input token right after the item.
    pub end: int,
}

/// The parsed enum item.
pub struct EnumItem {
    /// The item's verbatim tokens.
    pub toks: Vec<Tok>,
    /// The enum's identifier.
    pub name: String,
    /// The variant identifiers, in declaration order.
    pub variants: Vec<String>,
    /// Index of the input token right after the item.
    pub end: usize,
}

/// Model of a parsed enum item.
pub open spec fn enum_model(e: &EnumItem) -> EnumModel {
    EnumModel {
        toks: mdl(e.toks@),
        name: e.name@,
        variants: chars_of(e.variants@),
        end: e.end as int,
    }
}

/// One item of the impl block's body, in the model.
#[verifier::ext_equal]
pub enum MemberModel {
    /// A method: its signature tokens and the tokens inside its body braces.
    Method { sig: Seq<TokModel>, body: Seq<TokModel> },
    /// Any other item, passed through verbatim.
    Other { toks: Seq<TokModel> },
}

/// One item of the impl block's body.
pub enum Member {
    /// A method: its signature tokens and the tokens inside its body braces.
    Method { sig: Vec<Tok>, body: Vec<Tok> },
    /// Any other item, passed through verbatim.
    Other { toks: Vec<Tok> },
}

/// Model of one impl-body item.
pub open spec fn member_model(m: Member) -> MemberModel {
    match m {
        Member::Method { sig, body } => MemberModel::Method { sig: mdl(sig@), body: mdl(body@) },
        Member::Other { toks } => MemberModel::Other { toks: mdl(toks@) },
    }
}

/// Model of a list of impl-body items.
pub open spec fn members_model(ms: Seq<Member>) -> Seq<MemberModel> {
    Seq::new(ms.len(), |i: int| member_model(ms[i]))
}

/// The parsed impl item, in the model.
#[verifier::ext_equal]
pub struct ImplModel {
    /// Attributes, qualifiers and the `impl` keyword, verbatim.
    pub pre: Seq<TokModel>,
    /// The generic parameters, one token run each, commas dropped.
    pub params: Seq<Seq<TokModel>>,
    /// Trait part up to and including `for` (empty for an inherent impl).
    pub mid: Seq<TokModel>,
    /// The target type's tokens.
    pub target: Seq<TokModel>,
    /// Everything between the target and the body (the where clause).
    pub tail: Seq<TokModel>,
    /// The body's items.
    pub members: Seq<MemberModel>,
    /// Index of the `impl` keyword in the input.
    pub impl_at: int,
    /// Index of the target type's first token in the input.
    pub target_at: int,
    /// Index of each generic parameter's first token in the input.
    pub params_at: Seq<int>,
    /// Index of the input token right after the item.
    pub end: int,
}

/// The parsed impl item.
pub struct ImplParts {
    /// Attributes, qualifiers and the `impl` keyword, verbatim.
    pub pre: Vec<Tok>,
    /// The generic parameters, one token run each, commas dropped.
    pub params: Vec<Vec<Tok>>,
    /// Trait part up to and including `for` (empty for an inherent impl).
    pub mid: Vec<Tok>,
    /// The target type's tokens.
    pub target: Vec<Tok>,
    /// Everything between the target and the body (the where clause).
    pub tail: Vec<Tok>,
    /// The body's items.
    pub members: Vec<Member>,
    /// Index of the `impl` keyword in the input.
    pub impl_at: usize,
    /// Index of the target type's first token in the input.
    pub target_at: usize,
    /// Index of each generic parameter's first token in the input.
    pub params_at: Vec<usize>,
    /// Index of the input token right after the item.
    pub end: usize,
}

/// Model of a parsed impl item.
pub open spec fn impl_model(it: &ImplParts) -> ImplModel {
    ImplModel {
        pre: mdl(it.pre@),
        params: mdl2(it.params@),
        mid: mdl(it.mid@),
        target: mdl(it.target@),
        tail: mdl(it.tail@),
        members: members_model(it.members@),
        impl_at: it.impl_at as int,
        target_at: it.target_at as int,
        params_at: ints_of(it.params_at@),
        end: it.end as int,
    }
}

/// Spec: name of a variant segment: its first token after attributes,
/// which must be an identifier.
pub open spec fn seg_name(seg: Seq<TokModel>) -> Option<Seq<char>> {
    let q = skip_outer(seg, 0);
    if 0 <= q < seg.len() && is_ident(seg[q]) {
        Some(ident_chars(seg[q]))
    } else {
        None
    }
}

/// Spec: names of the variant segments from `k` on; `None` as soon as
/// one segment has no leading identifier.
pub open spec fn seg_names(segs: Seq<Seq<TokModel>>, k: int) -> Option<Seq<Seq<char>>>
    decreases segs.len() - k,
{
    if k < 0 || k >= segs.len() {
        Some(Seq::empty())
    } else {
        match seg_name(segs[k]) {
            Some(n) => match seg_names(segs, k + 1) {
                Some(rest) => Some(seq![n] + rest),
                None => None,
            },
            None => None,
        }
    }
}

/// Join an already-extracted prefix with the names still to come.
pub open spec fn opt_names_concat(
    pre: Seq<Seq<char>>,
    rest: Option<Seq<Seq<char>>>,
) -> Option<Seq<Seq<char>>> {
    match rest {
        Some(r) => Some(pre + r),
        None => None,
    }
}

/// Name of one variant segment.
fn seg_name_x(seg: &Vec<Tok>) -> (r: Option<String>)
    ensures
        match r {
            Some(n) => seg_name(mdl(seg@)) == Some(n@),
            None => seg_name(mdl(seg@)) is None,
        },
{
    let q = skip_outer_x(seg, 0);
    if q >= seg.len() {
        return None;
    }
    proof {
        assert(mdl(seg@)[q as int] == seg@[q as int]@);
    }
    match &seg[q] {
        Tok::Ident(s) => Some(s.clone()),
        _ => None,
    }
}

/// Names of all variant segments.
#[verifier::loop_isolation(false)]
fn seg_names_x(segs: &Vec<Vec<Tok>>) -> (r: Option<Vec<String>>)
    ensures
        match r {
            Some(vs) => seg_names(mdl2(segs@), 0) == Some(chars_of(vs@)),
            None => seg_names(mdl2(segs@), 0) is None,
        },
{
    let ghost sm = mdl2(segs@);
    let mut out: Vec<String> = Vec::new();
    let mut k: usize = 0;
    proof {
        assert(chars_of(out@) =~= Seq::<Seq<char>>::empty());
    }
    while k < segs.len()
        invariant
            0 <= k <= segs.len(),
            seg_names(sm, 0) == opt_names_concat(chars_of(out@), seg_names(sm, k as int)),
        decreases segs.len() - k,
    {
        proof {
            assert(sm[k as int] == mdl(segs@[k as int]@));
        }
        let n = match seg_name_x(&segs[k]) {
            Some(n) => n,
            None => {
                return None;
            },
        };
        let ghost pre = chars_of(out@);
        let ghost nm = n@;
        out.push(n);
        proof {
            assert(chars_of(out@) =~= pre.push(nm));
            match seg_names(sm, k + 1) {
                Some(rest) => {
                    assert(pre + (seq![nm] + rest) =~= pre.push(nm) + rest);
                },
                None => {},
            }
        }
        k = k + 1;
    }
    proof {
        match seg_names(sm, k as int) {
            Some(rest) => {
                assert(rest =~= Seq::<Seq<char>>::empty());
                assert(chars_of(out@) + rest =~= chars_of(out@));
            },
            None => {},
        }
    }
    Some(out)
}

/// Spec: the whole enum item at the head of the input: its verbatim
/// extent, its identifier, and its variants' identifiers in order.
pub open spec fn parse_enum(ts: Seq<TokModel>) -> Option<EnumModel> {
    let q = skip_outer(ts, 0);
    if q + 1 < ts.len() && is_kw(ts[q], "enum"@) && is_ident(ts[q + 1]) {
        match find_body(ts, q + 2, 0, 0, false) {
            Some(b) => match group_close(ts, b + 1, 0) {
                Some(c) => match seg_names(split_segments(ts.subrange(b + 1, c), 0, false), 0) {
                    Some(vs) => Some(
                        EnumModel {
                            toks: ts.subrange(0, c + 1),
                            name: ident_chars(ts[q + 1]),
                            variants: vs,
                            end: c + 1,
                        },
                    ),
                    None => None,
                },
                None => None,
            },
            None => None,
        }
    } else {
        None
    }
}

/// Parse the enum item at the head of the input.
pub fn parse_enum_x(ts: &Vec<Tok>) -> (r: Result<EnumItem, Fault>)
    ensures
        match r {
            Ok(e) => parse_enum(mdl(ts@)) == Some(enum_model(&e)) && e.end <= ts.len(),
            Err(f) => f == (Fault::Malformed { at: 0 }) && parse_enum(mdl(ts@)) is None,
        },
{
    let ghost dv = mdl(ts@);
    let q = skip_outer_x(ts, 0);
    if q >= ts.len() || ts.len() - q < 2 {
        return Err(Fault::Malformed { at: 0 });
    }
    proof {
        assert(dv[q as int] == ts@[q as int]@);
        assert(dv[q as int + 1] == ts@[q as int + 1]@);
    }
    if !ts[q].is_ident_str("enum") {
        return Err(Fault::Malformed { at: 0 });
    }
    let name: String = match &ts[q + 1] {
        Tok::Ident(s) => s.clone(),
        _ => {
            return Err(Fault::Malformed { at: 0 });
        },
    };
    let b = match find_body_x(ts, q + 2) {
        Some(b) => b,
        None => {
            return Err(Fault::Malformed { at: 0 });
        },
    };
    let c = match group_close_x(ts, b + 1) {
        Some(c) => c,
        None => {
            return Err(Fault::Malformed { at: 0 });
        },
    };
    let inner = copy_range(ts, b + 1, c);
    let segs = split_segments_x(&inner, 0, false);
    let variants = match seg_names_x(&segs) {
        Some(vs) => vs,
        None => {
            return Err(Fault::Malformed { at: 0 });
        },
    };
    let toks = copy_range(ts, 0, c + 1);
    let e = EnumItem { toks, name, variants, end: c + 1 };
    proof {
        assert(enum_model(&e).toks =~= dv.subrange(0, c + 1));
        assert(parse_enum(dv) == Some(enum_model(&e)));
    }
    Ok(e)
}

/// Spec: the token is one of the qualifier keywords that may stand
/// between an item's attributes and its `impl` or `fn` keyword.  (An
/// ABI qualifier cannot be named here, so a method behind one is not
/// recognized and its item passes through unrewritten.)
pub open spec fn is_qual(t: TokModel) -> bool {
    is_kw(t, "default"@) || is_kw(t, "const"@) || is_kw(t, "async"@) || is_kw(t, "unsafe"@)
}

/// Spec: skip the qualifier keywords starting at `i`.
pub open spec fn skip_quals(ts: Seq<TokModel>, i: int) -> int
    decreases ts.len() - i,
{
    if i < 0 || i >= ts.len() {
        i
    } else if is_qual(ts[i]) {
        skip_quals(ts, i + 1)
    } else {
        i
    }
}

/// `skip_quals` never moves backwards nor past the end.
pub proof fn lemma_skip_quals_bounds(ts: Seq<TokModel>, i: int)
    requires
        0 <= i <= ts.len(),
    ensures
        i <= skip_quals(ts, i) <= ts.len(),
    decreases ts.len() - i,
{
    if i < ts.len() {
        lemma_skip_quals_bounds(ts, i + 1);
    }
}

/// Skip the qualifier keywords starting at `start`.
#[verifier::loop_isolation(false)]
pub fn skip_quals_x(ts: &Vec<Tok>, start: usize) -> (r: usize)
    requires
        start <= ts.len(),
    ensures
        r == skip_quals(mdl(ts@), start as int),
        start <= r <= ts.len(),
{
    let ghost dv = mdl(ts@);
    let mut i: usize = start;
    loop
        invariant
            start <= i <= ts.len(),
            skip_quals(dv, i as int) == skip_quals(dv, start as int),
        decreases ts.len() - i,
    {
        proof {
            lemma_skip_quals_bounds(dv, i as int);
        }
        if i >= ts.len() {
            return i;
        }
        proof {
            assert(dv[i as int] == ts@[i as int]@);
        }
        if ts[i].is_ident_str("default") || ts[i].is_ident_str("const") || ts[i].is_ident_str(
            "async",
        ) || ts[i].is_ident_str("unsafe") {
            i = i + 1;
        } else {
            return i;
        }
    }
}

/// Spec: position of the `fn` keyword of the method starting at `i`,
/// if the item there is one.
pub open spec fn method_head(ts: Seq<TokModel>, i: int) -> Option<int> {
    let q = skip_quals(ts, skip_outer(ts, i));
    if 0 <= q < ts.len() && is_kw(ts[q], "fn"@) {
        Some(q)
    } else {
        None
    }
}

/// Position of the `fn` keyword of the method starting at `start`, if any.
pub fn method_head_x(ts: &Vec<Tok>, start: usize) -> (r: Option<usize>)
    requires
        start <= ts.len(),
    ensures
        match r {
            Some(k) => method_head(mdl(ts@), start as int) == Some(k as int) && start <= k
                < ts.len(),
            None => method_head(mdl(ts@), start as int) is None,
        },
{
    let q0 = skip_outer_x(ts, start);
    let q = skip_quals_x(ts, q0);
    if q >= ts.len() {
        return None;
    }
    proof {
        assert(mdl(ts@)[q as int] == ts@[q as int]@);
    }
    if ts[q].is_ident_str("fn") {
        Some(q)
    } else {
        None
    }
}

/// Spec: exclusive end of the non-method item starting at `i`: right
/// after the first top-level `;`, or right after a top-level brace
/// group (a macro invocation's braces, or a brace that ends an
/// initializer early, which only splits the verbatim run in two).
pub open spec fn other_end(ts: Seq<TokModel>, i: int, gdepth: int) -> Option<int>
    decreases ts.len() - i,
{
    if i < 0 || i >= ts.len() {
        None
    } else if is_open(ts[i]) {
        if gdepth == 0 && ts[i] == TokModel::Open(Delim::Brace) {
            match group_close(ts, i + 1, 0) {
                Some(c) => Some(c + 1),
                None => None,
            }
        } else {
            other_end(ts, i + 1, gdepth + 1)
        }
    } else if is_close(ts[i]) {
        if gdepth == 0 {
            None
        } else {
            other_end(ts, i + 1, gdepth - 1)
        }
    } else if gdepth == 0 && is_punct(ts[i], ';') {
        Some(i + 1)
    } else {
        other_end(ts, i + 1, gdepth)
    }
}

/// On success, `other_end` moves strictly forward, at most to the end.
pub proof fn lemma_other_end_bounds(ts: Seq<TokModel>, i: int, gdepth: int)
    ensures
        other_end(ts, i, gdepth) matches Some(e) ==> i < e <= ts.len(),
    decreases ts.len() - i,
{
    if 0 <= i < ts.len() {
        lemma_group_close_bounds(ts, i + 1, 0);
        lemma_other_end_bounds(ts, i + 1, gdepth + 1);
        lemma_other_end_bounds(ts, i + 1, gdepth - 1);
        lemma_other_end_bounds(ts, i + 1, gdepth);
    }
}

/// Exclusive end of the non-method item starting at `start`.
#[verifier::loop_isolation(false)]
pub fn other_end_x(ts: &Vec<Tok>, start: usize) -> (r: Option<usize>)
    ensures
        match r {
            Some(e) => other_end(mdl(ts@), start as int, 0) == Some(e as int) && start < e
                <= ts.len(),
            None => other_end(mdl(ts@), start as int, 0) is None,
        },
{
    let ghost dv = mdl(ts@);
    let mut i: usize = start;
    let mut gdepth: usize = 0;
    loop
        invariant
            start <= i,
            gdepth <= i - start,
            other_end(dv, i as int, gdepth as int) == other_end(dv, start as int, 0),
        decreases ts.len() - i,
    {
        if i >= ts.len() {
            return None;
        }
        proof {
            assert(dv[i as int] == ts@[i as int]@);
        }
        match &ts[i] {
            Tok::Open(d) => {
                if gdepth == 0 && *d == Delim::Brace {
                    match group_close_x(ts, i + 1) {
                        Some(c) => {
                            proof {
                                lemma_other_end_bounds(dv, start as int, 0);
                            }
                            return Some(c + 1);
                        },
                        None => {
                            return None;
                        },
                    }
                }
                gdepth = gdepth + 1;
            },
            Tok::Close(_) => {
                if gdepth == 0 {
                    return None;
                }
                gdepth = gdepth - 1;
            },
            _ => {
                if gdepth == 0 && ts[i].is_punct_ch(';') {
                    proof {
                        lemma_other_end_bounds(dv, start as int, 0);
                    }
                    return Some(i + 1);
                }
            },
        }
        i = i + 1;
    }
}

/// Spec: the impl body's items from `i` on: each method as its
/// signature and body, everything else verbatim.
pub open spec fn parse_members(ts: Seq<TokModel>, i: int) -> Option<Seq<MemberModel>>
    decreases ts.len() - i,
    via parse_members_decreases
{
    if i < 0 {
        None
    } else if i >= ts.len() {
        Some(Seq::empty())
    } else {
        match method_head(ts, i) {
            Some(f) => match find_body(ts, f, 0, 0, false) {
                Some(b) => match group_close(ts, b + 1, 0) {
                    Some(c) => match parse_members(ts, c + 1) {
                        Some(rest) => Some(
                            seq![
                                MemberModel::Method {
                                    sig: ts.subrange(i, b),
                                    body: ts.subrange(b + 1, c),
                                },
                            ] + rest,
                        ),
                        None => None,
                    },
                    None => None,
                },
                None => None,
            },
            None => match other_end(ts, i, 0) {
                Some(e) => match parse_members(ts, e) {
                    Some(rest) => Some(seq![MemberModel::Other { toks: ts.subrange(i, e) }] + rest),
                    None => None,
                },
                None => None,
            },
        }
    }
}

#[via_fn]
proof fn parse_members_decreases(ts: Seq<TokModel>, i: int) {
    if 0 <= i < ts.len() {
        lemma_skip_outer_bounds(ts, i);
        lemma_skip_quals_bounds(ts, skip_outer(ts, i));
        match method_head(ts, i) {
            Some(f) => {
                lemma_find_body_bounds(ts, f, 0, 0, false);
                match find_body(ts, f, 0, 0, false) {
                    Some(b) => {
                        lemma_group_close_bounds(ts, b + 1, 0);
                    },
                    None => {},
                }
            },
            None => {
                lemma_other_end_bounds(ts, i, 0);
            },
        }
    }
}

/// Join already-parsed members with the ones still to come.
pub open spec fn opt_members_concat(
    pre: Seq<MemberModel>,
    rest: Option<Seq<MemberModel>>,
) -> Option<Seq<MemberModel>> {
    match rest {
        Some(r) => Some(pre + r),
        None => None,
    }
}

/// Parse the items of an impl body.
#[verifier::loop_isolation(false)]
pub fn parse_members_x(ts: &Vec<Tok>) -> (r: Option<Vec<Member>>)
    ensures
        match r {
            Some(ms) => parse_members(mdl(ts@), 0) == Some(members_model(ms@)),
            None => parse_members(mdl(ts@), 0) is None,
        },
{
    let ghost dv = mdl(ts@);
    let mut out: Vec<Member> = Vec::new();
    let mut i: usize = 0;
    proof {
        assert(members_model(out@) =~= Seq::<MemberModel>::empty());
    }
    while i < ts.len()
        invariant
            0 <= i <= ts.len(),
            parse_members(dv, 0) == opt_members_concat(
                members_model(out@),
                parse_members(dv, i as int),
            ),
        decreases ts.len() - i,
    {
        let ghost pre = members_model(out@);
        match method_head_x(ts, i) {
            Some(f) => {
                let b = match find_body_x(ts, f) {
                    Some(b) => b,
                    None => {
                        return None;
                    },
                };
                let c = match group_close_x(ts, b + 1) {
                    Some(c) => c,
                    None => {
                        return None;
                    },
                };
                let sig = copy_range(ts, i, b);
                let body = copy_range(ts, b + 1, c);
                let ghost mm = MemberModel::Method {
                    sig: dv.subrange(i as int, b as int),
                    body: dv.subrange(b + 1, c as int),
                };
                out.push(Member::Method { sig, body });
                proof {
                    assert(members_model(out@) =~= pre.push(mm));
                    match parse_members(dv, c + 1) {
                        Some(rest) => {
                            assert(pre + (seq![mm] + rest) =~= pre.push(mm) + rest);
                        },
                        None => {},
                    }
                }
                i = c + 1;
            },
            None => {
                let e = match other_end_x(ts, i) {
                    Some(e) => e,
                    None => {
                        return None;
                    },
                };
                let toks = copy_range(ts, i, e);
                let ghost mm = MemberModel::Other { toks: dv.subrange(i as int, e as int) };
                out.push(Member::Other { toks });
                proof {
                    assert(members_model(out@) =~= pre.push(mm));
                    match parse_members(dv, e as int) {
                        Some(rest) => {
                            assert(pre + (seq![mm] + rest) =~= pre.push(mm) + rest);
                        },
                        None => {},
                    }
                }
                i = e;
            },
        }
    }
    proof {
        match parse_members(dv, i as int) {
            Some(rest) => {
                assert(rest =~= Seq::<MemberModel>::empty());
                assert(members_model(out@) + rest =~= members_model(out@));
            },
            None => {},
        }
    }
    Some(out)
}

/// Spec: the impl item that fills the input from `j` to its end: its
/// head, generic parameters, trait part, target type, where clause and
/// body items.  `None` also when tokens follow the item.
pub open spec fn parse_impl(ts: Seq<TokModel>, j: int) -> Option<ImplModel> {
    let q = skip_quals(ts, skip_outer(ts, j));
    if 0 <= j && q < ts.len() && is_kw(ts[q], "impl"@) {
        if q + 1 < ts.len() && is_punct(ts[q + 1], '<') {
            match find_gt(ts, q + 2, 0, 0, false) {
                Some(g) => parse_impl_rest(ts, j, q, ts.subrange(q + 2, g), q + 2, g + 1),
                None => None,
            }
        } else {
            parse_impl_rest(ts, j, q, Seq::empty(), q + 1, q + 1)
        }
    } else {
        None
    }
}

/// Spec: the impl item's parts after its generics were located;
/// `pbase` is the input index of the first parameter-region token.
/// Trailing tokens after the item are not judged here: the item's
/// `end` says where it stops, and the pipeline rejects leftovers.
pub open spec fn parse_impl_rest(
    ts: Seq<TokModel>,
    j: int,
    q: int,
    params_region: Seq<TokModel>,
    pbase: int,
    after: int,
) -> Option<ImplModel> {
    match find_body(ts, after, 0, 0, false) {
        Some(b) => match group_close(ts, b + 1, 0) {
            Some(c) => {
                let w = find_kw(ts, after, b, "where"@, 0, 0, false);
                let tend = match w {
                    Some(wi) => wi,
                    None => b as int,
                };
                let f = find_kw(ts, after, tend, "for"@, 0, 0, false);
                let tstart = match f {
                    Some(fi) => fi + 1,
                    None => after,
                };
                match parse_members(ts.subrange(b + 1, c), 0) {
                    Some(ms) => Some(
                        ImplModel {
                            pre: ts.subrange(j, q + 1),
                            params: split_segments(params_region, 0, true),
                            mid: ts.subrange(after, tstart),
                            target: ts.subrange(tstart, tend),
                            tail: ts.subrange(tend, b),
                            members: ms,
                            impl_at: q,
                            target_at: tstart,
                            params_at: split_offsets(params_region, 0, pbase, true),
                            end: c + 1,
                        },
                    ),
                    None => None,
                }
            },
            None => None,
        },
        None => None,
    }
}

/// Parse the impl item filling the input from `j` to its end.
pub fn parse_impl_x(ts: &Vec<Tok>, j: usize) -> (r: Result<ImplParts, Fault>)
    requires
        j <= ts.len(),
    ensures
        match r {
            Ok(it) => parse_impl(mdl(ts@), j as int) == Some(impl_model(&it)) && it.end <= ts.len()
                && it.params_at.len() == it.params.len(),
            Err(f) => f == (Fault::Malformed { at: j }) && parse_impl(mdl(ts@), j as int) is None,
        },
{
    let ghost dv = mdl(ts@);
    let q0 = skip_outer_x(ts, j);
    let q = skip_quals_x(ts, q0);
    if q >= ts.len() {
        return Err(Fault::Malformed { at: j });
    }
    proof {
        assert(dv[q as int] == ts@[q as int]@);
        if q + 1 < ts.len() {
            assert(dv[q as int + 1] == ts@[q as int + 1]@);
        }
    }
    if !ts[q].is_ident_str("impl") {
        return Err(Fault::Malformed { at: j });
    }
    let mut params_region: Vec<Tok> = Vec::new();
    let mut after: usize = q + 1;
    let mut pbase: usize = q + 1;
    if q + 1 < ts.len() && ts[q + 1].is_punct_ch('<') {
        let g = match find_gt_x(ts, q + 2) {
            Some(g) => g,
            None => {
                return Err(Fault::Malformed { at: j });
            },
        };
        params_region = copy_range(ts, q + 2, g);
        pbase = q + 2;
        after = g + 1;
    } else {
        proof {
            assert(mdl(params_region@) =~= Seq::<TokModel>::empty());
        }
    }
    let b = match find_body_x(ts, after) {
        Some(b) => b,
        None => {
            return Err(Fault::Malformed { at: j });
        },
    };
    let c = match group_close_x(ts, b + 1) {
        Some(c) => c,
        None => {
            return Err(Fault::Malformed { at: j });
        },
    };
    let tend: usize = match find_kw_x(ts, after, b, "where") {
        Some(wi) => wi,
        None => b,
    };
    let tstart: usize = match find_kw_x(ts, after, tend, "for") {
        Some(fi) => fi + 1,
        None => after,
    };
    proof {
        lemma_find_kw_bounds(dv, after as int, b as int, "where"@, 0, 0, false);
        lemma_find_kw_bounds(dv, after as int, tend as int, "for"@, 0, 0, false);
    }
    let inner = copy_range(ts, b + 1, c);
    let members = match parse_members_x(&inner) {
        Some(ms) => ms,
        None => {
            return Err(Fault::Malformed { at: j });
        },
    };
    let params = split_segments_x(&params_region, 0, true);
    let params_at = split_offsets_x(&params_region, 0, pbase, true);
    let it = ImplParts {
        pre: copy_range(ts, j, q + 1),
        params,
        mid: copy_range(ts, after, tstart),
        target: copy_range(ts, tstart, tend),
        tail: copy_range(ts, tend, b),
        members,
        impl_at: q,
        target_at: tstart,
        params_at,
        end: c + 1,
    };
    proof {
        lemma_split_lengths(mdl(params_region@), 0, pbase as int, true);
        assert(it.params_at@.len() == ints_of(it.params_at@).len());
        assert(it.params@.len() == mdl2(it.params@).len());
        assert(parse_impl(dv, j as int) == Some(impl_model(&it)));
    }
    Ok(it)
}

} // verus!
