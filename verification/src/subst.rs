//! Placeholder resolution and identifier substitution.

use vstd::prelude::*;

use crate::parse::ident_chars;
use crate::scan::{skip_outer, skip_outer_x};
use crate::token::{is_ident, is_kw, is_punct, mdl, mdl2, Tok, TokModel};

verus! {

/// Spec: one token after substitution: the identifier spelled `from`
/// becomes the identifier spelled `to`; every other token is kept.
pub open spec fn subst_one(t: TokModel, from: Seq<char>, to: Seq<char>) -> TokModel {
    if t == TokModel::Ident(from) {
        TokModel::Ident(to)
    } else {
        t
    }
}

/// Spec: a stream after substitution, token by token.
pub open spec fn subst(ts: Seq<TokModel>, from: Seq<char>, to: Seq<char>) -> Seq<TokModel> {
    Seq::new(ts.len(), |i: int| subst_one(ts[i], from, to))
}

/// A fresh copy of `ts` with every identifier spelled `from` replaced
/// by the identifier spelled `to`.
#[verifier::loop_isolation(false)]
pub fn subst_x(ts: &Vec<Tok>, from: &String, to: &String) -> (r: Vec<Tok>)
    ensures
        mdl(r@) == subst(mdl(ts@), from@, to@),
{
    let ghost dv = mdl(ts@);
    let mut out: Vec<Tok> = Vec::new();
    let mut i: usize = 0;
    while i < ts.len()
        invariant
            0 <= i <= ts.len(),
            out.len() == i,
            forall|j: int| 0 <= j < i ==> out@[j]@ == subst_one(dv[j], from@, to@),
        decreases ts.len() - i,
    {
        proof {
            assert(dv[i as int] == ts@[i as int]@);
        }
        let replace: bool = match &ts[i] {
            Tok::Ident(s) => *s == *from,
            _ => false,
        };
        if replace {
            out.push(Tok::Ident(to.clone()));
        } else {
            out.push(ts[i].dup());
        }
        i = i + 1;
    }
    proof {
        assert(mdl(out@) =~= subst(dv, from@, to@));
    }
    out
}

/// Spec: the placeholder name declared by one generic parameter, if it
/// qualifies: after its attributes the parameter must read
/// `const <name> : ident`, followed by nothing (or by a default).
pub open spec fn ph_name(seg: Seq<TokModel>) -> Option<Seq<char>> {
    let q = skip_outer(seg, 0);
    if 0 <= q && q + 4 <= seg.len() && is_kw(seg[q], "const"@) && is_ident(seg[q + 1]) && is_punct(
        seg[q + 2],
        ':',
    ) && is_kw(seg[q + 3], "ident"@) && (q + 4 == seg.len() || is_punct(seg[q + 4], '=')) {
        Some(ident_chars(seg[q + 1]))
    } else {
        None
    }
}

/// Spec: the parameter qualifies as the placeholder.
pub open spec fn qualifies(seg: Seq<TokModel>) -> bool {
    ph_name(seg) is Some
}

/// The placeholder name declared by one generic parameter, if it qualifies.
pub fn ph_name_x(seg: &Vec<Tok>) -> (r: Option<String>)
    ensures
        match r {
            Some(n) => ph_name(mdl(seg@)) == Some(n@),
            None => ph_name(mdl(seg@)) is None,
        },
{
    let ghost sm = mdl(seg@);
    let q = skip_outer_x(seg, 0);
    if seg.len() - q < 4 {
        return None;
    }
    proof {
        assert(sm[q as int] == seg@[q as int]@);
        assert(sm[q as int + 1] == seg@[q as int + 1]@);
        assert(sm[q as int + 2] == seg@[q as int + 2]@);
        assert(sm[q as int + 3] == seg@[q as int + 3]@);
        if q + 4 < seg.len() {
            assert(sm[q as int + 4] == seg@[q as int + 4]@);
        }
    }
    if !ts_ident_at(seg, q, "const") {
        return None;
    }
    let name: String = match &seg[q + 1] {
        Tok::Ident(s) => s.clone(),
        _ => {
            return None;
        },
    };
    if !seg[q + 2].is_punct_ch(':') {
        return None;
    }
    if !ts_ident_at(seg, q + 3, "ident") {
        return None;
    }
    if q + 4 < seg.len() && !seg[q + 4].is_punct_ch('=') {
        return None;
    }
    Some(name)
}

/// Whether the token at `k` is the identifier spelled `name`.
fn ts_ident_at(ts: &Vec<Tok>, k: usize, name: &str) -> (r: bool)
    requires
        k < ts.len(),
    ensures
        r == is_kw(mdl(ts@)[k as int], name@),
{
    proof {
        assert(mdl(ts@)[k as int] == ts@[k as int]@);
    }
    ts[k].is_ident_str(name)
}

/// Spec: index of the first qualifying parameter at or after `k`.
pub open spec fn first_qual(segs: Seq<Seq<TokModel>>, k: int) -> Option<int>
    decreases segs.len() - k,
{
    if k < 0 || k >= segs.len() {
        None
    } else if qualifies(segs[k]) {
        Some(k)
    } else {
        first_qual(segs, k + 1)
    }
}

/// `first_qual` finds the first qualifying parameter and nothing earlier.
pub proof fn lemma_first_qual(segs: Seq<Seq<TokModel>>, k: int)
    requires
        0 <= k,
    ensures
        first_qual(segs, k) matches Some(a) ==> k <= a < segs.len() && qualifies(segs[a]) && forall|
            j: int,
        | k <= j < a ==> !qualifies(segs[j]),
        first_qual(segs, k) is None ==> forall|j: int| k <= j < segs.len() ==> !qualifies(segs[j]),
    decreases segs.len() - k,
{
    if k < segs.len() {
        lemma_first_qual(segs, k + 1);
    }
}

/// Why placeholder resolution failed: either no parameter qualifies,
/// or a second one does — `second` is that parameter's index in the
/// parameter list, so the caller can anchor the diagnostic at it.
#[derive(Clone, Copy, PartialEq, Eq, Structural, Debug)]
pub enum PhFault {
    Missing,
    Duplicate { second: usize },
}

/// Spec: the resolved placeholder: the index and name of the single
/// qualifying parameter, or the fault when there is none or more than
/// one.
pub open spec fn resolve(segs: Seq<Seq<TokModel>>) -> Result<(int, Seq<char>), PhFault> {
    match first_qual(segs, 0) {
        None => Err(PhFault::Missing),
        Some(a) => match first_qual(segs, a + 1) {
            Some(dup) => Err(PhFault::Duplicate { second: dup as usize }),
            None => Ok(
                (
                    a,
                    match ph_name(segs[a]) {
                        Some(n) => n,
                        None => Seq::empty(),
                    },
                ),
            ),
        },
    }
}

/// Index of the first qualifying parameter at or after `start`.
#[verifier::loop_isolation(false)]
fn first_qual_x(segs: &Vec<Vec<Tok>>, start: usize) -> (r: Option<(usize, String)>)
    ensures
        match r {
            Some(kn) => first_qual(mdl2(segs@), start as int) == Some(kn.0 as int) && kn.0
                < segs.len() && ph_name(mdl2(segs@)[kn.0 as int]) == Some(kn.1@),
            None => first_qual(mdl2(segs@), start as int) is None,
        },
{
    let ghost sm = mdl2(segs@);
    let mut k: usize = start;
    loop
        invariant
            start <= k,
            first_qual(sm, k as int) == first_qual(sm, start as int),
        decreases segs.len() - k,
    {
        if k >= segs.len() {
            return None;
        }
        proof {
            assert(sm[k as int] == mdl(segs@[k as int]@));
        }
        match ph_name_x(&segs[k]) {
            Some(n) => {
                return Some((k, n));
            },
            None => {},
        }
        k = k + 1;
    }
}

/// Resolve the placeholder among the impl's generic parameters: the
/// index and name of the single qualifying parameter, or the fault.
pub fn resolve_x(segs: &Vec<Vec<Tok>>) -> (r: Result<(usize, String), PhFault>)
    ensures
        match r {
            Ok(kn) => resolve(mdl2(segs@)) == Ok::<(int, Seq<char>), PhFault>((kn.0 as int, kn.1@))
                && kn.0 < segs.len(),
            Err(f) => resolve(mdl2(segs@)) == Err::<(int, Seq<char>), PhFault>(f) && (f matches
            PhFault::Duplicate { second } ==> second < segs.len()),
        },
{
    match first_qual_x(segs, 0) {
        None => Err(PhFault::Missing),
        Some((a, n)) => match first_qual_x(segs, a + 1) {
            Some(dup) => Err(PhFault::Duplicate { second: dup.0 }),
            None => Ok((a, n)),
        },
    }
}

} // verus!
