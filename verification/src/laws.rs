//! The library's laws: what the rewrite guarantees, proved once and
//! for all over the spec functions that the pipeline's contracts use.

use vstd::prelude::*;

use crate::error::Fault;
use crate::expand::{expand_model, target_ok};
use crate::inline::{arm_toks, arms_toks, dispatch_toks, rewrite_all};
use crate::parse::{parse_enum, parse_impl, MemberModel};
use crate::scan::{find_body, group_close, lemma_find_body_bounds, lemma_group_close_bounds};
use crate::subst::{first_qual, lemma_first_qual, ph_name, qualifies, resolve, subst, PhFault};
use crate::token::TokModel;

verus! {

/// The item is a method.
pub open spec fn is_method(m: MemberModel) -> bool {
    m is Method
}

/// A method's signature tokens (or, for any other item, its tokens).
pub open spec fn sig_of(m: MemberModel) -> Seq<TokModel> {
    match m {
        MemberModel::Method { sig, body } => sig,
        MemberModel::Other { toks } => toks,
    }
}

/// A method's body tokens (empty for any other item).
pub open spec fn body_of(m: MemberModel) -> Seq<TokModel> {
    match m {
        MemberModel::Method { sig, body } => body,
        MemberModel::Other { toks } => Seq::empty(),
    }
}

/// Law: the rewrite keeps the impl's items one for one and in order;
/// every method keeps its signature and gets the dispatch construct as
/// its body; every other item is untouched.
pub proof fn lemma_rewrite_shape(ms: Seq<MemberModel>, vs: Seq<Seq<char>>, ph: Seq<char>)
    ensures
        rewrite_all(ms, vs, ph).len() == ms.len(),
        forall|i: int|
            0 <= i < ms.len() ==> is_method(#[trigger] rewrite_all(ms, vs, ph)[i]) == is_method(
                ms[i],
            ),
        forall|i: int|
            0 <= i < ms.len() && is_method(ms[i]) ==> sig_of(
                #[trigger] rewrite_all(ms, vs, ph)[i],
            ) == sig_of(ms[i]) && body_of(rewrite_all(ms, vs, ph)[i]) == dispatch_toks(
                vs,
                ph,
                body_of(ms[i]),
            ),
        forall|i: int|
            0 <= i < ms.len() && !is_method(ms[i]) ==> #[trigger] rewrite_all(ms, vs, ph)[i]
                == ms[i],
{
}

/// Law: the dispatch's arm run is one arm per variant, in the enum's
/// declaration order; each arm is built from its own variant alone.
pub proof fn lemma_one_arm_per_variant(
    vs: Seq<Seq<char>>,
    k: int,
    ph: Seq<char>,
    body: Seq<TokModel>,
)
    requires
        0 <= k <= vs.len(),
    ensures
        arms_toks(vs, k, ph, body) == Seq::new(
            (vs.len() - k) as nat,
            |j: int| arm_toks(vs[k + j], ph, body),
        ).flatten(),
    decreases vs.len() - k,
{
    let s = Seq::new((vs.len() - k) as nat, |j: int| arm_toks(vs[k + j], ph, body));
    if k == vs.len() {
        assert(s =~= Seq::<Seq<TokModel>>::empty());
        assert(s.flatten() =~= Seq::<TokModel>::empty());
    } else {
        lemma_one_arm_per_variant(vs, k + 1, ph, body);
        let s2 = Seq::new((vs.len() - (k + 1)) as nat, |j: int| arm_toks(vs[k + 1 + j], ph, body));
        assert(s.drop_first() =~= s2);
        assert(s.first() == arm_toks(vs[k], ph, body));
        assert(s.flatten() == s.first() + s.drop_first().flatten());
    }
}

/// Law: an arm is built from its own variant, the placeholder and the
/// template alone: however the rest of the variant list changes, the
/// arm at `k` stays the same.  Together with `lemma_one_arm_per_variant`
/// this is the isolation of the arms from one another; in the
/// executable rewrite each arm also owns a fresh copy of the template.
pub proof fn lemma_arm_isolation(
    vs1: Seq<Seq<char>>,
    vs2: Seq<Seq<char>>,
    k: int,
    ph: Seq<char>,
    body: Seq<TokModel>,
)
    requires
        0 <= k < vs1.len(),
        0 <= k < vs2.len(),
        vs1[k] == vs2[k],
    ensures
        Seq::new(vs1.len(), |j: int| arm_toks(vs1[j], ph, body))[k] == Seq::new(
            vs2.len(),
            |j: int| arm_toks(vs2[j], ph, body),
        )[k],
{
}

/// Law: substitution touches exactly the identifiers spelled like the
/// placeholder and nothing else, position by position.
pub proof fn lemma_subst_exact(ts: Seq<TokModel>, from: Seq<char>, to: Seq<char>)
    ensures
        subst(ts, from, to).len() == ts.len(),
        forall|i: int|
            0 <= i < ts.len() && ts[i] == TokModel::Ident(from) ==> #[trigger] subst(
                ts,
                from,
                to,
            )[i] == TokModel::Ident(to),
        forall|i: int|
            0 <= i < ts.len() && ts[i] != TokModel::Ident(from) ==> #[trigger] subst(
                ts,
                from,
                to,
            )[i] == ts[i],
{
}

/// Law: a body without the placeholder is copied unchanged into an arm.
pub proof fn lemma_subst_absent(ts: Seq<TokModel>, from: Seq<char>, to: Seq<char>)
    requires
        forall|i: int| 0 <= i < ts.len() ==> ts[i] != TokModel::Ident(from),
    ensures
        subst(ts, from, to) == ts,
{
    assert(subst(ts, from, to) =~= ts);
}

/// Law: resolving the placeholder finds the single qualifying
/// parameter; the emitted parameter list is the input list without
/// exactly that parameter, order kept, and no qualifying parameter is
/// left in it.
pub proof fn lemma_placeholder_elimination(ps: Seq<Seq<TokModel>>, k: int, ph: Seq<char>)
    requires
        resolve(ps) == Ok::<(int, Seq<char>), PhFault>((k, ph)),
    ensures
        0 <= k < ps.len(),
        qualifies(ps[k]),
        ph_name(ps[k]) == Some(ph),
        ps.remove(k).len() == ps.len() - 1,
        forall|j: int| 0 <= j < k ==> #[trigger] ps.remove(k)[j] == ps[j],
        forall|j: int| k <= j < ps.len() - 1 ==> #[trigger] ps.remove(k)[j] == ps[j + 1],
        forall|j: int| 0 <= j < ps.remove(k).len() ==> !qualifies(#[trigger] ps.remove(k)[j]),
{
    lemma_first_qual(ps, 0);
    lemma_first_qual(ps, k + 1);
}

/// Law: the placeholder is reported missing exactly when no parameter
/// qualifies.
pub proof fn lemma_missing_placeholder(ps: Seq<Seq<TokModel>>)
    ensures
        (resolve(ps) == Err::<(int, Seq<char>), PhFault>(PhFault::Missing)) <==> (forall|j: int|
            0 <= j < ps.len() ==> !qualifies(ps[j])),
{
    lemma_first_qual(ps, 0);
    match first_qual(ps, 0) {
        Some(a) => {
            lemma_first_qual(ps, a + 1);
        },
        None => {},
    }
}

/// Law: a duplicate placeholder is reported exactly when two distinct
/// parameters qualify; the reported parameter is a qualifying one with
/// an earlier qualifying parameter before it, so the diagnostic can
/// anchor at the second offender.
pub proof fn lemma_duplicate_placeholder(ps: Seq<Seq<TokModel>>)
    requires
        ps.len() <= usize::MAX,
    ensures
        (resolve(ps) matches Err(e) && e matches PhFault::Duplicate { second }) <==> (exists|
            a: int,
            b: int,
        | 0 <= a < b < ps.len() && qualifies(ps[a]) && qualifies(ps[b])),
        resolve(ps) matches Err(e) ==> (e matches PhFault::Duplicate { second } ==> second
            < ps.len() && qualifies(ps[second as int]) && exists|a: int|
            0 <= a < second && qualifies(ps[a])),
{
    lemma_first_qual(ps, 0);
    match first_qual(ps, 0) {
        Some(a) => {
            lemma_first_qual(ps, a + 1);
            match first_qual(ps, a + 1) {
                Some(b) => {
                    assert(0 <= a < b < ps.len() && qualifies(ps[a]) && qualifies(ps[b]));
                },
                None => {
                    if exists|x: int, y: int|
                        0 <= x < y < ps.len() && qualifies(ps[x]) && qualifies(ps[y]) {
                        let (x, y) = choose|x: int, y: int|
                            0 <= x < y < ps.len() && qualifies(ps[x]) && qualifies(ps[y]);
                        assert(a <= x);
                        assert(a + 1 <= y < ps.len() && qualifies(ps[y]));
                        assert(false);
                    }
                },
            }
        },
        None => {
            if exists|x: int, y: int|
                0 <= x < y < ps.len() && qualifies(ps[x]) && qualifies(ps[y]) {
                let (x, y) = choose|x: int, y: int|
                    0 <= x < y < ps.len() && qualifies(ps[x]) && qualifies(ps[y]);
                assert(false);
            }
        },
    }
}

/// Law: when expansion succeeds, the output begins with the input's
/// enum item, token for token; the enum is emitted exactly as written.
pub proof fn lemma_enum_round_trip(ts: Seq<TokModel>, out: Seq<TokModel>)
    requires
        expand_model(ts) == Ok::<Seq<TokModel>, Fault>(out),
    ensures
        parse_enum(ts) is Some,
        parse_enum(ts) matches Some(em) ==> 0 <= em.end <= ts.len() && em.end <= out.len()
            && out.subrange(0, em.end) == ts.subrange(0, em.end),
{
    match parse_enum(ts) {
        Some(em) => {
            let q = crate::scan::skip_outer(ts, 0);
            match find_body(ts, q + 2, 0, 0, false) {
                Some(b) => {
                    lemma_find_body_bounds(ts, q + 2, 0, 0, false);
                    match group_close(ts, b + 1, 0) {
                        Some(c) => {
                            lemma_group_close_bounds(ts, b + 1, 0);
                            assert(em.toks == ts.subrange(0, c + 1));
                            assert(em.end == c + 1);
                            assert(em.toks.len() == em.end);
                            match expand_model(ts) {
                                Ok(o) => {
                                    assert(o.subrange(0, em.end) =~= em.toks);
                                    assert(em.toks =~= ts.subrange(0, em.end));
                                },
                                Err(_) => {},
                            }
                        },
                        None => {},
                    }
                },
                None => {},
            }
        },
        None => {},
    }
}


/// Law: the pipeline stops at the first failing stage and reports
/// that stage's fault, anchored at the offending token: the second
/// item's start when it is not an impl, the first leftover token, the
/// target type's first token, the `impl` keyword, or the second
/// qualifying parameter; it succeeds exactly when both items parse
/// with nothing left over, the target matches the enum, and exactly
/// one parameter qualifies as the placeholder.
pub proof fn lemma_first_failure_wins(ts: Seq<TokModel>)
    ensures
        parse_enum(ts) is None ==> expand_model(ts) == Err::<Seq<TokModel>, Fault>(
            Fault::Malformed { at: 0 },
        ),
        parse_enum(ts) matches Some(em) ==> match parse_impl(ts, em.end) {
            None => expand_model(ts) == Err::<Seq<TokModel>, Fault>(
                Fault::Malformed { at: em.end as usize },
            ),
            Some(im) => if im.end != ts.len() {
                expand_model(ts) == Err::<Seq<TokModel>, Fault>(
                    Fault::Malformed { at: im.end as usize },
                )
            } else if !target_ok(im.target, em.name) {
                expand_model(ts) == Err::<Seq<TokModel>, Fault>(
                    Fault::IdentityMismatch { at: im.target_at as usize },
                )
            } else {
                match resolve(im.params) {
                    Err(PhFault::Missing) => expand_model(ts) == Err::<Seq<TokModel>, Fault>(
                        Fault::MissingPlaceholder { at: im.impl_at as usize },
                    ),
                    Err(PhFault::Duplicate { second }) => expand_model(ts) == Err::<
                        Seq<TokModel>,
                        Fault,
                    >(Fault::DuplicatePlaceholder { at: im.params_at[second as int] as usize }),
                    Ok(kn) => expand_model(ts) is Ok,
                }
            },
        },
{
}

} // verus!
