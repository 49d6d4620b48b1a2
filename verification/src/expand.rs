//! The whole pipeline: parse the two items, validate the target,
//! resolve and remove the placeholder, rewrite every method into a
//! per-variant dispatch, and emit the enum verbatim followed by the
//! rewritten impl.

use vstd::prelude::*;

use crate::emit::{emit_impl, impl_toks};
use crate::error::Fault;
use crate::inline::{rewrite_all, rewrite_members_x};
use crate::parse::{enum_model, impl_model, parse_enum, parse_enum_x, parse_impl, parse_impl_x,
    EnumItem, ImplModel, ImplParts};
use crate::subst::{resolve, resolve_x, PhFault};
use crate::token::{append_range, copy_range, ints_of, mdl, mdl2, Tok, TokModel};

verus! {

/// Spec: the impl's target type is exactly the enum's bare identifier.
pub open spec fn target_ok(target: Seq<TokModel>, name: Seq<char>) -> bool {
    target.len() == 1 && target[0] == TokModel::Ident(name)
}

/// Spec: what the pipeline makes of an input stream: the output stream,
/// or the single fault that stopped it.  Each fault's anchor is the
/// offending token's index: the first leftover token, the target
/// type's first token, the `impl` keyword, or the second qualifying
/// parameter; an item the grammar rejects outright anchors at that
/// item's first token (index 0 for the enum, the impl item's start
/// otherwise).
pub open spec fn expand_model(ts: Seq<TokModel>) -> Result<Seq<TokModel>, Fault> {
    match parse_enum(ts) {
        None => Err(Fault::Malformed { at: 0 }),
        Some(em) => match parse_impl(ts, em.end) {
            None => Err(Fault::Malformed { at: em.end as usize }),
            Some(im) => if im.end != ts.len() {
                Err(Fault::Malformed { at: im.end as usize })
            } else if !target_ok(im.target, em.name) {
                Err(Fault::IdentityMismatch { at: im.target_at as usize })
            } else {
                match resolve(im.params) {
                    Err(PhFault::Missing) => Err(
                        Fault::MissingPlaceholder { at: im.impl_at as usize },
                    ),
                    Err(PhFault::Duplicate { second }) => Err(
                        Fault::DuplicatePlaceholder { at: im.params_at[second as int] as usize },
                    ),
                    Ok((k, ph)) => Ok(
                        em.toks + impl_toks(
                            ImplModel {
                                pre: im.pre,
                                params: im.params.remove(k),
                                mid: im.mid,
                                target: im.target,
                                tail: im.tail,
                                members: rewrite_all(im.members, em.variants, ph),
                                impl_at: im.impl_at,
                                target_at: im.target_at,
                                params_at: im.params_at,
                                end: im.end,
                            },
                        ),
                    ),
                }
            },
        },
    }
}

/// A fresh copy of `ps` without its `k`-th element.
#[verifier::loop_isolation(false)]
fn remove_param(ps: &Vec<Vec<Tok>>, k: usize) -> (r: Vec<Vec<Tok>>)
    requires
        k < ps.len(),
    ensures
        mdl2(r@) == mdl2(ps@).remove(k as int),
{
    let mut out: Vec<Vec<Tok>> = Vec::new();
    let mut i: usize = 0;
    while i < ps.len()
        invariant
            0 <= i <= ps.len(),
            k < ps.len(),
            out.len() == (if i <= k {
                i as int
            } else {
                i - 1
            }),
            forall|j: int| 0 <= j < out.len() && j < k ==> mdl(out@[j]@) == mdl(ps@[j]@),
            forall|j: int| k <= j < out.len() ==> mdl(out@[j]@) == mdl(ps@[j + 1]@),
        decreases ps.len() - i,
    {
        if i != k {
            let n = ps[i].len();
            out.push(copy_range(&ps[i], 0, n));
            proof {
                assert(mdl(ps@[i as int]@).subrange(0, n as int) =~= mdl(ps@[i as int]@));
            }
        }
        i = i + 1;
    }
    proof {
        assert(mdl2(out@) =~= mdl2(ps@).remove(k as int));
    }
    out
}

/// Run the pipeline on one invocation's input tokens: either the
/// output tokens (the enum item verbatim, then the rewritten impl), or
/// the fault that stopped the first failing stage.
pub fn expand(input: &Vec<Tok>) -> (r: Result<Vec<Tok>, Fault>)
    ensures
        match r {
            Ok(out) => expand_model(mdl(input@)) == Ok::<Seq<TokModel>, Fault>(mdl(out@)),
            Err(f) => expand_model(mdl(input@)) == Err::<Seq<TokModel>, Fault>(f),
        },
{
    let ghost dv = mdl(input@);
    let e: EnumItem = match parse_enum_x(input) {
        Ok(e) => e,
        Err(f) => {
            return Err(f);
        },
    };
    let it: ImplParts = match parse_impl_x(input, e.end) {
        Ok(it) => it,
        Err(f) => {
            return Err(f);
        },
    };
    if it.end != input.len() {
        return Err(Fault::Malformed { at: it.end });
    }
    let target_is_name: bool = if it.target.len() == 1 {
        proof {
            assert(mdl(it.target@)[0] == it.target@[0]@);
        }
        match &it.target[0] {
            Tok::Ident(s) => *s == e.name,
            _ => false,
        }
    } else {
        false
    };
    if !target_is_name {
        proof {
            assert(!target_ok(impl_model(&it).target, enum_model(&e).name));
        }
        return Err(Fault::IdentityMismatch { at: it.target_at });
    }
    let (k, ph) = match resolve_x(&it.params) {
        Ok(kn) => kn,
        Err(PhFault::Missing) => {
            return Err(Fault::MissingPlaceholder { at: it.impl_at });
        },
        Err(PhFault::Duplicate { second }) => {
            proof {
                assert(ints_of(it.params_at@)[second as int] == it.params_at@[second as int] as int);
            }
            return Err(Fault::DuplicatePlaceholder { at: it.params_at[second] });
        },
    };
    let new_params = remove_param(&it.params, k);
    let new_members = rewrite_members_x(&it.members, &e.variants, &ph);
    let rewritten = ImplParts {
        pre: it.pre,
        params: new_params,
        mid: it.mid,
        target: it.target,
        tail: it.tail,
        members: new_members,
        impl_at: it.impl_at,
        target_at: it.target_at,
        params_at: it.params_at,
        end: it.end,
    };
    let mut out = copy_range(&e.toks, 0, e.toks.len());
    let emitted = emit_impl(&rewritten);
    let ne = emitted.len();
    append_range(&mut out, &emitted, 0, ne);
    proof {
        assert(mdl(e.toks@).subrange(0, e.toks@.len() as int) =~= mdl(e.toks@));
        assert(mdl(emitted@).subrange(0, ne as int) =~= mdl(emitted@));
        assert(impl_model(&rewritten) =~= ImplModel {
            pre: impl_model(&it).pre,
            params: impl_model(&it).params.remove(k as int),
            mid: impl_model(&it).mid,
            target: impl_model(&it).target,
            tail: impl_model(&it).tail,
            members: rewrite_all(
                impl_model(&it).members,
                enum_model(&e).variants,
                ph@,
            ),
            impl_at: impl_model(&it).impl_at,
            target_at: impl_model(&it).target_at,
            params_at: impl_model(&it).params_at,
            end: impl_model(&it).end,
        });
        assert(expand_model(dv) == Ok::<Seq<TokModel>, Fault>(mdl(out@)));
    }
    Ok(out)
}

} // verus!
