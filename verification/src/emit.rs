//! Turning the rewritten impl item back into tokens.

use vstd::prelude::*;

use crate::parse::{impl_model, member_model, members_model, ImplModel, ImplParts, Member,
    MemberModel};
use crate::token::{append_range, mdl, mdl2, push_tok, Delim, Tok, TokModel};

verus! {

/// Spec: the tokens of one impl-body item: a method is its signature
/// followed by its braced body; any other item is its verbatim tokens.
pub open spec fn member_toks(m: MemberModel) -> Seq<TokModel> {
    match m {
        MemberModel::Method { sig, body } => sig + seq![TokModel::Open(Delim::Brace)] + body
            + seq![TokModel::Close(Delim::Brace)],
        MemberModel::Other { toks } => toks,
    }
}

/// Spec: the tokens of the impl-body items from `k` on, in order.
pub open spec fn members_toks(ms: Seq<MemberModel>, k: int) -> Seq<TokModel>
    decreases ms.len() - k,
{
    if k < 0 || k >= ms.len() {
        Seq::empty()
    } else {
        member_toks(ms[k]) + members_toks(ms, k + 1)
    }
}

/// Spec: the tokens of the impl-body items before `k`, in order.
pub open spec fn members_prefix(ms: Seq<MemberModel>, k: int) -> Seq<TokModel>
    decreases k,
{
    if k <= 0 || k > ms.len() {
        Seq::empty()
    } else {
        members_prefix(ms, k - 1) + member_toks(ms[k - 1])
    }
}

/// The whole member token run splits at any point into prefix and suffix.
pub proof fn lemma_members_mid(ms: Seq<MemberModel>, k: int)
    requires
        0 <= k <= ms.len(),
    ensures
        members_toks(ms, 0) == members_prefix(ms, k) + members_toks(ms, k),
    decreases k,
{
    if k == 0 {
        assert(members_prefix(ms, 0) =~= Seq::<TokModel>::empty());
        assert(members_toks(ms, 0) =~= members_prefix(ms, 0) + members_toks(ms, 0));
    } else {
        lemma_members_mid(ms, k - 1);
        assert(members_prefix(ms, k) + members_toks(ms, k) =~= members_prefix(ms, k - 1)
            + members_toks(ms, k - 1));
    }
}

/// Spec: the comma-joined generic parameters from `k` on.
pub open spec fn join_params(ps: Seq<Seq<TokModel>>, k: int) -> Seq<TokModel>
    decreases ps.len() - k,
{
    if k < 0 || k >= ps.len() {
        Seq::empty()
    } else if k + 1 == ps.len() {
        ps[k]
    } else {
        ps[k] + seq![TokModel::Punct { ch: ',', joint: false }] + join_params(ps, k + 1)
    }
}

/// Spec: the comma-joined generic parameters before `k`, each but the
/// last followed by its separating comma.
pub open spec fn params_prefix(ps: Seq<Seq<TokModel>>, k: int) -> Seq<TokModel>
    decreases k,
{
    if k <= 0 || k > ps.len() {
        Seq::empty()
    } else {
        params_prefix(ps, k - 1) + ps[k - 1] + (if k < ps.len() {
            seq![TokModel::Punct { ch: ',', joint: false }]
        } else {
            Seq::empty()
        })
    }
}

/// The whole joined parameter run splits at any point.
pub proof fn lemma_params_mid(ps: Seq<Seq<TokModel>>, k: int)
    requires
        0 <= k <= ps.len(),
    ensures
        join_params(ps, 0) == params_prefix(ps, k) + join_params(ps, k),
    decreases k,
{
    if k == 0 {
        assert(params_prefix(ps, 0) =~= Seq::<TokModel>::empty());
        assert(join_params(ps, 0) =~= params_prefix(ps, 0) + join_params(ps, 0));
    } else {
        lemma_params_mid(ps, k - 1);
        assert(params_prefix(ps, k) + join_params(ps, k) =~= params_prefix(ps, k - 1)
            + join_params(ps, k - 1));
    }
}

/// Spec: the generics list as emitted: nothing when no parameter is
/// left, otherwise the parameters joined by commas between `<` and `>`.
pub open spec fn generics_toks(ps: Seq<Seq<TokModel>>) -> Seq<TokModel> {
    if ps.len() == 0 {
        Seq::empty()
    } else {
        seq![TokModel::Punct { ch: '<', joint: false }] + join_params(ps, 0) + seq![
            TokModel::Punct { ch: '>', joint: false },
        ]
    }
}

/// Spec: the emitted impl item: head, generics, trait part, target,
/// where clause, and the braced body items.
pub open spec fn impl_toks(m: ImplModel) -> Seq<TokModel> {
    m.pre + generics_toks(m.params) + m.mid + m.target + m.tail + seq![
        TokModel::Open(Delim::Brace),
    ] + members_toks(m.members, 0) + seq![TokModel::Close(Delim::Brace)]
}

/// Append the tokens of one impl-body item.
fn append_member(out: &mut Vec<Tok>, m: &Member)
    ensures
        mdl(final(out)@) == mdl(old(out)@) + member_toks(member_model(*m)),
{
    match m {
        Member::Method { sig, body } => {
            let ns = sig.len();
            append_range(out, sig, 0, ns);
            push_tok(out, Tok::Open(Delim::Brace));
            let nb = body.len();
            append_range(out, body, 0, nb);
            push_tok(out, Tok::Close(Delim::Brace));
            proof {
                assert(mdl(sig@).subrange(0, ns as int) =~= mdl(sig@));
                assert(mdl(body@).subrange(0, nb as int) =~= mdl(body@));
                assert(mdl(out@) =~= mdl(old(out)@) + member_toks(member_model(*m)));
            }
        },
        Member::Other { toks } => {
            let nt = toks.len();
            append_range(out, toks, 0, nt);
            proof {
                assert(mdl(toks@).subrange(0, nt as int) =~= mdl(toks@));
                assert(mdl(out@) =~= mdl(old(out)@) + member_toks(member_model(*m)));
            }
        },
    }
}

/// Append the emitted generics list.
#[verifier::loop_isolation(false)]
fn append_generics(out: &mut Vec<Tok>, ps: &Vec<Vec<Tok>>)
    ensures
        mdl(final(out)@) == mdl(old(out)@) + generics_toks(mdl2(ps@)),
{
    let ghost pm = mdl2(ps@);
    if ps.len() == 0 {
        proof {
            assert(mdl(out@) =~= mdl(old(out)@) + generics_toks(pm));
        }
        return ;
    }
    push_tok(out, Tok::Punct { ch: '<', joint: false });
    let ghost head = mdl(out@);
    let mut k: usize = 0;
    proof {
        assert(head =~= mdl(old(out)@) + seq![TokModel::Punct { ch: '<', joint: false }]);
        assert(mdl(out@) =~= head + params_prefix(pm, 0));
    }
    while k < ps.len()
        invariant
            0 <= k <= ps.len(),
            ps.len() > 0,
            mdl(out@) =~= head + params_prefix(pm, k as int),
        decreases ps.len() - k,
    {
        proof {
            assert(pm[k as int] == mdl(ps@[k as int]@));
        }
        let p = &ps[k];
        let np = p.len();
        append_range(out, p, 0, np);
        if k + 1 < ps.len() {
            push_tok(out, Tok::Punct { ch: ',', joint: false });
        }
        proof {
            assert(mdl(p@).subrange(0, np as int) =~= mdl(p@));
            assert(mdl(out@) =~= head + params_prefix(pm, k + 1));
        }
        k = k + 1;
    }
    push_tok(out, Tok::Punct { ch: '>', joint: false });
    proof {
        lemma_params_mid(pm, pm.len() as int);
        assert(join_params(pm, pm.len() as int) =~= Seq::<TokModel>::empty());
        assert(params_prefix(pm, pm.len() as int) =~= join_params(pm, 0));
        assert(mdl(out@) =~= mdl(old(out)@) + generics_toks(pm));
    }
}

/// The emitted tokens of the whole (rewritten) impl item.
#[verifier::loop_isolation(false)]
pub fn emit_impl(it: &ImplParts) -> (r: Vec<Tok>)
    ensures
        mdl(r@) == impl_toks(impl_model(it)),
{
    let ghost m = impl_model(it);
    let mut out: Vec<Tok> = Vec::new();
    let npre = it.pre.len();
    append_range(&mut out, &it.pre, 0, npre);
    append_generics(&mut out, &it.params);
    let nmid = it.mid.len();
    append_range(&mut out, &it.mid, 0, nmid);
    let ntarget = it.target.len();
    append_range(&mut out, &it.target, 0, ntarget);
    let ntail = it.tail.len();
    append_range(&mut out, &it.tail, 0, ntail);
    push_tok(&mut out, Tok::Open(Delim::Brace));
    proof {
        assert(mdl(it.pre@).subrange(0, npre as int) =~= mdl(it.pre@));
        assert(mdl(it.mid@).subrange(0, nmid as int) =~= mdl(it.mid@));
        assert(mdl(it.target@).subrange(0, ntarget as int) =~= mdl(it.target@));
        assert(mdl(it.tail@).subrange(0, ntail as int) =~= mdl(it.tail@));
    }
    let ghost head = mdl(out@);
    proof {
        assert(head =~= m.pre + generics_toks(m.params) + m.mid + m.target + m.tail + seq![
            TokModel::Open(Delim::Brace),
        ]);
        assert(mdl(out@) =~= head + members_prefix(m.members, 0));
    }
    let mut k: usize = 0;
    while k < it.members.len()
        invariant
            0 <= k <= it.members.len(),
            mdl(out@) =~= head + members_prefix(m.members, k as int),
        decreases it.members.len() - k,
    {
        proof {
            assert(m.members[k as int] == member_model(it.members@[k as int]));
        }
        append_member(&mut out, &it.members[k]);
        proof {
            assert(mdl(out@) =~= head + members_prefix(m.members, k + 1));
        }
        k = k + 1;
    }
    push_tok(&mut out, Tok::Close(Delim::Brace));
    proof {
        lemma_members_mid(m.members, m.members.len() as int);
        assert(members_toks(m.members, m.members.len() as int) =~= Seq::<TokModel>::empty());
        assert(members_prefix(m.members, m.members.len() as int) =~= members_toks(m.members, 0));
        assert(mdl(out@) =~= impl_toks(m));
    }
    out
}

} // verus!
