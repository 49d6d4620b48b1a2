//! Building the dispatch construct that replaces every method body.

use vstd::prelude::*;

use crate::parse::{Member, MemberModel, member_model, members_model};
use crate::subst::{subst, subst_x};
use crate::token::{chars_of, copy_range, mdl, push_tok, Delim, Tok, TokModel};

verus! {

/// Spec: the tokens of one dispatch arm for variant `v`:
/// `Self::<v> => { <body with ph replaced by v> }`.
pub open spec fn arm_toks(v: Seq<char>, ph: Seq<char>, body: Seq<TokModel>) -> Seq<TokModel> {
    seq![
        TokModel::Ident("Self"@),
        TokModel::Punct { ch: ':', joint: true },
        TokModel::Punct { ch: ':', joint: false },
        TokModel::Ident(v),
        TokModel::Punct { ch: '=', joint: true },
        TokModel::Punct { ch: '>', joint: false },
        TokModel::Open(Delim::Brace),
    ] + subst(body, ph, v) + seq![TokModel::Close(Delim::Brace)]
}

/// Spec: the arms for the variants from `k` on, in variant order.
pub open spec fn arms_toks(
    vs: Seq<Seq<char>>,
    k: int,
    ph: Seq<char>,
    body: Seq<TokModel>,
) -> Seq<TokModel>
    decreases vs.len() - k,
{
    if k < 0 || k >= vs.len() {
        Seq::empty()
    } else {
        arm_toks(vs[k], ph, body) + arms_toks(vs, k + 1, ph, body)
    }
}

/// Spec: the tokens that replace a method body's contents:
/// `match self { <one arm per variant> }`.
pub open spec fn dispatch_toks(
    vs: Seq<Seq<char>>,
    ph: Seq<char>,
    body: Seq<TokModel>,
) -> Seq<TokModel> {
    seq![TokModel::Ident("match"@), TokModel::Ident("self"@), TokModel::Open(Delim::Brace)]
        + arms_toks(vs, 0, ph, body) + seq![TokModel::Close(Delim::Brace)]
}

/// Spec: one impl-body item after the rewrite: a method's body becomes
/// the dispatch construct; anything else is kept verbatim.
pub open spec fn rewrite_member(m: MemberModel, vs: Seq<Seq<char>>, ph: Seq<char>) -> MemberModel {
    match m {
        MemberModel::Method { sig, body } => MemberModel::Method {
            sig,
            body: dispatch_toks(vs, ph, body),
        },
        MemberModel::Other { toks } => MemberModel::Other { toks },
    }
}

/// Spec: all impl-body items after the rewrite, in order.
pub open spec fn rewrite_all(
    ms: Seq<MemberModel>,
    vs: Seq<Seq<char>>,
    ph: Seq<char>,
) -> Seq<MemberModel> {
    Seq::new(ms.len(), |i: int| rewrite_member(ms[i], vs, ph))
}

/// The tokens of one dispatch arm for variant `v`.
fn arm_x(v: &String, ph: &String, body: &Vec<Tok>) -> (r: Vec<Tok>)
    ensures
        mdl(r@) == arm_toks(v@, ph@, mdl(body@)),
{
    let mut out: Vec<Tok> = Vec::new();
    push_tok(&mut out, Tok::Ident(String::from_str("Self")));
    push_tok(&mut out, Tok::Punct { ch: ':', joint: true });
    push_tok(&mut out, Tok::Punct { ch: ':', joint: false });
    push_tok(&mut out, Tok::Ident(v.clone()));
    push_tok(&mut out, Tok::Punct { ch: '=', joint: true });
    push_tok(&mut out, Tok::Punct { ch: '>', joint: false });
    push_tok(&mut out, Tok::Open(Delim::Brace));
    let replaced = subst_x(body, ph, v);
    let n = replaced.len();
    crate::token::append_range(&mut out, &replaced, 0, n);
    push_tok(&mut out, Tok::Close(Delim::Brace));
    proof {
        assert(mdl(replaced@).subrange(0, n as int) =~= subst(mdl(body@), ph@, v@));
        assert(mdl(out@) =~= arm_toks(v@, ph@, mdl(body@)));
    }
    out
}

/// The tokens that replace a method body's contents: one arm per
/// variant, in variant order.
#[verifier::loop_isolation(false)]
pub fn dispatch_x(vs: &Vec<String>, ph: &String, body: &Vec<Tok>) -> (r: Vec<Tok>)
    ensures
        mdl(r@) == dispatch_toks(chars_of(vs@), ph@, mdl(body@)),
{
    let ghost vm = chars_of(vs@);
    let ghost bm = mdl(body@);
    let mut out: Vec<Tok> = Vec::new();
    push_tok(&mut out, Tok::Ident(String::from_str("match")));
    push_tok(&mut out, Tok::Ident(String::from_str("self")));
    push_tok(&mut out, Tok::Open(Delim::Brace));
    let ghost head = mdl(out@);
    let mut k: usize = 0;
    proof {
        assert(head =~= seq![
            TokModel::Ident("match"@),
            TokModel::Ident("self"@),
            TokModel::Open(Delim::Brace),
        ]);
    }
    proof {
        assert(mdl(out@) =~= head + arms_prefix(vm, 0, ph@, bm));
    }
    while k < vs.len()
        invariant
            0 <= k <= vs.len(),
            mdl(out@) =~= head + arms_prefix(vm, k as int, ph@, bm),
        decreases vs.len() - k,
    {
        proof {
            assert(vm[k as int] == vs@[k as int]@);
        }
        let arm = arm_x(&vs[k], ph, body);
        let ghost pre = mdl(out@);
        let n = arm.len();
        crate::token::append_range(&mut out, &arm, 0, n);
        proof {
            assert(mdl(arm@).subrange(0, n as int) =~= mdl(arm@));
            assert(arms_prefix(vm, k + 1, ph@, bm) =~= arms_prefix(vm, k as int, ph@, bm)
                + arm_toks(vm[k as int], ph@, bm)) by {
                lemma_arms_prefix_snoc(vm, k as int, ph@, bm);
            }
            assert(mdl(out@) =~= head + arms_prefix(vm, k + 1, ph@, bm));
        }
        k = k + 1;
    }
    push_tok(&mut out, Tok::Close(Delim::Brace));
    proof {
        lemma_arms_prefix_all(vm, ph@, bm);
        assert(mdl(out@) =~= dispatch_toks(vm, ph@, bm));
    }
    out
}

/// Spec: the arms for the variants before `k`, in variant order.
pub open spec fn arms_prefix(
    vs: Seq<Seq<char>>,
    k: int,
    ph: Seq<char>,
    body: Seq<TokModel>,
) -> Seq<TokModel>
    decreases k,
{
    if k <= 0 || k > vs.len() {
        Seq::empty()
    } else {
        arms_prefix(vs, k - 1, ph, body) + arm_toks(vs[k - 1], ph, body)
    }
}

/// Extending an arm prefix by one more variant appends that arm.
pub proof fn lemma_arms_prefix_snoc(vs: Seq<Seq<char>>, k: int, ph: Seq<char>, body: Seq<TokModel>)
    requires
        0 <= k < vs.len(),
    ensures
        arms_prefix(vs, k + 1, ph, body) == arms_prefix(vs, k, ph, body) + arm_toks(
            vs[k],
            ph,
            body,
        ),
{
}

/// The full arm prefix equals the arms built from the front.
pub proof fn lemma_arms_prefix_all(vs: Seq<Seq<char>>, ph: Seq<char>, body: Seq<TokModel>)
    ensures
        arms_prefix(vs, vs.len() as int, ph, body) == arms_toks(vs, 0, ph, body),
{
    lemma_arms_mid(vs, vs.len() as int, ph, body);
    assert(arms_toks(vs, vs.len() as int, ph, body) =~= Seq::<TokModel>::empty());
    assert(arms_prefix(vs, vs.len() as int, ph, body) + arms_toks(vs, vs.len() as int, ph, body)
        =~= arms_prefix(vs, vs.len() as int, ph, body));
}

/// The whole arm list splits at any point into prefix and suffix.
pub proof fn lemma_arms_mid(vs: Seq<Seq<char>>, k: int, ph: Seq<char>, body: Seq<TokModel>)
    requires
        0 <= k <= vs.len(),
    ensures
        arms_toks(vs, 0, ph, body) == arms_prefix(vs, k, ph, body) + arms_toks(vs, k, ph, body),
    decreases k,
{
    if k == 0 {
        assert(arms_prefix(vs, 0, ph, body) =~= Seq::<TokModel>::empty());
        assert(arms_toks(vs, 0, ph, body) =~= arms_prefix(vs, 0, ph, body) + arms_toks(
            vs,
            0,
            ph,
            body,
        ));
    } else {
        lemma_arms_mid(vs, k - 1, ph, body);
        assert(arms_toks(vs, k - 1, ph, body) == arm_toks(vs[k - 1], ph, body) + arms_toks(
            vs,
            k,
            ph,
            body,
        ));
        assert(arms_prefix(vs, k, ph, body) + arms_toks(vs, k, ph, body) =~= arms_prefix(
            vs,
            k - 1,
            ph,
            body,
        ) + arms_toks(vs, k - 1, ph, body));
    }
}

/// All impl-body items after the rewrite: every method's body becomes
/// the dispatch construct over `vs`; other items are copied verbatim.
#[verifier::loop_isolation(false)]
pub fn rewrite_members_x(ms: &Vec<Member>, vs: &Vec<String>, ph: &String) -> (r: Vec<Member>)
    ensures
        members_model(r@) == rewrite_all(members_model(ms@), chars_of(vs@), ph@),
{
    let ghost mm = members_model(ms@);
    let ghost vm = chars_of(vs@);
    let mut out: Vec<Member> = Vec::new();
    let mut i: usize = 0;
    while i < ms.len()
        invariant
            0 <= i <= ms.len(),
            out.len() == i,
            forall|j: int| 0 <= j < i ==> member_model(out@[j]) == rewrite_member(mm[j], vm, ph@),
        decreases ms.len() - i,
    {
        proof {
            assert(mm[i as int] == member_model(ms@[i as int]));
        }
        let rewritten: Member = match &ms[i] {
            Member::Method { sig, body } => {
                let n = sig.len();
                Member::Method { sig: copy_range(sig, 0, n), body: dispatch_x(vs, ph, body) }
            },
            Member::Other { toks } => {
                let n = toks.len();
                Member::Other { toks: copy_range(toks, 0, n) }
            },
        };
        let ghost rm = member_model(rewritten);
        out.push(rewritten);
        proof {
            assert(member_model(out@[i as int]) == rm);
            assert(rm =~= rewrite_member(mm[i as int], vm, ph@));
        }
        i = i + 1;
    }
    proof {
        assert(members_model(out@) =~= rewrite_all(mm, vm, ph@));
    }
    out
}

} // verus!
