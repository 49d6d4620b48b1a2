//! The flat token model that the whole pipeline works on.
//!
//! A token stream is a `Vec<Tok>`; a bracketed group appears as an
//! `Open(d)` token, the group's contents, and a matching `Close(d)`.
//! The mathematical model of a token is `TokModel`, with `Seq<char>`
//! in place of `String`; a stream's model is the `Seq<TokModel>` given
//! by `mdl`.

use vstd::prelude::*;

verus! {

/// Delimiter of a bracketed token group.
#[derive(Clone, Copy, PartialEq, Eq, Structural, Debug)]
pub enum Delim {
    Brace,
    Paren,
    Bracket,
    Invisible,
}

/// One token of the flat stream.
#[derive(Debug)]
pub enum Tok {
    /// An identifier or keyword.
    Ident(String),
    /// A punctuation character; `joint` means it is glued to the next one.
    Punct { ch: char, joint: bool },
    /// A literal, kept as its verbatim spelling.
    Lit(String),
    /// Start of a group.
    Open(Delim),
    /// End of a group.
    Close(Delim),
}

/// Mathematical model of one token.
#[verifier::ext_equal]
pub enum TokModel {
    Ident(Seq<char>),
    Punct { ch: char, joint: bool },
    Lit(Seq<char>),
    Open(Delim),
    Close(Delim),
}

impl View for Tok {
    type V = TokModel;

    open spec fn view(&self) -> TokModel {
        match self {
            Tok::Ident(s) => TokModel::Ident(s@),
            Tok::Punct { ch, joint } => TokModel::Punct { ch: *ch, joint: *joint },
            Tok::Lit(s) => TokModel::Lit(s@),
            Tok::Open(d) => TokModel::Open(*d),
            Tok::Close(d) => TokModel::Close(*d),
        }
    }
}

/// Model of a token stream.
pub open spec fn mdl(ts: Seq<Tok>) -> Seq<TokModel> {
    Seq::new(ts.len(), |i: int| ts[i]@)
}

/// Model of a sequence of token streams.
pub open spec fn mdl2(ps: Seq<Vec<Tok>>) -> Seq<Seq<TokModel>> {
    Seq::new(ps.len(), |i: int| mdl(ps[i]@))
}

/// Model of a sequence of identifier spellings.
pub open spec fn chars_of(vs: Seq<String>) -> Seq<Seq<char>> {
    Seq::new(vs.len(), |i: int| vs[i]@)
}

/// The token is the identifier spelled `s`.
pub open spec fn is_kw(t: TokModel, s: Seq<char>) -> bool {
    t == TokModel::Ident(s)
}

/// The token is any identifier.
pub open spec fn is_ident(t: TokModel) -> bool {
    t is Ident
}

/// The token is the punctuation character `c` (joint or not).
pub open spec fn is_punct(t: TokModel, c: char) -> bool {
    match t {
        TokModel::Punct { ch, joint } => ch == c,
        _ => false,
    }
}

/// The token is the punctuation character `c`, glued to the next token.
pub open spec fn is_joint_punct(t: TokModel, c: char) -> bool {
    match t {
        TokModel::Punct { ch, joint } => ch == c && joint,
        _ => false,
    }
}

/// The token opens a group.
pub open spec fn is_open(t: TokModel) -> bool {
    t is Open
}

/// The token closes a group.
pub open spec fn is_close(t: TokModel) -> bool {
    t is Close
}

impl Tok {
    /// A fresh token equal (in the model) to this one.
    pub fn dup(&self) -> (r: Tok)
        ensures
            r@ == self@,
    {
        match self {
            Tok::Ident(s) => Tok::Ident(s.clone()),
            Tok::Punct { ch, joint } => Tok::Punct { ch: *ch, joint: *joint },
            Tok::Lit(s) => Tok::Lit(s.clone()),
            Tok::Open(d) => Tok::Open(*d),
            Tok::Close(d) => Tok::Close(*d),
        }
    }

    /// Whether this token is the identifier spelled `name`.
    pub fn is_ident_str(&self, name: &str) -> (r: bool)
        ensures
            r == is_kw(self@, name@),
    {
        match self {
            Tok::Ident(s) => str_eq(s, name),
            _ => false,
        }
    }

    /// Whether this token is the punctuation character `c`.
    pub fn is_punct_ch(&self, c: char) -> (r: bool)
        ensures
            r == is_punct(self@, c),
    {
        match self {
            Tok::Punct { ch, joint } => *ch == c,
            _ => false,
        }
    }

    /// Whether this token is the punctuation character `c`, glued on.
    pub fn is_joint_punct_ch(&self, c: char) -> (r: bool)
        ensures
            r == is_joint_punct(self@, c),
    {
        match self {
            Tok::Punct { ch, joint } => *ch == c && *joint,
            _ => false,
        }
    }
}

/// Whether a `String` spells the same characters as a `&str`.
pub fn str_eq(s: &String, lit: &str) -> (r: bool)
    ensures
        r == (s@ == lit@),
{
    let other: String = String::from_str(lit);
    *s == other
}

/// A fresh copy of the tokens `ts[lo..hi]`.
pub fn copy_range(ts: &Vec<Tok>, lo: usize, hi: usize) -> (r: Vec<Tok>)
    requires
        lo <= hi <= ts.len(),
    ensures
        mdl(r@) == mdl(ts@).subrange(lo as int, hi as int),
{
    let mut out: Vec<Tok> = Vec::new();
    let mut i: usize = lo;
    while i < hi
        invariant
            lo <= i <= hi <= ts.len(),
            out.len() == i - lo,
            forall|j: int| 0 <= j < out@.len() ==> out@[j]@ == ts@[lo + j]@,
        decreases hi - i,
    {
        out.push(ts[i].dup());
        i = i + 1;
    }
    proof {
        assert(mdl(out@) =~= mdl(ts@).subrange(lo as int, hi as int));
    }
    out
}

/// Append a fresh copy of the tokens `ts[lo..hi]` to `out`.
pub fn append_range(out: &mut Vec<Tok>, ts: &Vec<Tok>, lo: usize, hi: usize)
    requires
        lo <= hi <= ts.len(),
    ensures
        mdl(final(out)@) == mdl(old(out)@) + mdl(ts@).subrange(lo as int, hi as int),
{
    let ghost base: Seq<Tok> = out@;
    let mut i: usize = lo;
    while i < hi
        invariant
            lo <= i <= hi <= ts.len(),
            out@.len() == base.len() + i - lo,
            forall|j: int| 0 <= j < base.len() ==> out@[j]@ == base[j]@,
            forall|j: int| base.len() <= j < out@.len() ==> out@[j]@ == ts@[lo + j - base.len()]@,
        decreases hi - i,
    {
        out.push(ts[i].dup());
        i = i + 1;
    }
    proof {
        assert(mdl(out@) =~= mdl(base) + mdl(ts@).subrange(lo as int, hi as int));
    }
}

/// Append one token to `out`.
pub fn push_tok(out: &mut Vec<Tok>, t: Tok)
    ensures
        mdl(final(out)@) == mdl(old(out)@).push(t@),
{
    out.push(t);
    proof {
        assert(mdl(out@) =~= mdl(old(out)@).push(t@));
    }
}

/// Whether two streams have equal models, token for token.
pub fn stream_eq(a: &Vec<Tok>, b: &Vec<Tok>) -> (r: bool)
    ensures
        r == (mdl(a@) == mdl(b@)),
{
    if a.len() != b.len() {
        proof {
            assert(mdl(a@).len() != mdl(b@).len());
        }
        return false;
    }
    let mut i: usize = 0;
    while i < a.len()
        invariant
            a.len() == b.len(),
            0 <= i <= a.len(),
            forall|j: int| 0 <= j < i ==> a@[j]@ == b@[j]@,
        decreases a.len() - i,
    {
        if !tok_eq(&a[i], &b[i]) {
            proof {
                assert(mdl(a@)[i as int] != mdl(b@)[i as int]);
            }
            return false;
        }
        i = i + 1;
    }
    proof {
        assert(mdl(a@) =~= mdl(b@));
    }
    true
}

/// Whether two tokens have equal models.
pub fn tok_eq(a: &Tok, b: &Tok) -> (r: bool)
    ensures
        r == (a@ == b@),
{
    match (a, b) {
        (Tok::Ident(x), Tok::Ident(y)) => *x == *y,
        (Tok::Punct { ch: xc, joint: xj }, Tok::Punct { ch: yc, joint: yj }) => *xc == *yc && *xj
            == *yj,
        (Tok::Lit(x), Tok::Lit(y)) => *x == *y,
        (Tok::Open(x), Tok::Open(y)) => *x == *y,
        (Tok::Close(x), Tok::Close(y)) => *x == *y,
        _ => false,
    }
}

/// The indexes of a sequence of machine integers, as mathematical ints.
pub open spec fn ints_of(s: Seq<usize>) -> Seq<int> {
    Seq::new(s.len(), |i: int| s[i] as int)
}

} // verus!
