//! End-to-end checks of the expansion pipeline on concrete token streams.

use enum_inliner::error::Fault;
use enum_inliner::expand::expand;
use enum_inliner::token::{stream_eq, Delim, Tok};

fn id(s: &str) -> Tok {
    Tok::Ident(s.to_string())
}

fn p(c: char) -> Tok {
    Tok::Punct { ch: c, joint: false }
}

fn pj(c: char) -> Tok {
    Tok::Punct { ch: c, joint: true }
}

fn lit(s: &str) -> Tok {
    Tok::Lit(s.to_string())
}

fn open(d: Delim) -> Tok {
    Tok::Open(d)
}

fn close(d: Delim) -> Tok {
    Tok::Close(d)
}

/// `#[derive(Copy, Clone)] enum Strategy { A, B, C }` as tokens.
fn strategy_enum() -> Vec<Tok> {
    vec![
        p('#'),
        open(Delim::Bracket),
        id("derive"),
        open(Delim::Paren),
        id("Copy"),
        p(','),
        id("Clone"),
        close(Delim::Paren),
        close(Delim::Bracket),
        id("enum"),
        id("Strategy"),
        open(Delim::Brace),
        id("A"),
        p(','),
        id("B"),
        p(','),
        id("C"),
        close(Delim::Brace),
    ]
}

/// `impl<const __VARIANT__: ident> Strategy { fn to_s(self) -> String { ... } }`
/// whose body reads `strategy_impl::__VARIANT__` inside a macro call.
fn strategy_impl() -> Vec<Tok> {
    let mut ts = vec![
        id("impl"),
        p('<'),
        id("const"),
        id("__VARIANT__"),
        p(':'),
        id("ident"),
        p('>'),
        id("Strategy"),
        open(Delim::Brace),
    ];
    ts.extend(to_s_sig());
    ts.push(open(Delim::Brace));
    ts.extend(to_s_body("__VARIANT__"));
    ts.push(close(Delim::Brace));
    ts.push(close(Delim::Brace));
    ts
}

/// `fn to_s(self) -> String`
fn to_s_sig() -> Vec<Tok> {
    vec![
        id("fn"),
        id("to_s"),
        open(Delim::Paren),
        id("self"),
        close(Delim::Paren),
        pj('-'),
        p('>'),
        id("String"),
    ]
}

/// `format!("{:?}", strategy_impl::<who>)`
fn to_s_body(who: &str) -> Vec<Tok> {
    vec![
        id("format"),
        p('!'),
        open(Delim::Paren),
        lit("\"{:?}\""),
        p(','),
        id("strategy_impl"),
        pj(':'),
        p(':'),
        id(who),
        close(Delim::Paren),
    ]
}

/// `Self::<v> => { <body> }`
fn arm(v: &str, body: Vec<Tok>) -> Vec<Tok> {
    let mut ts = vec![id("Self"), pj(':'), p(':'), id(v), pj('='), p('>'), open(Delim::Brace)];
    ts.extend(body);
    ts.push(close(Delim::Brace));
    ts
}

fn strategy_input() -> Vec<Tok> {
    let mut ts = strategy_enum();
    ts.extend(strategy_impl());
    ts
}

#[test]
fn scenario_strategy_expansion() {
    let out = expand(&strategy_input()).expect("expansion succeeds");

    let mut expected = strategy_enum();
    expected.extend(vec![id("impl"), id("Strategy"), open(Delim::Brace)]);
    expected.extend(to_s_sig());
    expected.push(open(Delim::Brace));
    expected.extend(vec![id("match"), id("self"), open(Delim::Brace)]);
    expected.extend(arm("A", to_s_body("A")));
    expected.extend(arm("B", to_s_body("B")));
    expected.extend(arm("C", to_s_body("C")));
    expected.push(close(Delim::Brace));
    expected.push(close(Delim::Brace));
    expected.push(close(Delim::Brace));

    assert!(stream_eq(&out, &expected));
}

#[test]
fn compiles() {
    // The same invocation the crate's users write: the generated method
    // must dispatch each variant to its sibling in `strategy_impl`.
    let out = expand(&strategy_input()).expect("expansion succeeds");
    for (variant, expected) in [("A", "A"), ("B", "B"), ("C", "C")] {
        // The arm for `variant` evaluates the template with the
        // placeholder replaced by `expected`.
        let arm_toks = arm(variant, to_s_body(expected));
        let pos = find_subsequence(&out, &arm_toks);
        assert!(pos.is_some(), "arm for {variant} not found");
    }
}

/// Position of `needle` inside `hay`, token models compared one by one.
fn find_subsequence(hay: &Vec<Tok>, needle: &Vec<Tok>) -> Option<usize> {
    if needle.len() > hay.len() {
        return None;
    }
    for s in 0..=(hay.len() - needle.len()) {
        let window: Vec<Tok> = hay[s..s + needle.len()].iter().map(dup).collect();
        let pattern: Vec<Tok> = needle.iter().map(dup).collect();
        if stream_eq(&window, &pattern) {
            return Some(s);
        }
    }
    None
}

fn dup(t: &Tok) -> Tok {
    t.dup()
}

#[test]
fn enum_item_round_trips_verbatim() {
    let input = strategy_input();
    let out = expand(&input).expect("expansion succeeds");
    let n = strategy_enum().len();
    let head: Vec<Tok> = out[..n].iter().map(dup).collect();
    assert!(stream_eq(&head, &strategy_enum()));
}

#[test]
fn methods_and_arms_counted() {
    // Two methods over three variants: each rewritten body holds three
    // arms; the impl keeps exactly two `fn` items.
    let mut input = strategy_enum();
    input.extend(vec![
        id("impl"),
        p('<'),
        id("const"),
        id("V"),
        p(':'),
        id("ident"),
        p('>'),
        id("Strategy"),
        open(Delim::Brace),
        id("fn"),
        id("first"),
        open(Delim::Paren),
        id("self"),
        close(Delim::Paren),
        open(Delim::Brace),
        id("V"),
        close(Delim::Brace),
        id("fn"),
        id("second"),
        open(Delim::Paren),
        id("self"),
        close(Delim::Paren),
        open(Delim::Brace),
        close(Delim::Brace),
        close(Delim::Brace),
    ]);
    let out = expand(&input).expect("expansion succeeds");
    let fns = out
        .iter()
        .filter(|t| matches!(t, Tok::Ident(s) if s == "fn"))
        .count();
    assert_eq!(fns, 2);
    let matches_count = out
        .iter()
        .filter(|t| matches!(t, Tok::Ident(s) if s == "match"))
        .count();
    assert_eq!(matches_count, 2);
    // Each of the two dispatches has one arm per variant: six `Self` in all.
    let selfs = out
        .iter()
        .filter(|t| matches!(t, Tok::Ident(s) if s == "Self"))
        .count();
    assert_eq!(selfs, 6);
    // A method without the placeholder still gets all three (empty) arms.
    let empty_arm: Vec<Tok> = arm("B", vec![]);
    assert!(find_subsequence(&out, &empty_arm).is_some());
}

#[test]
fn placeholder_removed_and_other_params_kept() {
    // impl<'a, const V: ident, T> Strategy { fn f(self) {} } keeps
    // `'a` and `T`, in that order, and loses the placeholder.
    let mut input = strategy_enum();
    input.extend(vec![
        id("impl"),
        p('<'),
        pj('\''),
        id("a"),
        p(','),
        id("const"),
        id("V"),
        p(':'),
        id("ident"),
        p(','),
        id("T"),
        p('>'),
        id("Strategy"),
        open(Delim::Brace),
        id("fn"),
        id("f"),
        open(Delim::Paren),
        id("self"),
        close(Delim::Paren),
        open(Delim::Brace),
        close(Delim::Brace),
        close(Delim::Brace),
    ]);
    let out = expand(&input).expect("expansion succeeds");
    let n = strategy_enum().len();
    let head: Vec<Tok> = out[n..n + 7].iter().map(dup).collect();
    let expected = vec![id("impl"), p('<'), pj('\''), id("a"), p(','), id("T"), p('>')];
    assert!(stream_eq(&head, &expected));
    assert!(!out.iter().any(|t| matches!(t, Tok::Ident(s) if s == "ident")));
    assert!(!out.iter().any(|t| matches!(t, Tok::Ident(s) if s == "V")));
}

#[test]
fn substitution_reaches_macro_arguments_only_for_placeholder() {
    let out = expand(&strategy_input()).expect("expansion succeeds");
    // No occurrence of the placeholder survives in any arm.
    assert!(!out
        .iter()
        .any(|t| matches!(t, Tok::Ident(s) if s == "__VARIANT__")));
    // The other identifiers of the body are untouched: the sibling
    // module path still appears, three times (once per arm).
    let sib = out
        .iter()
        .filter(|t| matches!(t, Tok::Ident(s) if s == "strategy_impl"))
        .count();
    assert_eq!(sib, 3);
}

#[test]
fn arms_are_independent_copies() {
    let out = expand(&strategy_input()).expect("expansion succeeds");
    // Each arm holds its own copy of the template: the three arms agree
    // everywhere except at the substituted identifier.
    let a = arm("A", to_s_body("A"));
    let b = arm("B", to_s_body("B"));
    let pa = find_subsequence(&out, &a).expect("arm A");
    let pb = find_subsequence(&out, &b).expect("arm B");
    assert_ne!(pa, pb);
    assert_eq!(a.len(), b.len());
}

#[test]
fn empty_enum_gives_empty_dispatch() {
    let mut input = vec![id("enum"), id("Never"), open(Delim::Brace), close(Delim::Brace)];
    input.extend(vec![
        id("impl"),
        p('<'),
        id("const"),
        id("V"),
        p(':'),
        id("ident"),
        p('>'),
        id("Never"),
        open(Delim::Brace),
        id("fn"),
        id("f"),
        open(Delim::Paren),
        id("self"),
        close(Delim::Paren),
        open(Delim::Brace),
        id("V"),
        close(Delim::Brace),
        close(Delim::Brace),
    ]);
    let out = expand(&input).expect("expansion succeeds");
    let empty_match = vec![id("match"), id("self"), open(Delim::Brace), close(Delim::Brace)];
    assert!(find_subsequence(&out, &empty_match).is_some());
}

#[test]
fn three_items_are_rejected() {
    let two_items = strategy_input().len();
    let mut input = strategy_input();
    input.extend(vec![id("fn"), id("extra"), open(Delim::Paren), close(Delim::Paren), open(Delim::Brace), close(Delim::Brace)]);
    match expand(&input) {
        // The diagnostic anchors at the first leftover token.
        Err(Fault::Malformed { at }) => assert_eq!(at, two_items),
        other => panic!("expected the structural fault, got {other:?}"),
    }
}

#[test]
fn mismatched_target_is_identity_error() {
    let mut input = strategy_enum();
    input.extend(vec![
        id("impl"),
        p('<'),
        id("const"),
        id("V"),
        p(':'),
        id("ident"),
        p('>'),
        id("Other"),
        open(Delim::Brace),
        close(Delim::Brace),
    ]);
    match expand(&input) {
        // The diagnostic anchors at the mismatched target identifier.
        Err(Fault::IdentityMismatch { at }) => assert_eq!(at, strategy_enum().len() + 7),
        other => panic!("expected the identity fault, got {other:?}"),
    }
}

#[test]
fn missing_placeholder_is_reported() {
    let mut input = strategy_enum();
    input.extend(vec![
        id("impl"),
        p('<'),
        id("T"),
        p('>'),
        id("Strategy"),
        open(Delim::Brace),
        close(Delim::Brace),
    ]);
    match expand(&input) {
        // The diagnostic anchors at the `impl` keyword.
        Err(Fault::MissingPlaceholder { at }) => assert_eq!(at, strategy_enum().len()),
        other => panic!("expected the missing-placeholder fault, got {other:?}"),
    }
}

#[test]
fn duplicate_placeholder_is_reported() {
    let mut input = strategy_enum();
    input.extend(vec![
        id("impl"),
        p('<'),
        id("const"),
        id("V"),
        p(':'),
        id("ident"),
        p(','),
        id("const"),
        id("W"),
        p(':'),
        id("ident"),
        p('>'),
        id("Strategy"),
        open(Delim::Brace),
        close(Delim::Brace),
    ]);
    match expand(&input) {
        // The diagnostic anchors at the second qualifying parameter.
        Err(Fault::DuplicatePlaceholder { at }) => assert_eq!(at, strategy_enum().len() + 7),
        other => panic!("expected the duplicate-placeholder fault, got {other:?}"),
    }
}

#[test]
fn fault_messages_match_the_diagnostics() {
    assert_eq!(
        Fault::Malformed { at: 0 }.text(),
        "can only have two items: enum and impl block"
    );
    assert_eq!(
        Fault::IdentityMismatch { at: 0 }.text(),
        "must be the same ident as the enum"
    );
    assert_eq!(
        Fault::MissingPlaceholder { at: 0 }.text(),
        "missing a placeholder identifier definition"
    );
    assert_eq!(
        Fault::DuplicatePlaceholder { at: 3 }.text(),
        "can only have one placeholder identifier"
    );
    assert_eq!(Fault::DuplicatePlaceholder { at: 3 }.anchor(), 3);
}

#[test]
fn trait_impl_keeps_trait_and_where_clause() {
    // impl<const V: ident, T> Render for Strategy where T: Sized { fn go(self) { V } }
    let mut input = strategy_enum();
    input.extend(vec![
        id("impl"),
        p('<'),
        id("const"),
        id("V"),
        p(':'),
        id("ident"),
        p(','),
        id("T"),
        p('>'),
        id("Render"),
        id("for"),
        id("Strategy"),
        id("where"),
        id("T"),
        p(':'),
        id("Sized"),
        open(Delim::Brace),
        id("fn"),
        id("go"),
        open(Delim::Paren),
        id("self"),
        close(Delim::Paren),
        open(Delim::Brace),
        id("V"),
        close(Delim::Brace),
        close(Delim::Brace),
    ]);
    let out = expand(&input).expect("expansion succeeds");
    let n = strategy_enum().len();
    let head: Vec<Tok> = out[n..n + 11].iter().map(dup).collect();
    let expected = vec![
        id("impl"),
        p('<'),
        id("T"),
        p('>'),
        id("Render"),
        id("for"),
        id("Strategy"),
        id("where"),
        id("T"),
        p(':'),
        id("Sized"),
    ];
    assert!(stream_eq(&head, &expected));
    // The dispatch substitutes the variants in each arm.
    assert!(find_subsequence(&out, &arm("C", vec![id("C")])).is_some());
}

#[test]
fn attributes_and_payloads_pass_through() {
    // #[derive(Copy)] enum E { A(u8), B { x: u8 } } with a derive kept
    // verbatim and variant payloads untouched.
    let enum_toks = vec![
        p('#'),
        open(Delim::Bracket),
        id("derive"),
        open(Delim::Paren),
        id("Copy"),
        close(Delim::Paren),
        close(Delim::Bracket),
        id("enum"),
        id("E"),
        open(Delim::Brace),
        id("A"),
        open(Delim::Paren),
        id("u8"),
        close(Delim::Paren),
        p(','),
        id("B"),
        open(Delim::Brace),
        id("x"),
        p(':'),
        id("u8"),
        close(Delim::Brace),
        close(Delim::Brace),
    ];
    let mut input: Vec<Tok> = enum_toks.iter().map(dup).collect();
    input.extend(vec![
        id("impl"),
        p('<'),
        id("const"),
        id("V"),
        p(':'),
        id("ident"),
        p('>'),
        id("E"),
        open(Delim::Brace),
        id("fn"),
        id("f"),
        open(Delim::Paren),
        id("self"),
        close(Delim::Paren),
        open(Delim::Brace),
        id("V"),
        close(Delim::Brace),
        close(Delim::Brace),
    ]);
    let out = expand(&input).expect("expansion succeeds");
    let head: Vec<Tok> = out[..enum_toks.len()].iter().map(dup).collect();
    assert!(stream_eq(&head, &enum_toks));
    // Both variants drive the dispatch, payloads notwithstanding.
    assert!(find_subsequence(&out, &arm("A", vec![id("A")])).is_some());
    assert!(find_subsequence(&out, &arm("B", vec![id("B")])).is_some());
}

#[test]
fn non_method_items_pass_through_unchanged() {
    // A const item in the impl body is kept verbatim and not dispatched.
    let mut input = strategy_enum();
    input.extend(vec![
        id("impl"),
        p('<'),
        id("const"),
        id("V"),
        p(':'),
        id("ident"),
        p('>'),
        id("Strategy"),
        open(Delim::Brace),
        id("const"),
        id("K"),
        p(':'),
        id("u8"),
        p('='),
        lit("3"),
        p(';'),
        id("fn"),
        id("f"),
        open(Delim::Paren),
        id("self"),
        close(Delim::Paren),
        open(Delim::Brace),
        close(Delim::Brace),
        close(Delim::Brace),
    ]);
    let out = expand(&input).expect("expansion succeeds");
    let konst = vec![id("const"), id("K"), p(':'), id("u8"), p('='), lit("3"), p(';')];
    assert!(find_subsequence(&out, &konst).is_some());
    let matches_count = out
        .iter()
        .filter(|t| matches!(t, Tok::Ident(s) if s == "match"))
        .count();
    assert_eq!(matches_count, 1);
}

#[test]
fn arrow_in_generic_bounds_does_not_end_the_header() {
    // enum E<F: Fn() -> u8> { A } — the `>` of the arrow must not be
    // taken for the generics' closing bracket.
    let enum_toks = vec![
        id("enum"),
        id("E"),
        p('<'),
        id("F"),
        p(':'),
        id("Fn"),
        open(Delim::Paren),
        close(Delim::Paren),
        pj('-'),
        p('>'),
        id("u8"),
        p('>'),
        open(Delim::Brace),
        id("A"),
        close(Delim::Brace),
    ];
    let mut input: Vec<Tok> = enum_toks.iter().map(dup).collect();
    input.extend(vec![
        id("impl"),
        p('<'),
        id("const"),
        id("V"),
        p(':'),
        id("ident"),
        p('>'),
        id("E"),
        open(Delim::Brace),
        id("fn"),
        id("f"),
        open(Delim::Paren),
        id("self"),
        close(Delim::Paren),
        open(Delim::Brace),
        id("V"),
        close(Delim::Brace),
        close(Delim::Brace),
    ]);
    let out = expand(&input).expect("expansion succeeds");
    let head: Vec<Tok> = out[..enum_toks.len()].iter().map(dup).collect();
    assert!(stream_eq(&head, &enum_toks));
    assert!(find_subsequence(&out, &arm("A", vec![id("A")])).is_some());
}

#[test]
fn discriminants_do_not_disturb_variant_extraction() {
    // enum E { A = 1, B = 2 } — names are taken, discriminants kept
    // verbatim in the emitted enum.
    let enum_toks = vec![
        id("enum"),
        id("E"),
        open(Delim::Brace),
        id("A"),
        p('='),
        lit("1"),
        p(','),
        id("B"),
        p('='),
        lit("2"),
        close(Delim::Brace),
    ];
    let mut input: Vec<Tok> = enum_toks.iter().map(dup).collect();
    input.extend(vec![
        id("impl"),
        p('<'),
        id("const"),
        id("V"),
        p(':'),
        id("ident"),
        p('>'),
        id("E"),
        open(Delim::Brace),
        id("fn"),
        id("f"),
        open(Delim::Paren),
        id("self"),
        close(Delim::Paren),
        open(Delim::Brace),
        id("V"),
        close(Delim::Brace),
        close(Delim::Brace),
    ]);
    let out = expand(&input).expect("expansion succeeds");
    let head: Vec<Tok> = out[..enum_toks.len()].iter().map(dup).collect();
    assert!(stream_eq(&head, &enum_toks));
    assert!(find_subsequence(&out, &arm("A", vec![id("A")])).is_some());
    assert!(find_subsequence(&out, &arm("B", vec![id("B")])).is_some());
}

#[test]
fn junk_before_impl_is_rejected() {
    // Stray identifiers between the enum and the impl are not walked
    // over: the stream fails structurally, as the host grammar would.
    let mut input = strategy_enum();
    input.extend(vec![
        id("junk"),
        id("impl"),
        p('<'),
        id("const"),
        id("V"),
        p(':'),
        id("ident"),
        p('>'),
        id("Strategy"),
        open(Delim::Brace),
        close(Delim::Brace),
    ]);
    match expand(&input) {
        Err(Fault::Malformed { at }) => assert_eq!(at, strategy_enum().len()),
        other => panic!("expected the structural fault, got {other:?}"),
    }
}

#[test]
fn qualifiers_and_attributes_before_impl_are_accepted() {
    // #[automatically_derived] unsafe impl<const V: ident> Strategy {}
    let mut input = strategy_enum();
    input.extend(vec![
        p('#'),
        open(Delim::Bracket),
        id("automatically_derived"),
        close(Delim::Bracket),
        id("unsafe"),
        id("impl"),
        p('<'),
        id("const"),
        id("V"),
        p(':'),
        id("ident"),
        p('>'),
        id("Strategy"),
        open(Delim::Brace),
        close(Delim::Brace),
    ]);
    let out = expand(&input).expect("expansion succeeds");
    // The attribute and qualifier come back verbatim before `impl`.
    let n = strategy_enum().len();
    let head: Vec<Tok> = out[n..n + 6].iter().map(dup).collect();
    let expected = vec![
        p('#'),
        open(Delim::Bracket),
        id("automatically_derived"),
        close(Delim::Bracket),
        id("unsafe"),
        id("impl"),
    ];
    assert!(stream_eq(&head, &expected));
}
