use cglsys::{evolve, Expr, Grammar, Guard, MalformedGrammar, Rule, RuleSystem, Symbol, Template};

const A: usize = 0;
const B: usize = 1;
const F: usize = 2;

fn a(x: u64) -> Symbol<2> {
    Symbol { tag: A, args: [x, 0] }
}

fn b(x: u64, y: u64) -> Symbol<2> {
    Symbol { tag: B, args: [x, y] }
}

fn f() -> Symbol<2> {
    Symbol { tag: F, args: [0, 0] }
}

fn param(symbol: usize, index: usize) -> Expr {
    Expr::Param { symbol, index }
}

fn sum(x: Expr, y: Expr) -> Expr {
    Expr::Sum(Box::new(x), Box::new(y))
}

fn product(x: Expr, y: Expr) -> Expr {
    Expr::Product(Box::new(x), Box::new(y))
}

/// A(a) < A(x) > B(b, c) if a + b + c < 10 -> B(a + b, a + c) A(x + a + b + c)
fn context_rule() -> Rule<2> {
    // The window is [A(a), A(x), B(b, c)].
    let a0 = || param(0, 0);
    let x = || param(1, 0);
    let b0 = || param(2, 0);
    let c = || param(2, 1);
    Rule {
        left: vec![A],
        focus: A,
        right: vec![B],
        guard: Some(Guard::Less(sum(sum(a0(), b0()), c()), Expr::Lit(10))),
        replacement: vec![
            Template { tag: B, args: [sum(a0(), b0()), sum(a0(), c())] },
            Template { tag: A, args: [sum(sum(sum(x(), a0()), b0()), c()), Expr::Lit(0)] },
        ],
    }
}

/// B(x, y) -> A(x + y)
fn sum_rule() -> Rule<2> {
    Rule {
        left: vec![],
        focus: B,
        right: vec![],
        guard: None,
        replacement: vec![Template { tag: A, args: [sum(param(0, 0), param(0, 1)), Expr::Lit(0)] }],
    }
}

fn simple_grammar() -> Grammar<2> {
    Grammar::new(vec![context_rule(), sum_rule()]).unwrap()
}

fn evolved(start: Vec<Symbol<2>>, iterations: usize) -> Vec<Symbol<2>> {
    evolve(&RuleSystem { start, grammar: simple_grammar() }, iterations)
}

#[test]
fn zero_iterations_return_the_start_word() {
    assert_eq!(evolved(vec![f()], 0), vec![f()]);
    assert_eq!(evolved(vec![a(1), a(2), b(3, 4)], 0), vec![a(1), a(2), b(3, 4)]);
}

#[test]
fn the_empty_word_stays_empty() {
    assert_eq!(evolved(vec![], 1), vec![]);
    assert_eq!(evolved(vec![], 5), vec![]);
}

#[test]
fn a_symbol_without_a_rule_stays() {
    let grammar: Grammar<2> = Grammar::new(vec![]).unwrap();
    assert_eq!(grammar.len(), 0);
    assert_eq!(grammar.apply(&a(5), &[], &[]), vec![a(5)]);
    let system = RuleSystem { start: vec![a(5)], grammar };
    assert_eq!(evolve(&system, 1), vec![a(5)]);
    assert_eq!(evolve(&system, 3), vec![a(5)]);
}

#[test]
fn a_symbol_that_no_rule_matches_stays() {
    assert_eq!(evolved(vec![a(5)], 1), vec![a(5)]);
    assert_eq!(evolved(vec![f(), a(5), f()], 2), vec![f(), a(5), f()]);
}

#[test]
fn a_context_free_rule_rewrites() {
    assert_eq!(evolved(vec![b(3, 4)], 1), vec![a(7)]);
}

#[test]
fn a_context_rule_rewrites_between_its_contexts() {
    assert_eq!(
        evolved(vec![a(1), a(2), b(3, 4)], 1),
        vec![a(1), b(4, 5), a(10), a(7)]
    );
}

#[test]
fn the_second_generation_sees_only_the_first() {
    assert_eq!(
        evolved(vec![a(1), a(2), b(3, 4)], 2),
        vec![a(1), a(9), a(10), a(7)]
    );
}

#[test]
fn rewriting_is_simultaneous() {
    // Were B rewritten to A before its left neighbour is looked at, the
    // context rule would no longer see the B it asks for.
    let out = evolved(vec![a(1), a(1), b(1, 1)], 1);
    assert_eq!(out, vec![a(1), b(2, 2), a(4), a(2)]);
}

#[test]
fn repeated_runs_give_the_same_word() {
    let first = evolved(vec![a(1), a(2), b(3, 4), a(0), a(1), b(2, 2)], 3);
    let second = evolved(vec![a(1), a(2), b(3, 4), a(0), a(1), b(2, 2)], 3);
    assert_eq!(first, second);
}

#[test]
fn the_left_context_must_touch_the_symbol() {
    let grammar = simple_grammar();
    // A stands further left, but B stands directly before the symbol.
    assert_eq!(grammar.apply(&a(2), &[a(1), b(0, 0)], &[b(3, 4)]), vec![a(2)]);
    // With A directly before it the rule fires, whatever stands further left.
    assert_eq!(
        grammar.apply(&a(2), &[b(0, 0), f(), a(1)], &[b(3, 4)]),
        vec![b(4, 5), a(10)]
    );
    // No left context at all.
    assert_eq!(grammar.apply(&a(2), &[], &[b(3, 4)]), vec![a(2)]);
}

#[test]
fn the_right_context_must_touch_the_symbol() {
    let grammar = simple_grammar();
    assert_eq!(grammar.apply(&a(2), &[a(1)], &[f(), b(3, 4)]), vec![a(2)]);
    assert_eq!(
        grammar.apply(&a(2), &[a(1)], &[b(3, 4), f(), f()]),
        vec![b(4, 5), a(10)]
    );
    assert_eq!(grammar.apply(&a(2), &[a(1)], &[]), vec![a(2)]);
}

#[test]
fn a_guard_that_fails_leaves_the_symbol() {
    let grammar = simple_grammar();
    // 1 + 3 + 6 = 10 is not less than 10.
    assert_eq!(grammar.apply(&a(2), &[a(1)], &[b(3, 6)]), vec![a(2)]);
    // 1 + 3 + 5 = 9 is.
    assert_eq!(grammar.apply(&a(2), &[a(1)], &[b(3, 5)]), vec![b(4, 6), a(11)]);
}

#[test]
fn the_first_rule_that_fires_wins() {
    let to = |tag: usize, value: u64| Rule::<1> {
        left: vec![],
        focus: A,
        right: vec![],
        guard: None,
        replacement: vec![Template { tag, args: [Expr::Lit(value)] }],
    };
    let guarded = Rule::<1> {
        left: vec![],
        focus: A,
        right: vec![],
        guard: Some(Guard::Less(param(0, 0), Expr::Lit(5))),
        replacement: vec![Template { tag: F, args: [Expr::Lit(1)] }],
    };
    let grammar = Grammar::new(vec![guarded, to(B, 2), to(B, 3)]).unwrap();
    let small = Symbol::<1> { tag: A, args: [4] };
    let large = Symbol::<1> { tag: A, args: [5] };
    assert_eq!(grammar.apply(&small, &[], &[]), vec![Symbol { tag: F, args: [1] }]);
    assert_eq!(grammar.apply(&large, &[], &[]), vec![Symbol { tag: B, args: [2] }]);
}

#[test]
fn a_rule_may_erase_a_symbol() {
    let erase = Rule::<1> { left: vec![], focus: A, right: vec![], guard: None, replacement: vec![] };
    let system = RuleSystem {
        start: vec![
            Symbol { tag: A, args: [1] },
            Symbol { tag: B, args: [2] },
            Symbol { tag: A, args: [3] },
        ],
        grammar: Grammar::new(vec![erase]).unwrap(),
    };
    assert_eq!(evolve(&system, 1), vec![Symbol { tag: B, args: [2] }]);
}

#[test]
fn sums_and_products_wrap_around() {
    let rule = Rule::<2> {
        left: vec![],
        focus: B,
        right: vec![],
        guard: None,
        replacement: vec![Template {
            tag: A,
            args: [sum(param(0, 0), param(0, 1)), product(param(0, 0), param(0, 1))],
        }],
    };
    let grammar = Grammar::new(vec![rule]).unwrap();
    assert_eq!(
        grammar.apply(&b(3, 4), &[], &[]),
        vec![Symbol { tag: A, args: [7, 12] }]
    );
    assert_eq!(
        grammar.apply(&b(u64::MAX, 2), &[], &[]),
        vec![Symbol { tag: A, args: [1, u64::MAX - 1] }]
    );
}

#[test]
fn guards_combine() {
    let erased = |guard: Guard, x: u64, y: u64| {
        let rule = Rule::<2> {
            left: vec![],
            focus: B,
            right: vec![],
            guard: Some(guard),
            replacement: vec![],
        };
        Grammar::new(vec![rule]).unwrap().apply(&b(x, y), &[], &[]).is_empty()
    };
    let x = || param(0, 0);
    let y = || param(0, 1);
    assert!(erased(Guard::Less(x(), y()), 1, 2));
    assert!(!erased(Guard::Less(x(), y()), 2, 2));
    assert!(erased(Guard::Equal(x(), y()), 2, 2));
    assert!(!erased(Guard::Equal(x(), y()), 2, 3));
    assert!(erased(Guard::Not(Box::new(Guard::Less(x(), y()))), 2, 2));
    assert!(!erased(Guard::Not(Box::new(Guard::Less(x(), y()))), 1, 2));
    let both = || {
        Guard::Both(
            Box::new(Guard::Less(x(), Expr::Lit(5))),
            Box::new(Guard::Less(y(), Expr::Lit(5))),
        )
    };
    assert!(erased(both(), 4, 4));
    assert!(!erased(both(), 4, 5));
    assert!(!erased(both(), 5, 4));
    let either = || {
        Guard::Either(
            Box::new(Guard::Less(x(), Expr::Lit(5))),
            Box::new(Guard::Less(y(), Expr::Lit(5))),
        )
    };
    assert!(erased(either(), 4, 9));
    assert!(erased(either(), 9, 4));
    assert!(!erased(either(), 9, 9));
}

#[test]
fn a_parameter_of_an_unmatched_symbol_is_refused() {
    // The rule looks at one symbol, and its replacement names a second.
    let bad = Rule::<2> {
        left: vec![],
        focus: B,
        right: vec![],
        guard: None,
        replacement: vec![Template { tag: A, args: [param(1, 0), Expr::Lit(0)] }],
    };
    let made = Grammar::new(vec![sum_rule(), bad, sum_rule()]);
    assert_eq!(made.err(), Some(MalformedGrammar { rule: 1 }));
}

#[test]
fn a_parameter_beyond_the_arity_is_refused() {
    let bad = Rule::<2> {
        left: vec![],
        focus: B,
        right: vec![],
        guard: Some(Guard::Equal(param(0, 2), Expr::Lit(0))),
        replacement: vec![],
    };
    assert_eq!(Grammar::new(vec![bad]).err(), Some(MalformedGrammar { rule: 0 }));
}

#[test]
fn the_first_malformed_rule_is_named() {
    let bad = |symbol: usize| Rule::<2> {
        left: vec![A],
        focus: B,
        right: vec![],
        guard: None,
        replacement: vec![Template { tag: A, args: [param(symbol, 0), Expr::Lit(0)] }],
    };
    // With one symbol of left context the window holds two symbols.
    assert!(Grammar::new(vec![bad(0), bad(1)]).is_ok());
    assert_eq!(
        Grammar::new(vec![bad(1), bad(2), bad(3)]).err(),
        Some(MalformedGrammar { rule: 1 })
    );
}

#[test]
fn a_rule_system_draws_nothing() {
    let system = RuleSystem { start: vec![b(3, 4), f()], grammar: simple_grammar() };
    let tree = cglsys::construct_tree(system, (), 2, |_| cglsys::Stateless);
    assert_eq!(tree.len(), 1);
    assert!(tree.edges().next().is_none());
}
