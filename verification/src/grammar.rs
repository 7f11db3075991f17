//! Production rules as data: an ordered table of context-sensitive rules over
//! tagged symbols with a fixed number of numeric parameters.
//!
//! A rule names the tag it rewrites, the tags that must stand directly before
//! and directly after the symbol, an optional guard over the parameters of
//! the symbols it matched, and the symbols that take its place. Rules are
//! tried in the order of the table and the first that fires wins. A symbol
//! for which none fires stays as it is.

use crate::lsys::{Context, D2LSystem};
use vstd::prelude::*;
use vstd::slice::slice_subrange;

verus! {

/// A symbol of the alphabet: a tag and `N` numeric parameters.
#[derive(Debug, Clone, Copy, PartialEq, Eq)]
pub struct Symbol<const N: usize> {
    pub tag: usize,
    pub args: [u64; N],
}

/// The array that holds the `N` numbers of `values`.
pub open spec fn array_of<const N: usize>(values: Seq<u64>) -> [u64; N] {
    choose|array: [u64; N]| array@ == values
}

/// For every `N` numbers there is an array that holds the first `filled` of them.
proof fn array_exists<const N: usize>(values: Seq<u64>, filled: nat) -> (array: [u64; N])
    requires
        values.len() == N,
        filled <= N,
    ensures
        forall|i: int| 0 <= i < filled ==> array@[i] == values[i],
    decreases filled,
{
    broadcast use vstd::array::group_array_axioms;

    if filled == 0 {
        vstd::array::spec_array_fill_for_copy_type::<u64, N>(0)
    } else {
        let rest = array_exists::<N>(values, (filled - 1) as nat);
        vstd::array::spec_array_update(rest, filled - 1, values[filled - 1])
    }
}

/// `array_of` holds what it was given, and no other array does.
pub proof fn array_of_holds<const N: usize>(values: Seq<u64>)
    requires
        values.len() == N,
    ensures
        array_of::<N>(values)@ == values,
        forall|array: [u64; N]| array@ == values ==> array == array_of::<N>(values),
{
    broadcast use vstd::array::group_array_axioms;

    let witness = array_exists::<N>(values, N as nat);
    assert(witness@ =~= values);
}

/// The symbols that a rule looks at when it is tried on a symbol: the
/// nearest symbols before it, the symbol itself, and the nearest after it.
pub struct Window<'a, const N: usize> {
    pub before: &'a [Symbol<N>],
    pub atom: &'a Symbol<N>,
    pub after: &'a [Symbol<N>],
}

impl<'a, const N: usize> View for Window<'a, N> {
    type V = Seq<Symbol<N>>;

    open spec fn view(&self) -> Seq<Symbol<N>> {
        self.before@ + seq![*self.atom] + self.after@
    }
}

impl<'a, const N: usize> Window<'a, N> {
    /// Parameter `index` of the `symbol`-th symbol of the window.
    pub fn param(&self, symbol: usize, index: usize) -> (value: u64)
        requires
            symbol < self@.len(),
            index < N,
        ensures
            value == self@[symbol as int].args@[index as int],
    {
        let before = self.before.len();
        if symbol < before {
            self.before[symbol].args[index]
        } else if symbol == before {
            self.atom.args[index]
        } else {
            self.after[symbol - before - 1].args[index]
        }
    }
}

/// A number computed from the parameters of the symbols that a rule matched.
/// Sums and products are taken modulo 2^64.
#[derive(Debug, PartialEq, Eq)]
pub enum Expr {
    /// A constant.
    Lit(u64),
    /// Parameter `index` of the `symbol`-th symbol of the window, counted
    /// from the leftmost symbol of the left context.
    Param { symbol: usize, index: usize },
    Sum(Box<Expr>, Box<Expr>),
    Product(Box<Expr>, Box<Expr>),
}

impl Expr {
    /// Whether every parameter that the expression names exists in a window
    /// of `symbols` symbols with `arity` parameters each.
    pub open spec fn bound(&self, symbols: nat, arity: nat) -> bool
        decreases self,
    {
        match self {
            Expr::Lit(_) => true,
            Expr::Param { symbol, index } => *symbol < symbols && *index < arity,
            Expr::Sum(a, b) => a.bound(symbols, arity) && b.bound(symbols, arity),
            Expr::Product(a, b) => a.bound(symbols, arity) && b.bound(symbols, arity),
        }
    }

    /// The value of the expression over `window`.
    pub open spec fn value<const N: usize>(&self, window: Seq<Symbol<N>>) -> u64
        decreases self,
    {
        match self {
            Expr::Lit(v) => *v,
            Expr::Param { symbol, index } => window[*symbol as int].args@[*index as int],
            Expr::Sum(a, b) => a.value(window).wrapping_add(b.value(window)),
            Expr::Product(a, b) => a.value(window).wrapping_mul(b.value(window)),
        }
    }

    /// Tells whether the expression is bound in a window of `symbols` symbols.
    pub fn is_bound(&self, symbols: usize, arity: usize) -> (ok: bool)
        ensures
            ok == self.bound(symbols as nat, arity as nat),
        decreases self,
    {
        match self {
            Expr::Lit(_) => true,
            Expr::Param { symbol, index } => *symbol < symbols && *index < arity,
            Expr::Sum(a, b) => a.is_bound(symbols, arity) && b.is_bound(symbols, arity),
            Expr::Product(a, b) => a.is_bound(symbols, arity) && b.is_bound(symbols, arity),
        }
    }

    /// Computes the value of the expression over `window`.
    pub fn eval<const N: usize>(&self, window: &Window<'_, N>) -> (value: u64)
        requires
            self.bound(window@.len(), N as nat),
        ensures
            value == self.value(window@),
        decreases self,
    {
        match self {
            Expr::Lit(v) => *v,
            Expr::Param { symbol, index } => window.param(*symbol, *index),
            Expr::Sum(a, b) => a.eval(window).wrapping_add(b.eval(window)),
            Expr::Product(a, b) => a.eval(window).wrapping_mul(b.eval(window)),
        }
    }
}

/// A condition on the parameters of the symbols that a rule matched.
#[derive(Debug, PartialEq, Eq)]
pub enum Guard {
    Less(Expr, Expr),
    Equal(Expr, Expr),
    Not(Box<Guard>),
    Both(Box<Guard>, Box<Guard>),
    Either(Box<Guard>, Box<Guard>),
}

impl Guard {
    /// Whether every parameter that the guard names exists in a window of
    /// `symbols` symbols with `arity` parameters each.
    pub open spec fn bound(&self, symbols: nat, arity: nat) -> bool
        decreases self,
    {
        match self {
            Guard::Less(a, b) => a.bound(symbols, arity) && b.bound(symbols, arity),
            Guard::Equal(a, b) => a.bound(symbols, arity) && b.bound(symbols, arity),
            Guard::Not(g) => g.bound(symbols, arity),
            Guard::Both(g, h) => g.bound(symbols, arity) && h.bound(symbols, arity),
            Guard::Either(g, h) => g.bound(symbols, arity) && h.bound(symbols, arity),
        }
    }

    /// Whether the guard holds over `window`.
    pub open spec fn holds<const N: usize>(&self, window: Seq<Symbol<N>>) -> bool
        decreases self,
    {
        match self {
            Guard::Less(a, b) => a.value(window) < b.value(window),
            Guard::Equal(a, b) => a.value(window) == b.value(window),
            Guard::Not(g) => !g.holds(window),
            Guard::Both(g, h) => g.holds(window) && h.holds(window),
            Guard::Either(g, h) => g.holds(window) || h.holds(window),
        }
    }

    /// Tells whether the guard is bound in a window of `symbols` symbols.
    pub fn is_bound(&self, symbols: usize, arity: usize) -> (ok: bool)
        ensures
            ok == self.bound(symbols as nat, arity as nat),
        decreases self,
    {
        match self {
            Guard::Less(a, b) => a.is_bound(symbols, arity) && b.is_bound(symbols, arity),
            Guard::Equal(a, b) => a.is_bound(symbols, arity) && b.is_bound(symbols, arity),
            Guard::Not(g) => g.is_bound(symbols, arity),
            Guard::Both(g, h) => g.is_bound(symbols, arity) && h.is_bound(symbols, arity),
            Guard::Either(g, h) => g.is_bound(symbols, arity) && h.is_bound(symbols, arity),
        }
    }

    /// Decides the guard over `window`.
    pub fn decide<const N: usize>(&self, window: &Window<'_, N>) -> (ok: bool)
        requires
            self.bound(window@.len(), N as nat),
        ensures
            ok == self.holds(window@),
        decreases self,
    {
        match self {
            Guard::Less(a, b) => a.eval(window) < b.eval(window),
            Guard::Equal(a, b) => a.eval(window) == b.eval(window),
            Guard::Not(g) => !g.decide(window),
            Guard::Both(g, h) => g.decide(window) && h.decide(window),
            Guard::Either(g, h) => g.decide(window) || h.decide(window),
        }
    }
}

/// One symbol of a replacement: its tag, and an expression for each of its parameters.
#[derive(Debug, PartialEq, Eq)]
pub struct Template<const N: usize> {
    pub tag: usize,
    pub args: [Expr; N],
}

impl<const N: usize> Template<N> {
    /// Whether every expression is bound in a window of `symbols` symbols.
    pub open spec fn bound(&self, symbols: nat) -> bool {
        forall|i: int| 0 <= i < N ==> (#[trigger] self.args@[i]).bound(symbols, N as nat)
    }

    /// The values of the expressions over `window`, in order.
    pub open spec fn values(&self, window: Seq<Symbol<N>>) -> Seq<u64> {
        Seq::new(N as nat, |i: int| self.args@[i].value(window))
    }

    /// The symbol that the template stands for over `window`.
    pub open spec fn instance(&self, window: Seq<Symbol<N>>) -> Symbol<N> {
        Symbol { tag: self.tag, args: array_of(self.values(window)) }
    }

    /// Tells whether the template is bound in a window of `symbols` symbols.
    pub fn is_bound(&self, symbols: usize) -> (ok: bool)
        ensures
            ok == self.bound(symbols as nat),
    {
        let mut i: usize = 0;
        while i < N
            invariant
                i <= N,
                forall|j: int| 0 <= j < i ==> (#[trigger] self.args@[j]).bound(symbols as nat, N as nat),
            decreases N - i,
        {
            if !self.args[i].is_bound(symbols, N) {
                return false;
            }
            i += 1;
        }
        true
    }

    /// Builds the symbol that the template stands for over `window`.
    pub fn build(&self, window: &Window<'_, N>) -> (symbol: Symbol<N>)
        requires
            self.bound(window@.len()),
        ensures
            symbol == self.instance(window@),
    {
        let mut args: [u64; N] = [0u64; N];
        let mut i: usize = 0;
        while i < N
            invariant
                i <= N,
                self.bound(window@.len()),
                forall|j: int| 0 <= j < i ==> args@[j] == self.args@[j].value(window@),
            decreases N - i,
        {
            let value = self.args[i].eval(window);
            args[i] = value;
            i += 1;
        }
        proof {
            assert(args@ =~= self.values(window@));
            array_of_holds::<N>(self.values(window@));
        }
        Symbol { tag: self.tag, args }
    }
}

/// The tags of `symbols`, in order.
pub open spec fn tags_of<const N: usize>(symbols: Seq<Symbol<N>>) -> Seq<usize> {
    Seq::new(symbols.len(), |j: int| symbols[j].tag)
}

/// Tells whether `symbols` carry exactly the tags `tags`, in order.
fn tags_agree<const N: usize>(symbols: &[Symbol<N>], tags: &Vec<usize>) -> (same: bool)
    requires
        symbols@.len() == tags@.len(),
    ensures
        same == (tags_of(symbols@) == tags@),
{
    let mut j: usize = 0;
    while j < tags.len()
        invariant
            j <= tags@.len(),
            symbols@.len() == tags@.len(),
            forall|i: int| 0 <= i < j ==> symbols@[i].tag == tags@[i],
        decreases tags@.len() - j,
    {
        if symbols[j].tag != tags[j] {
            return false;
        }
        j += 1;
    }
    proof {
        assert(tags_of(symbols@) =~= tags@);
    }
    true
}

/// A production rule.
///
/// It is tried on a symbol that stands between a left and a right context.
/// It matches when the symbol carries the tag `focus`, the symbols directly
/// before it carry the tags `left` and the symbols directly after it carry
/// the tags `right`. An empty `left` or `right` asks nothing of that side.
/// It fires when it matches and its guard, if it has one, holds.
#[derive(Debug, PartialEq, Eq)]
pub struct Rule<const N: usize> {
    pub left: Vec<usize>,
    pub focus: usize,
    pub right: Vec<usize>,
    pub guard: Option<Guard>,
    pub replacement: Vec<Template<N>>,
}

impl<const N: usize> Rule<N> {
    /// The number of symbols that the rule looks at.
    pub open spec fn span(&self) -> nat {
        self.left@.len() + 1 + self.right@.len()
    }

    /// Whether the rule is sound in itself: its guard and its replacement
    /// name only parameters of symbols that the rule looks at.
    pub open spec fn ok(&self) -> bool {
        &&& self.span() <= usize::MAX
        &&& self.guard matches Some(guard) ==> guard.bound(self.span(), N as nat)
        &&& forall|t: int|
            0 <= t < self.replacement@.len() ==> (#[trigger] self.replacement@[t]).bound(
                self.span(),
            )
    }

    /// Whether the symbols that end `left` carry the tags of the left pattern.
    pub open spec fn left_matches(&self, left: Seq<Symbol<N>>) -> bool {
        &&& self.left@.len() <= left.len()
        &&& tags_of(left.subrange(left.len() - self.left@.len(), left.len() as int))
            == self.left@
    }

    /// Whether the symbols that begin `right` carry the tags of the right pattern.
    pub open spec fn right_matches(&self, right: Seq<Symbol<N>>) -> bool {
        &&& self.right@.len() <= right.len()
        &&& tags_of(right.subrange(0, self.right@.len() as int)) == self.right@
    }

    /// Whether the rule matches `atom` between `left` and `right`.
    pub open spec fn matches(
        &self,
        atom: Symbol<N>,
        left: Seq<Symbol<N>>,
        right: Seq<Symbol<N>>,
    ) -> bool {
        &&& atom.tag == self.focus
        &&& self.left_matches(left)
        &&& self.right_matches(right)
    }

    /// The symbols that the rule looks at: as many as the left pattern is
    /// long from the end of `left`, then `atom`, then as many as the right
    /// pattern is long from the start of `right`.
    pub open spec fn window(
        &self,
        atom: Symbol<N>,
        left: Seq<Symbol<N>>,
        right: Seq<Symbol<N>>,
    ) -> Seq<Symbol<N>> {
        left.subrange(left.len() - self.left@.len(), left.len() as int) + seq![atom]
            + right.subrange(0, self.right@.len() as int)
    }

    /// Whether the rule fires on `atom` between `left` and `right`.
    pub open spec fn fires(
        &self,
        atom: Symbol<N>,
        left: Seq<Symbol<N>>,
        right: Seq<Symbol<N>>,
    ) -> bool {
        &&& self.matches(atom, left, right)
        &&& self.guard matches Some(guard) ==> guard.holds(self.window(atom, left, right))
    }

    /// What the rule puts in the place of `atom` when it fires.
    pub open spec fn output(
        &self,
        atom: Symbol<N>,
        left: Seq<Symbol<N>>,
        right: Seq<Symbol<N>>,
    ) -> Seq<Symbol<N>> {
        Seq::new(
            self.replacement@.len(),
            |t: int| self.replacement@[t].instance(self.window(atom, left, right)),
        )
    }

    /// Tells whether the rule is sound in itself.
    pub fn is_ok(&self) -> (ok: bool)
        ensures
            ok == self.ok(),
    {
        let span = match self.left.len().checked_add(self.right.len()) {
            Some(sides) => match sides.checked_add(1) {
                Some(span) => span,
                None => {
                    return false;
                },
            },
            None => {
                return false;
            },
        };
        match &self.guard {
            Some(guard) => {
                if !guard.is_bound(span, N) {
                    return false;
                }
            },
            None => {},
        }
        let mut t: usize = 0;
        while t < self.replacement.len()
            invariant
                t <= self.replacement@.len(),
                span == self.span(),
                forall|u: int| 0 <= u < t ==> (#[trigger] self.replacement@[u]).bound(self.span()),
            decreases self.replacement@.len() - t,
        {
            if !self.replacement[t].is_bound(span) {
                return false;
            }
            t += 1;
        }
        true
    }

    /// Tries the rule on `atom` between `left` and `right`: what it puts in
    /// the place of `atom` if it fires, and `None` if it does not.
    pub fn attempt(&self, atom: &Symbol<N>, left: &[Symbol<N>], right: &[Symbol<N>]) -> (out:
        Option<Vec<Symbol<N>>>)
        requires
            self.ok(),
        ensures
            match out {
                Some(symbols) => self.fires(*atom, left@, right@) && symbols@ == self.output(
                    *atom,
                    left@,
                    right@,
                ),
                None => !self.fires(*atom, left@, right@),
            },
    {
        if atom.tag != self.focus || left.len() < self.left.len() || right.len()
            < self.right.len() {
            return None;
        }
        let before = slice_subrange(left, left.len() - self.left.len(), left.len());
        let after = slice_subrange(right, 0, self.right.len());
        if !tags_agree(before, &self.left) || !tags_agree(after, &self.right) {
            return None;
        }
        let window = Window { before, atom, after };
        match &self.guard {
            Some(guard) => {
                if !guard.decide(&window) {
                    return None;
                }
            },
            None => {},
        }
        let mut symbols: Vec<Symbol<N>> = Vec::new();
        let mut t: usize = 0;
        while t < self.replacement.len()
            invariant
                t <= self.replacement@.len(),
                self.ok(),
                window@ == self.window(*atom, left@, right@),
                window@.len() == self.span(),
                symbols@.len() == t,
                forall|u: int|
                    0 <= u < t ==> symbols@[u] == (#[trigger] self.replacement@[u]).instance(
                        window@,
                    ),
            decreases self.replacement@.len() - t,
        {
            let symbol = self.replacement[t].build(&window);
            symbols.push(symbol);
            t += 1;
        }
        Some(symbols)
    }
}

/// The first rule of `rules`, from position `from` on, that fires on `atom`
/// between `left` and `right`.
pub open spec fn first_firing<const N: usize>(
    rules: Seq<Rule<N>>,
    atom: Symbol<N>,
    left: Seq<Symbol<N>>,
    right: Seq<Symbol<N>>,
    from: int,
) -> Option<int>
    decreases rules.len() - from,
{
    if from < 0 || from >= rules.len() {
        None
    } else if rules[from].fires(atom, left, right) {
        Some(from)
    } else {
        first_firing(rules, atom, left, right, from + 1)
    }
}

/// What `rules` put in the place of `atom` between `left` and `right`: the
/// output of the first rule that fires, and `atom` itself if none does.
pub open spec fn successor<const N: usize>(
    rules: Seq<Rule<N>>,
    atom: Symbol<N>,
    left: Seq<Symbol<N>>,
    right: Seq<Symbol<N>>,
) -> Seq<Symbol<N>> {
    match first_firing(rules, atom, left, right, 0) {
        Some(i) => rules[i].output(atom, left, right),
        None => seq![atom],
    }
}

/// A rule whose guard or replacement names a parameter that the rule does
/// not bind. `rule` is the position of the first such rule in the table.
#[derive(Debug, Clone, Copy, PartialEq, Eq)]
pub struct MalformedGrammar {
    pub rule: usize,
}

/// An ordered table of rules, each sound in itself.
pub struct Grammar<const N: usize> {
    rules: Vec<Rule<N>>,
}

impl<const N: usize> Grammar<N> {
    #[verifier::type_invariant]
    spec fn all_ok(self) -> bool {
        forall|i: int| 0 <= i < self.rules@.len() ==> (#[trigger] self.rules@[i]).ok()
    }

    /// The rules, in the order in which they are tried.
    pub closed spec fn rules(&self) -> Seq<Rule<N>> {
        self.rules@
    }

    /// Makes a grammar of `rules`, unless one of them is not sound in itself.
    pub fn new(rules: Vec<Rule<N>>) -> (made: Result<Self, MalformedGrammar>)
        ensures
            match made {
                Ok(grammar) => {
                    &&& grammar.rules() == rules@
                    &&& forall|i: int| 0 <= i < rules@.len() ==> (#[trigger] rules@[i]).ok()
                },
                Err(error) => {
                    &&& error.rule < rules@.len()
                    &&& !rules@[error.rule as int].ok()
                    &&& forall|i: int| 0 <= i < error.rule ==> (#[trigger] rules@[i]).ok()
                },
            },
    {
        let mut i: usize = 0;
        while i < rules.len()
            invariant
                i <= rules@.len(),
                forall|j: int| 0 <= j < i ==> (#[trigger] rules@[j]).ok(),
            decreases rules@.len() - i,
        {
            if !rules[i].is_ok() {
                return Err(MalformedGrammar { rule: i });
            }
            i += 1;
        }
        Ok(Grammar { rules })
    }

    /// The number of rules.
    pub fn len(&self) -> (n: usize)
        ensures
            n == self.rules().len(),
    {
        self.rules.len()
    }

    /// Rewrites `atom` between `left` and `right`.
    pub fn apply(&self, atom: &Symbol<N>, left: &[Symbol<N>], right: &[Symbol<N>]) -> (out: Vec<
        Symbol<N>,
    >)
        ensures
            out@ == successor(self.rules(), *atom, left@, right@),
    {
        proof {
            use_type_invariant(self);
        }
        let mut i: usize = 0;
        while i < self.rules.len()
            invariant
                i <= self.rules@.len(),
                forall|j: int| 0 <= j < self.rules@.len() ==> (#[trigger] self.rules@[j]).ok(),
                first_firing(self.rules@, *atom, left@, right@, 0) == first_firing(
                    self.rules@,
                    *atom,
                    left@,
                    right@,
                    i as int,
                ),
            decreases self.rules@.len() - i,
        {
            match self.rules[i].attempt(atom, left, right) {
                Some(symbols) => {
                    return symbols;
                },
                None => {},
            }
            i += 1;
        }
        let mut same: Vec<Symbol<N>> = Vec::new();
        same.push(*atom);
        same
    }
}

/// First match wins: the rule that `first_firing` names fires and no rule
/// before it does, and where it names none, no rule fires.
pub proof fn first_firing_is_first<const N: usize>(
    rules: Seq<Rule<N>>,
    atom: Symbol<N>,
    left: Seq<Symbol<N>>,
    right: Seq<Symbol<N>>,
    from: int,
)
    requires
        0 <= from,
    ensures
        match first_firing(rules, atom, left, right, from) {
            Some(i) => {
                &&& from <= i < rules.len()
                &&& rules[i].fires(atom, left, right)
                &&& forall|j: int| from <= j < i ==> !(#[trigger] rules[j]).fires(atom, left, right)
            },
            None => forall|j: int|
                from <= j < rules.len() ==> !(#[trigger] rules[j]).fires(atom, left, right),
        },
    decreases rules.len() - from,
{
    if from < rules.len() && !rules[from].fires(atom, left, right) {
        first_firing_is_first(rules, atom, left, right, from + 1);
    }
}

/// The default rule: a symbol on which no rule of the table fires is
/// rewritten to itself.
pub proof fn unmatched_symbol_stays<const N: usize>(
    rules: Seq<Rule<N>>,
    atom: Symbol<N>,
    left: Seq<Symbol<N>>,
    right: Seq<Symbol<N>>,
)
    requires
        forall|i: int| 0 <= i < rules.len() ==> !(#[trigger] rules[i]).fires(atom, left, right),
    ensures
        successor(rules, atom, left, right) == seq![atom],
{
    first_firing_is_first(rules, atom, left, right, 0);
}

/// A table in which some rule fires rewrites the symbol to the output of
/// the first rule that fires.
pub proof fn first_firing_rule_rewrites<const N: usize>(
    rules: Seq<Rule<N>>,
    atom: Symbol<N>,
    left: Seq<Symbol<N>>,
    right: Seq<Symbol<N>>,
    i: int,
)
    requires
        0 <= i < rules.len(),
        rules[i].fires(atom, left, right),
        forall|j: int| 0 <= j < i ==> !(#[trigger] rules[j]).fires(atom, left, right),
    ensures
        successor(rules, atom, left, right) == rules[i].output(atom, left, right),
{
    first_firing_is_first(rules, atom, left, right, 0);
}

/// The left context is matched exactly where it touches the symbol: a rule
/// with a left pattern does not fire when the symbol directly before is
/// missing or carries another tag than the pattern ends with, whatever
/// stands further left.
pub proof fn left_context_is_exact<const N: usize>(
    rule: Rule<N>,
    atom: Symbol<N>,
    left: Seq<Symbol<N>>,
    right: Seq<Symbol<N>>,
)
    requires
        rule.left@.len() > 0,
        left.len() == 0 || left.last().tag != rule.left@.last(),
    ensures
        !rule.matches(atom, left, right),
        !rule.fires(atom, left, right),
{
}

/// The right context is matched exactly where it touches the symbol: a rule
/// with a right pattern does not fire when the symbol directly after is
/// missing or carries another tag than the pattern begins with, whatever
/// stands further right.
pub proof fn right_context_is_exact<const N: usize>(
    rule: Rule<N>,
    atom: Symbol<N>,
    left: Seq<Symbol<N>>,
    right: Seq<Symbol<N>>,
)
    requires
        rule.right@.len() > 0,
        right.len() == 0 || right.first().tag != rule.right@.first(),
    ensures
        !rule.matches(atom, left, right),
        !rule.fires(atom, left, right),
{
}

/// A rule sees only as far as its patterns reach: what stands before the
/// symbols that the left pattern covers, and after those that the right
/// pattern covers, changes neither whether the rule fires nor what it puts out.
pub proof fn far_context_is_ignored<const N: usize>(
    rule: Rule<N>,
    atom: Symbol<N>,
    far_left: Seq<Symbol<N>>,
    left: Seq<Symbol<N>>,
    right: Seq<Symbol<N>>,
    far_right: Seq<Symbol<N>>,
)
    requires
        rule.left@.len() <= left.len(),
        rule.right@.len() <= right.len(),
    ensures
        rule.window(atom, far_left + left, right + far_right) == rule.window(atom, left, right),
        rule.matches(atom, far_left + left, right + far_right) == rule.matches(atom, left, right),
        rule.fires(atom, far_left + left, right + far_right) == rule.fires(atom, left, right),
        rule.output(atom, far_left + left, right + far_right) == rule.output(atom, left, right),
{
    let k = rule.left@.len();
    let m = rule.right@.len();
    let wide_left = far_left + left;
    let wide_right = right + far_right;
    assert(wide_left.subrange(wide_left.len() - k, wide_left.len() as int) == left.subrange(
        left.len() - k,
        left.len() as int,
    ));
    assert(wide_right.subrange(0, m as int) == right.subrange(0, m as int));
}

/// The state of a system that keeps none.
#[derive(Debug, Clone, Copy, PartialEq, Eq)]
pub struct Stateless;

/// A rewriting system given as data: the word to start from and a table of
/// rules. Its words are only rewritten: interpreting a symbol changes nothing.
pub struct RuleSystem<const N: usize> {
    pub start: Vec<Symbol<N>>,
    pub grammar: Grammar<N>,
}

impl<const N: usize> D2LSystem for RuleSystem<N> {
    type Alphabet = Symbol<N>;

    type Node = ();

    type State = Stateless;

    open spec fn obeys_model(&self) -> bool {
        true
    }

    open spec fn initial(&self) -> Seq<Symbol<N>> {
        self.start@
    }

    open spec fn replacement(
        &self,
        atom: Symbol<N>,
        left: Seq<Symbol<N>>,
        right: Seq<Symbol<N>>,
    ) -> Seq<Symbol<N>> {
        successor(self.grammar.rules(), atom, left, right)
    }

    fn start(&self) -> (word: Vec<Symbol<N>>) {
        let mut word: Vec<Symbol<N>> = Vec::new();
        let mut i: usize = 0;
        while i < self.start.len()
            invariant
                i <= self.start@.len(),
                word@ == self.start@.subrange(0, i as int),
            decreases self.start@.len() - i,
        {
            word.push(self.start[i]);
            i += 1;
        }
        word
    }

    fn production_rules(
        &self,
        atom: &Symbol<N>,
        left_context: &[Symbol<N>],
        right_context: &[Symbol<N>],
    ) -> (successor: Vec<Symbol<N>>) {
        self.grammar.apply(atom, left_context, right_context)
    }

    fn process(&self, context: &mut Context<(), Stateless>, atom: &Symbol<N>) {
    }
}

} // verus!
