//! Deterministic L-systems with left and right context: parallel rewriting of
//! a word of symbols, and the interpretation of the rewritten word as a tree.

use crate::tree::{NodeHandle, Tree, TreeModel};
use vstd::prelude::*;
use vstd::slice::slice_subrange;

verus! {

/// What a [`Context`] is, mathematically: the tree under construction, the
/// current state and the saved states, oldest first.
pub struct ContextModel<T, S> {
    pub tree: TreeModel<T>,
    pub state: S,
    pub stack: Seq<S>,
}

impl<T, S> ContextModel<T, S> {
    /// The context after the current state was saved.
    pub open spec fn push(self) -> Self {
        ContextModel { tree: self.tree, state: self.state, stack: self.stack.push(self.state) }
    }

    /// The context after the state saved last was restored and dropped from the stack.
    pub open spec fn pop(self) -> Self {
        ContextModel { tree: self.tree, state: self.stack.last(), stack: self.stack.drop_last() }
    }
}

/// What the interpretation of a word works on: the tree that it builds, the
/// current state, and a stack of saved states.
pub struct Context<T, S> where S: Copy {
    pub tree: Tree<T>,
    pub state: S,
    /// The saved states, oldest first.
    pub state_stack: Vec<S>,
}

impl<T, S: Copy> View for Context<T, S> {
    type V = ContextModel<T, S>;

    open spec fn view(&self) -> ContextModel<T, S> {
        ContextModel { tree: self.tree@, state: self.state, stack: self.state_stack@ }
    }
}

impl<T, S> Context<T, S> where S: Copy {
    /// A context over `tree` in state `state`, with no state saved.
    pub fn new(tree: Tree<T>, state: S) -> (context: Self)
        ensures
            context@ == (ContextModel { tree: tree@, state, stack: Seq::<S>::empty() }),
    {
        Context { tree, state, state_stack: Vec::new() }
    }

    /// The number of saved states.
    pub fn depth(&self) -> (depth: usize)
        ensures
            depth == self@.stack.len(),
    {
        self.state_stack.len()
    }

    /// Saves a copy of the current state on the stack.
    pub fn push(&mut self)
        ensures
            final(self)@ == old(self)@.push(),
    {
        self.state_stack.push(self.state);
    }

    /// Restores the state that was saved last and drops it from the stack.
    pub fn pop(&mut self)
        requires
            old(self)@.stack.len() > 0,
        ensures
            final(self)@ == old(self)@.pop(),
    {
        let saved = self.state_stack.pop();
        self.state = saved.unwrap();
    }
}

/// A deterministic L-system with both left and right contexts.
///
/// A system gives the word to start from, rewrites one symbol given what
/// stands before and after it, and interprets one symbol on a context.
///
/// A system may come with a model: `initial`, `replacement` and `effect` say
/// what its three methods compute, as functions of their arguments alone. A
/// system that sets `obeys_model` is held to that model by Verus, and the
/// functions of this module then say exactly what they return for it. For a
/// system without a model they say what holds of whatever its methods return.
pub trait D2LSystem {
    type Alphabet;

    type Node;

    type State: Copy;

    /// Whether this system keeps to its model: whether its methods return what
    /// `initial`, `replacement` and `effect` say.
    open spec fn obeys_model(&self) -> bool {
        false
    }

    /// The word that rewriting starts from.
    open spec fn initial(&self) -> Seq<Self::Alphabet> {
        Seq::empty()
    }

    /// What `atom` is replaced by when `left` stands before it and `right` after it.
    open spec fn replacement(
        &self,
        atom: Self::Alphabet,
        left: Seq<Self::Alphabet>,
        right: Seq<Self::Alphabet>,
    ) -> Seq<Self::Alphabet> {
        seq![atom]
    }

    /// What interpreting `atom` makes of `context`.
    open spec fn effect(
        &self,
        context: ContextModel<Self::Node, Self::State>,
        atom: Self::Alphabet,
    ) -> ContextModel<Self::Node, Self::State> {
        context
    }

    fn start(&self) -> (word: Vec<Self::Alphabet>)
        ensures
            self.obeys_model() ==> word@ == self.initial(),
    ;

    fn production_rules(
        &self,
        atom: &Self::Alphabet,
        left_context: &[Self::Alphabet],
        right_context: &[Self::Alphabet],
    ) -> (successor: Vec<Self::Alphabet>)
        ensures
            self.obeys_model() ==> successor@ == self.replacement(
                *atom,
                left_context@,
                right_context@,
            ),
    ;

    fn process(&self, context: &mut Context<Self::Node, Self::State>, atom: &Self::Alphabet)
        ensures
            self.obeys_model() ==> final(context)@ == self.effect(old(context)@, *atom),
    ;
}

/// The replacement of every symbol of `word`, each taken with all that stands
/// before it as its left context and all that stands after it as its right context.
pub open spec fn replacements<L: D2LSystem>(lsys: &L, word: Seq<L::Alphabet>) -> Seq<
    Seq<L::Alphabet>,
> {
    Seq::new(
        word.len(),
        |a: int|
            lsys.replacement(word[a], word.subrange(0, a), word.subrange(a + 1, word.len() as int)),
    )
}

/// One generation: every symbol of `word` replaced at once, each seeing only `word`.
pub open spec fn rewritten<L: D2LSystem>(lsys: &L, word: Seq<L::Alphabet>) -> Seq<L::Alphabet> {
    replacements(lsys, word).flatten()
}

/// The word after `n` generations, starting from the axiom.
pub open spec fn generation<L: D2LSystem>(lsys: &L, n: nat) -> Seq<L::Alphabet>
    decreases n,
{
    if n == 0 {
        lsys.initial()
    } else {
        rewritten(lsys, generation(lsys, (n - 1) as nat))
    }
}

/// What interpreting `word` symbol by symbol, left to right, makes of `context`.
pub open spec fn interpreted<L: D2LSystem>(
    lsys: &L,
    context: ContextModel<L::Node, L::State>,
    word: Seq<L::Alphabet>,
) -> ContextModel<L::Node, L::State>
    decreases word.len(),
{
    if word.len() == 0 {
        context
    } else {
        lsys.effect(interpreted(lsys, context, word.drop_last()), word.last())
    }
}

/// Whether `part` is something that the rules of `lsys` can return for the
/// symbol at position `a` of `word`, asked with all of `word` before `a` as
/// the left context and all of `word` after `a` as the right context.
pub open spec fn answers<L: D2LSystem>(
    lsys: &L,
    word: Seq<L::Alphabet>,
    a: int,
    part: Seq<L::Alphabet>,
) -> bool {
    exists|left: &[L::Alphabet], right: &[L::Alphabet], out: Vec<L::Alphabet>|
        {
            &&& left@ == word.subrange(0, a)
            &&& right@ == word.subrange(a + 1, word.len() as int)
            &&& out@ == part
            &&& call_ensures(L::production_rules, (lsys, &word[a], left, right), out)
        }
}

/// Whether `next` is one generation after `word`: the answers of the rules
/// for the symbols of `word`, one answer for each symbol, joined in the
/// order of the symbols.
pub open spec fn rewrites<L: D2LSystem>(
    lsys: &L,
    word: Seq<L::Alphabet>,
    next: Seq<L::Alphabet>,
) -> bool {
    exists|parts: Seq<Seq<L::Alphabet>>|
        {
            &&& parts.len() == word.len()
            &&& forall|a: int| 0 <= a < word.len() ==> answers(lsys, word, a, #[trigger] parts[a])
            &&& next == parts.flatten()
        }
}

/// Rewrites `word` by one generation.
pub fn rewrite<L: D2LSystem>(lsys: &L, word: &[L::Alphabet]) -> (next: Vec<L::Alphabet>)
    ensures
        rewrites(lsys, word@, next@),
        lsys.obeys_model() ==> next@ == rewritten(lsys, word@),
{
    let mut next: Vec<L::Alphabet> = Vec::new();
    let ghost mut parts: Seq<Seq<L::Alphabet>> = Seq::empty();
    let mut a: usize = 0;
    while a < word.len()
        invariant
            a <= word@.len(),
            parts.len() == a,
            forall|b: int| 0 <= b < a ==> answers(lsys, word@, b, #[trigger] parts[b]),
            next@ == parts.flatten(),
            lsys.obeys_model() ==> parts == replacements(lsys, word@).subrange(0, a as int),
        decreases word@.len() - a,
    {
        let left_context = slice_subrange(word, 0, a);
        let right_context = slice_subrange(word, a + 1, word.len());
        let mut successor = lsys.production_rules(&word[a], left_context, right_context);
        proof {
            parts.lemma_flatten_push(successor@);
            parts = parts.push(successor@);
        }
        next.append(&mut successor);
        a += 1;
    }
    proof {
        let all = replacements(lsys, word@);
        assert(all.subrange(0, a as int) == all);
    }
    next
}

/// Whether `word` can be what `lsys` has made of its axiom after `n`
/// generations: what it starts with where `n` is zero, and else one
/// generation after a word that it can have made after `n - 1`.
pub open spec fn evolves<L: D2LSystem>(lsys: &L, n: nat, word: Seq<L::Alphabet>) -> bool
    decreases n,
{
    if n == 0 {
        exists|out: Vec<L::Alphabet>| out@ == word && call_ensures(L::start, (lsys,), out)
    } else {
        exists|previous: Seq<L::Alphabet>|
            evolves(lsys, (n - 1) as nat, previous) && rewrites(lsys, previous, word)
    }
}

/// Rewrites the axiom of `lsys` through `iterations` generations.
pub fn evolve<L: D2LSystem>(lsys: &L, iterations: usize) -> (word: Vec<L::Alphabet>)
    ensures
        evolves(lsys, iterations as nat, word@),
        lsys.obeys_model() ==> word@ == generation(lsys, iterations as nat),
{
    let mut word = lsys.start();
    let mut i: usize = 0;
    while i < iterations
        invariant
            i <= iterations,
            evolves(lsys, i as nat, word@),
            lsys.obeys_model() ==> word@ == generation(lsys, i as nat),
        decreases iterations - i,
    {
        word = rewrite(lsys, word.as_slice());
        i += 1;
    }
    word
}

/// Interprets `word` on `context`, symbol by symbol from left to right.
pub fn interpret<L: D2LSystem>(
    lsys: &L,
    context: &mut Context<L::Node, L::State>,
    word: &[L::Alphabet],
)
    ensures
        word@.len() == 0 ==> final(context)@ == old(context)@,
        lsys.obeys_model() ==> final(context)@ == interpreted(lsys, old(context)@, word@),
{
    let mut i: usize = 0;
    while i < word.len()
        invariant
            i <= word@.len(),
            i == 0 ==> context@ == old(context)@,
            lsys.obeys_model() ==> context@ == interpreted(
                lsys,
                old(context)@,
                word@.subrange(0, i as int),
            ),
        decreases word@.len() - i,
    {
        proof {
            assert(word@.subrange(0, i + 1).drop_last() == word@.subrange(0, i as int));
        }
        lsys.process(context, &word[i]);
        i += 1;
    }
    proof {
        assert(word@.subrange(0, i as int) == word@);
    }
}

/// The context that the interpretation starts from: a tree that holds the
/// root alone, the given state, and nothing saved.
pub open spec fn seed<T, S>(root_node: T, state: S) -> ContextModel<T, S> {
    ContextModel {
        tree: TreeModel::<T>::empty().add_node(root_node),
        state,
        stack: Seq::<S>::empty(),
    }
}

/// Builds the tree of `lsys` after `iterations` generations.
///
/// The root is stored first, `initialize_state` is asked for the state to
/// start in, given the root's handle, and the rewritten axiom is interpreted
/// from there.
pub fn construct_tree<L, F>(
    lsys: L,
    root_node: L::Node,
    iterations: usize,
    initialize_state: F,
) -> (tree: Tree<L::Node>) where L: D2LSystem, F: Fn(NodeHandle) -> L::State
    requires
        call_requires(initialize_state, (NodeHandle::at(0),)),
    ensures
        lsys.obeys_model() ==> exists|state: L::State|
            {
                &&& call_ensures(initialize_state, (NodeHandle::at(0),), state)
                &&& tree@ == interpreted(
                    &lsys,
                    seed(root_node, state),
                    generation(&lsys, iterations as nat),
                ).tree
            },
{
    let mut tree: Tree<L::Node> = Tree::default();
    let root = tree.add_node(root_node);
    let state = initialize_state(root);
    let mut context = Context::new(tree, state);
    let word = evolve(&lsys, iterations);
    interpret(&lsys, &mut context, word.as_slice());
    proof {
        if lsys.obeys_model() {
            assert(context@ == interpreted(
                &lsys,
                seed(root_node, state),
                generation(&lsys, iterations as nat),
            ));
        }
    }
    context.tree
}

/// Zero generations leave the axiom as it is.
pub proof fn generation_zero_is_initial<L: D2LSystem>(lsys: &L)
    ensures
        generation(lsys, 0) == lsys.initial(),
{
}

/// Each generation is one rewriting of the generation before it: a symbol
/// sees the generation before, never what its neighbours are being replaced by.
pub proof fn generation_steps<L: D2LSystem>(lsys: &L, n: nat)
    ensures
        generation(lsys, n + 1) == rewritten(lsys, generation(lsys, n)),
{
}

/// Rewriting is determined by the axiom and the rules: two systems that
/// start from the same word and replace every symbol in every context alike
/// have the same word after every number of generations.
pub proof fn generation_is_determined<K: D2LSystem, L: D2LSystem<Alphabet = K::Alphabet>>(
    first: &K,
    second: &L,
    n: nat,
)
    requires
        first.initial() == second.initial(),
        forall|atom: K::Alphabet, left: Seq<K::Alphabet>, right: Seq<K::Alphabet>|
            #[trigger] first.replacement(atom, left, right) == second.replacement(
                atom,
                left,
                right,
            ),
    ensures
        generation(first, n) == generation(second, n),
    decreases n,
{
    if n > 0 {
        generation_is_determined(first, second, (n - 1) as nat);
        let word = generation(first, (n - 1) as nat);
        assert(replacements(first, word) =~= replacements(second, word));
    }
}

/// An empty axiom stays empty through every number of generations.
pub proof fn empty_stays_empty<L: D2LSystem>(lsys: &L, n: nat)
    requires
        lsys.initial().len() == 0,
    ensures
        generation(lsys, n) == Seq::<L::Alphabet>::empty(),
    decreases n,
{
    if n > 0 {
        empty_stays_empty(lsys, (n - 1) as nat);
    }
}

/// A word in which every symbol is replaced by itself is its own next generation.
pub proof fn unchanged_symbols_keep_word<L: D2LSystem>(lsys: &L, word: Seq<L::Alphabet>)
    requires
        forall|a: int|
            0 <= a < word.len() ==> #[trigger] replacements(lsys, word)[a] == seq![word[a]],
    ensures
        rewritten(lsys, word) == word,
{
    let parts = replacements(lsys, word);
    singletons_flatten(parts, word, word.len());
    assert(parts.subrange(0, word.len() as int) == parts);
}

/// Joining the first `k` of a sequence of one-symbol words gives the first
/// `k` of their symbols.
proof fn singletons_flatten<A>(parts: Seq<Seq<A>>, word: Seq<A>, k: nat)
    requires
        parts.len() == word.len(),
        k <= word.len(),
        forall|a: int| 0 <= a < word.len() ==> #[trigger] parts[a] == seq![word[a]],
    ensures
        parts.subrange(0, k as int).flatten() == word.subrange(0, k as int),
    decreases k,
{
    if k > 0 {
        singletons_flatten(parts, word, (k - 1) as nat);
        let head = parts.subrange(0, k - 1);
        assert(parts.subrange(0, k as int) == head.push(parts[k - 1]));
        head.lemma_flatten_push(parts[k - 1]);
    }
}

/// A system that keeps to its model has one next generation for every word.
pub proof fn rewrites_as_modelled<L: D2LSystem>(
    lsys: &L,
    word: Seq<L::Alphabet>,
    next: Seq<L::Alphabet>,
)
    requires
        lsys.obeys_model(),
        rewrites(lsys, word, next),
    ensures
        next == rewritten(lsys, word),
{
    let parts = choose|parts: Seq<Seq<L::Alphabet>>|
        {
            &&& parts.len() == word.len()
            &&& forall|a: int| 0 <= a < word.len() ==> answers(lsys, word, a, #[trigger] parts[a])
            &&& next == parts.flatten()
        };
    assert(parts =~= replacements(lsys, word));
}

/// A system that keeps to its model has one word after every number of
/// generations: the same axiom and the same rules give the same word,
/// however often they are asked.
pub proof fn evolves_as_modelled<L: D2LSystem>(lsys: &L, n: nat, word: Seq<L::Alphabet>)
    requires
        lsys.obeys_model(),
        evolves(lsys, n, word),
    ensures
        word == generation(lsys, n),
    decreases n,
{
    if n > 0 {
        let previous = choose|previous: Seq<L::Alphabet>|
            evolves(lsys, (n - 1) as nat, previous) && rewrites(lsys, previous, word);
        evolves_as_modelled(lsys, (n - 1) as nat, previous);
        rewrites_as_modelled(lsys, previous, word);
    }
}

} // verus!
