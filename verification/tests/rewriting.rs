use cglsys::{evolve, interpret, rewrite, Context, D2LSystem, Tree};

/// Replaces every number by three: how many stand before it, itself, and how
/// many stand after it.
struct Census {
    word: Vec<usize>,
}

impl D2LSystem for Census {
    type Alphabet = usize;
    type Node = usize;
    type State = usize;

    fn start(&self) -> Vec<usize> {
        self.word.clone()
    }

    fn production_rules(&self, atom: &usize, left: &[usize], right: &[usize]) -> Vec<usize> {
        vec![left.len(), *atom, right.len()]
    }

    fn process(&self, context: &mut Context<usize, usize>, atom: &usize) {
        // Keeps the order in which the symbols come as digits of the state.
        context.state = context.state * 10 + *atom;
    }
}

/// Doubles a letter that stands directly between 'a' and 'c'.
struct Between {
    word: Vec<char>,
}

impl D2LSystem for Between {
    type Alphabet = char;
    type Node = char;
    type State = usize;

    fn start(&self) -> Vec<char> {
        self.word.clone()
    }

    fn production_rules(&self, atom: &char, left: &[char], right: &[char]) -> Vec<char> {
        match (left, right) {
            ([.., 'a'], ['c', ..]) => vec![*atom, *atom],
            _ => vec![*atom],
        }
    }

    fn process(&self, context: &mut Context<char, usize>, atom: &char) {
        context.tree.add_node(*atom);
    }
}

fn letters(word: &str) -> Vec<char> {
    word.chars().collect()
}

fn between(word: &str, iterations: usize) -> String {
    evolve(&Between { word: letters(word) }, iterations).into_iter().collect()
}

#[test]
fn zero_generations_give_the_start() {
    assert_eq!(evolve(&Census { word: vec![4, 5, 6] }, 0), vec![4, 5, 6]);
    assert_eq!(between("abc", 0), "abc");
    assert_eq!(between("", 0), "");
}

#[test]
fn an_empty_start_stays_empty() {
    for iterations in 0..5 {
        assert_eq!(evolve(&Census { word: vec![] }, iterations), vec![]);
    }
}

#[test]
fn every_symbol_sees_all_before_and_all_after_it() {
    assert_eq!(
        evolve(&Census { word: vec![7, 8, 9] }, 1),
        vec![0, 7, 2, 1, 8, 1, 2, 9, 0]
    );
    assert_eq!(evolve(&Census { word: vec![7] }, 1), vec![0, 7, 0]);
}

#[test]
fn a_generation_sees_only_the_one_before() {
    // The second generation counts within the nine symbols of the first.
    let second = evolve(&Census { word: vec![7, 8, 9] }, 2);
    assert_eq!(second.len(), 27);
    assert_eq!(&second[0..3], &[0, 0, 8]);
    assert_eq!(&second[3..6], &[1, 7, 7]);
    assert_eq!(&second[24..27], &[8, 0, 0]);
}

#[test]
fn rewrite_is_one_generation() {
    let system = Census { word: vec![] };
    assert_eq!(rewrite(&system, &[3, 4]), vec![0, 3, 1, 1, 4, 0]);
    assert_eq!(rewrite(&system, &[]), vec![]);
    let once = evolve(&Census { word: vec![3, 4] }, 1);
    assert_eq!(rewrite(&system, &once), evolve(&Census { word: vec![3, 4] }, 2));
}

#[test]
fn the_same_system_gives_the_same_word() {
    let first = evolve(&Census { word: vec![1, 2, 3, 4] }, 3);
    let second = evolve(&Census { word: vec![1, 2, 3, 4] }, 3);
    assert_eq!(first, second);
}

#[test]
fn a_context_must_stand_next_to_the_symbol() {
    assert_eq!(between("abc", 1), "abbc");
    // An 'a' further left does not count when another letter stands between.
    assert_eq!(between("axbc", 1), "axbc");
    // Nor does a 'c' further right.
    assert_eq!(between("abxc", 1), "abxc");
    // What stands beyond the neighbours changes nothing.
    assert_eq!(between("zzabczz", 1), "zzabbczz");
}

#[test]
fn all_symbols_are_rewritten_at_once() {
    // Both letters between an 'a' and a 'c' are doubled in the same pass.
    assert_eq!(between("abcabc", 1), "abbcabbc");
    // After the first pass no 'b' stands directly between 'a' and 'c'.
    assert_eq!(between("abc", 2), "abbc");
}

#[test]
fn symbols_are_interpreted_from_left_to_right() {
    let system = Census { word: vec![] };
    let mut context = Context::new(Tree::default(), 0);
    interpret(&system, &mut context, &[1, 2, 3]);
    assert_eq!(context.state, 123);
    interpret(&system, &mut context, &[]);
    assert_eq!(context.state, 123);
}

#[test]
fn the_root_is_the_first_node() {
    let tree = cglsys::construct_tree(Between { word: letters("abc") }, 'r', 1, |root| root.id());
    assert_eq!(tree.len(), 5);
    assert_eq!(*tree.get(cglsys::NodeHandle::new(0)), 'r');
    assert_eq!(*tree.get(cglsys::NodeHandle::new(1)), 'a');
    assert_eq!(*tree.get(cglsys::NodeHandle::new(2)), 'b');
    assert_eq!(*tree.get(cglsys::NodeHandle::new(3)), 'b');
    assert_eq!(*tree.get(cglsys::NodeHandle::new(4)), 'c');
}

#[test]
fn saved_states_come_back_in_turn() {
    let mut context = Context::new(Tree::<u8>::default(), 'a');
    context.push();
    context.state = 'b';
    context.push();
    context.state = 'c';
    assert_eq!(context.depth(), 2);
    context.pop();
    assert_eq!(context.state, 'b');
    context.pop();
    assert_eq!(context.state, 'a');
    assert_eq!(context.depth(), 0);
}
