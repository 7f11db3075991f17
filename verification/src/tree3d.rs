//! A turtle that draws a tree in space: it stands on a node, looks along a
//! heading, and every step forward adds a node and the edge that leads to it.
//!
//! Positions, diameters and headings are whatever the caller computes with:
//! the turtle stores and copies them and never looks inside. What it owns is
//! the shape of the tree and the discipline of its state stack.

use crate::lsys::{construct_tree, generation, interpreted, seed, Context, ContextModel, D2LSystem};
use crate::tree::{NodeHandle, Tree, TreeModel};
use vstd::prelude::*;

verus! {

/// A node of the drawn tree: where it is and how thick the branch is there.
#[derive(Debug, PartialEq)]
pub struct Tree3DNode<V, D> {
    pub position: V,
    pub diameter: D,
}

/// What the turtle knows at a moment: the node it stands on, the diameter
/// that the next node will get, and its heading.
#[derive(Debug, PartialEq)]
pub struct Tree3DState<D, H> {
    pub last_node: NodeHandle,
    pub next_diameter: D,
    pub heading: H,
}

impl<D: Copy, H: Copy> Clone for Tree3DState<D, H> {
    fn clone(&self) -> (copy: Self)
        ensures
            copy == *self,
    {
        *self
    }
}

impl<D: Copy, H: Copy> Copy for Tree3DState<D, H> {

}

/// What a turtle can be told to do.
pub enum Command<V, D, H> {
    /// Step forward to `position`.
    Forward(V),
    /// Give the nodes that follow this diameter.
    Diameter(D),
    /// Take this heading.
    Rotate(H),
    /// Save the state.
    Push,
    /// Go back to the state saved last.
    Pop,
    /// Do nothing.
    Skip,
}

/// Why a command could not be carried out.
#[derive(Debug, Clone, Copy, PartialEq, Eq)]
pub enum TurtleError {
    /// The turtle stands on a node that the tree does not hold.
    InvalidHandle,
    /// There is no saved state to go back to.
    StackUnderflow,
}

/// The mathematical picture of a turtle's context.
pub type Turtle<V, D, H> = ContextModel<Tree3DNode<V, D>, Tree3DState<D, H>>;

/// Whether `command` can be carried out in `turtle`.
pub open spec fn enabled<V, D, H>(turtle: Turtle<V, D, H>, command: Command<V, D, H>) -> bool {
    match command {
        Command::Forward(_) => turtle.tree.contains(turtle.state.last_node),
        Command::Pop => turtle.stack.len() > 0,
        _ => true,
    }
}

/// What carrying out `command` makes of `turtle`.
pub open spec fn step<V, D, H>(turtle: Turtle<V, D, H>, command: Command<V, D, H>) -> Turtle<
    V,
    D,
    H,
> {
    match command {
        Command::Forward(position) => ContextModel {
            tree: turtle.tree.add_node(
                Tree3DNode { position, diameter: turtle.state.next_diameter },
            ).add_edge(turtle.state.last_node.index(), turtle.tree.len() as int),
            state: Tree3DState {
                last_node: NodeHandle::at(turtle.tree.len() as int),
                next_diameter: turtle.state.next_diameter,
                heading: turtle.state.heading,
            },
            stack: turtle.stack,
        },
        Command::Diameter(diameter) => ContextModel {
            tree: turtle.tree,
            state: Tree3DState {
                last_node: turtle.state.last_node,
                next_diameter: diameter,
                heading: turtle.state.heading,
            },
            stack: turtle.stack,
        },
        Command::Rotate(heading) => ContextModel {
            tree: turtle.tree,
            state: Tree3DState {
                last_node: turtle.state.last_node,
                next_diameter: turtle.state.next_diameter,
                heading,
            },
            stack: turtle.stack,
        },
        Command::Push => turtle.push(),
        Command::Pop => turtle.pop(),
        Command::Skip => turtle,
    }
}

/// What carrying out `commands` one after the other makes of `turtle`, or
/// `None` if one of them cannot be carried out when its turn comes.
pub open spec fn run<V, D, H>(turtle: Turtle<V, D, H>, commands: Seq<Command<V, D, H>>) -> Option<
    Turtle<V, D, H>,
>
    decreases commands.len(),
{
    if commands.len() == 0 {
        Some(turtle)
    } else {
        match run(turtle, commands.drop_last()) {
            Some(before) => if enabled(before, commands.last()) {
                Some(step(before, commands.last()))
            } else {
                None
            },
            None => None,
        }
    }
}

impl<V, D: Copy, H: Copy> Context<Tree3DNode<V, D>, Tree3DState<D, H>> {
    /// Adds a node at `position` with the pending diameter, joins it to the
    /// node that the turtle stands on, and moves the turtle onto it.
    pub fn forward(&mut self, position: V)
        requires
            enabled(old(self)@, Command::Forward(position)),
        ensures
            final(self)@ == step(old(self)@, Command::Forward(position)),
    {
        let start = self.state.last_node;
        let end = self.tree.add_node(Tree3DNode { position, diameter: self.state.next_diameter });
        self.tree.add_edge(start, end);
        self.state.last_node = end;
    }

    /// Sets the diameter of the nodes that follow. The nodes that exist keep theirs.
    pub fn diameter(&mut self, diameter: D)
        ensures
            final(self)@ == step(old(self)@, Command::Diameter(diameter)),
    {
        self.state.next_diameter = diameter;
    }

    /// Replaces the heading by `heading`: the heading that the turtle has after it turned.
    pub fn rotate(&mut self, heading: H)
        ensures
            final(self)@ == step(old(self)@, Command::Rotate(heading)),
    {
        self.state.heading = heading;
    }

    /// Carries out `command` if it can be carried out, and says why not
    /// otherwise. Where it cannot, nothing changes.
    pub fn execute(&mut self, command: Command<V, D, H>) -> (done: Result<(), TurtleError>)
        ensures
            done is Ok <==> enabled(old(self)@, command),
            done is Ok ==> final(self)@ == step(old(self)@, command),
            done is Err ==> final(self)@ == old(self)@,
            done == Err::<(), TurtleError>(TurtleError::InvalidHandle) <==> command is Forward
                && !enabled(old(self)@, command),
            done == Err::<(), TurtleError>(TurtleError::StackUnderflow) <==> command is Pop
                && !enabled(old(self)@, command),
    {
        match command {
            Command::Forward(position) => {
                if self.tree.contains(self.state.last_node) {
                    self.forward(position);
                    Ok(())
                } else {
                    Err(TurtleError::InvalidHandle)
                }
            },
            Command::Diameter(diameter) => {
                self.diameter(diameter);
                Ok(())
            },
            Command::Rotate(heading) => {
                self.rotate(heading);
                Ok(())
            },
            Command::Push => {
                self.push();
                Ok(())
            },
            Command::Pop => {
                if self.depth() > 0 {
                    self.pop();
                    Ok(())
                } else {
                    Err(TurtleError::StackUnderflow)
                }
            },
            Command::Skip => Ok(()),
        }
    }
}

/// The state that a turtle starts in: on the root, with the root's diameter
/// pending, looking along `heading`.
pub open spec fn initial_state<V, D, H>(root_node: Tree3DNode<V, D>, heading: H) -> Tree3DState<
    D,
    H,
> {
    Tree3DState { last_node: NodeHandle::at(0), next_diameter: root_node.diameter, heading }
}

/// Builds the tree that `lsys` draws after `iterations` generations, from a
/// turtle that starts on `root_node` with the root's diameter and looks along `heading`.
pub fn construct_tree_3d<L, V, D: Copy, H: Copy>(
    lsys: L,
    root_node: Tree3DNode<V, D>,
    iterations: usize,
    heading: H,
) -> (tree: Tree<Tree3DNode<V, D>>) where
    L: D2LSystem<Node = Tree3DNode<V, D>, State = Tree3DState<D, H>>,

    ensures
        lsys.obeys_model() ==> tree@ == interpreted(
            &lsys,
            seed(root_node, initial_state(root_node, heading)),
            generation(&lsys, iterations as nat),
        ).tree,
{
    let diameter = root_node.diameter;
    let initialize = |handle: NodeHandle| -> (state: Tree3DState<D, H>)
        ensures
            state == (Tree3DState { last_node: handle, next_diameter: diameter, heading }),
        { Tree3DState { last_node: handle, next_diameter: diameter, heading } };
    let tree = construct_tree(lsys, root_node, iterations, initialize);
    proof {
        if lsys.obeys_model() {
            let state = choose|state: Tree3DState<D, H>|
                {
                    &&& call_ensures(initialize, (NodeHandle::at(0),), state)
                    &&& tree@ == interpreted(
                        &lsys,
                        seed(root_node, state),
                        generation(&lsys, iterations as nat),
                    ).tree
                };
        }
    }
    tree
}

/// Whether the turtle and every saved state stand on a node of the tree, in
/// a well-formed tree.
pub open spec fn turtle_ok<V, D, H>(turtle: Turtle<V, D, H>) -> bool {
    &&& turtle.tree.wf()
    &&& turtle.tree.contains(turtle.state.last_node)
    &&& forall|i: int|
        0 <= i < turtle.stack.len() ==> turtle.tree.contains((#[trigger] turtle.stack[i]).last_node)
}

/// The positions that the `Forward` commands of `commands` step to, in order.
pub open spec fn positions<V, D, H>(commands: Seq<Command<V, D, H>>) -> Seq<V>
    decreases commands.len(),
{
    if commands.len() == 0 {
        Seq::empty()
    } else {
        match commands.last() {
            Command::Forward(position) => positions(commands.drop_last()).push(position),
            _ => positions(commands.drop_last()),
        }
    }
}

/// By how much `commands` deepen the stack: the number of its `Push`
/// commands less the number of its `Pop` commands.
pub open spec fn depth_change<V, D, H>(commands: Seq<Command<V, D, H>>) -> int
    decreases commands.len(),
{
    if commands.len() == 0 {
        0
    } else {
        depth_change(commands.drop_last()) + match commands.last() {
            Command::Push => 1int,
            Command::Pop => -1int,
            _ => 0int,
        }
    }
}

/// Whether `commands` never pop more than they pushed before.
pub open spec fn never_below<V, D, H>(commands: Seq<Command<V, D, H>>) -> bool {
    forall|k: int|
        0 <= k <= commands.len() ==> depth_change(#[trigger] commands.subrange(0, k)) >= 0
}

/// Whether every `Pop` of `commands` has its `Push` before it, and every
/// `Push` its `Pop` after it.
pub open spec fn balanced<V, D, H>(commands: Seq<Command<V, D, H>>) -> bool {
    never_below(commands) && depth_change(commands) == 0
}

/// Whether `commands` neither save nor restore a state.
pub open spec fn straight<V, D, H>(commands: Seq<Command<V, D, H>>) -> bool {
    forall|i: int|
        0 <= i < commands.len() ==> !((#[trigger] commands[i]) is Push) && !(commands[i] is Pop)
}

/// Running a single command is carrying it out, if it can be carried out.
pub proof fn run_single<V, D, H>(turtle: Turtle<V, D, H>, command: Command<V, D, H>)
    ensures
        run(turtle, seq![command]) == if enabled(turtle, command) {
            Some(step(turtle, command))
        } else {
            None
        },
{
    let one = seq![command];
    assert(run(turtle, one.drop_last()) == Some(turtle));
}

/// Running one sequence of commands after another is running the two joined.
pub proof fn run_joined<V, D, H>(
    turtle: Turtle<V, D, H>,
    first: Seq<Command<V, D, H>>,
    second: Seq<Command<V, D, H>>,
)
    ensures
        run(turtle, first + second) == match run(turtle, first) {
            Some(between) => run(between, second),
            None => None,
        },
    decreases second.len(),
{
    if second.len() > 0 {
        assert((first + second).drop_last() == first + second.drop_last());
        run_joined(turtle, first, second.drop_last());
    }
}

/// A command that can be carried out keeps the turtle and the saved states
/// on nodes of the tree, and takes no node away, as long as the tree can
/// still be counted.
pub proof fn step_keeps_ok<V, D, H>(turtle: Turtle<V, D, H>, command: Command<V, D, H>)
    requires
        turtle_ok(turtle),
        enabled(turtle, command),
        command is Forward ==> turtle.tree.len() < usize::MAX,
    ensures
        turtle_ok(step(turtle, command)),
        step(turtle, command).tree.len() == turtle.tree.len() + if command is Forward {
            1int
        } else {
            0int
        },
        turtle.tree.payloads == step(turtle, command).tree.payloads.subrange(
            0,
            turtle.tree.len() as int,
        ),
{
    if let Command::Forward(position) = command {
        let node = Tree3DNode { position, diameter: turtle.state.next_diameter };
        NodeHandle::at_index(turtle.tree.len() as int);
        turtle.state.last_node.index_at();
        turtle.tree.add_node_keeps_wf(node);
        turtle.tree.add_node(node).add_edge_keeps_wf(
            turtle.state.last_node.index(),
            turtle.tree.len() as int,
        );
    }
}

/// A turtle on the root of a tree that holds the root alone stands on a
/// node of the tree, and that tree is rooted.
pub proof fn seed_is_rooted<V, D, H>(root_node: Tree3DNode<V, D>, state: Tree3DState<D, H>)
    requires
        state.last_node == NodeHandle::at(0),
    ensures
        turtle_ok(seed(root_node, state)),
        seed(root_node, state).tree.is_rooted(),
        seed(root_node, state).tree.len() == 1,
{
    NodeHandle::at_index(0);
}

/// Whatever commands a turtle carries out, it draws one tree: if the nodes
/// formed a tree under the first node before, they do so afterwards. Only
/// `Forward` adds a node, and it adds it as the child of exactly one node.
pub proof fn run_draws_a_tree<V, D, H>(
    turtle: Turtle<V, D, H>,
    commands: Seq<Command<V, D, H>>,
    after: Turtle<V, D, H>,
)
    requires
        turtle_ok(turtle),
        turtle.tree.is_rooted(),
        run(turtle, commands) == Some(after),
        turtle.tree.len() + positions(commands).len() <= usize::MAX,
    ensures
        turtle_ok(after),
        after.tree.is_rooted(),
        after.tree.len() == turtle.tree.len() + positions(commands).len(),
        after.tree.payloads.subrange(0, turtle.tree.len() as int) == turtle.tree.payloads,
    decreases commands.len(),
{
    if commands.len() > 0 {
        let before = run(turtle, commands.drop_last()).unwrap();
        run_draws_a_tree(turtle, commands.drop_last(), before);
        step_keeps_ok(before, commands.last());
        if let Command::Forward(position) = commands.last() {
            before.state.last_node.index_at();
            before.tree.grown_stays_rooted(
                Tree3DNode { position, diameter: before.state.next_diameter },
                before.state.last_node.index(),
            );
        }
    }
}

/// Commands that never pop more than they pushed can all be carried out.
/// They leave the states that were saved before them where they were, and
/// the stack as much deeper as they pushed more than they popped.
pub proof fn run_above_stack<V, D, H>(turtle: Turtle<V, D, H>, commands: Seq<Command<V, D, H>>)
    requires
        turtle_ok(turtle),
        never_below(commands),
        turtle.tree.len() + positions(commands).len() <= usize::MAX,
    ensures
        run(turtle, commands) matches Some(after) && {
            &&& turtle_ok(after)
            &&& after.tree.len() == turtle.tree.len() + positions(commands).len()
            &&& after.stack.len() == turtle.stack.len() + depth_change(commands)
            &&& after.stack.subrange(0, turtle.stack.len() as int) == turtle.stack
        },
    decreases commands.len(),
{
    if commands.len() > 0 {
        let head = commands.drop_last();
        assert forall|k: int| 0 <= k <= head.len() implies depth_change(
            #[trigger] head.subrange(0, k),
        ) >= 0 by {
            assert(head.subrange(0, k) == commands.subrange(0, k));
        }
        assert(commands.subrange(0, commands.len() as int) == commands);
        run_above_stack(turtle, head);
        step_keeps_ok(run(turtle, head).unwrap(), commands.last());
    }
}

/// A balanced sequence of commands can be carried out and leaves the stack
/// of saved states exactly as it found it.
pub proof fn balanced_keeps_stack<V, D, H>(
    turtle: Turtle<V, D, H>,
    commands: Seq<Command<V, D, H>>,
)
    requires
        turtle_ok(turtle),
        balanced(commands),
        turtle.tree.len() + positions(commands).len() <= usize::MAX,
    ensures
        run(turtle, commands) matches Some(after) && after.stack == turtle.stack && turtle_ok(
            after,
        ),
{
    run_above_stack(turtle, commands);
}

/// Push and pop balance: whatever balanced sequence of commands stands
/// between a `Push` and its `Pop`, the `Pop` gives back the state in which
/// the `Push` was made, and the stack is as it was before the `Push`.
pub proof fn pop_restores_pushed_state<V, D, H>(
    turtle: Turtle<V, D, H>,
    between: Seq<Command<V, D, H>>,
)
    requires
        turtle_ok(turtle),
        balanced(between),
        turtle.tree.len() + positions(between).len() <= usize::MAX,
    ensures
        run(turtle, seq![Command::Push] + between + seq![Command::Pop]) matches Some(after) && {
            &&& after.state == turtle.state
            &&& after.stack == turtle.stack
            &&& turtle_ok(after)
        },
{
    let push = seq![Command::<V, D, H>::Push];
    let pop = seq![Command::<V, D, H>::Pop];
    run_single(turtle, Command::<V, D, H>::Push);
    step_keeps_ok(turtle, Command::<V, D, H>::Push);
    balanced_keeps_stack(turtle.push(), between);
    let inner = run(turtle.push(), between).unwrap();
    run_joined(turtle, push, between);
    run_joined(turtle, push + between, pop);
    run_single(inner, Command::<V, D, H>::Pop);
    step_keeps_ok(inner, Command::<V, D, H>::Pop);
}

/// The shape of a walk without branches: commands that neither save nor
/// restore a state, carried out from a turtle on the root of a tree that
/// holds the root alone, draw a chain. With `n` steps forward the tree has
/// `n + 1` nodes and `n` edges, each edge starts where the edge before it
/// ends, and the nodes after the root lie at the positions stepped to.
pub proof fn straight_walk_draws_chain<V, D, H>(
    root_node: Tree3DNode<V, D>,
    state: Tree3DState<D, H>,
    commands: Seq<Command<V, D, H>>,
)
    requires
        state.last_node == NodeHandle::at(0),
        straight(commands),
        1 + positions(commands).len() <= usize::MAX,
    ensures
        run(seed(root_node, state), commands) matches Some(after) && {
            let n = positions(commands).len();
            &&& after.stack.len() == 0
            &&& after.state.last_node == NodeHandle::at(n as int)
            &&& after.tree.len() == n + 1
            &&& after.tree.is_chain(n)
            &&& after.tree.edges() == Seq::new(n, |i: int| (i, i + 1))
            &&& after.tree.payloads[0] == root_node
            &&& forall|i: int|
                0 <= i < n ==> (#[trigger] after.tree.payloads[i + 1]).position == positions(
                    commands,
                )[i]
        },
    decreases commands.len(),
{
    let start = seed(root_node, state);
    if commands.len() == 0 {
        start.tree.chain_edges(0);
    } else {
        let head = commands.drop_last();
        assert(straight(head)) by {
            assert forall|i: int| 0 <= i < head.len() implies !((#[trigger] head[i]) is Push) && !(
            head[i] is Pop) by {
                assert(head[i] == commands[i]);
            }
        }
        straight_walk_draws_chain(root_node, state, head);
        let before = run(start, head).unwrap();
        let m = positions(head).len();
        NodeHandle::at_index(m as int);
        if commands.last() is Forward {
            let after = step(before, commands.last());
            assert(after.tree.is_chain(m + 1)) by {
                assert forall|i: int| 0 <= i < m + 1 implies #[trigger] after.tree.children[i]
                    == seq![i + 1] by {
                    if i == m {
                        assert(after.tree.children[i] =~= seq![i + 1]);
                    }
                }
            }
            after.tree.chain_edges(m + 1);
        }
    }
}

} // verus!
