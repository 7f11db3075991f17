//! Context-sensitive parallel rewriting of symbol words (L-systems) and the
//! interpretation of the rewritten words as trees of nodes.
//!
//! * [`tree`]: the append-only arena that the interpretation fills.
//! * [`lsys`]: L-systems, their generations, and the construction of a tree.
//! * [`grammar`]: production rules as an ordered table of data.
//! * [`tree3d`]: the turtle that draws a tree in space.

pub mod grammar;
pub mod lsys;
pub mod tree;
pub mod tree3d;

pub use grammar::{
    Expr, Grammar, Guard, MalformedGrammar, Rule, RuleSystem, Stateless, Symbol, Template, Window,
};
pub use lsys::{construct_tree, evolve, interpret, rewrite, Context, ContextModel, D2LSystem};
pub use tree::{Edge, Edges, Node, NodeHandle, Tree, TreeModel};
