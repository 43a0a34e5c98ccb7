//! Expressions over arrays, held in an arena.

pub mod apply;
pub mod arena;
pub mod construct;
pub mod comparison;
pub mod conv2d;
pub mod differentiate;
pub mod display;
pub mod eval;
pub mod gradient;
pub mod gradients;
pub mod kernel;
pub mod operation;
pub mod simplify;
pub mod tree;
pub mod variable;

pub use arena::{Arena, ArenaView, Expr, Term, TermView};
pub use comparison::Op;
pub use kernel::{kernel_ok, kernel_value, value};
pub use operation::{Operation, OperationView, Padding};
pub use tree::Tree;
pub use variable::VariableValue;
