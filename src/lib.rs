//! Middle end of the glouton compiler: the syntax-tree arenas, the
//! three-address IR and the scalar optimisation passes that run over it.
pub mod ast;
pub mod instruction;
pub mod function;
pub mod numbering;
pub mod optim;
pub mod semantics;
pub mod text;
