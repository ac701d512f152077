pub mod allocator;
pub mod scope;
pub mod symbol;
pub mod variable;
pub mod value;
pub mod ty;
pub mod function;
pub mod transform;
pub mod error;
pub mod state;
pub mod context;
pub mod thunk;
