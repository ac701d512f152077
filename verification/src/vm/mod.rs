pub mod symbol;
pub mod label;
pub mod ty;
pub mod pool;
pub mod condition;
pub mod value;
pub mod function;
pub mod mem;
pub mod scope;
pub mod storage;
pub mod state;
pub mod bc;
