pub mod lang;
pub mod pos;
pub mod scope;
pub mod error;
