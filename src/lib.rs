use vstd::prelude::*;

pub mod assists;
pub mod comment;
pub mod docs;
pub mod parse_expr;
pub mod preproc;
pub mod scope;
pub mod source;
pub mod symbol;
pub mod syntax;
pub mod watch;
pub mod workspace;

verus! {

} // verus!
