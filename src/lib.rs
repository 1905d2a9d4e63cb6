use vstd::prelude::*;

pub mod fee;
pub mod hex;
pub mod types;
pub mod ledger;
pub mod codec;
pub mod lock;

verus! {

} // verus!
