use vstd::prelude::*;

pub mod bytes;
pub mod status;
pub mod response;
pub mod path;
pub mod request;
pub mod dispatch;
pub mod session;

verus! {

} // verus!
