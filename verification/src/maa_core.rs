//! The types of the MaaCore C API (`AsstCaller.h`) that the library speaks of.

pub mod msg;

use vstd::prelude::*;

verus! {

/// A C boolean: zero is false.
pub type AsstBool = u8;
/// A size as the C API counts it.
pub type AsstSize = u64;
/// An id of the C API.
pub type AsstId = i32;
/// The id of a callback message kind.
pub type AsstMsgId = AsstId;
/// The id of an appended task.
pub type AsstTaskId = AsstId;
/// The id of an asynchronous call.
pub type AsstAsyncCallId = AsstId;
/// The key of an instance or static option.
pub type AsstOptionKey = i32;

} // verus!
