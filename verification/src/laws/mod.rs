//! What holds of the operations of the library, stated of their inputs and results alone.
//!
//! The classes of bytes, the field positions and the words that the laws speak of are written out
//! here, so that each law says what an operation is for without the definitions that the
//! contracts use. Where a law speaks of a call, it holds of whatever the call may return.

pub mod buf;
pub mod collect;
pub mod frame;
pub mod live;
pub mod login;
pub mod render;
pub mod scan;
pub mod sys;
