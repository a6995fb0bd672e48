//! System calls: decoding a trap's request and the handlers of each call.
pub mod fs;
pub mod process;
pub mod time;
pub mod wcore;
pub mod dispatch;


pub mod serve;
