//! Ring-structured distributed file store: protocol codec, node state,
//! walk / push / pull / heal logic, all verified. The network shell that
//! drives this logic lives outside the library.
pub mod chunks;
pub mod files;
pub mod gateway;
pub mod kv;
pub mod netmap;
pub mod node;
pub mod protocol;
pub mod server;
mod strutil;
pub mod tags;
pub mod topology;

pub use gateway::Gateway;
pub use node::append_edge;
pub use node::Node;
pub use protocol::parse_line;
pub use protocol::Command;

pub use tags::FileTag;

pub use netmap::parse_entries;
pub use netmap::serialize_entries;
pub use netmap::NodeStatus;

pub use strutil::host_of;
pub use strutil::host_str;
pub use strutil::normalize_addr;
pub use strutil::port_str;

use vstd::prelude::*;

verus! {

/// Relies on `alloc::string::String::push`: appending one character
/// to a string appends exactly that character to its contents.
pub assume_specification[ String::push ](s: &mut String, c: char)
    ensures
        final (s)@ == old(s)@.push(c),
;

} // verus!
