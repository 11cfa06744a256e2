//! What stands at a path, as far as it has been looked up.

use vstd::prelude::*;

use crate::text_map::TextMap;

verus! {

/// What a path leads to when a link at its end is not followed.
#[derive(Debug, Clone, Copy, PartialEq, Eq, Structural)]
pub enum Node {
    Missing,
    Link,
    File { len: u64 },
    Directory,
    Other,
}

/// What is known of some paths.
pub type NodeBook = TextMap<Node>;

} // verus!
