//! What the operations promise, stated of what goes into them and what comes out.
//!
//! Each law speaks of calls: of the arguments and the result of one, or of how several are related.
//! What it says of them is said in terms of their characters, their places and their order.
pub mod answering;
pub mod browsing;
pub mod indexing;
pub mod ranking;
pub mod serving;
pub mod storing;
pub mod wording;
