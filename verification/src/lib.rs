//! Tab and document lifecycle for a multi-document editing shell.
//!
//! The library keeps track of which documents are open, owns their text,
//! and keeps the text in step with a docking layout that shows one tab per
//! document. Drawing and storage are left to the program around it.
//!
//! A frame has two phases. While the tabs are drawn, the file viewer hands
//! out buffers for editing and notes what has to change as requests. After
//! drawing, the application drains the requests in the order in which they
//! came; only the drain changes the layout and the set of buffers.
//!
//! - [`titles`]: the default titles `Untitled-1`, `Untitled-2`, ...
//! - [`title_order`]: the order in which titles are kept.
//! - [`buffers`]: the buffer store, a mapping from title to text.
//! - [`layout`]: what the lifecycle asks of the docking layout.
//! - [`requests`]: lifecycle requests and the file viewer that queues them.
//! - [`model`]: the lifecycle as a state machine, and its laws.
//! - [`app`]: the application state and its operations.

pub mod app;
pub mod buffers;
pub mod layout;
pub mod model;
pub mod requests;
pub mod title_order;
pub mod titles;
