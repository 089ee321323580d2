//! Tracking of a compositor's open windows and workspaces, and the search
//! front-end that answers queries about them.
//!
//! The compositor announces windows ("toplevels") and workspaces piece by
//! piece. [`state::State`] assembles those pieces into records, commits a
//! window on its `Done` event and hands the committed record out as a
//! [`toplevel::ToplevelEvent`]. [`app::App`] keeps the committed records and
//! answers search, activate and quit requests about them.
//!
//! Nothing here reads or writes anything: every function takes what arrived
//! and returns what is to be sent. The caller owns the connection to the
//! compositor, the request and response streams and the file system.
//!
//! - [`handle`]: the identity of the compositor's objects;
//! - [`payload`]: the packed arrays of state and coordinate events;
//! - [`toplevel`]: windows and the table of their records;
//! - [`workspace`], [`sorting`]: workspaces, their groups and their order;
//! - [`state`]: the protocol state and its events;
//! - [`search`], [`icon`]: query matching and icon lookup;
//! - [`app`]: the consumer of committed windows;
//! - [`recent`]: a record of how often and how recently keys were used.
pub mod handle;
pub mod payload;
pub mod toplevel;
pub mod workspace;
pub mod sorting;
pub mod state;
pub mod search;
pub mod icon;
pub mod app;
pub mod recent;
