//! The inbound core of a zero-trust node proxy: the mesh state store, the
//! reducer that applies discovery updates to it, and the decisions that the
//! inbound listener takes for each tunnelled connection.
//!
//! The state is a handful of flat tables ([`table`]) of workloads and
//! policies ([`store`]) and of services ([`service`]), held together in
//! [`state`]. The reducer ([`xds`]) reads the messages of the discovery
//! channel ([`discovery`], [`convert`], [`policy`]) and applies them; a
//! state can also be set up from a local configuration ([`local`]). The
//! listener asks [`inbound`] what to do with a request and [`lifecycle`]
//! what to do with a connection; policy is judged in [`rbac`].
//!
//! Every function is verified against its contract. The contracts speak of
//! the views of the records: maps, sets and sequences of plain values.
//! What holds of the state whatever updates arrive is stated and proved in
//! [`laws`]; that an address written as text is read back as the same
//! address, in [`text_laws`]. The few facts taken on trust are in
//! [`outside`].

pub mod convert;
pub mod discovery;
pub mod display;
pub mod identity;
pub mod inbound;
pub mod ip;
pub mod laws;
pub mod lifecycle;
pub mod local;
pub mod outside;
pub mod policy;
pub mod rbac;
pub mod service;
pub mod state;
pub mod store;
pub mod table;
pub mod text;
pub mod text_laws;
pub mod workload;
pub mod xds;
