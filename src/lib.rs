//! Constrained random generation of gateway configuration trees.
//!
//! Every generator draws its values from a [`driver::Driver`], a source of
//! raw entropy that may run dry; a generator then returns `None`. Whatever a
//! generator returns in `Some` is proved to meet the structural rules of the
//! configuration schema, and on a source that never runs dry every
//! generator is proved to succeed. A source keeps a record of the words it
//! handed out and of the requests it refused: a generator returns `None`
//! exactly when the source refused one of its requests (the default address
//! block, which needs no entropy, is returned either way), and its contract
//! says which of the words it drew fix which parts of its result (counts,
//! kinds, families, prefix lengths, choices), down to exact results for the
//! address-block allocator and the address texts.
//!
//! - `driver`: the entropy source, bounded draws, a replay source and a
//!   seeded pseudo-random source.
//! - `text`: decimal, hexadecimal, address and MAC texts, with proofs that
//!   address texts are injective.
//! - `support`: name and address generators and the allocator of unique
//!   address blocks.
//! - `config`: the configuration tree.
//! - the other modules: one generator for each node of the tree.

pub mod bgp;
pub mod config;
pub mod device;
pub mod driver;
pub mod expose;
pub mod gateway_config;
pub mod interface;
pub mod peering_as;
pub mod peering_ips;
pub mod support;
pub mod text;
pub mod vpc;
pub mod vrf;
