//! Consensus taxonomy for clusters of sequence accessions.
//!
//! Every accession carries a lineage of seven ranks, written as seven
//! fields separated by `;`. For a cluster of accessions the crate computes
//! the lowest common ancestor: the deepest rank at which all members carry
//! the same ancestry.
//!
//! - [`level`]: the seven ranks.
//! - [`text`]: splitting, trimming and lower case on sequences of characters.
//! - [`lineage`]: fields, absence and ancestry of a lineage string.
//! - [`path`]: the parsed lineage of one accession.
//! - [`agreement`]: whether the members of a group agree at one rank.
//! - [`lca`]: the walk down the ranks.
//! - [`laws`]: what holds of the lowest common ancestor.
//! - [`tables`]: the hashed collections that hold the inputs.
//! - [`input`]: the lines of the two inputs.
//! - [`cluster`]: the rows and warnings of each cluster.
//! - [`host`]: the consensus of one group given as two lists of strings.

pub mod agreement;
pub mod cluster;
pub mod host;
pub mod input;
pub mod laws;
pub mod lca;
pub mod level;
pub mod lineage;
pub mod path;
pub mod tables;
pub mod text;
