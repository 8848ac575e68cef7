//! Changesets between two versions of a directed, weighted graph.
//!
//! A [`GraphDiff`] holds what is new or updated and what is marked as
//! deleted, for the nodes and for the edges of a graph. It is built by
//! single operations, by batches, and by merging one diff into another
//! (`+=`), and it can be written to bytes and read back.
//!
//! * [`node_update`]: the payload delta of a node and its merge rule.
//! * [`model`], [`batches`]: what a diff holds, as mathematical maps and
//!   sets, and what each operation does to them. Every contract of
//!   [`diff`] is stated over these.
//! * [`laws`]: what holds of every diff that the operations build.
//! * [`diff`]: the diffs themselves.
//! * [`bytes`]: the codec.
//! * [`ident`]: node identifiers as sixteen bytes.
//! * [`id_set`], [`weight_table`], [`edge_table`], [`edge_set_table`],
//!   [`node_table`], [`text_table`]: the `hashbrown` tables that the diffs
//!   are kept in, each with the statements about `hashbrown` that the
//!   proofs rest on.
//! * [`walk`]: lemmas for loops over the keys of a table.

pub mod batches;
pub mod bytes;
pub mod diff;
pub mod edge_set_table;
pub mod edge_table;
pub mod id_set;
pub mod ident;
pub mod laws;
pub mod model;
pub mod node_table;
pub mod node_update;
pub mod text_table;
pub mod walk;
pub mod weight_table;

pub use crate::bytes::{
    accept_frame, bytes_to_graph_diff, bytes_to_slim_diff, graph_diff_to_bytes,
    graph_diff_to_slim_diff, slim_diff_to_bytes, slim_diff_to_graph_diff, CodecError, SlimDiff,
};
pub use crate::diff::{DiffError, EdgeDiff, GraphDiff, NodeDiff};
pub use crate::edge_set_table::EdgeSetTable;
pub use crate::edge_table::EdgeTable;
pub use crate::id_set::IdSet;
pub use crate::ident::{id_from_bytes, id_to_bytes, IdError};
pub use crate::node_table::NodeTable;
pub use crate::node_update::NodeUpdate;
pub use crate::text_table::TextTable;
pub use crate::weight_table::WeightTable;
