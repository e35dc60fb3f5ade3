//! Cellular sheaves on graphs and the combinatorics of gossip networks.
pub mod experiment;
pub mod gossip;
pub mod graph;
pub mod laplacian;
pub mod sheaf;
