//! Turbine cluster-node selection: which peers receive each shred.
//!
//! The crate builds, per epoch, a stake-ordered view of the cluster from
//! gossip contact infos and a stake table, derives from a shred seed the
//! stake-weighted fan-out tree, and caches the views per epoch with a
//! time-to-live. Around that core sit the rent, cost and transaction-status
//! helpers that validators share.

pub mod broadcast;
pub mod cluster_nodes;
pub mod cluster_nodes_cache;
pub mod contact_info;
pub mod cost_model;
pub mod encoding;
pub mod feature_gate;
pub mod laws;
pub mod many_args;
pub mod pubkey;
pub mod rent;
pub mod retransmit;
pub mod rng;
pub mod routing;
pub mod socket;
pub mod sorting;
pub mod stakes;
pub mod sum_lemmas;
pub mod transaction_status;
pub mod turbine_tree;
pub mod weight_tree;
pub mod weighted_shuffle;
