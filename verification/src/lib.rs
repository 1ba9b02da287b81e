//! Disjoint sets over a fixed universe of `N` elements, without allocation.
//!
//! A [`UnionFind`] keeps two arrays: one representative (parent) entry per
//! element and, where the strategy weighs its trees, one counter per element.
//! The strategy ([`QuickFind`] or [`QuickUnion`]), the element type and the
//! backing storage are chosen through type parameters.

pub mod construct;
pub mod counting;
pub mod engine;
pub mod error;
pub mod forest;
pub mod heuristic;
pub mod laws;
pub mod quickfind;
pub mod quickunion;
pub mod seed;
pub mod storage;
pub mod strategy;
pub mod vertex;

pub use crate::engine::{Arrays, UnionFind};
pub use crate::error::Error;
pub use crate::heuristic::{ByRank, BySize, Heuristic, Unweighted};
pub use crate::quickfind::QuickFind;
pub use crate::quickunion::QuickUnion;
pub use crate::storage::Storage;
pub use crate::strategy::{AlgorithmContainer, Connected, Find, Union};
pub use crate::vertex::{IndexVertex, VertexType};
