//! PLAID primitives for late-interaction search inside a columnar database.
//!
//! The kernel builds, stores and searches one immutable index segment. Around
//! it stand the rules of the database: how a segment is trained, how a query is
//! planned and answered over several segments, and how rows are taken by
//! position, address or identifier.
//!
//! Single-precision values are carried as bit patterns and compared, never
//! computed with. Where arithmetic on them is due, a function hands out what is
//! to be computed and takes the results back.

pub mod adaptive;
pub mod arrangement;
pub mod bitmap;
pub mod codec;
pub mod config;
pub mod database;
pub mod eligibility;
pub mod error;
pub mod exact;
pub mod exec;
pub mod exhaustive;
pub mod format;
pub mod grouped_read;
pub mod hits;
pub mod index;
pub mod joined;
pub mod little_endian;
pub mod matrix;
pub mod metrics;
pub mod pipeline;
pub mod policy;
pub mod postings;
pub mod random;
pub mod reader_cache;
pub mod row_mask;
pub mod scalar;
pub mod search;
pub mod sort;
pub mod take;
pub mod take_plan;
pub mod text;
pub mod training;
pub mod vector_index;
pub mod whole_query;

pub use crate::codec::ResidualQuantizer;
pub use crate::eligibility::{AddressEligibility, AllEligible, Eligibility};
pub use crate::error::{Error, Result};
pub use crate::format::PlaidFormatVersion;
pub use crate::index::PlaidIndex;
pub use crate::search::{maxsim_naive, PlaidSearchParams, PlaidSearchStats, SearchHit};
use vstd::prelude::*;

verus! {

/// On-disk file name used by the first version of the native PLAID format.
pub const PLAID_DATA_FILE: &'static str = "plaid.bin";

/// Built-in index family name.
pub const LANCE_PLAID_INDEX: &'static str = "PLAID";

/// Name of the persisted hint that marks an index as PLAID.
pub const PLAID_RUNTIME_HINT: &'static str = "lance.plaid";

} // verus!
