//! Column types of the TDS wire format: the type descriptor that precedes a
//! column's data, the decoding of column values and their resumable encoding
//! into a send buffer with finite room.

pub mod error;
pub mod laws;
pub mod tokens;
pub mod transport;
pub mod types;
pub mod wire;

pub use error::{ProtocolViolation, TdsError, TdsResult};
pub use types::{ColumnData, FixedLenType, FromColumnData, ToColumnData, TypeInfo, VarLenType};
