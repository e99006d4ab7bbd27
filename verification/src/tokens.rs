//! What the metadata of a result says of its columns.

use crate::types::TypeInfo;
use vstd::prelude::*;

verus! {

/// The description of one column, as it stands in the metadata that comes
/// before the rows of a result.
#[derive(Copy, Clone, Debug, PartialEq, Eq)]
pub struct BaseMetaDataColumn {
    /// How the values of the column are laid out on the wire.
    pub ty: TypeInfo,
}

} // verus!
