//! Connection options of the table backend: the storage account and its
//! access key, as the signer and the dispatcher consume them.

use vstd::prelude::*;

verus! {

/// Table backend connection options.
#[derive(Debug, Clone, PartialEq)]
pub struct ConnectOptions {
    /// Storage account name.
    pub name: String,
    /// Storage account access key, base64 text.
    pub key: String,
}

} // verus!
