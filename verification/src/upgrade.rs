//! Leaving HTTP: what a client learns when it asks a response for the
//! connection that the response switched protocols on.

use vstd::prelude::*;

verus! {

/// Why a response gives no upgraded connection.
#[derive(Debug, Clone, Copy, PartialEq, Eq, Structural)]
pub enum ClientUpgradeError {
    /// The response did not switch protocols.
    ConnectionNotUpgradable,
}

impl ClientUpgradeError {
    /// The error in words.
    pub fn message(&self) -> (text: &'static str)
        ensures
            text@ == "connection not upgradable"@,
    {
        "connection not upgradable"
    }
}

/// Takes the upgraded connection out of what a response carries: the
/// connection where there is one, and an error where the response did not
/// switch protocols.
pub fn into_upgraded<C>(connection: Option<C>) -> (upgraded: Result<C, ClientUpgradeError>)
    ensures
        upgraded == match connection {
            Some(connection) => Ok::<C, ClientUpgradeError>(connection),
            None => Err::<C, ClientUpgradeError>(ClientUpgradeError::ConnectionNotUpgradable),
        },
{
    match connection {
        Some(connection) => Ok(connection),
        None => Err(ClientUpgradeError::ConnectionNotUpgradable),
    }
}

} // verus!
