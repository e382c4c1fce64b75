//! The requests that the broker takes over its socket.

use vstd::prelude::*;

use crate::contract::{ForgeFileUrlReq, ForgeOpenPrReq, ForgeProvisionReq, GitOpReq};

verus! {

/// One request.
#[derive(Debug, Clone)]
pub enum BrokerRequest {
    /// Run a git operation.
    GitOp(GitOpReq),
    /// List the names of the held credentials.
    ListCaps,
    /// Create a repository in the forge.
    ForgeProvision(ForgeProvisionReq),
    /// List the repositories of the organisation.
    ForgeList,
    /// Open a pull request.
    ForgeOpenPr(ForgeOpenPrReq),
    /// Link to a file.
    ForgeFileUrl(ForgeFileUrlReq),
    /// Append an SSH key for the workspace login user.
    AddSshKey(AddSshKeyReq),
    /// Drop every credential.
    PreSnapshotScrub,
}

/// One line of the `authorized_keys` file.
#[derive(Debug, Clone)]
pub struct AddSshKeyReq {
    pub pubkey: String,
}

} // verus!
