//! The values that enter and leave the contract, and its stored configuration.

use vstd::prelude::*;

verus! {

/// The configuration written once at setup.
#[derive(Clone, Debug, PartialEq, Eq)]
pub struct State {
    pub owner: String,
    pub viewing_key: String,
    pub nft_contract_address: String,
    pub nft_code_hash: String,
}

/// Setup input: key material for the viewing key and the oracle's coordinates.
#[derive(Clone, Debug, PartialEq, Eq)]
pub struct InstantiateMsg {
    pub entropy: String,
    pub nft_contract_address: String,
    pub nft_code_hash: String,
}

/// One indexed entry as reported by a query.
#[derive(Clone, Debug, PartialEq, Eq)]
pub struct AddressCollect {
    pub token_id: String,
    pub address: String,
}

#[derive(Clone, Debug, PartialEq, Eq)]
pub struct AddressResponse {
    pub addresses: Vec<AddressCollect>,
}

/// A claimed identity with the key material presented for it.
#[derive(Clone, Debug, PartialEq, Eq)]
pub struct ViewerInfo {
    pub address: String,
    pub viewing_key: String,
}

#[derive(Clone, Debug, PartialEq, Eq)]
pub enum ExecuteMsg {
    RevokePermit { permit_name: String },
    CollectAddress { token_ids: Vec<String>, wallet_address: String },
}

#[derive(Clone, Debug, PartialEq, Eq)]
pub enum QueryMsg {
    GetAddresses { viewer: ViewerInfo, start_page: u32, page_size: u32 },
}

/// The registration sent to the oracle at setup: the viewing key it will
/// accept from this contract.
#[derive(Clone, Debug, PartialEq, Eq)]
pub struct RegisterViewingKey {
    pub key: String,
    pub code_hash: String,
    pub contract_address: String,
}

#[derive(Clone, Debug, PartialEq, Eq)]
pub enum ContractError {
    /// No configuration has been stored.
    Uninitialized,
    /// Wrong viewing key for the claimed identity, or not the owner.
    Unauthorized,
    /// The oracle reports another owner for this asset.
    NotOwner(String),
    /// The oracle query failed; its message is kept.
    Oracle(String),
}

} // verus!
