//! An access-controlled index from asset identifiers to wallet addresses.
//!
//! Entries are written only after an ownership oracle confirms that the
//! caller owns the asset; reads are gated by a derived viewing key, and a
//! ledger records revoked permits.

mod contract;
mod derivation;
mod index;
mod ledger;
mod msg;

pub use contract::{
    authorization, authorize_derived, clip, collected, collects_view, execute, ids_view,
    instantiate, lemma_collected_other, lemma_commit_on_success, lemma_ownership_gate,
    lemma_paging, lemma_revocation_idempotent, query, reply_accepts, reply_error, Contract,
};
pub use derivation::{
    base64_of, derive_viewing_key, lemma_derivation_deterministic, sha256_of, viewing_key_of,
};
pub use index::{
    entries_view, entry_view, has_key, inserted, keys_unique, lemma_inserted_other,
    lemma_inserted_unique, page_of, position_of, value_of, OwnershipIndex,
};
pub use ledger::RevocationLedger;
pub use msg::{
    AddressCollect, AddressResponse, ContractError, ExecuteMsg, InstantiateMsg, QueryMsg,
    RegisterViewingKey, State, ViewerInfo,
};
