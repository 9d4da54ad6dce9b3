//! Setup, the ownership-gated collection workflow, revocation and the
//! viewing-key gated query.

use vstd::prelude::*;

use crate::derivation::{derive_viewing_key, viewing_key_of};
use crate::index::{
    entry_view, has_key, inserted, keys_unique, lemma_inserted_other, lemma_inserted_unique,
    page_of, position_of, value_of, OwnershipIndex,
};
use crate::ledger::RevocationLedger;
use crate::msg::{
    AddressCollect, AddressResponse, ContractError, ExecuteMsg, InstantiateMsg, QueryMsg,
    RegisterViewingKey, State, ViewerInfo,
};

verus! {

/// The contract's whole state.
pub struct Contract {
    pub config: Option<State>,
    pub index: OwnershipIndex,
    pub revoked: RevocationLedger,
}

impl Contract {
    pub open spec fn wf(&self) -> bool {
        self.index.wf()
    }
}

/// The identifiers of a batch, as character sequences.
pub open spec fn ids_view(ids: Seq<String>) -> Seq<Seq<char>> {
    ids.map_values(|s: String| s@)
}

/// The reported entries, as (identifier, address) pairs.
pub open spec fn collects_view(v: Seq<AddressCollect>) -> Seq<(Seq<char>, Seq<char>)> {
    v.map_values(|a: AddressCollect| (a.token_id@, a.address@))
}

/// The oracle's reply confirms `sender` as the asset's owner.
pub open spec fn reply_accepts(reply: Result<String, String>, sender: Seq<char>) -> bool {
    reply matches Ok(owner) && owner@ == sender
}

/// The error for a reply that does not confirm the caller for `token_id`.
pub open spec fn reply_error(reply: Result<String, String>, token_id: String) -> ContractError {
    match reply {
        Ok(_) => ContractError::NotOwner(token_id),
        Err(m) => ContractError::Oracle(m),
    }
}

/// The entries after the first `n` identifiers of `ids` were mapped to
/// `wallet`, in order.
pub open spec fn collected(
    s: Seq<(Seq<char>, Seq<char>)>,
    ids: Seq<Seq<char>>,
    wallet: Seq<char>,
    n: nat,
) -> Seq<(Seq<char>, Seq<char>)>
    decreases n,
{
    if n == 0 {
        s
    } else {
        inserted(collected(s, ids, wallet, (n - 1) as nat), ids[n - 1], wallet)
    }
}

/// The outcome of the authorization check, given the viewing key derived
/// from the presented material.
pub open spec fn authorization(config: Option<State>, address: Seq<char>, derived: Seq<char>) -> Result<
    (),
    ContractError,
> {
    match config {
        None => Err(ContractError::Uninitialized),
        Some(st) => if derived == st.viewing_key@ && address == st.owner@ {
            Ok(())
        } else {
            Err(ContractError::Unauthorized)
        },
    }
}

/// Sets up the contract: stores `sender` as owner with the viewing key
/// derived from `msg.entropy`, and returns the registration of that key
/// with the oracle.
pub fn instantiate(sender: &String, msg: &InstantiateMsg) -> (r: (Contract, RegisterViewingKey))
    ensures
        r.0.wf(),
        r.0.config matches Some(st) && st.owner@ == sender@ && st.viewing_key@ == viewing_key_of(
            msg.entropy@,
        ) && st.nft_contract_address@ == msg.nft_contract_address@ && st.nft_code_hash@
            == msg.nft_code_hash@,
        r.0.index@ == Seq::<(Seq<char>, Seq<char>)>::empty(),
        r.0.revoked@ == Set::<(Seq<char>, Seq<char>)>::empty(),
        r.1.key@ == viewing_key_of(msg.entropy@),
        r.1.code_hash@ == msg.nft_code_hash@,
        r.1.contract_address@ == msg.nft_contract_address@,
{
    let viewing_key = derive_viewing_key(msg.entropy.as_str());
    let state = State {
        owner: sender.clone(),
        viewing_key: viewing_key.clone(),
        nft_contract_address: msg.nft_contract_address.clone(),
        nft_code_hash: msg.nft_code_hash.clone(),
    };
    let register = RegisterViewingKey {
        key: viewing_key,
        code_hash: msg.nft_code_hash.clone(),
        contract_address: msg.nft_contract_address.clone(),
    };
    let contract = Contract {
        config: Some(state),
        index: OwnershipIndex::new(),
        revoked: RevocationLedger::new(),
    };
    (contract, register)
}

/// Authorization given an already derived viewing key: succeeds exactly
/// when the key equals the stored one and `address` is the owner.
pub fn authorize_derived(config: &Option<State>, address: &String, derived: &String) -> (r: Result<
    (),
    ContractError,
>)
    ensures
        r == authorization(*config, address@, derived@),
{
    match config {
        None => Err(ContractError::Uninitialized),
        Some(st) => {
            if *derived == st.viewing_key && *address == st.owner {
                Ok(())
            } else {
                Err(ContractError::Unauthorized)
            }
        },
    }
}

impl Contract {
    /// Checks a viewer: the viewing key derived from the presented material
    /// must equal the stored one, and the claimed address must be the owner.
    pub fn check_admin_key(&self, viewer: &ViewerInfo) -> (r: Result<(), ContractError>)
        ensures
            r == authorization(self.config, viewer.address@, viewing_key_of(viewer.viewing_key@)),
    {
        if self.config.is_none() {
            return Err(ContractError::Uninitialized);
        }
        let derived = derive_viewing_key(viewer.viewing_key.as_str());
        authorize_derived(&self.config, &viewer.address, &derived)
    }

    /// The proof of authorization handed to the oracle with each ownership
    /// query: this contract's address and the stored viewing key.
    pub fn oracle_viewer(&self, contract_address: &String) -> (r: Result<ViewerInfo, ContractError>)
        ensures
            self.config is None ==> r == Err::<ViewerInfo, ContractError>(
                ContractError::Uninitialized,
            ),
            self.config matches Some(st) ==> r matches Ok(v) && v.address@ == contract_address@
                && v.viewing_key@ == st.viewing_key@,
    {
        match &self.config {
            None => Err(ContractError::Uninitialized),
            Some(st) => Ok(
                ViewerInfo { address: contract_address.clone(), viewing_key: st.viewing_key.clone() },
            ),
        }
    }

    /// One step of collection: given the oracle's reply for `token_id`,
    /// maps it to `wallet` when the reply names `sender` as owner, and fails
    /// without writing otherwise.
    pub fn collect_one(
        &mut self,
        sender: &String,
        token_id: &String,
        wallet: &String,
        reply: &Result<String, String>,
    ) -> (r: Result<(), ContractError>)
        requires
            old(self).wf(),
        ensures
            final(self).wf(),
            final(self).config == old(self).config,
            final(self).revoked@ == old(self).revoked@,
            reply_accepts(*reply, sender@) ==> r is Ok && final(self).index@ == inserted(
                old(self).index@,
                token_id@,
                wallet@,
            ),
            !reply_accepts(*reply, sender@) ==> r == Err::<(), ContractError>(
                reply_error(*reply, *token_id),
            ) && final(self).index@ == old(self).index@,
    {
        match reply {
            Ok(owner) => {
                if *owner == *sender {
                    self.index.insert(token_id, wallet);
                    Ok(())
                } else {
                    Err(ContractError::NotOwner(token_id.clone()))
                }
            },
            Err(m) => Err(ContractError::Oracle(m.clone())),
        }
    }

    /// Collection of a batch: `replies[i]` is the oracle's reply for
    /// `token_ids[i]`. Identifiers are handled in order; the first one whose
    /// reply does not confirm `sender` stops the batch with its error, and
    /// those before it stay mapped to `wallet`.
    pub fn try_collect_address(
        &mut self,
        sender: &String,
        token_ids: &Vec<String>,
        wallet: &String,
        replies: &Vec<Result<String, String>>,
    ) -> (r: Result<(), ContractError>)
        requires
            old(self).wf(),
            replies.len() == token_ids.len(),
        ensures
            final(self).wf(),
            final(self).config == old(self).config,
            final(self).revoked@ == old(self).revoked@,
            old(self).config is None ==> r == Err::<(), ContractError>(ContractError::Uninitialized)
                && final(self).index@ == old(self).index@,
            old(self).config is Some ==> (r is Ok <==> forall|i: int|
                0 <= i < token_ids.len() ==> reply_accepts(#[trigger] replies@[i], sender@)),
            old(self).config is Some && r is Ok ==> final(self).index@ == collected(
                old(self).index@,
                ids_view(token_ids@),
                wallet@,
                token_ids.len() as nat,
            ),
            old(self).config is Some && r is Err ==> exists|k: int|
                0 <= k < token_ids.len() && (forall|i: int|
                    0 <= i < k ==> reply_accepts(#[trigger] replies@[i], sender@)) && !reply_accepts(
                    replies@[k],
                    sender@,
                ) && r == Err::<(), ContractError>(reply_error(replies@[k], token_ids@[k]))
                    && final(self).index@ == collected(
                    old(self).index@,
                    ids_view(token_ids@),
                    wallet@,
                    k as nat,
                ),
    {
        if self.config.is_none() {
            return Err(ContractError::Uninitialized);
        }
        let ghost s0 = self.index@;
        let ghost ids = ids_view(token_ids@);
        let n = token_ids.len();
        let mut i: usize = 0;
        while i < n
            invariant
                n == token_ids.len(),
                n == replies.len(),
                i <= n,
                self.wf(),
                self.config == old(self).config,
                old(self).config is Some,
                self.revoked@ == old(self).revoked@,
                s0 == old(self).index@,
                ids == ids_view(token_ids@),
                forall|j: int| 0 <= j < i ==> reply_accepts(#[trigger] replies@[j], sender@),
                self.index@ == collected(s0, ids, wallet@, i as nat),
            decreases n - i,
        {
            let r = self.collect_one(sender, &token_ids[i], wallet, &replies[i]);
            if r.is_err() {
                assert(!reply_accepts(replies@[i as int], sender@));
                return r;
            }
            assert(ids[i as int] == token_ids@[i as int]@);
            i = i + 1;
        }
        Ok(())
    }

    /// Records the permit `permit_name` of `sender` as revoked.
    pub fn try_revoke_permit(&mut self, sender: &String, permit_name: &String)
        requires
            old(self).wf(),
        ensures
            final(self).wf(),
            final(self).config == old(self).config,
            final(self).index@ == old(self).index@,
            final(self).revoked@ == old(self).revoked@.insert((sender@, permit_name@)),
    {
        self.revoked.revoke(sender, permit_name);
    }

    /// The entries of page `start_page`, after the viewer passed the
    /// authorization check; the check's error otherwise.
    pub fn query_addresses(&self, viewer: &ViewerInfo, start_page: u32, page_size: u32) -> (r:
        Result<AddressResponse, ContractError>)
        ensures
            r is Ok <==> authorization(
                self.config,
                viewer.address@,
                viewing_key_of(viewer.viewing_key@),
            ) is Ok,
            r matches Err(e) ==> authorization(
                self.config,
                viewer.address@,
                viewing_key_of(viewer.viewing_key@),
            ) == Err::<(), ContractError>(e),
            r matches Ok(resp) ==> collects_view(resp.addresses@) == page_of(
                self.index@,
                start_page as int,
                page_size as int,
            ),
    {
        match self.check_admin_key(viewer) {
            Err(e) => { return Err(e) },
            Ok(()) => {},
        }
        let page = self.index.paging(start_page, page_size);
        let ghost target = page_of(self.index@, start_page as int, page_size as int);
        let mut addresses: Vec<AddressCollect> = Vec::new();
        let n = page.len();
        let mut i: usize = 0;
        while i < n
            invariant
                n == page.len(),
                i <= n,
                crate::index::entries_view(page@) == target,
                collects_view(addresses@) =~= target.subrange(0, i as int),
            decreases n - i,
        {
            let ghost before = addresses@;
            let token_id = page[i].0.clone();
            let address = page[i].1.clone();
            addresses.push(AddressCollect { token_id, address });
            proof {
                assert(target[i as int] == entry_view(page@[i as int]));
                assert(collects_view(addresses@) =~= collects_view(before).push(target[i as int]));
            }
            i = i + 1;
        }
        assert(target.subrange(0, n as int) =~= target);
        Ok(AddressResponse { addresses })
    }
}

/// Handles a state-changing message from `sender`. For a collection,
/// `replies[i]` is the oracle's reply for the i-th identifier.
pub fn execute(
    contract: &mut Contract,
    sender: &String,
    msg: &ExecuteMsg,
    replies: &Vec<Result<String, String>>,
) -> (r: Result<(), ContractError>)
    requires
        old(contract).wf(),
        msg matches ExecuteMsg::CollectAddress { token_ids, .. } ==> replies.len()
            == token_ids.len(),
    ensures
        final(contract).wf(),
        final(contract).config == old(contract).config,
        msg matches ExecuteMsg::RevokePermit { permit_name } ==> r is Ok && final(contract).index@
            == old(contract).index@ && final(contract).revoked@ == old(contract).revoked@.insert(
            (sender@, permit_name@),
        ),
        msg matches ExecuteMsg::CollectAddress { token_ids, wallet_address } ==> {
            &&& final(contract).revoked@ == old(contract).revoked@
            &&& old(contract).config is None ==> r == Err::<(), ContractError>(
                ContractError::Uninitialized,
            )
            &&& old(contract).config is Some ==> (r is Ok <==> forall|i: int|
                0 <= i < token_ids.len() ==> reply_accepts(#[trigger] replies@[i], sender@))
            &&& old(contract).config is Some && r is Ok ==> final(contract).index@ == collected(
                old(contract).index@,
                ids_view(token_ids@),
                wallet_address@,
                token_ids.len() as nat,
            )
            &&& old(contract).config is Some && r is Err ==> exists|k: int|
                0 <= k < token_ids.len() && (forall|i: int|
                    0 <= i < k ==> reply_accepts(#[trigger] replies@[i], sender@))
                    && !reply_accepts(replies@[k], sender@) && r == Err::<(), ContractError>(
                    reply_error(replies@[k], token_ids@[k]),
                ) && final(contract).index@ == collected(
                    old(contract).index@,
                    ids_view(token_ids@),
                    wallet_address@,
                    k as nat,
                )
        },
{
    match msg {
        ExecuteMsg::RevokePermit { permit_name } => {
            contract.try_revoke_permit(sender, permit_name);
            Ok(())
        },
        ExecuteMsg::CollectAddress { token_ids, wallet_address } => {
            contract.try_collect_address(sender, token_ids, wallet_address, replies)
        },
    }
}

/// Answers a read message.
pub fn query(contract: &Contract, msg: &QueryMsg) -> (r: Result<AddressResponse, ContractError>)
    ensures
        msg matches QueryMsg::GetAddresses { viewer, start_page, page_size } ==> {
            &&& (r is Ok <==> authorization(
                contract.config,
                viewer.address@,
                viewing_key_of(viewer.viewing_key@),
            ) is Ok)
            &&& r matches Err(e) ==> authorization(
                contract.config,
                viewer.address@,
                viewing_key_of(viewer.viewing_key@),
            ) == Err::<(), ContractError>(e)
            &&& r matches Ok(resp) ==> collects_view(resp.addresses@) == page_of(
                contract.index@,
                start_page as int,
                page_size as int,
            )
        },
{
    match msg {
        QueryMsg::GetAddresses { viewer, start_page, page_size } => {
            contract.query_addresses(viewer, *start_page, *page_size)
        },
    }
}

/// Mapping the first `n` identifiers of a batch keeps identifiers unique and
/// leaves the address of every identifier outside them alone.
pub proof fn lemma_collected_other(
    s: Seq<(Seq<char>, Seq<char>)>,
    ids: Seq<Seq<char>>,
    wallet: Seq<char>,
    n: nat,
    other: Seq<char>,
)
    requires
        keys_unique(s),
        n <= ids.len(),
        forall|i: int| 0 <= i < n ==> ids[i] != other,
    ensures
        keys_unique(collected(s, ids, wallet, n)),
        value_of(collected(s, ids, wallet, n), other) == value_of(s, other),
    decreases n,
{
    if n > 0 {
        let m = (n - 1) as nat;
        lemma_collected_other(s, ids, wallet, m, other);
        lemma_inserted_unique(collected(s, ids, wallet, m), ids[m as int], wallet);
        lemma_inserted_other(collected(s, ids, wallet, m), ids[m as int], wallet, other);
    }
}

/// Ownership gate: when the oracle names someone other than the caller as
/// owner of the k-th identifier of a batch, the batch fails there with
/// `NotOwner` for that identifier, and the index it leaves differs from the
/// one before the batch only at identifiers handled before the k-th: every
/// other identifier, the k-th and those after it included, keeps its
/// address.
pub proof fn lemma_ownership_gate(
    s: Seq<(Seq<char>, Seq<char>)>,
    ids: Seq<String>,
    wallet: Seq<char>,
    sender: Seq<char>,
    replies: Seq<Result<String, String>>,
    k: int,
    other: Seq<char>,
)
    requires
        keys_unique(s),
        0 <= k < ids.len(),
        replies.len() == ids.len(),
        forall|i: int| 0 <= i < k ==> reply_accepts(#[trigger] replies[i], sender),
        replies[k] matches Ok(owner) && owner@ != sender,
        forall|i: int| 0 <= i < k ==> (#[trigger] ids[i])@ != other,
    ensures
        !reply_accepts(replies[k], sender),
        reply_error(replies[k], ids[k]) == ContractError::NotOwner(ids[k]),
        value_of(collected(s, ids_view(ids), wallet, k as nat), other) == value_of(s, other),
{
    assert forall|i: int| 0 <= i < k implies ids_view(ids)[i] != other by {
        assert(ids_view(ids)[i] == ids[i]@);
    }
    lemma_collected_other(s, ids_view(ids), wallet, k as nat, other);
}

/// Commit on success: a batch of two new, distinct identifiers that both
/// pass appends them in order, and a first page large enough to hold the
/// index lists them in that order after the earlier entries.
pub proof fn lemma_commit_on_success(
    s: Seq<(Seq<char>, Seq<char>)>,
    a1: Seq<char>,
    a2: Seq<char>,
    wallet: Seq<char>,
    page_size: int,
)
    requires
        keys_unique(s),
        !has_key(s, a1),
        !has_key(s, a2),
        a1 != a2,
        page_size >= s.len() + 2,
    ensures
        collected(s, seq![a1, a2], wallet, 2) == s.push((a1, wallet)).push((a2, wallet)),
        page_of(collected(s, seq![a1, a2], wallet, 2), 0, page_size) == s.push((a1, wallet)).push(
            (a2, wallet),
        ),
{
    let ids = seq![a1, a2];
    let s1 = s.push((a1, wallet));
    assert(collected(s, ids, wallet, 0) == s);
    assert(collected(s, ids, wallet, 1) == s1);
    assert(!has_key(s1, a2)) by {
        if has_key(s1, a2) {
            let q = position_of(s1, a2);
            assert(s[q].0 == a2);
        }
    }
    assert(collected(s, ids, wallet, 2) == s1.push((a2, wallet)));
    let t = s1.push((a2, wallet));
    assert(0 * page_size == 0);
    assert(t.subrange(0, t.len() as int) =~= t);
}

/// The smaller of `x` and `k`.
pub open spec fn clip(x: int, k: int) -> int {
    if x < k {
        x
    } else {
        k
    }
}

/// Paging: page `p` of size `size` is the slice
/// `[min(k, p * size), min(k, p * size + size))` of the `k` entries; it is
/// empty when `p * size >= k` and when `size == 0`.
pub proof fn lemma_paging<A>(s: Seq<A>, p: nat, size: nat)
    ensures
        page_of(s, p as int, size as int) == s.subrange(
            clip((p * size) as int, s.len() as int),
            clip((p * size + size) as int, s.len() as int),
        ),
        p * size >= s.len() ==> page_of(s, p as int, size as int) == Seq::<A>::empty(),
        size == 0 ==> page_of(s, p as int, size as int) == Seq::<A>::empty(),
{
    assert(p * size >= 0) by (nonlinear_arith);
    if size == 0 {
        assert(p * size == 0) by (nonlinear_arith)
            requires
                size == 0,
        ;
    }
    let start = (p * size) as int;
    if start >= s.len() {
        assert(s.subrange(clip(start, s.len() as int), clip(start + size, s.len() as int))
            =~= Seq::<A>::empty());
    }
    if size == 0 && start < s.len() {
        assert(s.subrange(start, start) =~= Seq::<A>::empty());
    }
}

/// Revoking is idempotent: revoking the same permit twice leaves the same
/// set of revoked pairs as revoking it once, and the pair is revoked.
pub proof fn lemma_revocation_idempotent(ledger: RevocationLedger, holder: Seq<char>, permit_name: Seq<char>)
    ensures
        ledger@.insert((holder, permit_name)).insert((holder, permit_name)) == ledger@.insert(
            (holder, permit_name),
        ),
        ledger@.insert((holder, permit_name)).contains((holder, permit_name)),
{
    let once = ledger@.insert((holder, permit_name));
    assert(once.insert((holder, permit_name)) =~= once);
}

} // verus!
