use address_collector::{
    derive_viewing_key, execute, instantiate, query, AddressCollect, Contract, ContractError,
    ExecuteMsg, InstantiateMsg, OwnershipIndex, QueryMsg, RevocationLedger, ViewerInfo,
};

fn s(x: &str) -> String {
    x.to_string()
}

fn setup(entropy: &str) -> Contract {
    let msg = InstantiateMsg {
        entropy: s(entropy),
        nft_contract_address: s("secret1nft"),
        nft_code_hash: s("abc123"),
    };
    let (contract, _) = instantiate(&s("admin"), &msg);
    contract
}

fn entries(c: &Contract) -> Vec<(String, String)> {
    c.index.paging(0, 1000)
}

#[test]
fn derive_known_values() {
    assert_eq!(derive_viewing_key("seed1"), "U4oQlPv072Pa75Zrsvgm50UEO9DJDUYllyqFhc3l9pw=");
    assert_eq!(derive_viewing_key(""), "47DEQpj8HBSa+/TImW+5JCeuQeRkm5NMpJWZG3hSuFU=");
    assert_eq!(derive_viewing_key("admin-key"), "prETPc5c3tvBZ+IT4adKtZR17usHNJ4VMBMVHTmmdIM=");
}

#[test]
fn derive_is_deterministic_and_input_sensitive() {
    assert_eq!(derive_viewing_key("seed1"), derive_viewing_key("seed1"));
    assert_ne!(derive_viewing_key("seed1"), derive_viewing_key("seed2"));
}

#[test]
fn instantiate_stores_config_and_registration() {
    let msg = InstantiateMsg {
        entropy: s("seed1"),
        nft_contract_address: s("secret1nft"),
        nft_code_hash: s("abc123"),
    };
    let (contract, register) = instantiate(&s("admin"), &msg);
    let st = contract.config.clone().unwrap();
    assert_eq!(st.owner, "admin");
    assert_eq!(st.viewing_key, "U4oQlPv072Pa75Zrsvgm50UEO9DJDUYllyqFhc3l9pw=");
    assert_eq!(st.nft_contract_address, "secret1nft");
    assert_eq!(st.nft_code_hash, "abc123");
    assert_eq!(register.key, st.viewing_key);
    assert_eq!(register.code_hash, "abc123");
    assert_eq!(register.contract_address, "secret1nft");
    assert_eq!(contract.index.len(), 0);
}

#[test]
fn admin_key_accepts_owner_with_material() {
    let c = setup("seed1");
    let viewer = ViewerInfo { address: s("admin"), viewing_key: s("seed1") };
    assert_eq!(c.check_admin_key(&viewer), Ok(()));
}

#[test]
fn admin_key_rejects_stored_key_wrong_material_or_address() {
    let c = setup("seed1");
    let stored = c.config.clone().unwrap().viewing_key;
    let replay = ViewerInfo { address: s("admin"), viewing_key: stored };
    assert_eq!(c.check_admin_key(&replay), Err(ContractError::Unauthorized));
    let wrong_key = ViewerInfo { address: s("admin"), viewing_key: s("seed2") };
    assert_eq!(c.check_admin_key(&wrong_key), Err(ContractError::Unauthorized));
    let wrong_addr = ViewerInfo { address: s("mallory"), viewing_key: s("seed1") };
    assert_eq!(c.check_admin_key(&wrong_addr), Err(ContractError::Unauthorized));
}

#[test]
fn admin_key_uninitialized() {
    let c = Contract { config: None, index: OwnershipIndex::new(), revoked: RevocationLedger::new() };
    let viewer = ViewerInfo { address: s("admin"), viewing_key: s("seed1") };
    assert_eq!(c.check_admin_key(&viewer), Err(ContractError::Uninitialized));
}

#[test]
fn scenario_alice_then_bob() {
    let mut c = setup("seed1");
    let r = c.try_collect_address(&s("alice"), &vec![s("t1")], &s("addrX"), &vec![Ok(s("alice"))]);
    assert_eq!(r, Ok(()));
    assert_eq!(entries(&c), vec![(s("t1"), s("addrX"))]);
    let r = c.try_collect_address(&s("bob"), &vec![s("t1")], &s("addrY"), &vec![Ok(s("alice"))]);
    assert_eq!(r, Err(ContractError::NotOwner(s("t1"))));
    assert_eq!(entries(&c), vec![(s("t1"), s("addrX"))]);
    assert_eq!(c.index.get(&s("t1")), Some(s("addrX")));
}

#[test]
fn collect_two_in_order() {
    let mut c = setup("seed1");
    let r = c.try_collect_address(
        &s("alice"),
        &vec![s("a1"), s("a2")],
        &s("addr"),
        &vec![Ok(s("alice")), Ok(s("alice"))],
    );
    assert_eq!(r, Ok(()));
    assert_eq!(c.index.paging(0, 2), vec![(s("a1"), s("addr")), (s("a2"), s("addr"))]);
    assert_eq!(c.index.paging(0, 10), vec![(s("a1"), s("addr")), (s("a2"), s("addr"))]);
}

#[test]
fn collect_stops_at_first_foreign_owner() {
    let mut c = setup("seed1");
    let r = c.try_collect_address(
        &s("alice"),
        &vec![s("a1"), s("a2"), s("a3")],
        &s("addr"),
        &vec![Ok(s("alice")), Ok(s("carol")), Ok(s("alice"))],
    );
    assert_eq!(r, Err(ContractError::NotOwner(s("a2"))));
    assert_eq!(entries(&c), vec![(s("a1"), s("addr"))]);
    assert_eq!(c.index.get(&s("a2")), None);
    assert_eq!(c.index.get(&s("a3")), None);
}

#[test]
fn collect_passes_oracle_error_on() {
    let mut c = setup("seed1");
    let r = c.try_collect_address(
        &s("alice"),
        &vec![s("a1"), s("a2")],
        &s("addr"),
        &vec![Err(s("unknown token")), Ok(s("alice"))],
    );
    assert_eq!(r, Err(ContractError::Oracle(s("unknown token"))));
    assert_eq!(c.index.len(), 0);
}

#[test]
fn collect_uninitialized() {
    let mut c = Contract { config: None, index: OwnershipIndex::new(), revoked: RevocationLedger::new() };
    let r = c.try_collect_address(&s("alice"), &vec![s("a1")], &s("addr"), &vec![Ok(s("alice"))]);
    assert_eq!(r, Err(ContractError::Uninitialized));
    assert_eq!(c.index.len(), 0);
}

#[test]
fn collect_overwrites_in_place() {
    let mut c = setup("seed1");
    let ids = vec![s("a1"), s("a2")];
    let ok = vec![Ok(s("alice")), Ok(s("alice"))];
    assert_eq!(c.try_collect_address(&s("alice"), &ids, &s("old"), &ok), Ok(()));
    assert_eq!(c.try_collect_address(&s("alice"), &vec![s("a1")], &s("new"), &vec![Ok(s("alice"))]), Ok(()));
    assert_eq!(entries(&c), vec![(s("a1"), s("new")), (s("a2"), s("old"))]);
}

#[test]
fn collect_one_step() {
    let mut c = setup("seed1");
    assert_eq!(c.collect_one(&s("alice"), &s("t9"), &s("w"), &Ok(s("alice"))), Ok(()));
    assert_eq!(c.collect_one(&s("alice"), &s("t8"), &s("w"), &Ok(s("bob"))), Err(ContractError::NotOwner(s("t8"))));
    assert_eq!(c.collect_one(&s("alice"), &s("t7"), &s("w"), &Err(s("down"))), Err(ContractError::Oracle(s("down"))));
    assert_eq!(entries(&c), vec![(s("t9"), s("w"))]);
}

#[test]
fn oracle_viewer_bundle() {
    let c = setup("seed1");
    let v = c.oracle_viewer(&s("secret1self")).unwrap();
    assert_eq!(v.address, "secret1self");
    assert_eq!(v.viewing_key, "U4oQlPv072Pa75Zrsvgm50UEO9DJDUYllyqFhc3l9pw=");
    let empty = Contract { config: None, index: OwnershipIndex::new(), revoked: RevocationLedger::new() };
    assert_eq!(empty.oracle_viewer(&s("x")), Err(ContractError::Uninitialized));
}

#[test]
fn query_pages_after_authorization() {
    let mut c = setup("seed1");
    let ids: Vec<String> = (0..5).map(|i| format!("t{}", i)).collect();
    let replies: Vec<Result<String, String>> = ids.iter().map(|_| Ok(s("alice"))).collect();
    assert_eq!(c.try_collect_address(&s("alice"), &ids, &s("w"), &replies), Ok(()));
    let viewer = ViewerInfo { address: s("admin"), viewing_key: s("seed1") };
    let msg = QueryMsg::GetAddresses { viewer: viewer.clone(), start_page: 1, page_size: 2 };
    let resp = query(&c, &msg).unwrap();
    assert_eq!(
        resp.addresses,
        vec![
            AddressCollect { token_id: s("t2"), address: s("w") },
            AddressCollect { token_id: s("t3"), address: s("w") },
        ]
    );
    let last = c.query_addresses(&viewer, 2, 2).unwrap();
    assert_eq!(last.addresses, vec![AddressCollect { token_id: s("t4"), address: s("w") }]);
    let bad = ViewerInfo { address: s("admin"), viewing_key: s("nope") };
    let msg = QueryMsg::GetAddresses { viewer: bad, start_page: 0, page_size: 2 };
    assert_eq!(query(&c, &msg), Err(ContractError::Unauthorized));
}

#[test]
fn execute_dispatches() {
    let mut c = setup("seed1");
    let revoke = ExecuteMsg::RevokePermit { permit_name: s("transfer-permit") };
    assert_eq!(execute(&mut c, &s("alice"), &revoke, &vec![]), Ok(()));
    assert!(c.revoked.is_revoked(&s("alice"), &s("transfer-permit")));
    let collect = ExecuteMsg::CollectAddress { token_ids: vec![s("t1")], wallet_address: s("w") };
    assert_eq!(execute(&mut c, &s("alice"), &collect, &vec![Ok(s("alice"))]), Ok(()));
    assert_eq!(entries(&c), vec![(s("t1"), s("w"))]);
}
