use supernova::changes::{PartialChangeSet, PartialChanges};
use supernova::encoding::{address_to_hex, flag_to_bytes, int_to_bytes, parse_address};
use supernova::merge::merge_block;
use supernova::model::{
    Block, BlockChanges, ChangeType, Error, FinancialType, ImplementationType, Transaction,
    TransactionChanges,
};
use supernova::v2::{self, PairCreatedEvent, SyncEvent};
use supernova::v3::{self, PoolCreatedEvent, PoolEvent, PoolEventKind};

const FACTORY: &str = "0x1111111111111111111111111111111111111111";

fn tx(n: u8) -> Transaction {
    Transaction { hash: vec![n; 32], from: vec![0xf0; 20], to: vec![0x0f; 20], index: n as u64 }
}

fn block() -> Block {
    Block { hash: vec![0xbb; 32], parent_hash: vec![0xba; 32], number: 100, ts: 1_700_000_000 }
}

fn pair_address() -> Vec<u8> {
    vec![0xaa; 20]
}

fn pair_id() -> String {
    format!("0x{}", "aa".repeat(20))
}

fn tok0() -> Vec<u8> {
    vec![0x01; 20]
}

fn tok1() -> Vec<u8> {
    vec![0x02; 20]
}

fn pair_created(t: u8, pair: Vec<u8>, stable: bool) -> PairCreatedEvent {
    PairCreatedEvent { tx: tx(t), address: vec![0x11; 20], pair, token0: tok0(), token1: tok1(), stable }
}

fn sync(t: u8, r0: Vec<u8>, r1: Vec<u8>) -> SyncEvent {
    SyncEvent {
        tx: tx(t),
        address: pair_address(),
        reserve0: r0,
        reserve1: r1,
        pool_tokens: Some(vec![tok0(), tok1()]),
    }
}

fn find<'a>(changes: &'a [TransactionChanges], hash: &[u8]) -> &'a TransactionChanges {
    let found: Vec<&TransactionChanges> = changes.iter().filter(|c| c.tx.hash == hash).collect();
    assert_eq!(found.len(), 1);
    found[0]
}

fn attr_value(c: &TransactionChanges, component: &str, name: &str) -> Vec<Vec<u8>> {
    c.entity_changes
        .iter()
        .filter(|e| e.component_id == component)
        .flat_map(|e| e.attributes.iter())
        .filter(|a| a.name == name)
        .map(|a| a.value.clone())
        .collect()
}

#[test]
fn hex_id_of_address() {
    assert_eq!(address_to_hex(&vec![0x0a, 0xbc, 0xff]), "0x0abcff");
    assert_eq!(address_to_hex(&vec![]), "0x");
    assert_eq!(address_to_hex(&pair_address()), pair_id());
}

#[test]
fn integer_and_flag_encoding() {
    assert_eq!(int_to_bytes(0), vec![0u8]);
    assert_eq!(int_to_bytes(30), vec![30u8]);
    assert_eq!(int_to_bytes(150), vec![0u8, 150]);
    assert_eq!(int_to_bytes(-1), vec![0xffu8]);
    assert_eq!(flag_to_bytes(true), vec![0u8, 0, 0, 1]);
    assert_eq!(flag_to_bytes(false), vec![0u8, 0, 0, 0]);
}

#[test]
fn factory_address_parsing() {
    assert_eq!(parse_address(FACTORY), Some(vec![0x11u8; 20]));
    assert_eq!(parse_address(&FACTORY[2..]), Some(vec![0x11u8; 20]));
    assert_eq!(parse_address("0x1234"), None);
    assert_eq!(parse_address("not an address"), None);
}

#[test]
fn invalid_factory_address_fails() {
    let r = v2::map_pools_created("0xzz", block(), &vec![pair_created(1, pair_address(), false)]);
    assert!(matches!(r, Err(Error::InvalidFactoryAddress)));
    let r = v3::map_pools_created("", block(), &vec![]);
    assert!(matches!(r, Err(Error::InvalidFactoryAddress)));
}

#[test]
fn creation_record_has_zero_reserves_and_balances() {
    let out = v2::map_pools_created(FACTORY, block(), &vec![pair_created(1, pair_address(), true)]).ok().unwrap();
    assert_eq!(out.block.number, 100);
    assert_eq!(out.changes.len(), 1);
    let rec = &out.changes[0];
    assert_eq!(rec.tx.hash, vec![1u8; 32]);
    assert_eq!(rec.component_changes.len(), 1);
    let comp = &rec.component_changes[0];
    assert_eq!(comp.id, pair_id());
    assert_eq!(comp.tokens, vec![tok0(), tok1()]);
    assert_eq!(comp.contracts, vec![pair_address()]);
    assert_eq!(comp.change, ChangeType::Creation);
    assert_eq!(comp.protocol_type.name, "supernova_v2_pool");
    assert_eq!(comp.protocol_type.financial_type, FinancialType::Swap);
    assert_eq!(comp.protocol_type.implementation_type, ImplementationType::Vm);
    assert_eq!(comp.static_att.len(), 2);
    assert_eq!(comp.static_att[0].name, "fee");
    assert_eq!(comp.static_att[0].value, vec![30u8]);
    assert_eq!(comp.static_att[1].name, "stable");
    assert_eq!(comp.static_att[1].value, vec![0u8, 0, 0, 1]);
    assert_eq!(rec.entity_changes.len(), 1);
    assert_eq!(rec.entity_changes[0].component_id, pair_id());
    assert_eq!(attr_value(rec, &pair_id(), "reserve0"), vec![vec![0u8]]);
    assert_eq!(attr_value(rec, &pair_id(), "reserve1"), vec![vec![0u8]]);
    assert_eq!(rec.balance_changes.len(), 2);
    assert_eq!(rec.balance_changes[0].token, tok0());
    assert_eq!(rec.balance_changes[1].token, tok1());
    for b in &rec.balance_changes {
        assert_eq!(b.balance, vec![0u8]);
        assert_eq!(b.component_id, pair_id().into_bytes());
    }
}

#[test]
fn creation_from_other_emitter_is_ignored() {
    let mut e = pair_created(1, pair_address(), false);
    e.address = vec![0x22; 20];
    let out = v2::map_pools_created(FACTORY, block(), &vec![e]).ok().unwrap();
    assert!(out.changes.is_empty());
}

#[test]
fn two_transactions_create_two_records() {
    let events = vec![pair_created(1, vec![0xaa; 20], false), pair_created(2, vec![0xab; 20], false)];
    let out = v2::map_pools_created(FACTORY, block(), &events).ok().unwrap();
    let merged = v2::map_pool_events(out, &vec![]).ok().unwrap();
    assert_eq!(merged.changes.len(), 2);
    assert_eq!(find(&merged.changes, &[1u8; 32]).component_changes.len(), 1);
    assert_eq!(find(&merged.changes, &[2u8; 32]).component_changes.len(), 1);
}

#[test]
fn later_sync_in_same_transaction_wins() {
    let created = v2::map_pools_created(FACTORY, block(), &vec![pair_created(1, pair_address(), false)]).ok().unwrap();
    let events = vec![sync(1, vec![100], vec![0, 200]), sync(1, vec![0, 150], vec![0, 250])];
    let out = v2::map_pool_events(created, &events).ok().unwrap();
    assert_eq!(out.changes.len(), 1);
    let rec = find(&out.changes, &[1u8; 32]);
    assert_eq!(rec.component_changes.len(), 1);
    assert_eq!(rec.entity_changes.len(), 1);
    assert_eq!(rec.entity_changes[0].attributes.len(), 2);
    assert_eq!(attr_value(rec, &pair_id(), "reserve0"), vec![vec![0u8, 150]]);
    assert_eq!(attr_value(rec, &pair_id(), "reserve1"), vec![vec![0u8, 250]]);
    assert_eq!(rec.balance_changes.len(), 2);
    assert_eq!(rec.balance_changes[0].token, tok0());
    assert_eq!(rec.balance_changes[0].balance, vec![0u8, 150]);
    assert_eq!(rec.balance_changes[1].token, tok1());
    assert_eq!(rec.balance_changes[1].balance, vec![0u8, 250]);
}

#[test]
fn unindexed_pool_fails_the_block() {
    let created = v2::map_pools_created(FACTORY, block(), &vec![pair_created(1, pair_address(), false)]).ok().unwrap();
    let mut missing = sync(2, vec![1], vec![2]);
    missing.pool_tokens = None;
    let r = v2::map_pool_events(created, &vec![sync(1, vec![5], vec![6]), missing]);
    assert!(matches!(r, Err(Error::PoolNotIndexed)));
}

#[test]
fn reserve_token_count_mismatch_fails() {
    let mut e = sync(1, vec![1], vec![2]);
    e.pool_tokens = Some(vec![tok0(), tok1(), vec![0x03; 20]]);
    let r = v2::map_pool_events(BlockChanges { block: block(), changes: vec![] }, &vec![e]);
    assert!(matches!(r, Err(Error::ReserveCountMismatch)));
    let mut e = sync(1, vec![1], vec![2]);
    e.pool_tokens = Some(vec![tok0()]);
    assert!(matches!(v2::handle_events(&vec![e]), Err(Error::ReserveCountMismatch)));
}

#[test]
fn update_without_creation_gets_its_own_record() {
    let created = v2::map_pools_created(FACTORY, block(), &vec![pair_created(1, pair_address(), false)]).ok().unwrap();
    let out = v2::map_pool_events(created, &vec![sync(2, vec![7], vec![8])]).ok().unwrap();
    assert_eq!(out.changes.len(), 2);
    let first = find(&out.changes, &[1u8; 32]);
    assert_eq!(attr_value(first, &pair_id(), "reserve0"), vec![vec![0u8]]);
    let second = find(&out.changes, &[2u8; 32]);
    assert!(second.component_changes.is_empty());
    assert_eq!(second.tx.index, 2);
    assert_eq!(attr_value(second, &pair_id(), "reserve0"), vec![vec![7u8]]);
    assert_eq!(attr_value(second, &pair_id(), "reserve1"), vec![vec![8u8]]);
    assert_eq!(second.balance_changes.len(), 2);
}

#[test]
fn repeated_creation_records_of_one_transaction_are_merged() {
    let events = vec![pair_created(1, vec![0xaa; 20], false), pair_created(1, vec![0xab; 20], false)];
    let out = v2::map_pools_created(FACTORY, block(), &events).ok().unwrap();
    assert_eq!(out.changes.len(), 2);
    let merged = v2::map_pool_events(out, &vec![]).ok().unwrap();
    assert_eq!(merged.changes.len(), 1);
    assert_eq!(merged.changes[0].component_changes.len(), 2);
    assert_eq!(merged.changes[0].entity_changes.len(), 2);
}

#[test]
fn processing_is_deterministic() {
    let run = || {
        let created = v2::map_pools_created(
            FACTORY,
            block(),
            &vec![pair_created(1, vec![0xaa; 20], false), pair_created(3, vec![0xab; 20], true)],
        )
        .ok()
        .unwrap();
        let out = v2::map_pool_events(created, &vec![sync(2, vec![1], vec![2]), sync(1, vec![3], vec![4])]).ok().unwrap();
        out.changes
            .iter()
            .map(|c| {
                let attrs: Vec<(String, String, Vec<u8>)> = c
                    .entity_changes
                    .iter()
                    .flat_map(|e| e.attributes.iter().map(move |a| (e.component_id.clone(), a.name.clone(), a.value.clone())))
                    .collect();
                let bals: Vec<(Vec<u8>, Vec<u8>)> = c.balance_changes.iter().map(|b| (b.token.clone(), b.balance.clone())).collect();
                (c.tx.hash.clone(), c.component_changes.len(), attrs, bals)
            })
            .collect::<Vec<_>>()
    };
    assert_eq!(run(), run());
}

#[test]
fn attributes_grouped_by_component() {
    let mut set = PartialChangeSet::new();
    let t = tx(1);
    for (c, n, v) in [("0xa", "x", 1u8), ("0xb", "x", 2), ("0xa", "y", 3), ("0xa", "x", 4)] {
        set.put_attribute(
            &t,
            supernova::changes::AttributeUpdate {
                component_id: c.to_string(),
                attribute: supernova::model::Attribute { name: n.to_string(), value: vec![v], change: ChangeType::Update },
            },
        );
    }
    assert_eq!(set.entries.len(), 1);
    let p: &PartialChanges = &set.entries[0];
    assert_eq!(p.entity_changes.len(), 3);
    let groups = p.consolidate_entity_changes();
    assert_eq!(groups.len(), 2);
    assert_eq!(groups[0].component_id, "0xa");
    let a: Vec<(String, Vec<u8>)> = groups[0].attributes.iter().map(|x| (x.name.clone(), x.value.clone())).collect();
    assert_eq!(a, vec![("x".to_string(), vec![4u8]), ("y".to_string(), vec![3u8])]);
    assert_eq!(groups[1].component_id, "0xb");
    assert_eq!(groups[1].attributes.len(), 1);
    assert_eq!(groups[1].attributes[0].value, vec![2u8]);
}

#[test]
fn merge_replaces_placeholder_values() {
    let created = v2::map_pools_created(FACTORY, block(), &vec![pair_created(1, pair_address(), false)]).ok().unwrap();
    let set = v2::handle_events(&vec![sync(1, vec![9], vec![10])]).ok().unwrap();
    let out = merge_block(set, created.changes);
    assert_eq!(out.len(), 1);
    assert_eq!(attr_value(&out[0], &pair_id(), "reserve0"), vec![vec![9u8]]);
    assert_eq!(out[0].entity_changes[0].attributes.len(), 2);
    assert_eq!(out[0].balance_changes[0].balance, vec![9u8]);
}

#[test]
fn algebra_pool_creation_record() {
    let e = PoolCreatedEvent { tx: tx(4), address: vec![0x11; 20], pool: pair_address(), token0: tok0(), token1: tok1() };
    let out = v3::map_pools_created(FACTORY, block(), &vec![e]).ok().unwrap();
    assert_eq!(out.changes.len(), 1);
    let rec = &out.changes[0];
    assert!(rec.entity_changes.is_empty());
    assert_eq!(rec.component_changes[0].id, pair_id());
    assert!(rec.component_changes[0].static_att.is_empty());
    assert_eq!(rec.component_changes[0].protocol_type.name, "supernova_algebra_pool");
    assert_eq!(rec.balance_changes.len(), 2);
    assert_eq!(rec.balance_changes[1].balance, vec![0u8]);
}

#[test]
fn algebra_swap_updates_last_write_wins() {
    let e = PoolCreatedEvent { tx: tx(1), address: vec![0x11; 20], pool: pair_address(), token0: tok0(), token1: tok1() };
    let created = v3::map_pools_created(FACTORY, block(), &vec![e]).ok().unwrap();
    let events = vec![
        PoolEvent { tx: tx(1), address: pair_address(), kind: PoolEventKind::Initialize { price: vec![1], tick: vec![2] } },
        PoolEvent {
            tx: tx(1),
            address: pair_address(),
            kind: PoolEventKind::Swap { price: vec![3], liquidity: vec![4], tick: vec![5] },
        },
        PoolEvent { tx: tx(2), address: pair_address(), kind: PoolEventKind::Initialize { price: vec![6], tick: vec![7] } },
    ];
    let out = v3::map_pool_events(created, &events);
    assert_eq!(out.changes.len(), 2);
    let first = find(&out.changes, &[1u8; 32]);
    assert_eq!(first.component_changes.len(), 1);
    assert_eq!(first.entity_changes.len(), 1);
    assert_eq!(first.entity_changes[0].attributes.len(), 3);
    assert_eq!(attr_value(first, &pair_id(), "sqrtPriceX96"), vec![vec![3u8]]);
    assert_eq!(attr_value(first, &pair_id(), "tick"), vec![vec![5u8]]);
    assert_eq!(attr_value(first, &pair_id(), "liquidity"), vec![vec![4u8]]);
    assert!(first.balance_changes.is_empty());
    let second = find(&out.changes, &[2u8; 32]);
    assert!(second.component_changes.is_empty());
    assert_eq!(attr_value(second, &pair_id(), "tick"), vec![vec![7u8]]);
}
