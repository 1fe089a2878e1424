//! Pair pools: creation by the pair factory and reserve updates by `Sync`.
use vstd::prelude::*;
use vstd::utf8::encode_utf8;
use crate::changes::{
    record_attr, record_balance, set_wf, AttributeUpdate, AttributeUpdateV, PartialChangeSet,
    PartialChangesV,
};
use crate::encoding::{
    address_to_hex, flag_bytes, flag_to_bytes, hex_id, id_bytes, int_to_bytes, parse_address, parsed_address,
    signed_be,
};
use crate::merge::{merge_block, merged};
use crate::model::{
    attribute, bytes_eq, bytes_list_view, copy_bytes, one, records_view, two, AttributeV, BalanceChange,
    BalanceChangeV, Block, BlockChanges, ChangeType, EntityChanges, EntityChangesV, Error, FinancialType, ImplementationType,
    ProtocolComponent, ProtocolComponentV, ProtocolType, Transaction, TransactionChanges,
    TransactionChangesV, TransactionV,
};

verus! {

/// A `PairCreated` event: emitter, new pair, its two tokens and whether it is a stable pair.
pub struct PairCreatedEvent {
    pub tx: Transaction,
    pub address: Vec<u8>,
    pub pair: Vec<u8>,
    pub token0: Vec<u8>,
    pub token1: Vec<u8>,
    pub stable: bool,
}

pub struct PairCreatedEventV {
    pub tx: TransactionV,
    pub address: Seq<u8>,
    pub pair: Seq<u8>,
    pub token0: Seq<u8>,
    pub token1: Seq<u8>,
    pub stable: bool,
}

impl View for PairCreatedEvent {
    type V = PairCreatedEventV;

    open spec fn view(&self) -> PairCreatedEventV {
        PairCreatedEventV {
            tx: self.tx@,
            address: self.address@,
            pair: self.pair@,
            token0: self.token0@,
            token1: self.token1@,
            stable: self.stable,
        }
    }
}

/// A `Sync` event of a pair: its two reserves (signed big-endian bytes), and the
/// pool's token list as the component index holds it (`None` where it holds none).
pub struct SyncEvent {
    pub tx: Transaction,
    pub address: Vec<u8>,
    pub reserve0: Vec<u8>,
    pub reserve1: Vec<u8>,
    pub pool_tokens: Option<Vec<Vec<u8>>>,
}

pub struct SyncEventV {
    pub tx: TransactionV,
    pub address: Seq<u8>,
    pub reserve0: Seq<u8>,
    pub reserve1: Seq<u8>,
    pub pool_tokens: Option<Seq<Seq<u8>>>,
}

impl View for SyncEvent {
    type V = SyncEventV;

    open spec fn view(&self) -> SyncEventV {
        SyncEventV {
            tx: self.tx@,
            address: self.address@,
            reserve0: self.reserve0@,
            reserve1: self.reserve1@,
            pool_tokens: match self.pool_tokens {
                Some(t) => Some(bytes_list_view(t@)),
                None => None,
            },
        }
    }
}

pub open spec fn created_view(e: Seq<PairCreatedEvent>) -> Seq<PairCreatedEventV> {
    e.map_values(|x: PairCreatedEvent| x@)
}

pub open spec fn sync_view(e: Seq<SyncEvent>) -> Seq<SyncEventV> {
    e.map_values(|x: SyncEvent| x@)
}

pub open spec fn update_attr(name: Seq<char>, value: Seq<u8>) -> AttributeV {
    AttributeV { name, value, change: ChangeType::Update }
}

pub open spec fn creation_attr(name: Seq<char>, value: Seq<u8>) -> AttributeV {
    AttributeV { name, value, change: ChangeType::Creation }
}

/// The record of a new pair: the component, zero reserves and zero balances.
pub open spec fn pair_record(e: PairCreatedEventV) -> TransactionChangesV {
    let id = hex_id(e.pair);
    TransactionChangesV {
        tx: e.tx,
        components: seq![ProtocolComponentV {
            id,
            tokens: seq![e.token0, e.token1],
            contracts: seq![e.pair],
            static_att: seq![
                creation_attr("fee"@, signed_be(30)),
                creation_attr("stable"@, flag_bytes(e.stable)),
            ],
            change: ChangeType::Creation,
            protocol_name: "supernova_v2_pool"@,
            financial_type: FinancialType::Swap,
            implementation_type: ImplementationType::Vm,
            tx: e.tx,
        }],
        entities: seq![EntityChangesV {
            component_id: id,
            attributes: seq![update_attr("reserve0"@, signed_be(0)), update_attr("reserve1"@, signed_be(0))],
        }],
        balances: seq![
            BalanceChangeV { token: e.token0, balance: signed_be(0), component_id: encode_utf8(id) },
            BalanceChangeV { token: e.token1, balance: signed_be(0), component_id: encode_utf8(id) },
        ],
    }
}

/// Records of the pairs created by the factory at `factory`, in event order.
pub open spec fn pair_records(evs: Seq<PairCreatedEventV>, factory: Seq<u8>) -> Seq<TransactionChangesV>
    decreases evs.len(),
{
    if evs.len() == 0 {
        Seq::empty()
    } else {
        let rest = pair_records(evs.drop_last(), factory);
        if evs.last().address == factory {
            rest.push(pair_record(evs.last()))
        } else {
            rest
        }
    }
}

/// The effect of one `Sync` event on the working set.
pub open spec fn apply_sync(s: Seq<PartialChangesV>, e: SyncEventV) -> Result<Seq<PartialChangesV>, Error> {
    match e.pool_tokens {
        None => Err(Error::PoolNotIndexed),
        Some(tokens) => if tokens.len() != 2 {
            Err(Error::ReserveCountMismatch)
        } else {
            let id = hex_id(e.address);
            let s1 = record_attr(s, e.tx, AttributeUpdateV { component_id: id, attribute: update_attr("reserve0"@, e.reserve0) });
            let s2 = record_attr(s1, e.tx, AttributeUpdateV { component_id: id, attribute: update_attr("reserve1"@, e.reserve1) });
            let s3 = record_balance(s2, e.tx, BalanceChangeV { token: tokens[0], balance: e.reserve0, component_id: encode_utf8(id) });
            Ok(record_balance(s3, e.tx, BalanceChangeV { token: tokens[1], balance: e.reserve1, component_id: encode_utf8(id) }))
        },
    }
}

/// The working set after a sequence of `Sync` events, or the first event's error.
pub open spec fn sync_fold(evs: Seq<SyncEventV>) -> Result<Seq<PartialChangesV>, Error>
    decreases evs.len(),
{
    if evs.len() == 0 {
        Ok(Seq::empty())
    } else {
        match sync_fold(evs.drop_last()) {
            Ok(s) => apply_sync(s, evs.last()),
            Err(e) => Err(e),
        }
    }
}

/// The creation record of one new pair.
fn pair_created(e: &PairCreatedEvent) -> (r: TransactionChanges)
    ensures
        r@ == pair_record(e@),
{
    let id = address_to_hex(&e.pair);
    let id_b = id_bytes(&id);
    let component = ProtocolComponent {
        id: id.clone(),
        tokens: two(copy_bytes(&e.token0), copy_bytes(&e.token1)),
        contracts: one(copy_bytes(&e.pair)),
        static_att: two(
            attribute("fee", int_to_bytes(30), ChangeType::Creation),
            attribute("stable", flag_to_bytes(e.stable), ChangeType::Creation),
        ),
        change: ChangeType::Creation,
        protocol_type: ProtocolType {
            name: <String as StringExecFns>::from_str("supernova_v2_pool"),
            financial_type: FinancialType::Swap,
            implementation_type: ImplementationType::Vm,
        },
        tx: e.tx.copy(),
    };
    let entity = EntityChanges {
        component_id: id,
        attributes: two(
            attribute("reserve0", int_to_bytes(0), ChangeType::Update),
            attribute("reserve1", int_to_bytes(0), ChangeType::Update),
        ),
    };
    let balances = two(
        BalanceChange { token: copy_bytes(&e.token0), balance: int_to_bytes(0), component_id: copy_bytes(&id_b) },
        BalanceChange { token: copy_bytes(&e.token1), balance: int_to_bytes(0), component_id: id_b },
    );
    let r = TransactionChanges {
        tx: e.tx.copy(),
        component_changes: one(component),
        entity_changes: one(entity),
        balance_changes: balances,
    };
    assert(r@.components[0].tokens =~= seq![e@.token0, e@.token1]);
    assert(r@.components[0].contracts =~= seq![e@.pair]);
    assert(r@.components[0].static_att =~= pair_record(e@).components[0].static_att);
    assert(r@.components =~= pair_record(e@).components);
    assert(r@.entities[0].attributes =~= pair_record(e@).entities[0].attributes);
    assert(r@.entities =~= pair_record(e@).entities);
    assert(r@.balances =~= pair_record(e@).balances);
    r
}

/// Appends a creation record for each `PairCreated` event emitted by `factory`.
pub fn get_pools(events: &Vec<PairCreatedEvent>, new_pools: &mut Vec<TransactionChanges>, factory: &Vec<u8>)
    ensures
        records_view(final(new_pools)@) == records_view(old(new_pools)@) + pair_records(created_view(events@), factory@),
{
    let ghost evs = created_view(events@);
    let ghost start = records_view(new_pools@);
    let mut i: usize = 0;
    assert(evs.take(0) =~= Seq::<PairCreatedEventV>::empty());
    assert(start + pair_records(evs.take(0), factory@) =~= start);
    while i < events.len()
        invariant
            evs == created_view(events@),
            start == records_view(old(new_pools)@),
            i <= events@.len(),
            records_view(new_pools@) == start + pair_records(evs.take(i as int), factory@),
        decreases events@.len() - i,
    {
        assert(evs.take(i + 1).drop_last() =~= evs.take(i as int));
        assert(evs.take(i + 1).last() == events@[i as int]@);
        let e = &events[i];
        if bytes_eq(&e.address, factory) {
            let ghost before = records_view(new_pools@);
            new_pools.push(pair_created(e));
            assert(records_view(new_pools@) =~= before.push(pair_record(e@)));
            assert(start + pair_records(evs.take(i + 1), factory@) =~= (start + pair_records(evs.take(i as int), factory@)).push(pair_record(e@)));
        }
        i = i + 1;
    }
    assert(evs.take(i as int) =~= evs);
}

/// Folds the `Sync` events of a block into per-transaction working entries;
/// fails on the first event whose pool is not indexed or whose token count is not two.
pub fn handle_events(events: &Vec<SyncEvent>) -> (r: Result<PartialChangeSet, Error>)
    ensures
        match r {
            Ok(set) => sync_fold(sync_view(events@)) == Ok::<Seq<PartialChangesV>, Error>(set@) && set_wf(set@),
            Err(e) => sync_fold(sync_view(events@)) == Err::<Seq<PartialChangesV>, Error>(e),
        },
{
    let ghost evs = sync_view(events@);
    let mut set = PartialChangeSet::new();
    let mut i: usize = 0;
    assert(evs.take(0) =~= Seq::<SyncEventV>::empty());
    while i < events.len()
        invariant
            evs == sync_view(events@),
            i <= events@.len(),
            sync_fold(evs.take(i as int)) == Ok::<Seq<PartialChangesV>, Error>(set@),
            set_wf(set@),
        decreases events@.len() - i,
    {
        assert(evs.take(i + 1).drop_last() =~= evs.take(i as int));
        assert(evs.take(i + 1).last() == events@[i as int]@);
        let e = &events[i];
        match &e.pool_tokens {
            None => {
                proof {
                    lemma_sync_fold_err(evs, i as int + 1, Error::PoolNotIndexed);
                }
                return Err(Error::PoolNotIndexed);
            },
            Some(tokens) => {
                if tokens.len() != 2 {
                    proof {
                        lemma_sync_fold_err(evs, i as int + 1, Error::ReserveCountMismatch);
                    }
                    return Err(Error::ReserveCountMismatch);
                }
                let id = address_to_hex(&e.address);
                let id_b = id_bytes(&id);
                set.put_attribute(&e.tx, AttributeUpdate {
                    component_id: id.clone(),
                    attribute: attribute("reserve0", copy_bytes(&e.reserve0), ChangeType::Update),
                });
                set.put_attribute(&e.tx, AttributeUpdate {
                    component_id: id,
                    attribute: attribute("reserve1", copy_bytes(&e.reserve1), ChangeType::Update),
                });
                set.put_balance(&e.tx, BalanceChange {
                    token: copy_bytes(&tokens[0]),
                    balance: copy_bytes(&e.reserve0),
                    component_id: copy_bytes(&id_b),
                });
                set.put_balance(&e.tx, BalanceChange {
                    token: copy_bytes(&tokens[1]),
                    balance: copy_bytes(&e.reserve1),
                    component_id: id_b,
                });
            },
        }
        i = i + 1;
    }
    assert(evs.take(i as int) =~= evs);
    Ok(set)
}

/// An error of an event stays the error of every longer sequence.
proof fn lemma_sync_fold_err(evs: Seq<SyncEventV>, n: int, e: Error)
    requires
        0 < n <= evs.len(),
        sync_fold(evs.take(n - 1)) is Ok,
        apply_sync(sync_fold(evs.take(n - 1))->Ok_0, evs[n - 1]) == Err::<Seq<PartialChangesV>, Error>(e),
    ensures
        sync_fold(evs) == Err::<Seq<PartialChangesV>, Error>(e),
    decreases evs.len() - n,
{
    assert(evs.take(n).drop_last() =~= evs.take(n - 1));
    if n == evs.len() {
        assert(evs.take(n) =~= evs);
    } else {
        lemma_sync_fold_err_grow(evs, n, e);
    }
}

proof fn lemma_sync_fold_err_grow(evs: Seq<SyncEventV>, n: int, e: Error)
    requires
        0 < n <= evs.len(),
        sync_fold(evs.take(n)) == Err::<Seq<PartialChangesV>, Error>(e),
    ensures
        sync_fold(evs) == Err::<Seq<PartialChangesV>, Error>(e),
    decreases evs.len() - n,
{
    if n < evs.len() {
        assert(evs.take(n + 1).drop_last() =~= evs.take(n));
        lemma_sync_fold_err_grow(evs, n + 1, e);
    } else {
        assert(evs.take(n) =~= evs);
    }
}

/// The creation records of a block: one per `PairCreated` event emitted by the
/// factory whose address `factory_address` gives; fails where it is no address.
pub fn map_pools_created(factory_address: &str, block: Block, events: &Vec<PairCreatedEvent>) -> (r: Result<BlockChanges, Error>)
    ensures
        match r {
            Ok(b) => parsed_address(factory_address@) is Some && b.block == block
                && records_view(b.changes@) == pair_records(created_view(events@), parsed_address(factory_address@)->Some_0),
            Err(e) => parsed_address(factory_address@) is None && e == Error::InvalidFactoryAddress,
        },
{
    let factory = match parse_address(factory_address) {
        Some(a) => a,
        None => return Err(Error::InvalidFactoryAddress),
    };
    let mut new_pools: Vec<TransactionChanges> = Vec::new();
    assert(records_view(new_pools@) =~= Seq::<TransactionChangesV>::empty());
    get_pools(events, &mut new_pools, &factory);
    assert(records_view(new_pools@) =~= pair_records(created_view(events@), factory@));
    Ok(BlockChanges { block, changes: new_pools })
}

/// The change records of a block: its creation records merged with the reserve
/// updates of its `Sync` events; fails, with no partial output, where an event fails.
pub fn map_pool_events(block_entity_changes: BlockChanges, events: &Vec<SyncEvent>) -> (r: Result<BlockChanges, Error>)
    ensures
        match r {
            Ok(b) => sync_fold(sync_view(events@)) is Ok && b.block == block_entity_changes.block
                && records_view(b.changes@) == merged(records_view(block_entity_changes.changes@), sync_fold(sync_view(events@))->Ok_0),
            Err(e) => sync_fold(sync_view(events@)) == Err::<Seq<PartialChangesV>, Error>(e),
        },
{
    let tx_changes = match handle_events(events) {
        Ok(set) => set,
        Err(e) => return Err(e),
    };
    let BlockChanges { block, changes } = block_entity_changes;
    let merged_changes = merge_block(tx_changes, changes);
    Ok(BlockChanges { block, changes: merged_changes })
}

} // verus!
