//! Algebra pools: creation by the pool factory; price, tick and liquidity updates
//! by `Initialize` and `Swap`.
use vstd::prelude::*;
use vstd::string::*;
use vstd::utf8::encode_utf8;
use crate::changes::{record_attr, set_wf, AttributeUpdate, AttributeUpdateV, PartialChangeSet, PartialChangesV};
use crate::encoding::{address_to_hex, hex_id, id_bytes, int_to_bytes, parse_address, parsed_address, signed_be};
use crate::merge::{merge_block, merged};
use crate::model::{
    attribute, bytes_eq, copy_bytes, one, records_view, two, AttributeV, BalanceChange, BalanceChangeV,
    Block, BlockChanges, ChangeType, EntityChangesV, Error, FinancialType,
    ImplementationType, ProtocolComponent, ProtocolComponentV, ProtocolType, Transaction,
    TransactionChanges, TransactionChangesV, TransactionV,
};

verus! {

/// A `PoolCreated` event: emitter, new pool and its two tokens.
pub struct PoolCreatedEvent {
    pub tx: Transaction,
    pub address: Vec<u8>,
    pub pool: Vec<u8>,
    pub token0: Vec<u8>,
    pub token1: Vec<u8>,
}

pub struct PoolCreatedEventV {
    pub tx: TransactionV,
    pub address: Seq<u8>,
    pub pool: Seq<u8>,
    pub token0: Seq<u8>,
    pub token1: Seq<u8>,
}

impl View for PoolCreatedEvent {
    type V = PoolCreatedEventV;

    open spec fn view(&self) -> PoolCreatedEventV {
        PoolCreatedEventV {
            tx: self.tx@,
            address: self.address@,
            pool: self.pool@,
            token0: self.token0@,
            token1: self.token1@,
        }
    }
}

/// What a pool event reports; values are signed big-endian integer bytes.
pub enum PoolEventKind {
    Initialize { price: Vec<u8>, tick: Vec<u8> },
    Swap { price: Vec<u8>, liquidity: Vec<u8>, tick: Vec<u8> },
}

pub enum PoolEventKindV {
    Initialize { price: Seq<u8>, tick: Seq<u8> },
    Swap { price: Seq<u8>, liquidity: Seq<u8>, tick: Seq<u8> },
}

/// An event of an indexed pool at `address`.
pub struct PoolEvent {
    pub tx: Transaction,
    pub address: Vec<u8>,
    pub kind: PoolEventKind,
}

pub struct PoolEventV {
    pub tx: TransactionV,
    pub address: Seq<u8>,
    pub kind: PoolEventKindV,
}

impl View for PoolEvent {
    type V = PoolEventV;

    open spec fn view(&self) -> PoolEventV {
        PoolEventV {
            tx: self.tx@,
            address: self.address@,
            kind: match self.kind {
                PoolEventKind::Initialize { price, tick } => PoolEventKindV::Initialize { price: price@, tick: tick@ },
                PoolEventKind::Swap { price, liquidity, tick } => PoolEventKindV::Swap {
                    price: price@,
                    liquidity: liquidity@,
                    tick: tick@,
                },
            },
        }
    }
}

pub open spec fn created_view(e: Seq<PoolCreatedEvent>) -> Seq<PoolCreatedEventV> {
    e.map_values(|x: PoolCreatedEvent| x@)
}

pub open spec fn events_view(e: Seq<PoolEvent>) -> Seq<PoolEventV> {
    e.map_values(|x: PoolEvent| x@)
}

/// The record of a new pool: the component and zero balances of its two tokens.
pub open spec fn pool_record(e: PoolCreatedEventV) -> TransactionChangesV {
    let id = hex_id(e.pool);
    TransactionChangesV {
        tx: e.tx,
        components: seq![ProtocolComponentV {
            id,
            tokens: seq![e.token0, e.token1],
            contracts: seq![e.pool],
            static_att: Seq::empty(),
            change: ChangeType::Creation,
            protocol_name: "supernova_algebra_pool"@,
            financial_type: FinancialType::Swap,
            implementation_type: ImplementationType::Vm,
            tx: e.tx,
        }],
        entities: Seq::empty(),
        balances: seq![
            BalanceChangeV { token: e.token0, balance: signed_be(0), component_id: encode_utf8(id) },
            BalanceChangeV { token: e.token1, balance: signed_be(0), component_id: encode_utf8(id) },
        ],
    }
}

/// Records of the pools created by the factory at `factory`, in event order.
pub open spec fn pool_records(evs: Seq<PoolCreatedEventV>, factory: Seq<u8>) -> Seq<TransactionChangesV>
    decreases evs.len(),
{
    if evs.len() == 0 {
        Seq::empty()
    } else {
        let rest = pool_records(evs.drop_last(), factory);
        if evs.last().address == factory {
            rest.push(pool_record(evs.last()))
        } else {
            rest
        }
    }
}

pub open spec fn update(id: Seq<char>, name: Seq<char>, value: Seq<u8>) -> AttributeUpdateV {
    AttributeUpdateV { component_id: id, attribute: AttributeV { name, value, change: ChangeType::Update } }
}

/// The effect of one pool event on the working set.
pub open spec fn apply_event(s: Seq<PartialChangesV>, e: PoolEventV) -> Seq<PartialChangesV> {
    let id = hex_id(e.address);
    match e.kind {
        PoolEventKindV::Initialize { price, tick } => {
            let s1 = record_attr(s, e.tx, update(id, "sqrtPriceX96"@, price));
            record_attr(s1, e.tx, update(id, "tick"@, tick))
        },
        PoolEventKindV::Swap { price, liquidity, tick } => {
            let s1 = record_attr(s, e.tx, update(id, "sqrtPriceX96"@, price));
            let s2 = record_attr(s1, e.tx, update(id, "liquidity"@, liquidity));
            record_attr(s2, e.tx, update(id, "tick"@, tick))
        },
    }
}

/// The working set after a sequence of pool events.
pub open spec fn events_fold(evs: Seq<PoolEventV>) -> Seq<PartialChangesV>
    decreases evs.len(),
{
    if evs.len() == 0 {
        Seq::empty()
    } else {
        apply_event(events_fold(evs.drop_last()), evs.last())
    }
}

/// The creation record of one new pool.
fn pool_created(e: &PoolCreatedEvent) -> (r: TransactionChanges)
    ensures
        r@ == pool_record(e@),
{
    let id = address_to_hex(&e.pool);
    let id_b = id_bytes(&id);
    let component = ProtocolComponent {
        id,
        tokens: two(copy_bytes(&e.token0), copy_bytes(&e.token1)),
        contracts: one(copy_bytes(&e.pool)),
        static_att: Vec::new(),
        change: ChangeType::Creation,
        protocol_type: ProtocolType {
            name: <String as StringExecFns>::from_str("supernova_algebra_pool"),
            financial_type: FinancialType::Swap,
            implementation_type: ImplementationType::Vm,
        },
        tx: e.tx.copy(),
    };
    let balances = two(
        BalanceChange { token: copy_bytes(&e.token0), balance: int_to_bytes(0), component_id: copy_bytes(&id_b) },
        BalanceChange { token: copy_bytes(&e.token1), balance: int_to_bytes(0), component_id: id_b },
    );
    let r = TransactionChanges {
        tx: e.tx.copy(),
        component_changes: one(component),
        entity_changes: Vec::new(),
        balance_changes: balances,
    };
    assert(r@.components[0].tokens =~= seq![e@.token0, e@.token1]);
    assert(r@.components[0].contracts =~= seq![e@.pool]);
    assert(r@.components[0].static_att =~= Seq::<AttributeV>::empty());
    assert(r@.components =~= pool_record(e@).components);
    assert(r@.entities =~= Seq::<EntityChangesV>::empty());
    assert(r@.balances =~= pool_record(e@).balances);
    r
}

/// Appends a creation record for each `PoolCreated` event emitted by `factory`.
pub fn get_pools(events: &Vec<PoolCreatedEvent>, new_pools: &mut Vec<TransactionChanges>, factory: &Vec<u8>)
    ensures
        records_view(final(new_pools)@) == records_view(old(new_pools)@) + pool_records(created_view(events@), factory@),
{
    let ghost evs = created_view(events@);
    let ghost start = records_view(new_pools@);
    let mut i: usize = 0;
    assert(evs.take(0) =~= Seq::<PoolCreatedEventV>::empty());
    assert(start + pool_records(evs.take(0), factory@) =~= start);
    while i < events.len()
        invariant
            evs == created_view(events@),
            start == records_view(old(new_pools)@),
            i <= events@.len(),
            records_view(new_pools@) == start + pool_records(evs.take(i as int), factory@),
        decreases events@.len() - i,
    {
        assert(evs.take(i + 1).drop_last() =~= evs.take(i as int));
        assert(evs.take(i + 1).last() == events@[i as int]@);
        let e = &events[i];
        if bytes_eq(&e.address, factory) {
            let ghost before = records_view(new_pools@);
            new_pools.push(pool_created(e));
            assert(records_view(new_pools@) =~= before.push(pool_record(e@)));
            assert(start + pool_records(evs.take(i + 1), factory@) =~= (start + pool_records(evs.take(i as int), factory@)).push(pool_record(e@)));
        }
        i = i + 1;
    }
    assert(evs.take(i as int) =~= evs);
}

/// Folds the pool events of a block into per-transaction working entries.
pub fn handle_events(events: &Vec<PoolEvent>) -> (r: PartialChangeSet)
    ensures
        r@ == events_fold(events_view(events@)),
        set_wf(r@),
{
    let ghost evs = events_view(events@);
    let mut set = PartialChangeSet::new();
    let mut i: usize = 0;
    assert(evs.take(0) =~= Seq::<PoolEventV>::empty());
    while i < events.len()
        invariant
            evs == events_view(events@),
            i <= events@.len(),
            events_fold(evs.take(i as int)) == set@,
            set_wf(set@),
        decreases events@.len() - i,
    {
        assert(evs.take(i + 1).drop_last() =~= evs.take(i as int));
        assert(evs.take(i + 1).last() == events@[i as int]@);
        let e = &events[i];
        let id = address_to_hex(&e.address);
        match &e.kind {
            PoolEventKind::Initialize { price, tick } => {
                set.put_attribute(&e.tx, AttributeUpdate {
                    component_id: id.clone(),
                    attribute: attribute("sqrtPriceX96", copy_bytes(price), ChangeType::Update),
                });
                set.put_attribute(&e.tx, AttributeUpdate {
                    component_id: id,
                    attribute: attribute("tick", copy_bytes(tick), ChangeType::Update),
                });
            },
            PoolEventKind::Swap { price, liquidity, tick } => {
                set.put_attribute(&e.tx, AttributeUpdate {
                    component_id: id.clone(),
                    attribute: attribute("sqrtPriceX96", copy_bytes(price), ChangeType::Update),
                });
                set.put_attribute(&e.tx, AttributeUpdate {
                    component_id: id.clone(),
                    attribute: attribute("liquidity", copy_bytes(liquidity), ChangeType::Update),
                });
                set.put_attribute(&e.tx, AttributeUpdate {
                    component_id: id,
                    attribute: attribute("tick", copy_bytes(tick), ChangeType::Update),
                });
            },
        }
        i = i + 1;
    }
    assert(evs.take(i as int) =~= evs);
    set
}

/// The creation records of a block: one per `PoolCreated` event emitted by the
/// factory whose address `factory_address` gives; fails where it is no address.
pub fn map_pools_created(factory_address: &str, block: Block, events: &Vec<PoolCreatedEvent>) -> (r: Result<BlockChanges, Error>)
    ensures
        match r {
            Ok(b) => parsed_address(factory_address@) is Some && b.block == block
                && records_view(b.changes@) == pool_records(created_view(events@), parsed_address(factory_address@)->Some_0),
            Err(e) => parsed_address(factory_address@) is None && e == Error::InvalidFactoryAddress,
        },
{
    let factory = match parse_address(factory_address) {
        Some(a) => a,
        None => return Err(Error::InvalidFactoryAddress),
    };
    let mut new_pools: Vec<TransactionChanges> = Vec::new();
    assert(records_view(new_pools@) =~= Seq::<TransactionChangesV>::empty());
    get_pools(events, &mut new_pools, &factory);
    assert(records_view(new_pools@) =~= pool_records(created_view(events@), factory@));
    Ok(BlockChanges { block, changes: new_pools })
}

/// The change records of a block: its creation records merged with the updates
/// of its pool events.
pub fn map_pool_events(block_entity_changes: BlockChanges, events: &Vec<PoolEvent>) -> (r: BlockChanges)
    ensures
        r.block == block_entity_changes.block,
        records_view(r.changes@) == merged(records_view(block_entity_changes.changes@), events_fold(events_view(events@))),
{
    let tx_changes = handle_events(events);
    let BlockChanges { block, changes } = block_entity_changes;
    let merged_changes = merge_block(tx_changes, changes);
    BlockChanges { block, changes: merged_changes }
}

} // verus!
