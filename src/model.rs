use vstd::prelude::*;
use vstd::string::*;

verus! {

/// How an attribute or a component changed.
#[derive(Clone, Copy, Debug, PartialEq, Eq, Structural)]
pub enum ChangeType {
    Unspecified,
    Update,
    Creation,
    Deletion,
}

/// Economic category of a protocol component.
#[derive(Clone, Copy, Debug, PartialEq, Eq, Structural)]
pub enum FinancialType {
    Swap,
    Psm,
    Debt,
    Leverage,
}

/// How a protocol component is simulated downstream.
#[derive(Clone, Copy, Debug, PartialEq, Eq, Structural)]
pub enum ImplementationType {
    Vm,
    Custom,
}

/// Block metadata carried through to the output.
pub struct Block {
    pub hash: Vec<u8>,
    pub parent_hash: Vec<u8>,
    pub number: u64,
    pub ts: u64,
}

/// Transaction metadata; `hash` identifies the transaction.
pub struct Transaction {
    pub hash: Vec<u8>,
    pub from: Vec<u8>,
    pub to: Vec<u8>,
    pub index: u64,
}

pub struct TransactionV {
    pub hash: Seq<u8>,
    pub from: Seq<u8>,
    pub to: Seq<u8>,
    pub index: u64,
}

impl View for Transaction {
    type V = TransactionV;

    open spec fn view(&self) -> TransactionV {
        TransactionV { hash: self.hash@, from: self.from@, to: self.to@, index: self.index }
    }
}

/// A named attribute value (signed big-endian integer bytes) with its change kind.
pub struct Attribute {
    pub name: String,
    pub value: Vec<u8>,
    pub change: ChangeType,
}

pub struct AttributeV {
    pub name: Seq<char>,
    pub value: Seq<u8>,
    pub change: ChangeType,
}

impl View for Attribute {
    type V = AttributeV;

    open spec fn view(&self) -> AttributeV {
        AttributeV { name: self.name@, value: self.value@, change: self.change }
    }
}

/// All attribute changes of one component.
pub struct EntityChanges {
    pub component_id: String,
    pub attributes: Vec<Attribute>,
}

pub struct EntityChangesV {
    pub component_id: Seq<char>,
    pub attributes: Seq<AttributeV>,
}

pub open spec fn attributes_view(a: Seq<Attribute>) -> Seq<AttributeV> {
    a.map_values(|x: Attribute| x@)
}

impl View for EntityChanges {
    type V = EntityChangesV;

    open spec fn view(&self) -> EntityChangesV {
        EntityChangesV { component_id: self.component_id@, attributes: attributes_view(self.attributes@) }
    }
}

/// Absolute balance of `token` held by the component whose id bytes are `component_id`.
pub struct BalanceChange {
    pub token: Vec<u8>,
    pub balance: Vec<u8>,
    pub component_id: Vec<u8>,
}

pub struct BalanceChangeV {
    pub token: Seq<u8>,
    pub balance: Seq<u8>,
    pub component_id: Seq<u8>,
}

impl View for BalanceChange {
    type V = BalanceChangeV;

    open spec fn view(&self) -> BalanceChangeV {
        BalanceChangeV { token: self.token@, balance: self.balance@, component_id: self.component_id@ }
    }
}

pub open spec fn balances_view(b: Seq<BalanceChange>) -> Seq<BalanceChangeV> {
    b.map_values(|x: BalanceChange| x@)
}

pub open spec fn entities_view(e: Seq<EntityChanges>) -> Seq<EntityChangesV> {
    e.map_values(|x: EntityChanges| x@)
}

/// Protocol type tag of a component.
pub struct ProtocolType {
    pub name: String,
    pub financial_type: FinancialType,
    pub implementation_type: ImplementationType,
}

/// A newly created component: id, constituent tokens, contracts and static attributes.
pub struct ProtocolComponent {
    pub id: String,
    pub tokens: Vec<Vec<u8>>,
    pub contracts: Vec<Vec<u8>>,
    pub static_att: Vec<Attribute>,
    pub change: ChangeType,
    pub protocol_type: ProtocolType,
    pub tx: Transaction,
}

pub struct ProtocolComponentV {
    pub id: Seq<char>,
    pub tokens: Seq<Seq<u8>>,
    pub contracts: Seq<Seq<u8>>,
    pub static_att: Seq<AttributeV>,
    pub change: ChangeType,
    pub protocol_name: Seq<char>,
    pub financial_type: FinancialType,
    pub implementation_type: ImplementationType,
    pub tx: TransactionV,
}

pub open spec fn bytes_list_view(b: Seq<Vec<u8>>) -> Seq<Seq<u8>> {
    b.map_values(|x: Vec<u8>| x@)
}

impl View for ProtocolComponent {
    type V = ProtocolComponentV;

    open spec fn view(&self) -> ProtocolComponentV {
        ProtocolComponentV {
            id: self.id@,
            tokens: bytes_list_view(self.tokens@),
            contracts: bytes_list_view(self.contracts@),
            static_att: attributes_view(self.static_att@),
            change: self.change,
            protocol_name: self.protocol_type.name@,
            financial_type: self.protocol_type.financial_type,
            implementation_type: self.protocol_type.implementation_type,
            tx: self.tx@,
        }
    }
}

pub open spec fn components_view(c: Seq<ProtocolComponent>) -> Seq<ProtocolComponentV> {
    c.map_values(|x: ProtocolComponent| x@)
}

/// Everything one transaction changed.
pub struct TransactionChanges {
    pub tx: Transaction,
    pub component_changes: Vec<ProtocolComponent>,
    pub entity_changes: Vec<EntityChanges>,
    pub balance_changes: Vec<BalanceChange>,
}

pub struct TransactionChangesV {
    pub tx: TransactionV,
    pub components: Seq<ProtocolComponentV>,
    pub entities: Seq<EntityChangesV>,
    pub balances: Seq<BalanceChangeV>,
}

impl View for TransactionChanges {
    type V = TransactionChangesV;

    open spec fn view(&self) -> TransactionChangesV {
        TransactionChangesV {
            tx: self.tx@,
            components: components_view(self.component_changes@),
            entities: entities_view(self.entity_changes@),
            balances: balances_view(self.balance_changes@),
        }
    }
}

pub open spec fn records_view(r: Seq<TransactionChanges>) -> Seq<TransactionChangesV> {
    r.map_values(|x: TransactionChanges| x@)
}

/// The change records of one block.
pub struct BlockChanges {
    pub block: Block,
    pub changes: Vec<TransactionChanges>,
}

/// Why a block could not be processed.
#[derive(Clone, Copy, Debug, PartialEq, Eq, Structural)]
pub enum Error {
    /// The factory address parameter is not a 20-byte hex address.
    InvalidFactoryAddress,
    /// A pool that emitted an update is missing from the component index.
    PoolNotIndexed,
    /// An update reports a different number of reserves than the pool has tokens.
    ReserveCountMismatch,
}

/// Byte-wise equality of two byte strings.
pub fn bytes_eq(a: &Vec<u8>, b: &Vec<u8>) -> (r: bool)
    ensures
        r == (a@ == b@),
{
    if a.len() != b.len() {
        return false;
    }
    let mut i: usize = 0;
    while i < a.len()
        invariant
            i <= a@.len(),
            a@.len() == b@.len(),
            a@.subrange(0, i as int) == b@.subrange(0, i as int),
        decreases a@.len() - i,
    {
        if a[i] != b[i] {
            assert(a@[i as int] != b@[i as int]);
            return false;
        }
        assert(a@.subrange(0, i + 1) =~= a@.subrange(0, i as int).push(a@[i as int]));
        assert(b@.subrange(0, i + 1) =~= b@.subrange(0, i as int).push(b@[i as int]));
        i = i + 1;
    }
    assert(a@ =~= a@.subrange(0, i as int));
    assert(b@ =~= b@.subrange(0, i as int));
    true
}

/// A copy of a byte string.
pub fn copy_bytes(a: &Vec<u8>) -> (r: Vec<u8>)
    ensures
        r@ == a@,
{
    let r = a.clone();
    assert(r@ =~= a@);
    r
}

impl Attribute {
    /// A copy of the attribute.
    pub fn copy(&self) -> (r: Attribute)
        ensures
            r@ == self@,
    {
        Attribute { name: self.name.clone(), value: copy_bytes(&self.value), change: self.change }
    }
}

impl Transaction {
    /// A copy of the transaction metadata.
    pub fn copy(&self) -> (r: Transaction)
        ensures
            r@ == self@,
    {
        Transaction {
            hash: copy_bytes(&self.hash),
            from: copy_bytes(&self.from),
            to: copy_bytes(&self.to),
            index: self.index,
        }
    }
}

/// A vector of two elements.
pub fn two<T>(a: T, b: T) -> (r: Vec<T>)
    ensures
        r@ == seq![a, b],
{
    let mut r: Vec<T> = Vec::new();
    r.push(a);
    r.push(b);
    assert(r@ =~= seq![a, b]);
    r
}

/// A vector of one element.
pub fn one<T>(a: T) -> (r: Vec<T>)
    ensures
        r@ == seq![a],
{
    let mut r: Vec<T> = Vec::new();
    r.push(a);
    assert(r@ =~= seq![a]);
    r
}

/// An attribute with the given name, value and change kind.
pub fn attribute(name: &str, value: Vec<u8>, change: ChangeType) -> (r: Attribute)
    ensures
        r@ == (AttributeV { name: name@, value: value@, change }),
{
    Attribute { name: <String as StringExecFns>::from_str(name), value, change }
}

} // verus!
