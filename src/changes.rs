use vstd::prelude::*;
use crate::model::{attributes_view, balances_view, bytes_eq, entities_view, Attribute, AttributeV, BalanceChange, BalanceChangeV, EntityChanges, EntityChangesV, Transaction, TransactionV};

verus! {

/// Whether some element of `s` has key `k`.
pub open spec fn has_key<T, K>(s: Seq<T>, k: K, key: spec_fn(T) -> K) -> bool {
    exists|i: int| 0 <= i < s.len() && key(s[i]) == k
}

/// No two elements of `s` share a key.
pub open spec fn keys_unique<T, K>(s: Seq<T>, key: spec_fn(T) -> K) -> bool {
    forall|i: int, j: int| 0 <= i < s.len() && 0 <= j < s.len() && i != j ==> key(s[i]) != key(s[j])
}

/// Keyed insertion: replaces the element with the same key in place, else appends.
pub open spec fn put_by<T, K>(s: Seq<T>, u: T, key: spec_fn(T) -> K) -> Seq<T> {
    if has_key(s, key(u), key) {
        s.update(choose|i: int| 0 <= i < s.len() && key(s[i]) == key(u), u)
    } else {
        s.push(u)
    }
}

/// An attribute update of one component.
pub struct AttributeUpdate {
    pub component_id: String,
    pub attribute: Attribute,
}

pub struct AttributeUpdateV {
    pub component_id: Seq<char>,
    pub attribute: AttributeV,
}

impl View for AttributeUpdate {
    type V = AttributeUpdateV;

    open spec fn view(&self) -> AttributeUpdateV {
        AttributeUpdateV { component_id: self.component_id@, attribute: self.attribute@ }
    }
}

/// The deduplication key of an attribute update: component id and attribute name.
pub open spec fn attr_key(u: AttributeUpdateV) -> (Seq<char>, Seq<char>) {
    (u.component_id, u.attribute.name)
}

/// The deduplication key of a balance update: component id bytes and token.
pub open spec fn balance_key(b: BalanceChangeV) -> (Seq<u8>, Seq<u8>) {
    (b.component_id, b.token)
}

pub open spec fn put_attr(s: Seq<AttributeUpdateV>, u: AttributeUpdateV) -> Seq<AttributeUpdateV> {
    put_by(s, u, |x: AttributeUpdateV| attr_key(x))
}

pub open spec fn put_balance(s: Seq<BalanceChangeV>, b: BalanceChangeV) -> Seq<BalanceChangeV> {
    put_by(s, b, |x: BalanceChangeV| balance_key(x))
}

pub open spec fn updates_view(s: Seq<AttributeUpdate>) -> Seq<AttributeUpdateV> {
    s.map_values(|x: AttributeUpdate| x@)
}

/// The surviving updates of one transaction.
pub struct PartialChanges {
    pub transaction: Transaction,
    pub entity_changes: Vec<AttributeUpdate>,
    pub balance_changes: Vec<BalanceChange>,
}

pub struct PartialChangesV {
    pub tx: TransactionV,
    pub attrs: Seq<AttributeUpdateV>,
    pub balances: Seq<BalanceChangeV>,
}

impl View for PartialChanges {
    type V = PartialChangesV;

    open spec fn view(&self) -> PartialChangesV {
        PartialChangesV {
            tx: self.transaction@,
            attrs: updates_view(self.entity_changes@),
            balances: balances_view(self.balance_changes@),
        }
    }
}

/// At most one surviving update per attribute key and per balance key.
pub open spec fn partial_wf(p: PartialChangesV) -> bool {
    keys_unique(p.attrs, |x: AttributeUpdateV| attr_key(x))
        && keys_unique(p.balances, |x: BalanceChangeV| balance_key(x))
}

/// The grouping step: an update joins the group of its component, or opens a new one.
pub open spec fn add_to_group(g: Seq<EntityChangesV>, u: AttributeUpdateV) -> Seq<EntityChangesV> {
    if has_key(g, u.component_id, |e: EntityChangesV| e.component_id) {
        let j = choose|j: int| 0 <= j < g.len() && g[j].component_id == u.component_id;
        g.update(j, EntityChangesV { component_id: g[j].component_id, attributes: g[j].attributes.push(u.attribute) })
    } else {
        g.push(EntityChangesV { component_id: u.component_id, attributes: seq![u.attribute] })
    }
}

/// Updates grouped by component id, groups in order of first appearance.
pub open spec fn group_attrs(s: Seq<AttributeUpdateV>) -> Seq<EntityChangesV>
    decreases s.len(),
{
    if s.len() == 0 {
        Seq::empty()
    } else {
        add_to_group(group_attrs(s.drop_last()), s.last())
    }
}

/// Where the first element with key `k` of a sequence with unique keys is found.
pub proof fn lemma_put_by_at<T, K>(s: Seq<T>, u: T, key: spec_fn(T) -> K, i: int)
    requires
        keys_unique(s, key),
        0 <= i < s.len(),
        key(s[i]) == key(u),
    ensures
        put_by(s, u, key) == s.update(i, u),
{
    let j = choose|j: int| 0 <= j < s.len() && key(s[j]) == key(u);
    assert(j == i);
}

/// Keyed insertion keeps keys unique.
pub proof fn lemma_put_by_unique<T, K>(s: Seq<T>, u: T, key: spec_fn(T) -> K)
    requires
        keys_unique(s, key),
    ensures
        keys_unique(put_by(s, u, key), key),
        has_key(put_by(s, u, key), key(u), key),
{
    let r = put_by(s, u, key);
    if has_key(s, key(u), key) {
        let j = choose|j: int| 0 <= j < s.len() && key(s[j]) == key(u);
        assert(key(r[j]) == key(u));
    } else {
        assert(key(r[s.len() as int]) == key(u));
    }
}

impl AttributeUpdate {
    /// Component id and attribute name of the update.
    fn same_key(&self, o: &AttributeUpdate) -> (r: bool)
        ensures
            r == (attr_key(self@) == attr_key(o@)),
    {
        self.component_id == o.component_id && self.attribute.name == o.attribute.name
    }
}

impl PartialChanges {
    /// An empty working entry for a transaction.
    pub fn new(transaction: Transaction) -> (r: PartialChanges)
        ensures
            r@.tx == transaction@,
            r@.attrs == Seq::<AttributeUpdateV>::empty(),
            r@.balances == Seq::<BalanceChangeV>::empty(),
            partial_wf(r@),
    {
        let r = PartialChanges { transaction, entity_changes: Vec::new(), balance_changes: Vec::new() };
        assert(r@.attrs =~= Seq::<AttributeUpdateV>::empty());
        assert(r@.balances =~= Seq::<BalanceChangeV>::empty());
        r
    }

    /// Records an attribute update, replacing an earlier one with the same key.
    pub fn insert_attribute(&mut self, u: AttributeUpdate)
        requires
            partial_wf(old(self)@),
        ensures
            final(self)@.tx == old(self)@.tx,
            final(self)@.balances == old(self)@.balances,
            final(self)@.attrs == put_attr(old(self)@.attrs, u@),
            partial_wf(final(self)@),
    {
        let ghost key = |x: AttributeUpdateV| attr_key(x);
        let ghost s = old(self)@.attrs;
        proof {
            lemma_put_by_unique(s, u@, key);
        }
        let mut i: usize = 0;
        while i < self.entity_changes.len()
            invariant
                self@ == old(self)@,
                s == old(self)@.attrs,
                key == (|x: AttributeUpdateV| attr_key(x)),
                keys_unique(s, key),
                partial_wf(old(self)@),
                i <= self.entity_changes@.len(),
                forall|k: int| 0 <= k < i ==> attr_key(self.entity_changes@[k]@) != attr_key(u@),
            decreases self.entity_changes@.len() - i,
        {
            if self.entity_changes[i].same_key(&u) {
                proof {
                    lemma_put_by_at(s, u@, key, i as int);
                    lemma_put_by_unique(s, u@, key);
                }
                let _ = self.entity_changes.remove(i);
                self.entity_changes.insert(i, u);
                assert(updates_view(self.entity_changes@) =~= s.update(i as int, u@));
                return;
            }
            i = i + 1;
        }
        assert(!has_key(s, attr_key(u@), key));
        self.entity_changes.push(u);
        assert(updates_view(self.entity_changes@) =~= s.push(u@));
    }

    /// Records a balance update, replacing an earlier one with the same key.
    pub fn insert_balance(&mut self, b: BalanceChange)
        requires
            partial_wf(old(self)@),
        ensures
            final(self)@.tx == old(self)@.tx,
            final(self)@.attrs == old(self)@.attrs,
            final(self)@.balances == put_balance(old(self)@.balances, b@),
            partial_wf(final(self)@),
    {
        let ghost key = |x: BalanceChangeV| balance_key(x);
        let ghost s = old(self)@.balances;
        proof {
            lemma_put_by_unique(s, b@, key);
        }
        let mut i: usize = 0;
        while i < self.balance_changes.len()
            invariant
                self@ == old(self)@,
                s == old(self)@.balances,
                key == (|x: BalanceChangeV| balance_key(x)),
                keys_unique(s, key),
                partial_wf(old(self)@),
                i <= self.balance_changes@.len(),
                forall|k: int| 0 <= k < i ==> balance_key(self.balance_changes@[k]@) != balance_key(b@),
            decreases self.balance_changes@.len() - i,
        {
            let same = bytes_eq(&self.balance_changes[i].component_id, &b.component_id)
                && bytes_eq(&self.balance_changes[i].token, &b.token);
            if same {
                proof {
                    lemma_put_by_at(s, b@, key, i as int);
                    lemma_put_by_unique(s, b@, key);
                }
                let _ = self.balance_changes.remove(i);
                self.balance_changes.insert(i, b);
                assert(balances_view(self.balance_changes@) =~= s.update(i as int, b@));
                return;
            }
            i = i + 1;
        }
        assert(!has_key(s, balance_key(b@), key));
        self.balance_changes.push(b);
        assert(balances_view(self.balance_changes@) =~= s.push(b@));
    }
}


/// Ids of distinct groups differ.
pub open spec fn groups_distinct(g: Seq<EntityChangesV>) -> bool {
    keys_unique(g, |e: EntityChangesV| e.component_id)
}

/// Grouping keeps group ids distinct.
pub proof fn lemma_add_to_group_distinct(g: Seq<EntityChangesV>, u: AttributeUpdateV)
    requires
        groups_distinct(g),
    ensures
        groups_distinct(add_to_group(g, u)),
{
    let r = add_to_group(g, u);
    if has_key(g, u.component_id, |e: EntityChangesV| e.component_id) {
        let j = choose|j: int| 0 <= j < g.len() && g[j].component_id == u.component_id;
        assert forall|a: int, b: int| 0 <= a < r.len() && 0 <= b < r.len() && a != b implies r[a].component_id != r[b].component_id by {
            assert(r[a].component_id == g[a].component_id);
            assert(r[b].component_id == g[b].component_id);
        }
    } else {
        assert forall|a: int, b: int| 0 <= a < r.len() && 0 <= b < r.len() && a != b implies r[a].component_id != r[b].component_id by {
            if a < g.len() && b < g.len() {
                assert(g[a].component_id != g[b].component_id);
            }
        }
    }
}

/// Groups built by the grouping fold have distinct ids.
pub proof fn lemma_group_attrs_distinct(s: Seq<AttributeUpdateV>)
    ensures
        groups_distinct(group_attrs(s)),
    decreases s.len(),
{
    if s.len() > 0 {
        lemma_group_attrs_distinct(s.drop_last());
        lemma_add_to_group_distinct(group_attrs(s.drop_last()), s.last());
    }
}

impl PartialChanges {
    /// The surviving attribute updates grouped by component id, in order of first appearance.
    pub fn consolidate_entity_changes(&self) -> (r: Vec<EntityChanges>)
        ensures
            entities_view(r@) == group_attrs(self@.attrs),
    {
        let ghost s = self@.attrs;
        let mut groups: Vec<EntityChanges> = Vec::new();
        let mut i: usize = 0;
        assert(s.take(0) =~= Seq::<AttributeUpdateV>::empty());
        assert(entities_view(groups@) =~= Seq::<EntityChangesV>::empty());
        while i < self.entity_changes.len()
            invariant
                s == self@.attrs,
                i <= s.len(),
                entities_view(groups@) == group_attrs(s.take(i as int)),
            decreases s.len() - i,
        {
            let ghost g = entities_view(groups@);
            proof {
                lemma_group_attrs_distinct(s.take(i as int));
                assert(s.take(i + 1).drop_last() =~= s.take(i as int));
                assert(s.take(i + 1).last() == s[i as int]);
            }
            let u = &self.entity_changes[i];
            assert(u@ == s[i as int]);
            let mut j: usize = 0;
            let mut found = false;
            while j < groups.len() && !found
                invariant
                    g == entities_view(groups@),
                    j <= groups@.len(),
                    found ==> j < groups@.len() && g[j as int].component_id == u@.component_id,
                    forall|k: int| 0 <= k < j && !(found && k == j) ==> g[k].component_id != u@.component_id,
                decreases groups@.len() - j + (if found { 0int } else { 1int }),
            {
                assert(g[j as int] == groups@[j as int]@);
                if groups[j].component_id == u.component_id {
                    found = true;
                } else {
                    j = j + 1;
                }
            }
            if found {
                proof {
                    let c = choose|c: int| 0 <= c < g.len() && g[c].component_id == u@.component_id;
                    assert(g[j as int].component_id == u@.component_id);
                    assert(c == j);
                }
                let mut grp = groups.remove(j);
                grp.attributes.push(u.attribute.copy());
                assert(attributes_view(grp.attributes@) =~= g[j as int].attributes.push(u@.attribute));
                groups.insert(j, grp);
                assert(entities_view(groups@) =~= add_to_group(g, u@));
            } else {
                assert(!has_key(g, u@.component_id, |e: EntityChangesV| e.component_id));
                let mut attrs: Vec<Attribute> = Vec::new();
                attrs.push(u.attribute.copy());
                assert(attributes_view(attrs@) =~= seq![u@.attribute]);
                groups.push(EntityChanges { component_id: u.component_id.clone(), attributes: attrs });
                assert(entities_view(groups@) =~= add_to_group(g, u@));
            }
            i = i + 1;
        }
        assert(s.take(i as int) =~= s);
        groups
    }
}


pub open spec fn partials_view(e: Seq<PartialChanges>) -> Seq<PartialChangesV> {
    e.map_values(|p: PartialChanges| p@)
}

/// Per-transaction working entries of one block, one per transaction hash.
pub struct PartialChangeSet {
    pub entries: Vec<PartialChanges>,
}

impl View for PartialChangeSet {
    type V = Seq<PartialChangesV>;

    open spec fn view(&self) -> Seq<PartialChangesV> {
        partials_view(self.entries@)
    }
}

/// Transaction hashes are distinct and every entry holds one update per key.
pub open spec fn set_wf(s: Seq<PartialChangesV>) -> bool {
    keys_unique(s, |p: PartialChangesV| p.tx.hash) && forall|i: int| 0 <= i < s.len() ==> partial_wf(#[trigger] s[i])
}

/// The entry of transaction hash `h`.
pub open spec fn hash_index(s: Seq<PartialChangesV>, h: Seq<u8>) -> int {
    choose|i: int| 0 <= i < s.len() && s[i].tx.hash == h
}

/// The set with an entry for `tx`: unchanged if one exists, else with an empty one appended.
pub open spec fn touch(s: Seq<PartialChangesV>, tx: TransactionV) -> Seq<PartialChangesV> {
    if has_key(s, tx.hash, |p: PartialChangesV| p.tx.hash) {
        s
    } else {
        s.push(PartialChangesV { tx, attrs: Seq::empty(), balances: Seq::empty() })
    }
}

/// An attribute update recorded in the entry of `tx`.
pub open spec fn record_attr(s: Seq<PartialChangesV>, tx: TransactionV, u: AttributeUpdateV) -> Seq<PartialChangesV> {
    let t = touch(s, tx);
    let i = hash_index(t, tx.hash);
    t.update(i, PartialChangesV { tx: t[i].tx, attrs: put_attr(t[i].attrs, u), balances: t[i].balances })
}

/// A balance update recorded in the entry of `tx`.
pub open spec fn record_balance(s: Seq<PartialChangesV>, tx: TransactionV, b: BalanceChangeV) -> Seq<PartialChangesV> {
    let t = touch(s, tx);
    let i = hash_index(t, tx.hash);
    t.update(i, PartialChangesV { tx: t[i].tx, attrs: t[i].attrs, balances: put_balance(t[i].balances, b) })
}

impl PartialChangeSet {
    /// An empty working set.
    pub fn new() -> (r: PartialChangeSet)
        ensures
            r@ == Seq::<PartialChangesV>::empty(),
    {
        let r = PartialChangeSet { entries: Vec::new() };
        assert(r@ =~= Seq::<PartialChangesV>::empty());
        r
    }

    /// The position of the entry of `tx`, created empty if there is none.
    fn entry(&mut self, tx: &Transaction) -> (i: usize)
        requires
            set_wf(old(self)@),
        ensures
            final(self)@ == touch(old(self)@, tx@),
            set_wf(final(self)@),
            i < final(self)@.len(),
            i == hash_index(final(self)@, tx@.hash),
            final(self)@[i as int].tx.hash == tx@.hash,
    {
        let ghost s = self@;
        let mut i: usize = 0;
        while i < self.entries.len()
            invariant
                self@ == s,
                s == old(self)@,
                set_wf(s),
                i <= s.len(),
                forall|k: int| 0 <= k < i ==> s[k].tx.hash != tx@.hash,
            decreases s.len() - i,
        {
            assert(s[i as int] == self.entries@[i as int]@);
            if bytes_eq(&self.entries[i].transaction.hash, &tx.hash) {
                proof {
                    let c = choose|c: int| 0 <= c < s.len() && s[c].tx.hash == tx@.hash;
                    assert(s[c].tx.hash == s[i as int].tx.hash);
                }
                return i;
            }
            i = i + 1;
        }
        assert(!has_key(s, tx@.hash, |p: PartialChangesV| p.tx.hash));
        self.entries.push(PartialChanges::new(tx.copy()));
        let ghost t = self@;
        assert(t =~= touch(s, tx@));
        proof {
            let c = choose|c: int| 0 <= c < t.len() && t[c].tx.hash == tx@.hash;
            assert(t[i as int].tx.hash == tx@.hash);
            if c != i {
                assert(t[c] == s[c]);
            }
            assert(t[i as int].attrs =~= Seq::<AttributeUpdateV>::empty());
            assert(partial_wf(t[i as int]));
        }
        i
    }

    /// Records an attribute update of transaction `tx`, last write winning per key.
    pub fn put_attribute(&mut self, tx: &Transaction, u: AttributeUpdate)
        requires
            set_wf(old(self)@),
        ensures
            final(self)@ == record_attr(old(self)@, tx@, u@),
            set_wf(final(self)@),
    {
        let ghost s = self@;
        let i = self.entry(tx);
        let ghost t = self@;
        let mut p = self.entries.remove(i);
        assert(p@ == t[i as int]);
        p.insert_attribute(u);
        self.entries.insert(i, p);
        assert(self@ =~= record_attr(s, tx@, u@));
        assert forall|a: int, b: int| 0 <= a < self@.len() && 0 <= b < self@.len() && a != b
            implies self@[a].tx.hash != self@[b].tx.hash by {
            assert(self@[a].tx.hash == t[a].tx.hash);
            assert(self@[b].tx.hash == t[b].tx.hash);
        }
    }

    /// Records a balance update of transaction `tx`, last write winning per key.
    pub fn put_balance(&mut self, tx: &Transaction, b: BalanceChange)
        requires
            set_wf(old(self)@),
        ensures
            final(self)@ == record_balance(old(self)@, tx@, b@),
            set_wf(final(self)@),
    {
        let ghost s = self@;
        let i = self.entry(tx);
        let ghost t = self@;
        let mut p = self.entries.remove(i);
        assert(p@ == t[i as int]);
        p.insert_balance(b);
        self.entries.insert(i, p);
        assert(self@ =~= record_balance(s, tx@, b@));
        assert forall|a: int, c: int| 0 <= a < self@.len() && 0 <= c < self@.len() && a != c
            implies self@[a].tx.hash != self@[c].tx.hash by {
            assert(self@[a].tx.hash == t[a].tx.hash);
            assert(self@[c].tx.hash == t[c].tx.hash);
        }
    }
}

} // verus!
