//! Merging creation records with the working set into one record per transaction.
use vstd::prelude::*;
use crate::changes::{group_attrs, has_key, keys_unique, partials_view, set_wf, PartialChangeSet, PartialChangesV};
use crate::model::{
    bytes_eq, components_view, records_view, ProtocolComponent, ProtocolComponentV, TransactionChanges,
    TransactionChangesV,
};

verus! {

/// Adds a creation record to the records grouped so far: a record of the same
/// transaction takes over its components and entity changes, else it is appended.
pub open spec fn absorb(g: Seq<TransactionChangesV>, c: TransactionChangesV) -> Seq<TransactionChangesV> {
    if has_key(g, c.tx.hash, |r: TransactionChangesV| r.tx.hash) {
        let i = choose|i: int| 0 <= i < g.len() && g[i].tx.hash == c.tx.hash;
        g.update(i, TransactionChangesV {
            tx: g[i].tx,
            components: g[i].components + c.components,
            entities: g[i].entities + c.entities,
            balances: g[i].balances,
        })
    } else {
        g.push(c)
    }
}

/// Creation records grouped by transaction hash, in order of first appearance.
pub open spec fn group_records(a: Seq<TransactionChangesV>) -> Seq<TransactionChangesV>
    decreases a.len(),
{
    if a.len() == 0 {
        Seq::empty()
    } else {
        absorb(group_records(a.drop_last()), a.last())
    }
}

/// Replaces the attribute and balance changes of the record of `p`'s transaction, if any,
/// by `p`'s grouped attribute updates and its balance updates.
pub open spec fn overlay(g: Seq<TransactionChangesV>, p: PartialChangesV) -> Seq<TransactionChangesV> {
    if has_key(g, p.tx.hash, |r: TransactionChangesV| r.tx.hash) {
        let i = choose|i: int| 0 <= i < g.len() && g[i].tx.hash == p.tx.hash;
        g.update(i, TransactionChangesV {
            tx: g[i].tx,
            components: g[i].components,
            entities: group_attrs(p.attrs),
            balances: p.balances,
        })
    } else {
        g
    }
}

pub open spec fn overlay_all(g: Seq<TransactionChangesV>, s: Seq<PartialChangesV>) -> Seq<TransactionChangesV>
    decreases s.len(),
{
    if s.len() == 0 {
        g
    } else {
        overlay(overlay_all(g, s.drop_last()), s.last())
    }
}

/// The record of a transaction that has updates and no creation record.
pub open spec fn fresh_record(p: PartialChangesV) -> TransactionChangesV {
    TransactionChangesV { tx: p.tx, components: Seq::empty(), entities: group_attrs(p.attrs), balances: p.balances }
}

/// Records of the entries of `s` whose transaction has no record in `g`, in order.
pub open spec fn fresh_records(s: Seq<PartialChangesV>, g: Seq<TransactionChangesV>) -> Seq<TransactionChangesV>
    decreases s.len(),
{
    if s.len() == 0 {
        Seq::empty()
    } else {
        let rest = fresh_records(s.drop_last(), g);
        if has_key(g, s.last().tx.hash, |r: TransactionChangesV| r.tx.hash) {
            rest
        } else {
            rest.push(fresh_record(s.last()))
        }
    }
}

/// The merged records of a block.
pub open spec fn merged(a: Seq<TransactionChangesV>, s: Seq<PartialChangesV>) -> Seq<TransactionChangesV> {
    overlay_all(group_records(a), s) + fresh_records(s, group_records(a))
}

pub open spec fn hashes_distinct(g: Seq<TransactionChangesV>) -> bool {
    keys_unique(g, |r: TransactionChangesV| r.tx.hash)
}

proof fn lemma_absorb_distinct(g: Seq<TransactionChangesV>, c: TransactionChangesV)
    requires
        hashes_distinct(g),
    ensures
        hashes_distinct(absorb(g, c)),
        forall|i: int| 0 <= i < g.len() ==> #[trigger] absorb(g, c)[i].tx == g[i].tx,
{
    let r = absorb(g, c);
    if !has_key(g, c.tx.hash, |x: TransactionChangesV| x.tx.hash) {
        assert forall|a: int, b: int| 0 <= a < r.len() && 0 <= b < r.len() && a != b implies r[a].tx.hash != r[b].tx.hash by {
            if a < g.len() && b < g.len() {
                assert(g[a].tx.hash != g[b].tx.hash);
            }
        }
    }
}

proof fn lemma_group_records_distinct(a: Seq<TransactionChangesV>)
    ensures
        hashes_distinct(group_records(a)),
    decreases a.len(),
{
    if a.len() > 0 {
        lemma_group_records_distinct(a.drop_last());
        lemma_absorb_distinct(group_records(a.drop_last()), a.last());
    }
}

/// The position of the record of transaction hash `h`, if any.
fn find_record(g: &Vec<TransactionChanges>, h: &Vec<u8>) -> (r: Option<usize>)
    requires
        hashes_distinct(records_view(g@)),
    ensures
        match r {
            Some(i) => i < g@.len() && g@[i as int].tx.hash@ == h@
                && i == (choose|j: int| 0 <= j < g@.len() && records_view(g@)[j].tx.hash == h@),
            None => !has_key(records_view(g@), h@, |x: TransactionChangesV| x.tx.hash),
        },
{
    let ghost v = records_view(g@);
    let mut i: usize = 0;
    while i < g.len()
        invariant
            v == records_view(g@),
            hashes_distinct(v),
            i <= g@.len(),
            forall|k: int| 0 <= k < i ==> v[k].tx.hash != h@,
        decreases g@.len() - i,
    {
        assert(v[i as int] == g@[i as int]@);
        if bytes_eq(&g[i].tx.hash, h) {
            proof {
                let c = choose|j: int| 0 <= j < g@.len() && v[j].tx.hash == h@;
                assert(v[c].tx.hash == v[i as int].tx.hash);
            }
            return Some(i);
        }
        i = i + 1;
    }
    None
}

/// Merges the creation records of a block with its working set: one record per
/// transaction hash found in either, creation records first.
pub fn merge_block(tx_changes: PartialChangeSet, changes: Vec<TransactionChanges>) -> (r: Vec<TransactionChanges>)
    requires
        set_wf(tx_changes@),
    ensures
        records_view(r@) == merged(records_view(changes@), tx_changes@),
{
    let ghost a = records_view(changes@);
    let ghost s = tx_changes@;
    let total = changes.len();
    let ghost n = changes@.len();
    let mut rest = changes;
    let mut grouped: Vec<TransactionChanges> = Vec::new();
    let mut k: usize = 0;
    assert(a.take(0) =~= Seq::<TransactionChangesV>::empty());
    assert(records_view(grouped@) =~= Seq::<TransactionChangesV>::empty());
    assert(records_view(rest@) =~= a.subrange(0, n as int));
    while rest.len() > 0
        invariant
            n == a.len(),
            n == total,
            k + rest@.len() == n,
            records_view(rest@) == a.subrange(k as int, n as int),
            records_view(grouped@) == group_records(a.take(k as int)),
        decreases rest@.len(),
    {
        let ghost g = records_view(grouped@);
        proof {
            lemma_group_records_distinct(a.take(k as int));
            assert(a.take(k + 1).drop_last() =~= a.take(k as int));
            assert(records_view(rest@)[0] == a[k as int]);
        }
        let ghost rv = rest@;
        let mut c = rest.remove(0);
        assert(rest@ =~= rv.subrange(1, rv.len() as int));
        let ghost cv = c@;
        assert(cv == a.take(k + 1).last());
        match find_record(&grouped, &c.tx.hash) {
            Some(i) => {
                let mut rec = grouped.remove(i);
                assert(rec@ == g[i as int]);
                rec.component_changes.append(&mut c.component_changes);
                rec.entity_changes.append(&mut c.entity_changes);
                proof {
                    assert(crate::model::components_view(rec.component_changes@) =~= g[i as int].components + cv.components);
                    assert(crate::model::entities_view(rec.entity_changes@) =~= g[i as int].entities + cv.entities);
                }
                grouped.insert(i, rec);
                assert(records_view(grouped@) =~= absorb(g, cv));
            },
            None => {
                grouped.push(c);
                assert(records_view(grouped@) =~= absorb(g, c@));
            },
        }
        assert forall|x: int| 0 <= x < rest@.len() implies #[trigger] records_view(rest@)[x] == a[k + 1 + x] by {
            assert(rest@[x] == rv[x + 1]);
            assert(records_view(rv)[x + 1] == a.subrange(k as int, n as int)[x + 1]);
        }
        assert(records_view(rest@) =~= a.subrange(k + 1, n as int));
        k = k + 1;
    }
    assert(a.take(k as int) =~= a);
    let ghost gr = records_view(grouped@);
    proof {
        lemma_group_records_distinct(a);
    }
    let mut entries = tx_changes.entries;
    let count = entries.len();
    let ghost m = entries@.len();
    let mut fresh: Vec<TransactionChanges> = Vec::new();
    let mut j: usize = 0;
    assert(s.take(0) =~= Seq::<PartialChangesV>::empty());
    assert(records_view(fresh@) =~= Seq::<TransactionChangesV>::empty());
    assert(partials_view(entries@) =~= s.subrange(0, m as int));
    while entries.len() > 0
        invariant
            m == s.len(),
            m == count,
            j + entries@.len() == m,
            partials_view(entries@) == s.subrange(j as int, m as int),
            gr == group_records(a),
            hashes_distinct(records_view(grouped@)),
            records_view(grouped@) == overlay_all(gr, s.take(j as int)),
            records_view(fresh@) == fresh_records(s.take(j as int), gr),
            forall|x: int| 0 <= x < gr.len() ==> #[trigger] records_view(grouped@)[x].tx == gr[x].tx,
            records_view(grouped@).len() == gr.len(),
        decreases entries@.len(),
    {
        let ghost g = records_view(grouped@);
        proof {
            assert(s.take(j + 1).drop_last() =~= s.take(j as int));
            assert(partials_view(entries@)[0] == s[j as int]);
        }
        let ghost ev = entries@;
        let p = entries.remove(0);
        assert(entries@ =~= ev.subrange(1, ev.len() as int));
        let ghost pv = p@;
        assert(pv == s.take(j + 1).last());
        let grouped_attrs = p.consolidate_entity_changes();
        match find_record(&grouped, &p.transaction.hash) {
            Some(i) => {
                let mut rec = grouped.remove(i);
                assert(rec@ == g[i as int]);
                rec.entity_changes = grouped_attrs;
                rec.balance_changes = p.balance_changes;
                grouped.insert(i, rec);
                assert(records_view(grouped@) =~= overlay(g, p@));
                proof {
                    assert(has_key(gr, p@.tx.hash, |x: TransactionChangesV| x.tx.hash)) by {
                        assert(gr[i as int].tx.hash == p@.tx.hash);
                    }
                }
                assert(records_view(fresh@) =~= fresh_records(s.take(j + 1), gr));
            },
            None => {
                assert(records_view(grouped@) =~= overlay(g, p@));
                proof {
                    assert(!has_key(gr, p@.tx.hash, |x: TransactionChangesV| x.tx.hash)) by {
                        if has_key(gr, p@.tx.hash, |x: TransactionChangesV| x.tx.hash) {
                            let w = choose|w: int| 0 <= w < gr.len() && gr[w].tx.hash == p@.tx.hash;
                            assert(g[w].tx == gr[w].tx);
                        }
                    }
                }
                let ghost before = records_view(fresh@);
                let no_components: Vec<ProtocolComponent> = Vec::new();
                assert(components_view(no_components@) =~= Seq::<ProtocolComponentV>::empty());
                fresh.push(TransactionChanges {
                    tx: p.transaction,
                    component_changes: no_components,
                    entity_changes: grouped_attrs,
                    balance_changes: p.balance_changes,
                });
                assert(records_view(fresh@) =~= before.push(fresh_record(pv)));
                assert(records_view(fresh@) =~= fresh_records(s.take(j + 1), gr));
            },
        }
        assert forall|x: int| 0 <= x < entries@.len() implies #[trigger] partials_view(entries@)[x] == s[j + 1 + x] by {
            assert(entries@[x] == ev[x + 1]);
            assert(partials_view(ev)[x + 1] == s.subrange(j as int, m as int)[x + 1]);
        }
        assert(partials_view(entries@) =~= s.subrange(j + 1, m as int));
        j = j + 1;
    }
    assert(s.take(j as int) =~= s);
    let ghost gv = records_view(grouped@);
    let ghost fv = records_view(fresh@);
    grouped.append(&mut fresh);
    assert(records_view(grouped@) =~= gv + fv);
    grouped
}

} // verus!
