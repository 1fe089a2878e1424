//! What holds of every block: last write wins, grouping, and one merged record
//! per transaction.
use vstd::prelude::*;
use crate::changes::{
    add_to_group, attr_key, group_attrs, groups_distinct, has_key, keys_unique,
    lemma_group_attrs_distinct, lemma_put_by_at, lemma_put_by_unique, put_by, balance_key, record_attr, record_balance,
    set_wf, touch, AttributeUpdateV, PartialChangesV,
};
use crate::merge::{absorb, fresh_record, fresh_records, group_records, hashes_distinct, merged, overlay, overlay_all};
use crate::model::{BalanceChangeV, EntityChangesV, ProtocolComponentV, TransactionChangesV, TransactionV};

verus! {

/// Of two keyed insertions with the same key, the second replaces the first:
/// inserting both is inserting the second alone.
pub proof fn lemma_put_by_last_wins<T, K>(s: Seq<T>, u1: T, u2: T, key: spec_fn(T) -> K)
    requires
        keys_unique(s, key),
        key(u1) == key(u2),
    ensures
        put_by(put_by(s, u1, key), u2, key) == put_by(s, u2, key),
{
    if has_key(s, key(u1), key) {
        let i = choose|i: int| 0 <= i < s.len() && key(s[i]) == key(u1);
        lemma_put_by_at(s, u1, key, i);
        lemma_put_by_at(s, u2, key, i);
        lemma_put_by_unique(s, u1, key);
        lemma_put_by_at(s.update(i, u1), u2, key, i);
        assert(s.update(i, u1).update(i, u2) =~= s.update(i, u2));
    } else {
        lemma_put_by_unique(s, u1, key);
        let n = s.len() as int;
        lemma_put_by_at(s.push(u1), u2, key, n);
        assert(s.push(u1).update(n, u2) =~= s.push(u2));
    }
}

/// Within one transaction, of two updates of the same component attribute only the
/// later survives in the working set.
pub proof fn lemma_last_write_wins(s: Seq<PartialChangesV>, tx: TransactionV, u1: AttributeUpdateV, u2: AttributeUpdateV)
    requires
        set_wf(s),
        attr_key(u1) == attr_key(u2),
    ensures
        record_attr(record_attr(s, tx, u1), tx, u2) == record_attr(s, tx, u2),
{
    let hk = |p: PartialChangesV| p.tx.hash;
    let t = touch(s, tx);
    let i = choose|i: int| 0 <= i < t.len() && t[i].tx.hash == tx.hash;
    if has_key(s, tx.hash, hk) {
        let j = choose|j: int| 0 <= j < s.len() && s[j].tx.hash == tx.hash;
        assert(t[j].tx.hash == tx.hash);
        assert(i == j);
    } else {
        assert(t[s.len() as int].tx.hash == tx.hash);
        assert(i == s.len());
        assert(t[i].attrs =~= Seq::<AttributeUpdateV>::empty());
    }
    assert(keys_unique(t[i].attrs, |x: AttributeUpdateV| attr_key(x)));
    let s1 = record_attr(s, tx, u1);
    assert(has_key(s1, tx.hash, hk)) by {
        assert(s1[i].tx.hash == tx.hash);
    }
    assert(touch(s1, tx) == s1);
    let i1 = choose|k: int| 0 <= k < s1.len() && s1[k].tx.hash == tx.hash;
    if i1 != i {
        assert(s1[i1] == t[i1]);
        assert(t[i1].tx.hash == t[i].tx.hash);
    }
    assert(i1 == i);
    lemma_put_by_last_wins(t[i].attrs, u1, u2, |x: AttributeUpdateV| attr_key(x));
    assert(record_attr(s1, tx, u2) =~= record_attr(s, tx, u2));
}

/// Within one transaction, of two balance updates of the same component and token
/// only the later survives in the working set.
pub proof fn lemma_last_balance_wins(s: Seq<PartialChangesV>, tx: TransactionV, b1: BalanceChangeV, b2: BalanceChangeV)
    requires
        set_wf(s),
        balance_key(b1) == balance_key(b2),
    ensures
        record_balance(record_balance(s, tx, b1), tx, b2) == record_balance(s, tx, b2),
{
    let hk = |p: PartialChangesV| p.tx.hash;
    let t = touch(s, tx);
    let i = choose|i: int| 0 <= i < t.len() && t[i].tx.hash == tx.hash;
    if has_key(s, tx.hash, hk) {
        let j = choose|j: int| 0 <= j < s.len() && s[j].tx.hash == tx.hash;
        assert(t[j].tx.hash == tx.hash);
        assert(i == j);
    } else {
        assert(t[s.len() as int].tx.hash == tx.hash);
        assert(i == s.len());
        assert(t[i].balances =~= Seq::<BalanceChangeV>::empty());
    }
    assert(keys_unique(t[i].balances, |x: BalanceChangeV| balance_key(x)));
    let s1 = record_balance(s, tx, b1);
    assert(has_key(s1, tx.hash, hk)) by {
        assert(s1[i].tx.hash == tx.hash);
    }
    assert(touch(s1, tx) == s1);
    let i1 = choose|k: int| 0 <= k < s1.len() && s1[k].tx.hash == tx.hash;
    if i1 != i {
        assert(s1[i1] == t[i1]);
        assert(t[i1].tx.hash == t[i].tx.hash);
    }
    assert(i1 == i);
    lemma_put_by_last_wins(t[i].balances, b1, b2, |x: BalanceChangeV| balance_key(x));
    assert(record_balance(s1, tx, b2) =~= record_balance(s, tx, b2));
}

/// Every group of the grouping collects the attributes of exactly one component id:
/// ids are distinct, every update lands in the group of its component, and every
/// attribute in a group comes from an update of that component.
pub proof fn lemma_grouping(s: Seq<AttributeUpdateV>)
    ensures
        groups_distinct(group_attrs(s)),
        forall|i: int| 0 <= i < s.len() ==> exists|j: int| 0 <= j < group_attrs(s).len()
            && #[trigger] group_attrs(s)[j].component_id == s[i].component_id
            && group_attrs(s)[j].attributes.contains(#[trigger] s[i].attribute),
        forall|j: int, k: int| 0 <= j < group_attrs(s).len() && 0 <= k < group_attrs(s)[j].attributes.len()
            ==> exists|i: int| 0 <= i < s.len() && s[i].component_id == group_attrs(s)[j].component_id
                && #[trigger] s[i].attribute == #[trigger] group_attrs(s)[j].attributes[k],
    decreases s.len(),
{
    lemma_group_attrs_distinct(s);
    if s.len() > 0 {
        let p = s.drop_last();
        let u = s.last();
        let g = group_attrs(p);
        let r = group_attrs(s);
        lemma_grouping(p);
        assert(r == add_to_group(g, u));
        let idk = |e: EntityChangesV| e.component_id;
        let found = has_key(g, u.component_id, idk);
        let jj = if found {
            choose|j: int| 0 <= j < g.len() && g[j].component_id == u.component_id
        } else {
            g.len() as int
        };
        assert(r.len() == if found { g.len() } else { g.len() + 1 });
        assert(forall|j: int| 0 <= j < g.len() && j != jj ==> r[j] == g[j]);
        assert(r[jj].component_id == u.component_id);
        assert(r[jj].attributes.last() == u.attribute);
        assert(forall|k: int| 0 <= k < r[jj].attributes.len() - 1 ==> r[jj].attributes[k] == g[jj].attributes[k]);
        assert forall|i: int| 0 <= i < s.len() implies exists|j: int| 0 <= j < r.len()
            && #[trigger] r[j].component_id == s[i].component_id && r[j].attributes.contains(#[trigger] s[i].attribute) by {
            if i == s.len() - 1 {
                assert(r[jj].attributes[r[jj].attributes.len() - 1] == u.attribute);
            } else {
                assert(s[i] == p[i]);
                let j = choose|j: int| 0 <= j < g.len() && #[trigger] g[j].component_id == p[i].component_id
                    && g[j].attributes.contains(p[i].attribute);
                let k = choose|k: int| 0 <= k < g[j].attributes.len() && g[j].attributes[k] == p[i].attribute;
                assert(r[j].component_id == s[i].component_id);
                assert(r[j].attributes[k] == s[i].attribute);
            }
        }
        assert forall|j: int, k: int| 0 <= j < r.len() && 0 <= k < r[j].attributes.len()
            implies exists|i: int| 0 <= i < s.len() && s[i].component_id == r[j].component_id
                && #[trigger] s[i].attribute == #[trigger] r[j].attributes[k] by {
            if j == jj && k == r[jj].attributes.len() - 1 {
                assert(s[s.len() - 1] == u);
            } else {
                assert(r[j].attributes[k] == g[j].attributes[k]);
                let i = choose|i: int| 0 <= i < p.len() && p[i].component_id == g[j].component_id
                    && #[trigger] p[i].attribute == #[trigger] g[j].attributes[k];
                assert(s[i] == p[i]);
            }
        }
    }
}

/// Whether some record belongs to transaction hash `h`.
pub open spec fn in_records(g: Seq<TransactionChangesV>, h: Seq<u8>) -> bool {
    has_key(g, h, |r: TransactionChangesV| r.tx.hash)
}

/// Whether the working set has an entry for transaction hash `h`.
pub open spec fn in_set(s: Seq<PartialChangesV>, h: Seq<u8>) -> bool {
    has_key(s, h, |p: PartialChangesV| p.tx.hash)
}

proof fn lemma_group_records_keys(a: Seq<TransactionChangesV>)
    ensures
        hashes_distinct(group_records(a)),
        forall|h: Seq<u8>| #[trigger] in_records(group_records(a), h) <==> in_records(a, h),
    decreases a.len(),
{
    if a.len() > 0 {
        let p = a.drop_last();
        let c = a.last();
        lemma_group_records_keys(p);
        let g = group_records(p);
        let r = group_records(a);
        assert(r == absorb(g, c));
        assert forall|h: Seq<u8>| #[trigger] in_records(r, h) <==> in_records(a, h) by {
            if in_records(a, h) {
                let i = choose|i: int| 0 <= i < a.len() && a[i].tx.hash == h;
                if i == a.len() - 1 {
                    if in_records(g, c.tx.hash) {
                        let j = choose|j: int| 0 <= j < g.len() && g[j].tx.hash == c.tx.hash;
                        assert(r[j].tx.hash == h);
                    } else {
                        assert(r[g.len() as int].tx.hash == h);
                    }
                } else {
                    assert(p[i].tx.hash == h);
                    assert(in_records(g, h));
                    let j = choose|j: int| 0 <= j < g.len() && g[j].tx.hash == h;
                    assert(r[j].tx.hash == h);
                }
            }
            if in_records(r, h) {
                let j = choose|j: int| 0 <= j < r.len() && r[j].tx.hash == h;
                if j < g.len() {
                    assert(r[j].tx.hash == g[j].tx.hash);
                    assert(in_records(g, h));
                    let i = choose|i: int| 0 <= i < p.len() && p[i].tx.hash == h;
                    assert(a[i].tx.hash == h);
                } else {
                    assert(a[a.len() - 1].tx.hash == h);
                }
            }
        }
        if !in_records(g, c.tx.hash) {
            assert forall|x: int, y: int| 0 <= x < r.len() && 0 <= y < r.len() && x != y implies r[x].tx.hash != r[y].tx.hash by {
                if x < g.len() && y < g.len() {
                    assert(g[x].tx.hash != g[y].tx.hash);
                } else if x < g.len() {
                    assert(g[x].tx.hash != c.tx.hash);
                } else if y < g.len() {
                    assert(g[y].tx.hash != c.tx.hash);
                }
            }
        } else {
            let j = choose|j: int| 0 <= j < g.len() && g[j].tx.hash == c.tx.hash;
            assert forall|x: int, y: int| 0 <= x < r.len() && 0 <= y < r.len() && x != y implies r[x].tx.hash != r[y].tx.hash by {
                assert(r[x].tx.hash == g[x].tx.hash);
                assert(r[y].tx.hash == g[y].tx.hash);
            }
        }
    }
}

proof fn lemma_overlay_all_keeps_tx(g: Seq<TransactionChangesV>, s: Seq<PartialChangesV>)
    ensures
        overlay_all(g, s).len() == g.len(),
        forall|i: int| 0 <= i < g.len() ==> #[trigger] overlay_all(g, s)[i].tx == g[i].tx
            && overlay_all(g, s)[i].components == g[i].components,
    decreases s.len(),
{
    if s.len() > 0 {
        lemma_overlay_all_keeps_tx(g, s.drop_last());
        let o = overlay_all(g, s.drop_last());
        assert(overlay_all(g, s) == overlay(o, s.last()));
    }
}

proof fn lemma_fresh_records(s: Seq<PartialChangesV>, g: Seq<TransactionChangesV>)
    requires
        keys_unique(s, |p: PartialChangesV| p.tx.hash),
    ensures
        hashes_distinct(fresh_records(s, g)),
        forall|x: int| 0 <= x < fresh_records(s, g).len() ==> #[trigger] in_set(s, fresh_records(s, g)[x].tx.hash)
            && !in_records(g, fresh_records(s, g)[x].tx.hash),
        forall|h: Seq<u8>| #[trigger] in_set(s, h) && !in_records(g, h) ==> in_records(fresh_records(s, g), h),
    decreases s.len(),
{
    if s.len() > 0 {
        let p = s.drop_last();
        let q = s.last();
        assert(keys_unique(p, |e: PartialChangesV| e.tx.hash)) by {
            assert forall|x: int, y: int| 0 <= x < p.len() && 0 <= y < p.len() && x != y implies p[x].tx.hash != p[y].tx.hash by {
                assert(s[x].tx.hash != s[y].tx.hash);
            }
        }
        lemma_fresh_records(p, g);
        let f = fresh_records(p, g);
        let r = fresh_records(s, g);
        assert forall|x: int| 0 <= x < f.len() implies #[trigger] f[x].tx.hash != q.tx.hash by {
            assert(in_set(p, f[x].tx.hash));
            let k = choose|k: int| 0 <= k < p.len() && p[k].tx.hash == f[x].tx.hash;
            assert(s[k].tx.hash != s[s.len() - 1].tx.hash);
        }
        assert forall|x: int| 0 <= x < r.len() implies #[trigger] in_set(s, r[x].tx.hash) && !in_records(g, r[x].tx.hash) by {
            if x < f.len() {
                assert(r[x] == f[x]);
                assert(in_set(p, f[x].tx.hash));
                let k = choose|k: int| 0 <= k < p.len() && p[k].tx.hash == f[x].tx.hash;
                assert(s[k].tx.hash == f[x].tx.hash);
            } else {
                assert(s[s.len() - 1].tx.hash == r[x].tx.hash);
            }
        }
        assert forall|h: Seq<u8>| #[trigger] in_set(s, h) && !in_records(g, h) implies in_records(r, h) by {
            let k = choose|k: int| 0 <= k < s.len() && s[k].tx.hash == h;
            if k == s.len() - 1 {
                assert(r[r.len() - 1].tx.hash == h);
            } else {
                assert(p[k].tx.hash == h);
                assert(in_set(p, h));
                let x = choose|x: int| 0 <= x < f.len() && f[x].tx.hash == h;
                assert(r[x].tx.hash == h);
            }
        }
        assert forall|x: int, y: int| 0 <= x < r.len() && 0 <= y < r.len() && x != y implies r[x].tx.hash != r[y].tx.hash by {
            if x < f.len() && y < f.len() {
                assert(f[x].tx.hash != f[y].tx.hash);
            } else if x < f.len() {
                assert(f[x].tx.hash != q.tx.hash);
            } else if y < f.len() {
                assert(f[y].tx.hash != q.tx.hash);
            }
        }
    }
}

/// The merged records of a block hold one record per transaction hash, and a
/// transaction has a record exactly when it has a creation record or updates.
pub proof fn lemma_merge_one_record_per_transaction(a: Seq<TransactionChangesV>, s: Seq<PartialChangesV>)
    requires
        set_wf(s),
    ensures
        hashes_distinct(merged(a, s)),
        forall|h: Seq<u8>| #[trigger] in_records(merged(a, s), h) <==> in_records(a, h) || in_set(s, h),
{
    lemma_group_records_keys(a);
    let g = group_records(a);
    lemma_overlay_all_keeps_tx(g, s);
    lemma_fresh_records(s, g);
    let o = overlay_all(g, s);
    let f = fresh_records(s, g);
    let m = merged(a, s);
    assert(m == o + f);
    assert forall|h: Seq<u8>| #[trigger] in_records(o, h) <==> in_records(g, h) by {
        if in_records(o, h) {
            let i = choose|i: int| 0 <= i < o.len() && o[i].tx.hash == h;
            assert(g[i].tx.hash == h);
        }
        if in_records(g, h) {
            let i = choose|i: int| 0 <= i < g.len() && g[i].tx.hash == h;
            assert(o[i].tx.hash == h);
        }
    }
    assert forall|x: int, y: int| 0 <= x < m.len() && 0 <= y < m.len() && x != y implies m[x].tx.hash != m[y].tx.hash by {
        if x < o.len() && y < o.len() {
            assert(g[x].tx.hash != g[y].tx.hash);
        } else if x < o.len() {
            assert(m[y] == f[y - o.len()]);
            assert(in_set(s, f[y - o.len()].tx.hash));
            assert(!in_records(g, f[y - o.len()].tx.hash));
            assert(in_records(o, m[x].tx.hash));
        } else if y < o.len() {
            assert(m[x] == f[x - o.len()]);
            assert(in_set(s, f[x - o.len()].tx.hash));
            assert(!in_records(g, f[x - o.len()].tx.hash));
            assert(in_records(o, m[y].tx.hash));
        } else {
            assert(f[x - o.len()].tx.hash != f[y - o.len()].tx.hash);
        }
    }
    assert forall|h: Seq<u8>| #[trigger] in_records(m, h) <==> in_records(a, h) || in_set(s, h) by {
        if in_records(m, h) {
            let x = choose|x: int| 0 <= x < m.len() && m[x].tx.hash == h;
            if x < o.len() {
                assert(in_records(o, h));
            } else {
                assert(f[x - o.len()].tx.hash == h);
                assert(in_set(s, h));
            }
        }
        if in_records(a, h) {
            assert(in_records(o, h));
            let x = choose|x: int| 0 <= x < o.len() && o[x].tx.hash == h;
            assert(m[x].tx.hash == h);
        } else if in_set(s, h) {
            assert(!in_records(g, h));
            assert(in_records(f, h));
            let x = choose|x: int| 0 <= x < f.len() && f[x].tx.hash == h;
            assert(m[x + o.len()].tx.hash == h);
        }
    }
}

proof fn lemma_overlay_all_at(g: Seq<TransactionChangesV>, s: Seq<PartialChangesV>, k: int, i: int)
    requires
        hashes_distinct(g),
        keys_unique(s, |p: PartialChangesV| p.tx.hash),
        0 <= k < s.len(),
        0 <= i < g.len(),
        g[i].tx.hash == s[k].tx.hash,
    ensures
        overlay_all(g, s)[i].entities == group_attrs(s[k].attrs),
        overlay_all(g, s)[i].balances == s[k].balances,
    decreases s.len(),
{
    let p = s.drop_last();
    let q = s.last();
    lemma_overlay_all_keeps_tx(g, p);
    let o = overlay_all(g, p);
    assert(overlay_all(g, s) == overlay(o, q));
    assert(hashes_distinct(o)) by {
        assert forall|x: int, y: int| 0 <= x < o.len() && 0 <= y < o.len() && x != y implies o[x].tx.hash != o[y].tx.hash by {
            assert(g[x].tx.hash != g[y].tx.hash);
        }
    }
    assert(o[i].tx.hash == g[i].tx.hash);
    if k == s.len() - 1 {
        let c = choose|c: int| 0 <= c < o.len() && o[c].tx.hash == q.tx.hash;
        assert(c == i);
    } else {
        assert(keys_unique(p, |e: PartialChangesV| e.tx.hash)) by {
            assert forall|x: int, y: int| 0 <= x < p.len() && 0 <= y < p.len() && x != y implies p[x].tx.hash != p[y].tx.hash by {
                assert(s[x].tx.hash != s[y].tx.hash);
            }
        }
        assert(p[k] == s[k]);
        lemma_overlay_all_at(g, p, k, i);
        assert(q.tx.hash != s[k].tx.hash);
        if has_key(o, q.tx.hash, |r: TransactionChangesV| r.tx.hash) {
            let c = choose|c: int| 0 <= c < o.len() && o[c].tx.hash == q.tx.hash;
            assert(c != i);
        }
    }
}

proof fn lemma_fresh_records_at(s: Seq<PartialChangesV>, g: Seq<TransactionChangesV>, k: int)
    requires
        0 <= k < s.len(),
        !in_records(g, s[k].tx.hash),
    ensures
        exists|x: int| 0 <= x < fresh_records(s, g).len() && #[trigger] fresh_records(s, g)[x] == fresh_record(s[k]),
    decreases s.len(),
{
    let p = s.drop_last();
    let f = fresh_records(p, g);
    let r = fresh_records(s, g);
    if k == s.len() - 1 {
        assert(r[f.len() as int] == fresh_record(s[k]));
    } else {
        assert(p[k] == s[k]);
        lemma_fresh_records_at(p, g, k);
        let x = choose|x: int| 0 <= x < f.len() && #[trigger] f[x] == fresh_record(p[k]);
        assert(r[x] == f[x]);
    }
}

/// The merged record of a transaction with updates carries exactly its grouped
/// attribute updates and its balance updates, replacing any placeholder values of
/// its creation record.
pub proof fn lemma_merge_takes_updates(a: Seq<TransactionChangesV>, s: Seq<PartialChangesV>, k: int)
    requires
        set_wf(s),
        0 <= k < s.len(),
    ensures
        exists|x: int| 0 <= x < merged(a, s).len() && #[trigger] merged(a, s)[x].tx.hash == s[k].tx.hash
            && merged(a, s)[x].entities == group_attrs(s[k].attrs) && merged(a, s)[x].balances == s[k].balances,
{
    lemma_group_records_keys(a);
    let g = group_records(a);
    lemma_overlay_all_keeps_tx(g, s);
    let o = overlay_all(g, s);
    let f = fresh_records(s, g);
    let m = merged(a, s);
    assert(m == o + f);
    if in_records(g, s[k].tx.hash) {
        let i = choose|i: int| 0 <= i < g.len() && g[i].tx.hash == s[k].tx.hash;
        lemma_overlay_all_at(g, s, k, i);
        assert(m[i] == o[i]);
        assert(m[i].tx.hash == s[k].tx.hash);
    } else {
        lemma_fresh_records_at(s, g, k);
        let x = choose|x: int| 0 <= x < f.len() && #[trigger] f[x] == fresh_record(s[k]);
        assert(m[x + o.len()] == f[x]);
        assert(m[x + o.len()].tx.hash == s[k].tx.hash);
    }
}

/// The components of all creation records of transaction hash `h`, in order.
pub open spec fn components_of(a: Seq<TransactionChangesV>, h: Seq<u8>) -> Seq<ProtocolComponentV>
    decreases a.len(),
{
    if a.len() == 0 {
        Seq::empty()
    } else {
        components_of(a.drop_last(), h) + if a.last().tx.hash == h {
            a.last().components
        } else {
            Seq::empty()
        }
    }
}

proof fn lemma_components_of_absent(a: Seq<TransactionChangesV>, h: Seq<u8>)
    requires
        !in_records(a, h),
    ensures
        components_of(a, h) == Seq::<ProtocolComponentV>::empty(),
    decreases a.len(),
{
    if a.len() > 0 {
        let p = a.drop_last();
        assert(!in_records(p, h)) by {
            if in_records(p, h) {
                let i = choose|i: int| 0 <= i < p.len() && p[i].tx.hash == h;
                assert(a[i].tx.hash == h);
            }
        }
        lemma_components_of_absent(p, h);
        assert(a[a.len() - 1].tx.hash != h);
        assert(components_of(a, h) =~= Seq::<ProtocolComponentV>::empty());
    }
}

proof fn lemma_group_records_components(a: Seq<TransactionChangesV>)
    ensures
        forall|i: int| 0 <= i < group_records(a).len() ==> #[trigger] group_records(a)[i].components
            == components_of(a, group_records(a)[i].tx.hash),
    decreases a.len(),
{
    if a.len() > 0 {
        let p = a.drop_last();
        let c = a.last();
        lemma_group_records_components(p);
        lemma_group_records_keys(p);
        let g = group_records(p);
        let r = group_records(a);
        assert(r == absorb(g, c));
        if in_records(g, c.tx.hash) {
            let j = choose|j: int| 0 <= j < g.len() && g[j].tx.hash == c.tx.hash;
            assert forall|i: int| 0 <= i < r.len() implies #[trigger] r[i].components == components_of(a, r[i].tx.hash) by {
                if i == j {
                    assert(r[i].components == g[j].components + c.components);
                } else {
                    assert(g[i].tx.hash != g[j].tx.hash);
                    assert(r[i] == g[i]);
                    assert(components_of(a, r[i].tx.hash) =~= components_of(p, g[i].tx.hash));
                }
            }
        } else {
            assert forall|i: int| 0 <= i < r.len() implies #[trigger] r[i].components == components_of(a, r[i].tx.hash) by {
                if i < g.len() {
                    assert(r[i] == g[i]);
                    assert(g[i].tx.hash != c.tx.hash);
                    assert(components_of(a, r[i].tx.hash) =~= components_of(p, g[i].tx.hash));
                } else {
                    assert(!in_records(p, c.tx.hash));
                    lemma_components_of_absent(p, c.tx.hash);
                    assert(components_of(a, c.tx.hash) =~= c.components);
                }
            }
        }
    }
}

/// The merged record of a transaction with creation records carries the components
/// of all of them, in order.
pub proof fn lemma_merge_keeps_components(a: Seq<TransactionChangesV>, s: Seq<PartialChangesV>, h: Seq<u8>)
    requires
        set_wf(s),
        in_records(a, h),
    ensures
        exists|x: int| 0 <= x < merged(a, s).len() && #[trigger] merged(a, s)[x].tx.hash == h
            && merged(a, s)[x].components == components_of(a, h),
{
    lemma_group_records_keys(a);
    lemma_group_records_components(a);
    let g = group_records(a);
    lemma_overlay_all_keeps_tx(g, s);
    let o = overlay_all(g, s);
    let m = merged(a, s);
    assert(in_records(g, h));
    let i = choose|i: int| 0 <= i < g.len() && g[i].tx.hash == h;
    assert(m[i] == o[i]);
    assert(m[i].tx.hash == h);
}

} // verus!
