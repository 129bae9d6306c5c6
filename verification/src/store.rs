//! A model of the local mirror store and the idempotent upsert that feeds
//! it.
//!
//! The store is the relation `objects(resource, obj_id, updated, payload)`
//! with `(resource, obj_id)` unique.  An upsert inserts an unseen key and
//! overwrites the `updated` and `payload` of a seen one — last write wins,
//! with no timestamp comparison.  The watermark of a dataset is the
//! lexicographically greatest `updated` among its rows, converted to epoch
//! seconds, and is derived from the rows on demand, never stored
//! separately.

use vstd::prelude::*;
use crate::batch::BatchPlan;
use crate::record::Row;
use crate::resource::Resource;
use crate::timestamp::{parse_epoch, parse_ts_spec};

verus! {

/// The mathematical content of the store: key to (updated, payload).
pub type StoreMap = Map<(Resource, int), (Seq<char>, Seq<char>)>;

pub open spec fn row_key(r: Row) -> (Resource, int) {
    (r.resource, r.obj_id as int)
}

pub open spec fn row_val(r: Row) -> (Seq<char>, Seq<char>) {
    (r.updated@, r.payload@)
}

/// Lexicographic order on character sequences, by unicode scalar value;
/// the order under which the greatest stored `updated` is selected.
pub open spec fn lex_le(a: Seq<char>, b: Seq<char>) -> bool
    decreases a.len(),
{
    if a.len() == 0 {
        true
    } else if b.len() == 0 {
        false
    } else if (a[0] as u32) < (b[0] as u32) {
        true
    } else if (a[0] as u32) > (b[0] as u32) {
        false
    } else {
        lex_le(a.drop_first(), b.drop_first())
    }
}

pub proof fn lemma_lex_le_refl(a: Seq<char>)
    ensures
        lex_le(a, a),
    decreases a.len(),
{
    if a.len() > 0 {
        lemma_lex_le_refl(a.drop_first());
    }
}

pub proof fn lemma_lex_le_total(a: Seq<char>, b: Seq<char>)
    ensures
        lex_le(a, b) || lex_le(b, a),
    decreases a.len(),
{
    if a.len() > 0 && b.len() > 0 && (a[0] as u32) == (b[0] as u32) {
        lemma_lex_le_total(a.drop_first(), b.drop_first());
    }
}

pub proof fn lemma_lex_le_trans(a: Seq<char>, b: Seq<char>, c: Seq<char>)
    requires
        lex_le(a, b),
        lex_le(b, c),
    ensures
        lex_le(a, c),
    decreases a.len(),
{
    if a.len() == 0 {
    } else {
        if (a[0] as u32) == (b[0] as u32) && (b[0] as u32) == (c[0] as u32) {
            lemma_lex_le_trans(a.drop_first(), b.drop_first(), c.drop_first());
        }
    }
}

/// Character-by-character lexicographic comparison.
pub fn str_le(a: &str, b: &str) -> (r: bool)
    ensures
        r == lex_le(a@, b@),
    decreases a@.len(),
{
    let al = a.unicode_len();
    let bl = b.unicode_len();
    if al == 0 {
        true
    } else if bl == 0 {
        false
    } else {
        let ca = a.get_char(0) as u32;
        let cb = b.get_char(0) as u32;
        if ca < cb {
            true
        } else if ca > cb {
            false
        } else {
            let a2 = a.substring_char(1, al);
            let b2 = b.substring_char(1, bl);
            proof {
                assert(a2@ =~= a@.drop_first());
                assert(b2@ =~= b@.drop_first());
            }
            str_le(a2, b2)
        }
    }
}

/// The map a sequence of rows denotes, later rows overwriting earlier ones
/// of the same key.
pub open spec fn rows_to_map(rows: Seq<Row>) -> StoreMap
    decreases rows.len(),
{
    if rows.len() == 0 {
        Map::empty()
    } else {
        rows_to_map(rows.drop_last()).insert(row_key(rows.last()), row_val(rows.last()))
    }
}

pub open spec fn unique_keys(rows: Seq<Row>) -> bool {
    forall|i: int, j: int|
        0 <= i < j < rows.len() ==> row_key(#[trigger] rows[i]) != row_key(#[trigger] rows[j])
}

proof fn lemma_rows_to_map_at(rows: Seq<Row>, i: int)
    requires
        unique_keys(rows),
        0 <= i < rows.len(),
    ensures
        rows_to_map(rows).dom().contains(row_key(rows[i])),
        rows_to_map(rows)[row_key(rows[i])] == row_val(rows[i]),
    decreases rows.len(),
{
    if i == rows.len() - 1 {
    } else {
        let dl = rows.drop_last();
        assert(dl[i] == rows[i]);
        lemma_rows_to_map_at(dl, i);
        assert(row_key(rows[i]) != row_key(rows.last()));
    }
}

proof fn lemma_rows_to_map_dom(rows: Seq<Row>, k: (Resource, int))
    requires
        rows_to_map(rows).dom().contains(k),
    ensures
        exists|i: int| 0 <= i < rows.len() && row_key(#[trigger] rows[i]) == k,
    decreases rows.len(),
{
    if rows.len() > 0 {
        if row_key(rows.last()) == k {
            assert(row_key(rows[rows.len() - 1]) == k);
        } else {
            lemma_rows_to_map_dom(rows.drop_last(), k);
            let i = choose|i: int|
                0 <= i < rows.drop_last().len() && row_key(#[trigger] rows.drop_last()[i]) == k;
            assert(rows[i] == rows.drop_last()[i]);
        }
    }
}

proof fn lemma_rows_to_map_update(rows: Seq<Row>, i: int, r2: Row)
    requires
        unique_keys(rows),
        0 <= i < rows.len(),
        row_key(r2) == row_key(rows[i]),
    ensures
        rows_to_map(rows.update(i, r2)) == rows_to_map(rows).insert(row_key(r2), row_val(r2)),
    decreases rows.len(),
{
    let rows2 = rows.update(i, r2);
    if i == rows.len() - 1 {
        assert(rows2.drop_last() =~= rows.drop_last());
        assert(rows2.last() == r2);
        assert(rows_to_map(rows2) =~= rows_to_map(rows).insert(row_key(r2), row_val(r2)));
    } else {
        let dl = rows.drop_last();
        assert(dl[i] == rows[i]);
        lemma_rows_to_map_update(dl, i, r2);
        assert(rows2.drop_last() =~= dl.update(i, r2));
        assert(rows2.last() == rows.last());
        assert(row_key(rows.last()) != row_key(r2));
        assert(rows_to_map(rows2) =~= rows_to_map(rows).insert(row_key(r2), row_val(r2)));
    }
}

proof fn lemma_rows_to_map_push(rows: Seq<Row>, r: Row)
    ensures
        rows_to_map(rows.push(r)) == rows_to_map(rows).insert(row_key(r), row_val(r)),
{
    assert(rows.push(r).drop_last() =~= rows);
    assert(rows.push(r).last() == r);
}

/// The map after upserting `rows` in order into `m`.
pub open spec fn apply_rows(m: StoreMap, rows: Seq<Row>) -> StoreMap
    decreases rows.len(),
{
    if rows.len() == 0 {
        m
    } else {
        apply_rows(m, rows.drop_last()).insert(row_key(rows.last()), row_val(rows.last()))
    }
}

/// The map after upserting every batch of `batches` in order into `m`.
pub open spec fn apply_batches(m: StoreMap, batches: Seq<Vec<Row>>) -> StoreMap
    decreases batches.len(),
{
    if batches.len() == 0 {
        m
    } else {
        apply_rows(apply_batches(m, batches.drop_last()), batches.last()@)
    }
}

/// Whether some row of `rows` has key `k`.
pub open spec fn seq_has_key(rows: Seq<Row>, k: (Resource, int)) -> bool {
    exists|i: int| 0 <= i < rows.len() && row_key(#[trigger] rows[i]) == k
}

/// The value the last row of key `k` carries.
pub open spec fn seq_last_val(rows: Seq<Row>, k: (Resource, int)) -> (Seq<char>, Seq<char>)
    decreases rows.len(),
{
    if rows.len() == 0 {
        arbitrary()
    } else if row_key(rows.last()) == k {
        row_val(rows.last())
    } else {
        seq_last_val(rows.drop_last(), k)
    }
}

proof fn lemma_seq_has_key_unfold(rows: Seq<Row>, k: (Resource, int))
    requires
        rows.len() > 0,
    ensures
        seq_has_key(rows, k) <==> (seq_has_key(rows.drop_last(), k) || row_key(rows.last()) == k),
{
    let dl = rows.drop_last();
    if seq_has_key(rows, k) {
        let i = choose|i: int| 0 <= i < rows.len() && row_key(#[trigger] rows[i]) == k;
        if i < rows.len() - 1 {
            assert(dl[i] == rows[i]);
            assert(seq_has_key(dl, k));
        }
    }
    if seq_has_key(dl, k) {
        let i = choose|i: int| 0 <= i < dl.len() && row_key(#[trigger] dl[i]) == k;
        assert(rows[i] == dl[i]);
        assert(seq_has_key(rows, k));
    }
    if row_key(rows.last()) == k {
        assert(row_key(rows[rows.len() - 1]) == k);
        assert(seq_has_key(rows, k));
    }
}

/// How `apply_rows` reads at one key: a key some row carries ends at the
/// value of its last row; every other key keeps what `m` had.
proof fn lemma_apply_rows_at(m: StoreMap, rows: Seq<Row>, k: (Resource, int))
    ensures
        apply_rows(m, rows).dom().contains(k) <==> (m.dom().contains(k) || seq_has_key(rows, k)),
        seq_has_key(rows, k) ==> apply_rows(m, rows)[k] == seq_last_val(rows, k),
        !seq_has_key(rows, k) && m.dom().contains(k) ==> apply_rows(m, rows)[k] == m[k],
    decreases rows.len(),
{
    if rows.len() == 0 {
        if seq_has_key(rows, k) {
            let i = choose|i: int| 0 <= i < rows.len() && row_key(#[trigger] rows[i]) == k;
            assert(false);
        }
    } else {
        lemma_apply_rows_at(m, rows.drop_last(), k);
        lemma_seq_has_key_unfold(rows, k);
    }
}

/// Idempotence of the upsert path: applying the same rows again, in the
/// same order, leaves the store exactly as after the first application.
pub proof fn lemma_apply_rows_idempotent(m: StoreMap, rows: Seq<Row>)
    ensures
        apply_rows(apply_rows(m, rows), rows) == apply_rows(m, rows),
{
    let m1 = apply_rows(m, rows);
    assert forall|k: (Resource, int)|
        apply_rows(m1, rows).dom().contains(k) == #[trigger] m1.dom().contains(k) by {
        lemma_apply_rows_at(m, rows, k);
        lemma_apply_rows_at(m1, rows, k);
    }
    assert forall|k: (Resource, int)| #[trigger]
        m1.dom().contains(k) implies apply_rows(m1, rows)[k] == m1[k] by {
        lemma_apply_rows_at(m, rows, k);
        lemma_apply_rows_at(m1, rows, k);
    }
    assert(apply_rows(m1, rows).dom() =~= m1.dom());
    assert(apply_rows(m1, rows) =~= m1);
}

/// The rows of a sequence of batches, in application order.
pub open spec fn batches_rows(batches: Seq<Vec<Row>>) -> Seq<Row>
    decreases batches.len(),
{
    if batches.len() == 0 {
        Seq::empty()
    } else {
        batches_rows(batches.drop_last()) + batches.last()@
    }
}

proof fn lemma_apply_rows_concat(m: StoreMap, a: Seq<Row>, b: Seq<Row>)
    ensures
        apply_rows(m, a + b) == apply_rows(apply_rows(m, a), b),
    decreases b.len(),
{
    if b.len() == 0 {
        assert(a + b =~= a);
    } else {
        assert((a + b).drop_last() =~= a + b.drop_last());
        assert((a + b).last() == b.last());
        lemma_apply_rows_concat(m, a, b.drop_last());
    }
}

/// Batching does not change what is applied: applying the batches in order
/// equals applying their rows in order.
pub proof fn lemma_apply_batches_as_rows(m: StoreMap, batches: Seq<Vec<Row>>)
    ensures
        apply_batches(m, batches) == apply_rows(m, batches_rows(batches)),
    decreases batches.len(),
{
    if batches.len() > 0 {
        lemma_apply_batches_as_rows(m, batches.drop_last());
        lemma_apply_rows_concat(m, batches_rows(batches.drop_last()), batches.last()@);
    }
}

/// Idempotence at the plan level: committing the same batched plan twice
/// with no change in between leaves the same stored rows as once.
pub proof fn lemma_apply_batches_idempotent(m: StoreMap, batches: Seq<Vec<Row>>)
    ensures
        apply_batches(apply_batches(m, batches), batches) == apply_batches(m, batches),
{
    let rows = batches_rows(batches);
    lemma_apply_batches_as_rows(m, batches);
    lemma_apply_batches_as_rows(apply_batches(m, batches), batches);
    lemma_apply_rows_idempotent(m, rows);
}

/// Whether any row of dataset `resource` is stored.
pub open spec fn spec_has_rows(m: StoreMap, resource: Resource) -> bool {
    exists|k: (Resource, int)| #[trigger] m.dom().contains(k) && k.0 == resource
}

/// `s` is the greatest `updated` among the rows of `resource`.
pub open spec fn is_max_updated(m: StoreMap, resource: Resource, s: Seq<char>) -> bool {
    &&& exists|k: (Resource, int)| #[trigger] m.dom().contains(k) && k.0 == resource && m[k].0 == s
    &&& forall|k: (Resource, int)|
        #[trigger] m.dom().contains(k) && k.0 == resource ==> lex_le(m[k].0, s)
}

/// An in-memory mirror store with the relation's semantics.
pub struct Store {
    rows: Vec<Row>,
}

impl View for Store {
    type V = StoreMap;

    closed spec fn view(&self) -> StoreMap {
        rows_to_map(self.rows@)
    }
}

impl Store {
    /// The store's structural invariant: one row per key.  Established by
    /// `new` and preserved by every operation.
    pub closed spec fn inv(&self) -> bool {
        unique_keys(self.rows@)
    }

    /// An empty store.
    pub fn new() -> (s: Store)
        ensures
            s@ == StoreMap::empty(),
            s.inv(),
    {
        Store { rows: Vec::new() }
    }

    fn find(&self, resource: Resource, obj_id: i64) -> (r: Option<usize>)
        ensures
            match r {
                Some(i) => i < self.rows@.len() && row_key(self.rows@[i as int]) == (
                    resource,
                    obj_id as int,
                ),
                None => forall|i: int|
                    0 <= i < self.rows@.len() ==> row_key(#[trigger] self.rows@[i]) != (
                        resource,
                        obj_id as int,
                    ),
            },
    {
        let n = self.rows.len();
        let mut i: usize = 0;
        while i < n
            invariant
                i <= n,
                n == self.rows@.len(),
                forall|j: int|
                    0 <= j < i ==> row_key(#[trigger] self.rows@[j]) != (resource, obj_id as int),
            decreases n - i,
        {
            let row = &self.rows[i];
            if row.obj_id == obj_id && row.resource == resource {
                return Some(i);
            }
            i += 1;
        }
        None
    }

    /// Insert-or-update one row, keyed by `(resource, obj_id)`: an unseen
    /// key is inserted, a seen one has its `updated` and `payload`
    /// overwritten.
    pub fn upsert(&mut self, row: Row)
        requires
            old(self).inv(),
        ensures
            final(self).inv(),
            final(self)@ == old(self)@.insert(row_key(row), row_val(row)),
    {
        match self.find(row.resource, row.obj_id) {
            Some(i) => {
                proof {
                    lemma_rows_to_map_update(self.rows@, i as int, row);
                }
                self.rows[i] = row;
                proof {
                    assert forall|a: int, b: int|
                        0 <= a < b < self.rows@.len() implies row_key(#[trigger] self.rows@[a])
                        != row_key(#[trigger] self.rows@[b]) by {}
                }
            },
            None => {
                proof {
                    lemma_rows_to_map_push(self.rows@, row);
                }
                self.rows.push(row);
            },
        }
    }

    /// Upsert every row of one batch, in order.
    pub fn apply_batch(&mut self, batch: &Vec<Row>)
        requires
            old(self).inv(),
        ensures
            final(self).inv(),
            final(self)@ == apply_rows(old(self)@, batch@),
    {
        let n = batch.len();
        let mut i: usize = 0;
        while i < n
            invariant
                i <= n,
                n == batch@.len(),
                self.inv(),
                self@ == apply_rows(old(self)@, batch@.take(i as int)),
            decreases n - i,
        {
            let src = &batch[i];
            let row = Row {
                resource: src.resource,
                obj_id: src.obj_id,
                updated: src.updated.clone(),
                payload: src.payload.clone(),
            };
            assert(row_key(row) == row_key(batch@[i as int]) && row_val(row) == row_val(
                batch@[i as int],
            ));
            self.upsert(row);
            proof {
                assert(batch@.take(i + 1).drop_last() =~= batch@.take(i as int));
                assert(batch@.take(i + 1).last() == batch@[i as int]);
            }
            i += 1;
        }
        proof {
            assert(batch@.take(n as int) =~= batch@);
        }
    }

    /// Commit a whole plan, batch by batch, in order.
    pub fn apply_plan(&mut self, plan: &BatchPlan)
        requires
            old(self).inv(),
        ensures
            final(self).inv(),
            final(self)@ == apply_batches(old(self)@, plan.batches@),
    {
        let n = plan.batches.len();
        let mut b: usize = 0;
        while b < n
            invariant
                b <= n,
                n == plan.batches@.len(),
                self.inv(),
                self@ == apply_batches(old(self)@, plan.batches@.take(b as int)),
            decreases n - b,
        {
            self.apply_batch(&plan.batches[b]);
            proof {
                assert(plan.batches@.take(b + 1).drop_last() =~= plan.batches@.take(b as int));
                assert(plan.batches@.take(b + 1).last() == plan.batches@[b as int]);
            }
            b += 1;
        }
        proof {
            assert(plan.batches@.take(n as int) =~= plan.batches@);
        }
    }

    /// The stored payload of one object, if present.
    pub fn get_payload(&self, resource: Resource, obj_id: i64) -> (r: Option<&String>)
        requires
            self.inv(),
        ensures
            match r {
                Some(p) => self@.dom().contains((resource, obj_id as int)) && p@ == self@[
                    (resource, obj_id as int)
                ].1,
                None => !self@.dom().contains((resource, obj_id as int)),
            },
    {
        match self.find(resource, obj_id) {
            Some(i) => {
                proof {
                    lemma_rows_to_map_at(self.rows@, i as int);
                }
                Some(&self.rows[i].payload)
            },
            None => {
                proof {
                    if self@.dom().contains((resource, obj_id as int)) {
                        lemma_rows_to_map_dom(self.rows@, (resource, obj_id as int));
                    }
                }
                None
            },
        }
    }

    /// The watermark of a dataset: the greatest stored `updated`, as epoch
    /// seconds.  Absent when the dataset has no rows — that triggers a
    /// full sync — and absent, not an error, when the greatest `updated`
    /// does not parse: corrupt data degrades to a full resync.
    pub fn max_updated_epoch(&self, resource: Resource) -> (r: Option<i64>)
        requires
            self.inv(),
        ensures
            match r {
                Some(v) => exists|s: Seq<char>| #[trigger]
                    is_max_updated(self@, resource, s) && parse_ts_spec(s) == Some(v as int),
                None => !spec_has_rows(self@, resource) || (exists|s: Seq<char>| #[trigger]
                    is_max_updated(self@, resource, s) && parse_ts_spec(s) is None),
            },
    {
        let n = self.rows.len();
        let mut best: Option<usize> = None;
        let mut i: usize = 0;
        while i < n
            invariant
                i <= n,
                n == self.rows@.len(),
                unique_keys(self.rows@),
                match best {
                    None => forall|j: int|
                        0 <= j < i ==> (#[trigger] self.rows@[j]).resource != resource,
                    Some(bi) => (bi as int) < i && self.rows@[bi as int].resource == resource
                        && forall|j: int|
                        0 <= j < i && (#[trigger] self.rows@[j]).resource == resource ==> lex_le(
                            self.rows@[j].updated@,
                            self.rows@[bi as int].updated@,
                        ),
                },
            decreases n - i,
        {
            let row = &self.rows[i];
            if row.resource == resource {
                match best {
                    None => {
                        proof {
                            lemma_lex_le_refl(self.rows@[i as int].updated@);
                        }
                        best = Some(i);
                    },
                    Some(bi) => {
                        let better = {
                            let b = &self.rows[bi];
                            str_le(b.updated.as_str(), row.updated.as_str())
                        };
                        if better {
                            proof {
                                lemma_lex_le_refl(self.rows@[i as int].updated@);
                                assert forall|j: int|
                                    0 <= j < i + 1 && (#[trigger] self.rows@[j]).resource
                                        == resource implies lex_le(
                                    self.rows@[j].updated@,
                                    self.rows@[i as int].updated@,
                                ) by {
                                    if j < i {
                                        lemma_lex_le_trans(
                                            self.rows@[j].updated@,
                                            self.rows@[bi as int].updated@,
                                            self.rows@[i as int].updated@,
                                        );
                                    }
                                }
                            }
                            best = Some(i);
                        } else {
                            proof {
                                lemma_lex_le_total(
                                    self.rows@[bi as int].updated@,
                                    self.rows@[i as int].updated@,
                                );
                            }
                        }
                    },
                }
            }
            i += 1;
        }
        match best {
            None => {
                proof {
                    if spec_has_rows(self@, resource) {
                        let k = choose|k: (Resource, int)| #[trigger]
                            self@.dom().contains(k) && k.0 == resource;
                        lemma_rows_to_map_dom(self.rows@, k);
                    }
                }
                None
            },
            Some(bi) => {
                let ghost ms = self.rows@[bi as int].updated@;
                proof {
                    lemma_rows_to_map_at(self.rows@, bi as int);
                    assert forall|k: (Resource, int)| #[trigger]
                        self@.dom().contains(k) && k.0 == resource implies lex_le(
                        self@[k].0,
                        ms,
                    ) by {
                        lemma_rows_to_map_dom(self.rows@, k);
                        let j = choose|j: int|
                            0 <= j < self.rows@.len() && row_key(#[trigger] self.rows@[j]) == k;
                        lemma_rows_to_map_at(self.rows@, j);
                    }
                    assert(is_max_updated(self@, resource, ms));
                }
                parse_epoch(self.rows[bi].updated.as_str())
            },
        }
    }
}

} // verus!
