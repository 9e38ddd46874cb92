//! A table of cost records keyed by (category, name, object), with the
//! merge-upsert that adds to a record instead of replacing it.
use vstd::prelude::*;
use crate::classify::{Category, MAX_DURATION};
use crate::text::str_eq;

verus! {

/// The key of a cost record: its category, the symbol's name, the object.
pub type MetricKey = (Category, Seq<char>, Seq<char>);

/// One aggregate row: cumulative duration and occurrence count of a symbol
/// in one compiled object.
#[derive(Debug)]
pub struct MetricRow {
    pub category: Category,
    pub name: String,
    pub object: String,
    pub duration: u64,
    pub count: u64,
}

pub open spec fn row_key(r: MetricRow) -> MetricKey {
    (r.category, r.name@, r.object@)
}

pub open spec fn row_value(r: MetricRow) -> (nat, nat) {
    (r.duration as nat, r.count as nat)
}

/// The rows as a map from key to (duration, count); a later row wins.
pub open spec fn rows_view(rows: Seq<MetricRow>) -> Map<MetricKey, (nat, nat)>
    decreases rows.len(),
{
    if rows.len() == 0 {
        Map::empty()
    } else {
        rows_view(rows.drop_last()).insert(row_key(rows.last()), row_value(rows.last()))
    }
}

pub open spec fn keys_unique(rows: Seq<MetricRow>) -> bool {
    forall|i: int, j: int| 0 <= i < j < rows.len() ==> #[trigger] row_key(rows[i]) != #[trigger] row_key(rows[j])
}

pub open spec fn rows_bounded(rows: Seq<MetricRow>) -> bool {
    forall|i: int|
        0 <= i < rows.len() ==> (#[trigger] rows[i]).duration <= MAX_DURATION && rows[i].count
            <= MAX_DURATION
}

/// The (duration, count) stored under `k`, zero where there is none.
pub open spec fn value_at(m: Map<MetricKey, (nat, nat)>, k: MetricKey) -> (nat, nat) {
    if m.contains_key(k) {
        m[k]
    } else {
        (0, 0)
    }
}

/// Merge-upsert of every record of `delta` into `base`: new keys are
/// inserted, existing ones get the durations and counts added.
pub open spec fn merge_maps(base: Map<MetricKey, (nat, nat)>, delta: Map<MetricKey, (nat, nat)>) -> Map<
    MetricKey,
    (nat, nat),
> {
    Map::new(
        |k: MetricKey| base.contains_key(k) || delta.contains_key(k),
        |k: MetricKey|
            (
                (value_at(base, k).0 + value_at(delta, k).0) as nat,
                (value_at(base, k).1 + value_at(delta, k).1) as nat,
            ),
    )
}

pub proof fn lemma_rows_view_contains(rows: Seq<MetricRow>, k: MetricKey)
    ensures
        rows_view(rows).contains_key(k) <==> exists|i: int|
            0 <= i < rows.len() && row_key(#[trigger] rows[i]) == k,
    decreases rows.len(),
{
    if rows.len() > 0 {
        let dl = rows.drop_last();
        lemma_rows_view_contains(dl, k);
        if rows_view(rows).contains_key(k) {
            if k == row_key(rows.last()) {
                assert(row_key(rows[rows.len() - 1]) == k);
            } else {
                let i = choose|i: int| 0 <= i < dl.len() && row_key(#[trigger] dl[i]) == k;
                assert(row_key(rows[i]) == k);
            }
        }
        if exists|i: int| 0 <= i < rows.len() && row_key(#[trigger] rows[i]) == k {
            let i = choose|i: int| 0 <= i < rows.len() && row_key(#[trigger] rows[i]) == k;
            if i < dl.len() {
                assert(row_key(dl[i]) == k);
            }
        }
    }
}

pub proof fn lemma_rows_view_at(rows: Seq<MetricRow>, i: int)
    requires
        keys_unique(rows),
        0 <= i < rows.len(),
    ensures
        rows_view(rows).contains_key(row_key(rows[i])),
        rows_view(rows)[row_key(rows[i])] == row_value(rows[i]),
    decreases rows.len(),
{
    let dl = rows.drop_last();
    if i < rows.len() - 1 {
        assert(row_key(rows[i]) != row_key(rows[rows.len() - 1]));
        assert(dl[i] == rows[i]);
        lemma_rows_view_at(dl, i);
    }
}

pub proof fn lemma_rows_view_update(rows: Seq<MetricRow>, i: int, r: MetricRow)
    requires
        keys_unique(rows),
        0 <= i < rows.len(),
        row_key(r) == row_key(rows[i]),
    ensures
        rows_view(rows.update(i, r)) == rows_view(rows).insert(row_key(r), row_value(r)),
    decreases rows.len(),
{
    let s = rows.update(i, r);
    let dl = rows.drop_last();
    if i == rows.len() - 1 {
        assert(s.drop_last() =~= dl);
        assert(rows_view(s) =~= rows_view(rows).insert(row_key(r), row_value(r)));
    } else {
        assert(s.drop_last() =~= dl.update(i, r));
        assert(dl[i] == rows[i]);
        lemma_rows_view_update(dl, i, r);
        assert(row_key(rows[i]) != row_key(rows[rows.len() - 1]));
        assert(rows_view(s) =~= rows_view(rows).insert(row_key(r), row_value(r)));
    }
}

pub proof fn lemma_rows_view_push(rows: Seq<MetricRow>, r: MetricRow)
    ensures
        rows_view(rows.push(r)) == rows_view(rows).insert(row_key(r), row_value(r)),
{
    assert(rows.push(r).drop_last() =~= rows);
}

/// Every record in a well-formed table lies in the store's range.
pub proof fn lemma_rows_view_bounded(rows: Seq<MetricRow>, k: MetricKey)
    requires
        keys_unique(rows),
        rows_bounded(rows),
    ensures
        value_at(rows_view(rows), k).0 <= MAX_DURATION,
        value_at(rows_view(rows), k).1 <= MAX_DURATION,
{
    lemma_rows_view_contains(rows, k);
    if rows_view(rows).contains_key(k) {
        let i = choose|i: int| 0 <= i < rows.len() && row_key(#[trigger] rows[i]) == k;
        lemma_rows_view_at(rows, i);
    }
}

impl MetricRow {
    /// A record of one occurrence of `name` in `object`.
    pub fn new(category: Category, name: &str, object: &str, duration: u64) -> (r: MetricRow)
        ensures
            row_key(r) == (category, name@, object@),
            r.duration == duration,
            r.count == 1,
    {
        MetricRow { category, name: name.to_owned(), object: object.to_owned(), duration, count: 1 }
    }
}

/// A set of cost records with unique keys.
#[derive(Debug)]
pub struct MetricTable {
    pub rows: Vec<MetricRow>,
}

impl View for MetricTable {
    type V = Map<MetricKey, (nat, nat)>;

    open spec fn view(&self) -> Map<MetricKey, (nat, nat)> {
        rows_view(self.rows@)
    }
}

impl MetricTable {
    /// Keys are unique and every figure lies in the store's range.
    pub open spec fn wf(&self) -> bool {
        keys_unique(self.rows@) && rows_bounded(self.rows@)
    }

    pub fn new() -> (r: MetricTable)
        ensures
            r.wf(),
            r@ == Map::<MetricKey, (nat, nat)>::empty(),
    {
        MetricTable { rows: Vec::new() }
    }

    /// The position of the row under the given key.
    fn find(&self, category: Category, name: &str, object: &str) -> (r: Option<usize>)
        ensures
            r matches Some(i) ==> i < self.rows@.len() && row_key(self.rows@[i as int]) == (
                category,
                name@,
                object@,
            ),
            r is None ==> !self@.contains_key((category, name@, object@)),
    {
        let mut i: usize = 0;
        while i < self.rows.len()
            invariant
                i <= self.rows@.len(),
                forall|j: int|
                    0 <= j < i ==> row_key(#[trigger] self.rows@[j]) != (category, name@, object@),
            decreases self.rows@.len() - i,
        {
            let row = &self.rows[i];
            if row.category == category && str_eq(row.name.as_str(), name) && str_eq(
                row.object.as_str(),
                object,
            ) {
                return Some(i);
            }
            i = i + 1;
        }
        proof {
            lemma_rows_view_contains(self.rows@, (category, name@, object@));
        }
        None
    }

    /// The (duration, count) stored under a key, zero where there is none.
    pub fn get(&self, category: Category, name: &str, object: &str) -> (r: (u64, u64))
        requires
            self.wf(),
        ensures
            r.0 as nat == value_at(self@, (category, name@, object@)).0,
            r.1 as nat == value_at(self@, (category, name@, object@)).1,
    {
        match self.find(category, name, object) {
            Some(i) => {
                proof {
                    lemma_rows_view_at(self.rows@, i as int);
                }
                (self.rows[i].duration, self.rows[i].count)
            },
            None => (0, 0),
        }
    }

    /// Merge-upsert: a new key is inserted with the given figures, an
    /// existing one gets them added to what it holds.
    pub fn upsert(&mut self, category: Category, name: &str, object: &str, duration: u64, count: u64)
        requires
            old(self).wf(),
            value_at(old(self)@, (category, name@, object@)).0 + duration <= MAX_DURATION,
            value_at(old(self)@, (category, name@, object@)).1 + count <= MAX_DURATION,
        ensures
            final(self).wf(),
            final(self)@ == old(self)@.insert(
                (category, name@, object@),
                (
                    (value_at(old(self)@, (category, name@, object@)).0 + duration) as nat,
                    (value_at(old(self)@, (category, name@, object@)).1 + count) as nat,
                ),
            ),
    {
        let ghost k = (category, name@, object@);
        match self.find(category, name, object) {
            Some(i) => {
                proof {
                    lemma_rows_view_at(self.rows@, i as int);
                }
                let row = MetricRow {
                    category,
                    name: name.to_owned(),
                    object: object.to_owned(),
                    duration: self.rows[i].duration + duration,
                    count: self.rows[i].count + count,
                };
                proof {
                    lemma_rows_view_update(self.rows@, i as int, row);
                }
                self.rows.set(i, row);
                assert(keys_unique(self.rows@));
            },
            None => {
                let row = MetricRow {
                    category,
                    name: name.to_owned(),
                    object: object.to_owned(),
                    duration,
                    count,
                };
                proof {
                    lemma_rows_view_push(self.rows@, row);
                    assert forall|j: int| 0 <= j < self.rows@.len() implies row_key(
                        #[trigger] self.rows@[j],
                    ) != k by {
                        lemma_rows_view_contains(self.rows@, k);
                    }
                }
                self.rows.push(row);
            },
        }
    }
}

} // verus!
