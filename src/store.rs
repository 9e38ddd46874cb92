//! The aggregate store: one row per compiled object and one cost record per
//! (category, name, object), filled by merge-upsert one file at a time.
use vstd::prelude::*;
use crate::aggregate::{
    file_metrics, fits, outcomes, summarize, total_sum, FileSummary, IngestError,
};
use crate::classify::{
    classify_all, classify_spec, detail_of, event_outcome, Classified, Outcome, TotalKind, MAX_DURATION,
};
use crate::table::{
    lemma_rows_view_at, lemma_rows_view_contains, merge_maps, value_at, MetricKey, MetricTable,
    row_key,
};
use crate::text::str_eq;
use crate::trace_event::{all_tags_known, decoded_as, RawTraceEvent, TraceEvent, TraceEvents};

verus! {

/// One compiled object and its compile times.
#[derive(Debug)]
pub struct ObjectRow {
    pub path: String,
    pub total_time: u64,
    pub frontend: u64,
    pub backend: u64,
}

/// The object rows as a map from path to (total, frontend, backend).
pub open spec fn objects_view(rows: Seq<ObjectRow>) -> Map<Seq<char>, (nat, nat, nat)>
    decreases rows.len(),
{
    if rows.len() == 0 {
        Map::empty()
    } else {
        let r = rows.last();
        objects_view(rows.drop_last()).insert(
            r.path@,
            (r.total_time as nat, r.frontend as nat, r.backend as nat),
        )
    }
}

proof fn lemma_objects_view_contains(rows: Seq<ObjectRow>, p: Seq<char>)
    ensures
        objects_view(rows).contains_key(p) <==> exists|i: int|
            0 <= i < rows.len() && (#[trigger] rows[i]).path@ == p,
    decreases rows.len(),
{
    if rows.len() > 0 {
        let dl = rows.drop_last();
        lemma_objects_view_contains(dl, p);
        if objects_view(rows).contains_key(p) && p != rows.last().path@ {
            let i = choose|i: int| 0 <= i < dl.len() && (#[trigger] dl[i]).path@ == p;
            assert(rows[i].path@ == p);
        }
        if exists|i: int| 0 <= i < rows.len() && (#[trigger] rows[i]).path@ == p {
            let i = choose|i: int| 0 <= i < rows.len() && (#[trigger] rows[i]).path@ == p;
            if i < dl.len() {
                assert(dl[i].path@ == p);
            } else {
                assert(rows[i] == rows.last());
            }
        }
    }
}

pub open spec fn rows_total_ok(rows: Seq<ObjectRow>) -> bool {
    forall|i: int|
        0 <= i < rows.len() ==> (#[trigger] rows[i]).total_time == rows[i].frontend
            + rows[i].backend
}

pub proof fn lemma_objects_view_totals(rows: Seq<ObjectRow>, p: Seq<char>)
    requires
        rows_total_ok(rows),
        objects_view(rows).contains_key(p),
    ensures
        objects_view(rows)[p].0 == objects_view(rows)[p].1 + objects_view(rows)[p].2,
    decreases rows.len(),
{
    let dl = rows.drop_last();
    assert(rows[rows.len() - 1] == rows.last());
    if p != rows.last().path@ {
        assert forall|i: int| 0 <= i < dl.len() implies (#[trigger] dl[i]).total_time
            == dl[i].frontend + dl[i].backend by {
            assert(dl[i] == rows[i]);
        }
        lemma_objects_view_totals(dl, p);
    }
}

/// The mathematical content of the store.
pub struct StoreView {
    pub objects: Map<Seq<char>, (nat, nat, nat)>,
    pub metrics: Map<MetricKey, (nat, nat)>,
}

/// Some record of `delta`, added to what `base` holds, leaves the store's range.
pub open spec fn merge_overflows(base: Map<MetricKey, (nat, nat)>, delta: Map<MetricKey, (nat, nat)>) -> bool {
    exists|k: MetricKey|
        #[trigger] delta.contains_key(k) && (value_at(base, k).0 + delta[k].0 > MAX_DURATION
            || value_at(base, k).1 + delta[k].1 > MAX_DURATION)
}

/// The object that a trace file stands for: its path without the `.json`
/// extension.
pub open spec fn object_of(path: Seq<char>) -> Seq<char> {
    let n = path.len();
    if n > 5 && path[n - 6] != '/' && path[n - 5] == '.' && path[n - 4] == 'j' && path[n - 3] == 's'
        && path[n - 2] == 'o' && path[n - 1] == 'n' {
        path.subrange(0, n - 5)
    } else {
        path
    }
}

/// The effect of ingesting one file whose events classify as `oc`: the
/// store after it, or the error that leaves the store as it was.
pub open spec fn ingest_spec(before: StoreView, path: Seq<char>, oc: Seq<Outcome>) -> Result<StoreView, IngestError> {
    let object = object_of(path);
    let frontend = total_sum(oc, TotalKind::Frontend);
    let backend = total_sum(oc, TotalKind::Backend);
    if before.objects.contains_key(object) {
        Err(IngestError::DuplicateObject)
    } else if !fits(oc) {
        Err(IngestError::Overflow)
    } else if merge_overflows(before.metrics, file_metrics(oc, object)) {
        Err(IngestError::Overflow)
    } else {
        Ok(
            StoreView {
                objects: before.objects.insert(object, ((frontend + backend) as nat, frontend, backend)),
                metrics: merge_maps(before.metrics, file_metrics(oc, object)),
            },
        )
    }
}

/// The stores before and after a call and its result agree with `expected`.
pub open spec fn applied(
    before: AggregateStore,
    after: AggregateStore,
    r: Result<(), IngestError>,
    expected: Result<StoreView, IngestError>,
) -> bool {
    match expected {
        Ok(v) => r is Ok && after@ == v,
        Err(e) => r == Err::<(), IngestError>(e) && after == before,
    }
}

/// The classifications of the events, in order.
pub open spec fn event_outcomes(events: Seq<TraceEvent>) -> Seq<Outcome> {
    events.map_values(|e: TraceEvent| event_outcome(e))
}

/// The classification of an event as read, before its phase tag is decoded.
pub open spec fn raw_outcome(r: RawTraceEvent) -> Outcome {
    classify_spec(r.name@, detail_of(r.args), r.duration)
}

/// The classifications of the undecoded events, in order.
pub open spec fn raw_outcomes(raw: Seq<RawTraceEvent>) -> Seq<Outcome> {
    raw.map_values(|r: RawTraceEvent| raw_outcome(r))
}

/// The object key of a trace file's path: the path without its `.json`
/// extension.
pub fn object_key(path: &str) -> (r: String)
    ensures
        r@ == object_of(path@),
{
    let n = path.unicode_len();
    if n > 5 && path.get_char(n - 6) != '/' && path.get_char(n - 5) == '.' && path.get_char(n - 4)
        == 'j' && path.get_char(n - 3) == 's' && path.get_char(n - 2) == 'o' && path.get_char(n - 1)
        == 'n' {
        path.substring_char(0, n - 5).to_owned()
    } else {
        path.to_owned()
    }
}

/// The aggregate store of one run.
#[derive(Debug)]
pub struct AggregateStore {
    pub objects: Vec<ObjectRow>,
    pub metrics: MetricTable,
}

impl View for AggregateStore {
    type V = StoreView;

    open spec fn view(&self) -> StoreView {
        StoreView { objects: objects_view(self.objects@), metrics: self.metrics@ }
    }
}

impl AggregateStore {
    /// Cost records are well formed, and each object's total is the sum of
    /// its frontend and backend times.
    pub open spec fn wf(&self) -> bool {
        self.metrics.wf() && rows_total_ok(self.objects@)
    }

    /// An empty store, as every run starts with.
    pub fn new() -> (r: AggregateStore)
        ensures
            r.wf(),
            r@.objects == Map::<Seq<char>, (nat, nat, nat)>::empty(),
            r@.metrics == Map::<MetricKey, (nat, nat)>::empty(),
    {
        AggregateStore { objects: Vec::new(), metrics: MetricTable::new() }
    }

    /// Whether the store holds a row for `object`.
    pub fn has_object(&self, object: &str) -> (r: bool)
        ensures
            r == self@.objects.contains_key(object@),
    {
        let mut i: usize = 0;
        while i < self.objects.len()
            invariant
                i <= self.objects@.len(),
                forall|j: int| 0 <= j < i ==> (#[trigger] self.objects@[j]).path@ != object@,
            decreases self.objects@.len() - i,
        {
            if str_eq(self.objects[i].path.as_str(), object) {
                proof {
                    lemma_objects_view_contains(self.objects@, object@);
                }
                return true;
            }
            i = i + 1;
        }
        proof {
            lemma_objects_view_contains(self.objects@, object@);
        }
        false
    }

    /// Adds one file's summary: the object row is inserted once, and each
    /// record is merged into the store. Either all of it is applied or none.
    pub fn apply(&mut self, summary: FileSummary) -> (r: Result<(), IngestError>)
        requires
            old(self).wf(),
            summary.wf(),
        ensures
            final(self).wf(),
            old(self)@.objects.contains_key(summary.object@) ==> r == Err::<(), IngestError>(
                IngestError::DuplicateObject,
            ),
            !old(self)@.objects.contains_key(summary.object@) && merge_overflows(
                old(self)@.metrics,
                summary.metrics@,
            ) ==> r == Err::<(), IngestError>(IngestError::Overflow),
            r is Err ==> *final(self) == *old(self),
            r is Err ==> old(self)@.objects.contains_key(summary.object@) || merge_overflows(
                old(self)@.metrics,
                summary.metrics@,
            ),
            r is Ok ==> {
                &&& !old(self)@.objects.contains_key(summary.object@)
                &&& !merge_overflows(old(self)@.metrics, summary.metrics@)
                &&& final(self)@.objects == old(self)@.objects.insert(
                    summary.object@,
                    (summary.total_time as nat, summary.frontend as nat, summary.backend as nat),
                )
                &&& final(self)@.metrics == merge_maps(old(self)@.metrics, summary.metrics@)
            },
    {
        if self.has_object(summary.object.as_str()) {
            return Err(IngestError::DuplicateObject);
        }
        let rows = &summary.metrics.rows;
        let ghost delta = summary.metrics@;
        // Check every merge before the first write, so that a failing file
        // leaves nothing behind.
        let mut j: usize = 0;
        while j < rows.len()
            invariant
                *self == *old(self),
                !old(self)@.objects.contains_key(summary.object@),
                self.wf(),
                summary.wf(),
                rows == &summary.metrics.rows,
                delta == summary.metrics@,
                j <= rows@.len(),
                forall|i: int|
                    0 <= i < j ==> value_at(self.metrics@, row_key(#[trigger] rows@[i])).0 + rows@[i].duration
                        <= MAX_DURATION && value_at(self.metrics@, row_key(rows@[i])).1 + rows@[i].count
                        <= MAX_DURATION,
            decreases rows@.len() - j,
        {
            let row = &rows[j];
            let (d0, n0) = self.metrics.get(row.category, row.name.as_str(), row.object.as_str());
            if d0 > MAX_DURATION - row.duration || n0 > MAX_DURATION - row.count {
                proof {
                    lemma_rows_view_at(rows@, j as int);
                    assert(delta.contains_key(row_key(rows@[j as int])));
                }
                return Err(IngestError::Overflow);
            }
            j = j + 1;
        }
        proof {
            assert forall|k: MetricKey| #[trigger] delta.contains_key(k) implies !(value_at(
                self.metrics@,
                k,
            ).0 + delta[k].0 > MAX_DURATION || value_at(self.metrics@, k).1 + delta[k].1
                > MAX_DURATION) by {
                lemma_rows_view_contains(rows@, k);
                let i = choose|i: int| 0 <= i < rows@.len() && row_key(#[trigger] rows@[i]) == k;
                lemma_rows_view_at(rows@, i);
            }
        }
        let ghost base = self.metrics@;
        let mut j: usize = 0;
        while j < rows.len()
            invariant
                self.objects == old(self).objects,
                rows_total_ok(self.objects@),
                base == old(self)@.metrics,
                !old(self)@.objects.contains_key(summary.object@),
                self.metrics.wf(),
                summary.wf(),
                rows == &summary.metrics.rows,
                delta == summary.metrics@,
                j <= rows@.len(),
                !merge_overflows(base, delta),
                self.metrics@ == merge_maps(base, crate::table::rows_view(rows@.take(j as int))),
            decreases rows@.len() - j,
        {
            let row = &rows[j];
            let ghost k = row_key(rows@[j as int]);
            let ghost pre = rows@.take(j as int);
            proof {
                lemma_rows_view_at(rows@, j as int);
                lemma_rows_view_contains(pre, k);
                assert(!crate::table::rows_view(pre).contains_key(k)) by {
                    if crate::table::rows_view(pre).contains_key(k) {
                        let i = choose|i: int| 0 <= i < pre.len() && row_key(#[trigger] pre[i]) == k;
                        assert(row_key(rows@[i]) == k);
                    }
                }
                assert(delta.contains_key(k));
                assert(rows@.take(j + 1).drop_last() =~= pre);
            }
            self.metrics.upsert(row.category, row.name.as_str(), row.object.as_str(), row.duration, row.count);
            assert(self.metrics@ =~= merge_maps(base, crate::table::rows_view(rows@.take(j + 1))));
            j = j + 1;
        }
        assert(rows@.take(rows@.len() as int) =~= rows@);
        let ghost objects_before = self.objects@;
        let ghost added = (summary.total_time, summary.frontend, summary.backend);
        assert(added.0 == added.1 + added.2);
        self.objects.push(ObjectRow {
            path: summary.object,
            total_time: summary.total_time,
            frontend: summary.frontend,
            backend: summary.backend,
        });
        assert(self.objects@.drop_last() =~= objects_before);
        assert(rows_total_ok(self.objects@)) by {
            assert forall|i: int| 0 <= i < self.objects@.len() implies (
            #[trigger] self.objects@[i]).total_time == self.objects@[i].frontend
                + self.objects@[i].backend by {
                if i < objects_before.len() {
                    assert(self.objects@[i] == objects_before[i]);
                } else {
                    assert(self.objects@[i].total_time == added.0);
                    assert(self.objects@[i].frontend == added.1);
                    assert(self.objects@[i].backend == added.2);
                }
            }
        }
        Ok(())
    }
    /// Ingests one file whose events are already classified: the object row
    /// and the merged records of the file, or an error and no change at all.
    pub fn ingest_classified(&mut self, path: &str, cs: &Vec<Classified>) -> (r: Result<(), IngestError>)
        requires
            old(self).wf(),
        ensures
            final(self).wf(),
            applied(*old(self), *final(self), r, ingest_spec(old(self)@, path@, outcomes(cs@))),
    {
        let object = object_key(path);
        if self.has_object(object.as_str()) {
            return Err(IngestError::DuplicateObject);
        }
        let summary = match summarize(object.as_str(), cs) {
            Ok(summary) => summary,
            Err(e) => {
                return Err(e);
            },
        };
        let ghost oc = outcomes(cs@);
        let ghost obj = object@;
        let r = self.apply(summary);
        proof {
            if r is Ok {
                let v = StoreView {
                    objects: old(self)@.objects.insert(
                        obj,
                        (
                            (total_sum(oc, TotalKind::Frontend) + total_sum(oc, TotalKind::Backend)) as nat,
                            total_sum(oc, TotalKind::Frontend),
                            total_sum(oc, TotalKind::Backend),
                        ),
                    ),
                    metrics: merge_maps(old(self)@.metrics, file_metrics(oc, obj)),
                };
                assert(self@.objects =~= v.objects);
                assert(self@.metrics =~= v.metrics);
            }
        }
        r
    }

    /// Ingests one decoded trace file.
    pub fn ingest(&mut self, path: &str, events: &TraceEvents) -> (r: Result<(), IngestError>)
        requires
            old(self).wf(),
        ensures
            final(self).wf(),
            applied(
                *old(self),
                *final(self),
                r,
                ingest_spec(old(self)@, path@, event_outcomes(events.trace_events@)),
            ),
    {
        let cs = classify_all(&events.trace_events);
        assert(outcomes(cs@) =~= event_outcomes(events.trace_events@));
        self.ingest_classified(path, &cs)
    }

    /// Ingests one trace file as read: a file with an unknown phase tag is
    /// skipped whole and leaves the store untouched.
    pub fn ingest_raw(&mut self, path: &str, raw: Vec<RawTraceEvent>) -> (r: Result<(), IngestError>)
        requires
            old(self).wf(),
        ensures
            final(self).wf(),
            !all_tags_known(raw@) ==> r == Err::<(), IngestError>(IngestError::MalformedTrace)
                && *final(self) == *old(self),
            all_tags_known(raw@) ==> applied(
                *old(self),
                *final(self),
                r,
                ingest_spec(old(self)@, path@, raw_outcomes(raw@)),
            ),
    {
        let ghost all = raw@;
        let events = match TraceEvents::from_raw(raw, None, None) {
            Ok(events) => events,
            Err(_) => {
                return Err(IngestError::MalformedTrace);
            },
        };
        proof {
            assert forall|i: int| 0 <= i < all.len() implies #[trigger] event_outcomes(
                events.trace_events@,
            )[i] == raw_outcomes(all)[i] by {
                assert(decoded_as(all[i], events.trace_events@[i]));
            }
            assert(event_outcomes(events.trace_events@) =~= raw_outcomes(all));
        }
        self.ingest(path, &events)
    }
}

} // verus!
