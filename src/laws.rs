//! Properties of ingestion that hold of every input.
use vstd::prelude::*;
use crate::aggregate::{
    duration_sum, file_metrics, fits, lemma_zero_occurrences, occurrences, total_sum,
};
use crate::classify::{category_of, detail_of, Category, Outcome, TotalKind};
use crate::store::{
    ingest_spec, lemma_objects_view_totals, object_of, raw_outcome, AggregateStore, StoreView,
};
use crate::trace_event::RawTraceEvent;
use crate::table::{merge_maps, value_at, MetricKey};

verus! {

/// In every well-formed store, an object's total time is the sum of its
/// frontend and backend times.
pub proof fn lemma_total_is_frontend_plus_backend(store: AggregateStore, path: Seq<char>)
    requires
        store.wf(),
        store@.objects.contains_key(path),
    ensures
        store@.objects[path].0 == store@.objects[path].1 + store@.objects[path].2,
{
    lemma_objects_view_totals(store.objects@, path);
}

/// Ingesting a file adds, under each key of its object, exactly the number
/// of occurrences of that symbol and the sum of their durations to what the
/// store held before; keys of other objects keep their figures.
pub proof fn lemma_accumulation(before: StoreView, path: Seq<char>, oc: Seq<Outcome>, c: Category, name: Seq<char>, other: Seq<char>)
    requires
        ingest_spec(before, path, oc) is Ok,
    ensures
        ({
            let after = ingest_spec(before, path, oc)->Ok_0;
            let key = (c, name, object_of(path));
            &&& value_at(after.metrics, key).0 == value_at(before.metrics, key).0 + duration_sum(oc, c, name)
            &&& value_at(after.metrics, key).1 == value_at(before.metrics, key).1 + occurrences(oc, c, name)
            &&& other != object_of(path) ==> value_at(after.metrics, (c, name, other)) == value_at(
                before.metrics,
                (c, name, other),
            )
        }),
{
    if occurrences(oc, c, name) == 0 {
        lemma_zero_occurrences(oc, c, name);
    }
}

/// A run that ingests a single file into the empty store always ends with
/// the same aggregates: that file's object row and its records alone. The
/// same file a second time in that run is a duplicate object.
pub proof fn lemma_single_file_run(path: Seq<char>, oc: Seq<Outcome>)
    requires
        fits(oc),
    ensures
        ({
            let empty = StoreView {
                objects: Map::<Seq<char>, (nat, nat, nat)>::empty(),
                metrics: Map::<MetricKey, (nat, nat)>::empty(),
            };
            let frontend = total_sum(oc, TotalKind::Frontend);
            let backend = total_sum(oc, TotalKind::Backend);
            let once = StoreView {
                objects: Map::<Seq<char>, (nat, nat, nat)>::empty().insert(
                    object_of(path),
                    ((frontend + backend) as nat, frontend, backend),
                ),
                metrics: file_metrics(oc, object_of(path)),
            };
            &&& ingest_spec(empty, path, oc) == Ok::<StoreView, crate::aggregate::IngestError>(once)
            &&& ingest_spec(once, path, oc) == Err::<StoreView, crate::aggregate::IngestError>(
                crate::aggregate::IngestError::DuplicateObject,
            )
        }),
{
    let empty_metrics = Map::<MetricKey, (nat, nat)>::empty();
    let fm = file_metrics(oc, object_of(path));
    assert(merge_maps(empty_metrics, fm) =~= fm);
    assert forall|k: MetricKey| #[trigger] fm.contains_key(k) implies !(value_at(empty_metrics, k).0
        + fm[k].0 > crate::classify::MAX_DURATION || value_at(empty_metrics, k).1 + fm[k].1
        > crate::classify::MAX_DURATION) by {
        assert(duration_sum(oc, k.0, k.1) <= crate::classify::MAX_DURATION);
        assert(occurrences(oc, k.0, k.1) <= crate::classify::MAX_DURATION);
    }
}

/// An event as read is ignored when it has no duration, or when it names a
/// cost category and its arguments hold no `detail` string (absent, or not a
/// string).
pub proof fn lemma_unusable_event_ignored(e: RawTraceEvent)
    ensures
        e.duration is None ==> raw_outcome(e) == Outcome::Ignore,
        category_of(e.name@) is Some && detail_of(e.args) is None ==> raw_outcome(e)
            == Outcome::Ignore,
{
}

/// The outcomes that count, in order: all but the ignored ones.
pub open spec fn counted(oc: Seq<Outcome>) -> Seq<Outcome> {
    oc.filter(|o: Outcome| !(o is Ignore))
}

/// Ignored events change nothing: two files whose counted outcomes agree,
/// however many ignored events either holds and wherever they stand, have
/// the same effect on every store.
pub proof fn lemma_ignored_events_neutral(before: StoreView, path: Seq<char>, oc1: Seq<Outcome>, oc2: Seq<Outcome>)
    requires
        counted(oc1) == counted(oc2),
    ensures
        ingest_spec(before, path, oc1) == ingest_spec(before, path, oc2),
{
    let object = object_of(path);
    assert forall|c: Category, n: Seq<char>|
        #![trigger duration_sum(oc1, c, n)]
        #![trigger duration_sum(oc2, c, n)]
        duration_sum(oc1, c, n) == duration_sum(oc2, c, n) by {
        lemma_counted_sums(oc1, c, n, TotalKind::Frontend);
        lemma_counted_sums(oc2, c, n, TotalKind::Frontend);
    }
    assert forall|c: Category, n: Seq<char>|
        #![trigger occurrences(oc1, c, n)]
        #![trigger occurrences(oc2, c, n)]
        occurrences(oc1, c, n) == occurrences(oc2, c, n) by {
        lemma_counted_sums(oc1, c, n, TotalKind::Frontend);
        lemma_counted_sums(oc2, c, n, TotalKind::Frontend);
    }
    lemma_counted_sums(oc1, Category::Source, seq![], TotalKind::Frontend);
    lemma_counted_sums(oc2, Category::Source, seq![], TotalKind::Frontend);
    lemma_counted_sums(oc1, Category::Source, seq![], TotalKind::Backend);
    lemma_counted_sums(oc2, Category::Source, seq![], TotalKind::Backend);
    assert(file_metrics(oc1, object) =~= file_metrics(oc2, object));
    assert(fits(oc1) == fits(oc2));
}

proof fn lemma_counted_sums(oc: Seq<Outcome>, c: Category, n: Seq<char>, k: TotalKind)
    ensures
        duration_sum(counted(oc), c, n) == duration_sum(oc, c, n),
        occurrences(counted(oc), c, n) == occurrences(oc, c, n),
        total_sum(counted(oc), k) == total_sum(oc, k),
    decreases oc.len(),
{
    if oc.len() > 0 {
        let dl = oc.drop_last();
        lemma_counted_sums(dl, c, n, k);
        reveal(Seq::filter);
        assert(counted(oc) == if !(oc.last() is Ignore) {
            counted(dl).push(oc.last())
        } else {
            counted(dl)
        });
        if !(oc.last() is Ignore) {
            assert(counted(oc).drop_last() =~= counted(dl));
        }
    }
}

} // verus!
