//! Folding the classified events of one trace file into per-symbol partial
//! sums and the object's frontend and backend totals.
use vstd::prelude::*;
use crate::classify::{Category, Classified, Outcome, TotalKind, MAX_DURATION};
use crate::table::{
    lemma_rows_view_bounded, value_at, MetricKey, MetricTable, row_key, rows_view,
};

verus! {

/// Why a file could not be ingested.
#[derive(Debug, Clone, Copy, PartialEq, Eq, Structural)]
pub enum IngestError {
    /// The file is not a valid capture, or holds an unknown phase tag.
    MalformedTrace,
    /// The store already holds the object that the file derives.
    DuplicateObject,
    /// A duration or count would leave the store's range.
    Overflow,
}

/// How often the symbol `name` of category `c` occurs among the outcomes.
pub open spec fn occurrences(oc: Seq<Outcome>, c: Category, name: Seq<char>) -> nat
    decreases oc.len(),
{
    if oc.len() == 0 {
        0
    } else {
        occurrences(oc.drop_last(), c, name) + match oc.last() {
            Outcome::Metric(c2, n2, _) => if c2 == c && n2 == name { 1nat } else { 0nat },
            _ => 0nat,
        }
    }
}

/// The summed duration of the occurrences of symbol `name` of category `c`.
pub open spec fn duration_sum(oc: Seq<Outcome>, c: Category, name: Seq<char>) -> nat
    decreases oc.len(),
{
    if oc.len() == 0 {
        0
    } else {
        duration_sum(oc.drop_last(), c, name) + match oc.last() {
            Outcome::Metric(c2, n2, d) => if c2 == c && n2 == name { d } else { 0nat },
            _ => 0nat,
        }
    }
}

/// The summed duration of the pseudo-events of one kind of total.
pub open spec fn total_sum(oc: Seq<Outcome>, k: TotalKind) -> nat
    decreases oc.len(),
{
    if oc.len() == 0 {
        0
    } else {
        total_sum(oc.drop_last(), k) + match oc.last() {
            Outcome::ObjectTotal(k2, d) => if k2 == k { d } else { 0nat },
            _ => 0nat,
        }
    }
}

pub open spec fn outcomes(cs: Seq<Classified>) -> Seq<Outcome> {
    cs.map_values(|c: Classified| c@)
}

/// The partial sums of one file, keyed by (category, name, object).
pub open spec fn file_metrics(oc: Seq<Outcome>, object: Seq<char>) -> Map<MetricKey, (nat, nat)> {
    Map::new(
        |k: MetricKey| k.2 == object && occurrences(oc, k.0, k.1) > 0,
        |k: MetricKey| (duration_sum(oc, k.0, k.1), occurrences(oc, k.0, k.1)),
    )
}

/// Every sum of the file lies in the store's range, its object total included.
pub open spec fn fits(oc: Seq<Outcome>) -> bool {
    &&& forall|c: Category, n: Seq<char>| #[trigger] duration_sum(oc, c, n) <= MAX_DURATION
    &&& forall|c: Category, n: Seq<char>| #[trigger] occurrences(oc, c, n) <= MAX_DURATION
    &&& total_sum(oc, TotalKind::Frontend) + total_sum(oc, TotalKind::Backend) <= MAX_DURATION
}

/// What one file contributes to the store.
#[derive(Debug)]
pub struct FileSummary {
    pub object: String,
    pub total_time: u64,
    pub frontend: u64,
    pub backend: u64,
    pub metrics: MetricTable,
}

impl FileSummary {
    /// The metrics are well formed and all belong to the object; the total
    /// is the sum of frontend and backend.
    pub open spec fn wf(&self) -> bool {
        &&& self.metrics.wf()
        &&& forall|k: MetricKey| #[trigger] self.metrics@.contains_key(k) ==> k.2 == self.object@
        &&& self.total_time == self.frontend + self.backend
    }
}

proof fn lemma_take_step(oc: Seq<Outcome>, i: int)
    requires
        0 <= i < oc.len(),
    ensures
        oc.take(i + 1).drop_last() == oc.take(i),
        oc.take(i + 1).last() == oc[i],
{
    assert(oc.take(i + 1).drop_last() =~= oc.take(i));
}

/// Sums over a prefix never exceed the sums over the whole.
proof fn lemma_prefix_sums(oc: Seq<Outcome>, i: int, c: Category, n: Seq<char>, k: TotalKind)
    requires
        0 <= i <= oc.len(),
    ensures
        duration_sum(oc.take(i), c, n) <= duration_sum(oc, c, n),
        occurrences(oc.take(i), c, n) <= occurrences(oc, c, n),
        total_sum(oc.take(i), k) <= total_sum(oc, k),
    decreases oc.len(),
{
    if i == oc.len() {
        assert(oc.take(i) =~= oc);
    } else {
        let dl = oc.drop_last();
        assert(oc.take(i) =~= dl.take(i));
        lemma_prefix_sums(dl, i, c, n, k);
    }
}

/// Folds the classified events of one file into its summary. Events of the
/// same symbol are coalesced into one record before anything reaches the store.
pub fn summarize(object: &str, cs: &Vec<Classified>) -> (r: Result<FileSummary, IngestError>)
    ensures
        r is Ok <==> fits(outcomes(cs@)),
        r matches Err(e) ==> e == IngestError::Overflow,
        r matches Ok(s) ==> {
            &&& s.wf()
            &&& s.object@ == object@
            &&& s.frontend == total_sum(outcomes(cs@), TotalKind::Frontend)
            &&& s.backend == total_sum(outcomes(cs@), TotalKind::Backend)
            &&& s.metrics@ == file_metrics(outcomes(cs@), object@)
        },
{
    let ghost oc = outcomes(cs@);
    let mut metrics = MetricTable::new();
    let mut frontend: u64 = 0;
    let mut backend: u64 = 0;
    let mut i: usize = 0;
    assert(metrics@ =~= file_metrics(oc.take(0), object@));
    while i < cs.len()
        invariant
            oc == outcomes(cs@),
            oc.len() == cs@.len(),
            i <= cs@.len(),
            metrics.wf(),
            metrics@ == file_metrics(oc.take(i as int), object@),
            frontend == total_sum(oc.take(i as int), TotalKind::Frontend),
            backend == total_sum(oc.take(i as int), TotalKind::Backend),
            frontend <= MAX_DURATION,
            backend <= MAX_DURATION,
        decreases cs@.len() - i,
    {
        proof {
            lemma_take_step(oc, i as int);
        }
        let ghost pre = oc.take(i as int);
        let ghost post = oc.take(i + 1);
        assert(oc[i as int] == cs@[i as int]@);
        match &cs[i] {
            Classified::Metric { category, name, duration } => {
                let (d0, n0) = metrics.get(*category, name.as_str(), object);
                if *duration > MAX_DURATION || d0 > MAX_DURATION - *duration || n0 >= MAX_DURATION {
                    proof {
                        if *duration > MAX_DURATION || d0 > MAX_DURATION - *duration {
                            assert(duration_sum(post, *category, name@) > MAX_DURATION);
                            lemma_prefix_sums(oc, i + 1, *category, name@, TotalKind::Frontend);
                            assert(duration_sum(oc, *category, name@) > MAX_DURATION);
                        } else {
                            assert(occurrences(post, *category, name@) > MAX_DURATION);
                            lemma_prefix_sums(oc, i + 1, *category, name@, TotalKind::Frontend);
                            assert(occurrences(oc, *category, name@) > MAX_DURATION);
                        }
                    }
                    return Err(IngestError::Overflow);
                }
                metrics.upsert(*category, name.as_str(), object, *duration, 1);
                proof {
                    assert forall|k: MetricKey| #[trigger] file_metrics(post, object@).contains_key(k)
                        == metrics@.contains_key(k) && (metrics@.contains_key(k) ==> metrics@[k]
                        == file_metrics(post, object@)[k]) by {
                        if occurrences(pre, k.0, k.1) == 0 {
                            lemma_zero_occurrences(pre, k.0, k.1);
                        }
                    }
                    assert(metrics@.dom() =~= file_metrics(post, object@).dom());
                }
                assert(metrics@ =~= file_metrics(post, object@));
            },
            Classified::ObjectTotal { kind, duration } => {
                match kind {
                    TotalKind::Frontend => {
                        if *duration > MAX_DURATION || frontend > MAX_DURATION - *duration {
                            proof {
                                lemma_prefix_sums(oc, i + 1, Category::Source, seq![], TotalKind::Frontend);
                            }
                            return Err(IngestError::Overflow);
                        }
                        frontend = frontend + *duration;
                    },
                    TotalKind::Backend => {
                        if *duration > MAX_DURATION || backend > MAX_DURATION - *duration {
                            proof {
                                lemma_prefix_sums(oc, i + 1, Category::Source, seq![], TotalKind::Backend);
                            }
                            return Err(IngestError::Overflow);
                        }
                        backend = backend + *duration;
                    },
                }
                assert(metrics@ =~= file_metrics(post, object@));
            },
            Classified::Ignore => {
                assert(metrics@ =~= file_metrics(post, object@));
            },
        }
        i = i + 1;
    }
    assert(oc.take(cs@.len() as int) =~= oc);
    if frontend > MAX_DURATION - backend {
        return Err(IngestError::Overflow);
    }
    proof {
        assert forall|c: Category, n: Seq<char>| #[trigger]
            duration_sum(oc, c, n) <= MAX_DURATION by {
            lemma_rows_view_bounded(metrics.rows@, (c, n, object@));
            assert(file_metrics(oc, object@).contains_key((c, n, object@)) == (occurrences(oc, c, n) > 0));
            if occurrences(oc, c, n) == 0 {
                lemma_zero_occurrences(oc, c, n);
            }
        }
        assert forall|c: Category, n: Seq<char>| #[trigger]
            occurrences(oc, c, n) <= MAX_DURATION by {
            lemma_rows_view_bounded(metrics.rows@, (c, n, object@));
            assert(file_metrics(oc, object@).contains_key((c, n, object@)) == (occurrences(oc, c, n) > 0));
        }
    }
    let summary = FileSummary {
        object: object.to_owned(),
        total_time: frontend + backend,
        frontend,
        backend,
        metrics,
    };
    Ok(summary)
}

/// A symbol that never occurs has no duration.
pub proof fn lemma_zero_occurrences(oc: Seq<Outcome>, c: Category, n: Seq<char>)
    requires
        occurrences(oc, c, n) == 0,
    ensures
        duration_sum(oc, c, n) == 0,
    decreases oc.len(),
{
    if oc.len() > 0 {
        lemma_zero_occurrences(oc.drop_last(), c, n);
    }
}

} // verus!
