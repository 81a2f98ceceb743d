use vstd::prelude::*;
use crate::errors::ConfigError;
use crate::planner::GridPoint;

verus! {

/// The default bound on queries in flight at once: enough fan-out for an
/// I/O-bound scan without flooding the upstream service.
pub const DEFAULT_CONCURRENCY_LIMIT: usize = 16;

/// The mutually exclusive choice constraining every search of one scan.
#[derive(Debug, Clone, PartialEq, Eq)]
pub enum SearchFilter {
    /// Search for places of this type code.
    ByType(String),
    /// Search for places matching this free-text keyword.
    ByKeyword(String),
}

/// Validates the configured filter choice. A type code takes precedence
/// over a keyword when both are set; supplying neither is a
/// configuration error, raised before any query is dispatched.
pub fn validate_filter(type_code: Option<String>, keyword: Option<String>) -> (r: Result<
    SearchFilter,
    ConfigError,
>)
    ensures
        type_code matches Some(t) ==> r == Ok::<SearchFilter, ConfigError>(
            SearchFilter::ByType(t),
        ),
        type_code is None ==> (keyword matches Some(k) ==> r == Ok::<SearchFilter, ConfigError>(
            SearchFilter::ByKeyword(k),
        )),
        type_code is None && keyword is None ==> r == Err::<SearchFilter, ConfigError>(
            ConfigError::InvalidFilter,
        ),
{
    match type_code {
        Some(t) => Ok(SearchFilter::ByType(t)),
        None => match keyword {
            Some(k) => Ok(SearchFilter::ByKeyword(k)),
            None => Err(ConfigError::InvalidFilter),
        },
    }
}

/// The views of the identifiers, in order.
pub open spec fn view_ids(ids: Seq<String>) -> Seq<Seq<char>> {
    ids.map_values(|s: String| s@)
}

/// No identifier occurs twice.
pub open spec fn distinct_ids(ids: Seq<String>) -> bool {
    forall|i: int, j: int| 0 <= i < j < ids.len() ==> ids[i]@ != ids[j]@
}

/// The outcome of one whole scan: the deduplicated collection of place
/// identifiers found, and how many grid points' queries failed.
#[derive(Debug, Clone, PartialEq, Eq)]
pub struct ScanResult {
    /// The distinct place identifiers, each exactly once.
    pub place_ids: Vec<String>,
    /// How many queries failed. Failures never abort a scan.
    pub failures: u64,
}

impl ScanResult {
    /// The set of distinct identifiers the scan found.
    pub open spec fn id_set(self) -> Set<Seq<char>> {
        view_ids(self.place_ids@).to_set()
    }

    /// The result never lists an identifier twice.
    pub open spec fn wf(self) -> bool {
        distinct_ids(self.place_ids@)
    }
}

/// Whether some identifier of `ids` reads the same as `x`.
fn contains_id(ids: &Vec<String>, x: &String) -> (r: bool)
    ensures
        r == view_ids(ids@).contains(x@),
{
    proof {
        assert(forall|k: int| 0 <= k < ids@.len() ==> view_ids(ids@)[k] == ids@[k]@);
    }
    let n = ids.len();
    let mut i: usize = 0;
    while i < n
        invariant
            i <= n,
            n == ids@.len(),
            forall|k: int| 0 <= k < i ==> ids@[k]@ != x@,
        decreases n - i,
    {
        if ids[i] == *x {
            proof {
                assert(view_ids(ids@)[i as int] == x@);
            }
            return true;
        }
        i = i + 1;
    }
    proof {
        assert(forall|k: int| 0 <= k < ids@.len() ==> view_ids(ids@)[k] == ids@[k]@);
    }
    false
}

/// Appending an element puts exactly it into the sequence's set.
proof fn lemma_push_to_set(s: Seq<Seq<char>>, x: Seq<char>)
    ensures
        s.push(x).to_set() == s.to_set().insert(x),
{
    assert forall|a: Seq<char>| s.push(x).contains(a) implies s.to_set().insert(x).contains(
        a,
    ) by {
        let i = choose|i: int| 0 <= i < s.push(x).len() && s.push(x)[i] == a;
        if i < s.len() {
            assert(s[i] == a);
        } else {
            assert(a == x);
        }
    }
    assert forall|a: Seq<char>| s.to_set().insert(x).contains(a) implies s.push(x).contains(
        a,
    ) by {
        if s.contains(a) {
            let i = choose|i: int| 0 <= i < s.len() && s[i] == a;
            assert(s.push(x)[i] == a);
        } else {
            assert(s.push(x)[s.len() as int] == x);
        }
    }
    assert(s.push(x).to_set() =~= s.to_set().insert(x));
}

/// Adds to `found` each identifier of `ids` that it does not yet hold:
/// set union, deduplicated.
fn merge_ids(found: &mut Vec<String>, ids: &Vec<String>)
    requires
        distinct_ids(old(found)@),
    ensures
        distinct_ids(final(found)@),
        view_ids(final(found)@).to_set() == view_ids(old(found)@).to_set().union(
            view_ids(ids@).to_set(),
        ),
{
    proof {
        assert(view_ids(ids@.take(0)).to_set() =~= Set::<Seq<char>>::empty());
        assert(view_ids(found@).to_set() =~= view_ids(found@).to_set().union(
            view_ids(ids@.take(0)).to_set(),
        ));
    }
    let n = ids.len();
    let mut k: usize = 0;
    while k < n
        invariant
            k <= n,
            n == ids@.len(),
            distinct_ids(found@),
            view_ids(found@).to_set() == view_ids(old(found)@).to_set().union(
                view_ids(ids@.take(k as int)).to_set(),
            ),
        decreases n - k,
    {
        let ghost set_before = view_ids(found@).to_set();
        let id = ids[k].clone();
        proof {
            assert(id@ == ids@[k as int]@);
            assert(view_ids(ids@.take(k as int + 1)) =~= view_ids(ids@.take(k as int)).push(id@));
            lemma_push_to_set(view_ids(ids@.take(k as int)), id@);
        }
        if !contains_id(found, &id) {
            let ghost found_before = found@;
            proof {
                assert(forall|j: int|
                    0 <= j < found@.len() ==> view_ids(found@)[j] == found@[j]@);
            }
            found.push(id);
            proof {
                let x = found@[found@.len() - 1]@;
                assert(view_ids(found@) =~= view_ids(found_before).push(x));
                lemma_push_to_set(view_ids(found_before), x);
                assert(view_ids(found@).to_set() =~= view_ids(old(found)@).to_set().union(
                    view_ids(ids@.take(k as int + 1)).to_set(),
                ));
                assert forall|i: int, j: int|
                    0 <= i < j < found@.len() implies found@[i]@ != found@[j]@ by {
                    if j == found@.len() - 1 {
                        assert(found@[i] == found_before[i]);
                        assert(view_ids(found_before)[i] == found_before[i]@);
                        assert(!view_ids(found_before).contains(x));
                    } else {
                        assert(found@[i] == found_before[i]);
                        assert(found@[j] == found_before[j]);
                    }
                }
            }
        } else {
            proof {
                assert(set_before.contains(id@));
                assert(view_ids(found@).to_set() =~= view_ids(old(found)@).to_set().union(
                    view_ids(ids@.take(k as int + 1)).to_set(),
                ));
            }
        }
        k = k + 1;
    }
    proof {
        assert(ids@.take(n as int) =~= ids@);
    }
}

/// Runs one scan's bookkeeping: a pure decision core for bounded
/// concurrent fan-out. The caller performs the searches; the executor
/// says what to dispatch next and folds completions into the result,
/// never admitting more than `limit` queries in flight at once.
#[derive(Debug)]
pub struct Executor {
    /// Grid points not dispatched yet; the next to start is the last.
    pub pending: Vec<GridPoint>,
    /// How many dispatched queries have not completed yet.
    pub in_flight: usize,
    /// How many queries have completed, successfully or not.
    pub done: usize,
    /// How many queries the scan holds in all.
    pub total: usize,
    /// The bound on queries in flight.
    pub limit: usize,
    /// The distinct identifiers collected so far.
    pub found: Vec<String>,
    /// How many completions were failures.
    pub failures: usize,
}

impl Executor {
    /// The set of distinct identifiers collected so far.
    pub open spec fn id_set(self) -> Set<Seq<char>> {
        view_ids(self.found@).to_set()
    }

    /// The executor's invariant: queries in flight never exceed the
    /// limit, every query is accounted for, and no identifier is held
    /// twice.
    pub open spec fn wf(self) -> bool {
        &&& self.limit >= 1
        &&& self.in_flight <= self.limit
        &&& self.pending@.len() + self.in_flight + self.done == self.total
        &&& self.failures <= self.done
        &&& distinct_ids(self.found@)
    }

    /// Readies a scan over the grid points with the given concurrency
    /// limit.
    pub fn new(points: Vec<GridPoint>, limit: usize) -> (r: Executor)
        requires
            limit >= 1,
        ensures
            r.wf(),
            r.pending@ == points@,
            r.in_flight == 0,
            r.done == 0,
            r.total == points@.len(),
            r.limit == limit,
            r.failures == 0,
            r.id_set() == Set::<Seq<char>>::empty(),
    {
        let total = points.len();
        let r = Executor {
            pending: points,
            in_flight: 0,
            done: 0,
            total,
            limit,
            found: Vec::new(),
            failures: 0,
        };
        proof {
            assert(r.id_set() =~= Set::<Seq<char>>::empty());
        }
        r
    }

    /// Hands out the next query to dispatch when work and capacity
    /// remain. A dispatch happens only strictly under the limit, so at
    /// no point are more than `limit` queries in flight.
    pub fn start_next(&mut self) -> (r: Option<GridPoint>)
        requires
            old(self).wf(),
        ensures
            final(self).wf(),
            final(self).in_flight <= final(self).limit,
            final(self).limit == old(self).limit,
            final(self).total == old(self).total,
            final(self).done == old(self).done,
            final(self).failures == old(self).failures,
            final(self).found@ == old(self).found@,
            old(self).pending@.len() > 0 && old(self).in_flight < old(self).limit ==> {
                &&& r == Some(old(self).pending@.last())
                &&& final(self).pending@ == old(self).pending@.drop_last()
                &&& final(self).in_flight == old(self).in_flight + 1
            },
            !(old(self).pending@.len() > 0 && old(self).in_flight < old(self).limit) ==> {
                &&& r is None
                &&& final(self).pending@ == old(self).pending@
                &&& final(self).in_flight == old(self).in_flight
            },
    {
        if self.in_flight < self.limit {
            match self.pending.pop() {
                Some(g) => {
                    self.in_flight = self.in_flight + 1;
                    Some(g)
                },
                None => None,
            }
        } else {
            None
        }
    }

    /// Folds a successful completion into the result: its identifiers
    /// join the collected set, deduplicated.
    pub fn complete_success(&mut self, ids: Vec<String>)
        requires
            old(self).wf(),
            old(self).in_flight >= 1,
        ensures
            final(self).wf(),
            final(self).limit == old(self).limit,
            final(self).total == old(self).total,
            final(self).pending@ == old(self).pending@,
            final(self).in_flight == old(self).in_flight - 1,
            final(self).done == old(self).done + 1,
            final(self).failures == old(self).failures,
            final(self).id_set() == old(self).id_set().union(view_ids(ids@).to_set()),
    {
        merge_ids(&mut self.found, &ids);
        self.in_flight = self.in_flight - 1;
        self.done = self.done + 1;
    }

    /// Records a failed completion: the failure is counted and the scan
    /// goes on; the collected identifiers do not change.
    pub fn complete_failure(&mut self)
        requires
            old(self).wf(),
            old(self).in_flight >= 1,
        ensures
            final(self).wf(),
            final(self).limit == old(self).limit,
            final(self).total == old(self).total,
            final(self).pending@ == old(self).pending@,
            final(self).in_flight == old(self).in_flight - 1,
            final(self).done == old(self).done + 1,
            final(self).failures == old(self).failures + 1,
            final(self).found@ == old(self).found@,
    {
        self.in_flight = self.in_flight - 1;
        self.done = self.done + 1;
        self.failures = self.failures + 1;
    }

    /// True when every query has been dispatched and completed.
    pub fn is_finished(&self) -> (r: bool)
        ensures
            r == (self.pending@.len() == 0 && self.in_flight == 0),
    {
        self.pending.is_empty() && self.in_flight == 0
    }

    /// How many queries are in flight right now.
    pub fn in_flight_count(&self) -> (r: usize)
        ensures
            r == self.in_flight,
    {
        self.in_flight
    }

    /// The scan's result, once every query has completed.
    pub fn finish(self) -> (r: ScanResult)
        requires
            self.wf(),
            self.pending@.len() == 0,
            self.in_flight == 0,
        ensures
            r.wf(),
            r.id_set() == self.id_set(),
            r.failures == self.failures,
    {
        ScanResult { place_ids: self.found, failures: self.failures as u64 }
    }
}

/// What one grid point's search came back with.
#[derive(Debug, Clone, PartialEq, Eq)]
pub enum QueryOutcome {
    /// The search succeeded, returning these place identifiers.
    Success(Vec<String>),
    /// The search failed; the scan records it and goes on.
    Failure,
}

/// How many of the outcomes are failures.
pub open spec fn outcome_failures(ocs: Seq<QueryOutcome>) -> nat
    decreases ocs.len(),
{
    if ocs.len() == 0 {
        0
    } else {
        outcome_failures(ocs.drop_last()) + (if ocs.last() is Failure {
            1nat
        } else {
            0nat
        })
    }
}

/// Every identifier some successful outcome returned.
pub open spec fn outcome_id_set(ocs: Seq<QueryOutcome>) -> Set<Seq<char>>
    decreases ocs.len(),
{
    if ocs.len() == 0 {
        Set::empty()
    } else {
        outcome_id_set(ocs.drop_last()).union(
            match ocs.last() {
                QueryOutcome::Success(v) => view_ids(v@).to_set(),
                QueryOutcome::Failure => Set::empty(),
            },
        )
    }
}

/// Folds a whole scan's completions into its result. Of `n` outcomes
/// with `m` failures, the failure count is exactly `m`, and the
/// identifier set is exactly the union over the `n - m` successful
/// outcomes — deduplicated, so an identifier two queries both return is
/// held once.
pub fn aggregate_outcomes(outcomes: &Vec<QueryOutcome>) -> (r: ScanResult)
    ensures
        r.wf(),
        r.id_set() == outcome_id_set(outcomes@),
        r.failures as int == outcome_failures(outcomes@),
{
    let mut found: Vec<String> = Vec::new();
    let mut failures: u64 = 0;
    let n = outcomes.len();
    let mut k: usize = 0;
    proof {
        assert(view_ids(found@).to_set() =~= outcome_id_set(outcomes@.take(0)));
    }
    while k < n
        invariant
            k <= n,
            n == outcomes@.len(),
            distinct_ids(found@),
            view_ids(found@).to_set() == outcome_id_set(outcomes@.take(k as int)),
            failures as int == outcome_failures(outcomes@.take(k as int)),
            failures <= k,
        decreases n - k,
    {
        proof {
            assert(outcomes@.take(k as int + 1).drop_last() =~= outcomes@.take(k as int));
            assert(outcomes@.take(k as int + 1).last() == outcomes@[k as int]);
        }
        let oc = &outcomes[k];
        match oc {
            QueryOutcome::Success(ids) => {
                merge_ids(&mut found, ids);
            },
            QueryOutcome::Failure => {
                failures = failures + 1;
                proof {
                    assert(view_ids(found@).to_set() =~= view_ids(found@).to_set().union(
                        Set::<Seq<char>>::empty(),
                    ));
                }
            },
        }
        k = k + 1;
    }
    proof {
        assert(outcomes@.take(n as int) =~= outcomes@);
    }
    ScanResult { place_ids: found, failures }
}

/// How many entries of `s` read as `x`.
pub open spec fn occurrences(s: Seq<Seq<char>>, x: Seq<char>) -> nat
    decreases s.len(),
{
    if s.len() == 0 {
        0
    } else {
        occurrences(s.drop_last(), x) + (if s.last() == x {
            1nat
        } else {
            0nat
        })
    }
}

/// Distinct identifiers occur at most once; a held one, exactly once.
proof fn lemma_distinct_occurrences(ids: Seq<String>, x: Seq<char>)
    requires
        distinct_ids(ids),
    ensures
        occurrences(view_ids(ids), x) == (if view_ids(ids).contains(x) {
            1nat
        } else {
            0nat
        }),
    decreases ids.len(),
{
    let s = view_ids(ids);
    if ids.len() == 0 {
        assert(!s.contains(x));
    } else {
        let rest = ids.drop_last();
        assert(view_ids(rest) =~= s.drop_last());
        assert(distinct_ids(rest)) by {
            assert(forall|i: int| 0 <= i < rest.len() ==> rest[i] == ids[i]);
        }
        lemma_distinct_occurrences(rest, x);
        if s.last() == x {
            assert(!view_ids(rest).contains(x)) by {
                if view_ids(rest).contains(x) {
                    let i = choose|i: int|
                        0 <= i < view_ids(rest).len() && view_ids(rest)[i] == x;
                    assert(ids[i]@ == x);
                    assert(ids[ids.len() - 1]@ == x);
                }
            }
            assert(s.contains(x)) by {
                assert(s[s.len() - 1] == x);
            }
        } else {
            assert(s.contains(x) == view_ids(rest).contains(x)) by {
                if s.contains(x) {
                    let i = choose|i: int| 0 <= i < s.len() && s[i] == x;
                    assert(view_ids(rest)[i] == x);
                }
                if view_ids(rest).contains(x) {
                    let i = choose|i: int|
                        0 <= i < view_ids(rest).len() && view_ids(rest)[i] == x;
                    assert(s[i] == x);
                }
            }
        }
    }
}

/// Deduplication law: however many of the scan's queries returned an
/// identifier, a well-formed scan result that holds it holds it exactly
/// once.
pub proof fn lemma_dedup(r: ScanResult, x: Seq<char>)
    requires
        r.wf(),
        r.id_set().contains(x),
    ensures
        occurrences(view_ids(r.place_ids@), x) == 1,
{
    lemma_distinct_occurrences(r.place_ids@, x);
}

} // verus!
