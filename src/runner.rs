use vstd::prelude::*;
use crate::aggregate::{views_of, Aggregator};
use crate::code_queries::{MatchCounts, QueryResults};

verus! {

/// Below this many remaining search requests the run cools down before the
/// next request.
pub const LOW_BUDGET: u64 = 10;

/// How long the run cools down, in seconds, when the budget runs low.
pub const COOL_DOWN_SECS: u64 = 5;

/// What to do before the next search request, given the rate-limit state.
#[derive(Debug, Clone, Copy, PartialEq, Eq)]
pub enum RateAction {
    /// Request at once.
    Proceed,
    /// The budget is spent: wait until the reset time (seconds since the epoch).
    WaitForReset(u64),
    /// The budget is low: wait this many seconds.
    CoolDown(u64),
}

/// The decision before a search request: wait for the reset when no request
/// is left, cool down when few are, and go on otherwise.
pub open spec fn rate_action_spec(remaining: u64, reset: u64) -> RateAction {
    if remaining == 0 {
        RateAction::WaitForReset(reset)
    } else if remaining < LOW_BUDGET {
        RateAction::CoolDown(COOL_DOWN_SECS)
    } else {
        RateAction::Proceed
    }
}

/// What to do before the next search request, given how many requests are
/// left and when the budget resets.
pub fn rate_limit_action(remaining: u64, reset: u64) -> (r: RateAction)
    ensures
        r == rate_action_spec(remaining, reset),
{
    if remaining == 0 {
        RateAction::WaitForReset(reset)
    } else if remaining < LOW_BUDGET {
        RateAction::CoolDown(COOL_DOWN_SECS)
    } else {
        RateAction::Proceed
    }
}

pub const NANOS_PER_SEC: i128 = 1_000_000_000;

/// The time from `now` to the reset, in nanoseconds (negative where the reset
/// has passed).
pub open spec fn delay_to_reset(reset: int, now_secs: int, now_nanos: int) -> int {
    reset * 1_000_000_000 - (now_secs * 1_000_000_000 + now_nanos)
}

/// Why the wait for a reset could not be computed.
#[derive(Debug, Clone, Copy, PartialEq, Eq)]
pub enum ResetError {
    /// The reset time lies beyond the range of signed timestamps.
    OutOfRange,
}

/// How long to wait, in nanoseconds, for the rate limit to reset at `reset`
/// (seconds since the epoch), where the time now is `now_secs` seconds and
/// `now_nanos` nanoseconds since the epoch: `Some` delay where the reset lies
/// ahead, `None` where it has already passed.
pub fn reset_delay(reset: u64, now_secs: i64, now_nanos: u32) -> (r: Result<Option<u128>, ResetError>)
    ensures
        r is Err <==> reset > i64::MAX,
        r matches Err(e) ==> e == ResetError::OutOfRange,
        r matches Ok(d) ==> (d is Some <==> delay_to_reset(reset as int, now_secs as int, now_nanos as int) > 0),
        r matches Ok(Some(n)) ==> n == delay_to_reset(reset as int, now_secs as int, now_nanos as int),
{
    if reset > i64::MAX as u64 {
        return Err(ResetError::OutOfRange);
    }
    let reset_nanos = (reset as i128) * NANOS_PER_SEC;
    let now = (now_secs as i128) * NANOS_PER_SEC + (now_nanos as i128);
    assert(reset_nanos == reset * 1_000_000_000) by (nonlinear_arith)
        requires reset <= i64::MAX, reset_nanos == (reset as i128) * NANOS_PER_SEC;
    let delta = reset_nanos - now;
    if delta > 0 {
        Ok(Some(delta as u128))
    } else {
        Ok(None)
    }
}

/// Why a discovered repository cannot be processed.
#[derive(Debug, Clone, PartialEq, Eq)]
pub enum RepoError {
    /// The provider gave no owner.
    MissingOwner,
    /// The provider gave no clone URL.
    MissingCloneUrl,
}

/// A discovered repository: owner login, name and clone URL.
#[derive(Debug, Clone)]
pub struct RepoDescriptor {
    pub owner: String,
    pub name: String,
    pub clone_url: String,
}

impl RepoDescriptor {
    /// The repository that the provider described, refused where its owner
    /// or its clone URL is missing (the owner is checked first).
    pub fn from_parts(name: String, owner: Option<String>, clone_url: Option<String>) -> (r: Result<
        RepoDescriptor,
        RepoError,
    >)
        ensures
            owner is None ==> r == Err::<RepoDescriptor, RepoError>(RepoError::MissingOwner),
            owner is Some && clone_url is None ==> r == Err::<RepoDescriptor, RepoError>(
                RepoError::MissingCloneUrl,
            ),
            r is Ok <==> owner is Some && clone_url is Some,
            r matches Ok(d) ==> d.name == name && Some(d.owner) == owner && Some(d.clone_url)
                == clone_url,
    {
        match owner {
            None => Err(RepoError::MissingOwner),
            Some(owner) => match clone_url {
                None => Err(RepoError::MissingCloneUrl),
                Some(clone_url) => Ok(RepoDescriptor { owner, name, clone_url }),
            },
        }
    }
}

/// How a working copy is brought up to date.
#[derive(Debug, Clone, Copy, PartialEq, Eq)]
pub enum AcquireAction {
    /// No copy yet: make a shallow clone.
    Clone,
    /// A copy is there: pull into it.
    Update,
}

/// Clone where the working copy is absent, update where it is present.
pub fn acquire_action(exists: bool) -> (r: AcquireAction)
    ensures
        r == (if exists { AcquireAction::Update } else { AcquireAction::Clone }),
{
    if exists { AcquireAction::Update } else { AcquireAction::Clone }
}

/// The owners whose directories are removed once the run is over, each held once.
#[derive(Debug)]
pub struct CleanupSet {
    owners: Vec<String>,
}

impl View for CleanupSet {
    type V = Seq<Seq<char>>;

    closed spec fn view(&self) -> Seq<Seq<char>> {
        views_of(self.owners@)
    }
}

impl CleanupSet {
    /// No owner recorded.
    pub fn new() -> (r: CleanupSet)
        ensures
            r@ == Seq::<Seq<char>>::empty(),
    {
        CleanupSet { owners: Vec::new() }
    }

    /// Records `owner`, unless it was recorded before.
    pub fn record(&mut self, owner: &String)
        ensures
            final(self)@ == (if old(self)@.contains(owner@) { old(self)@ } else { old(self)@.push(owner@) }),
    {
        let mut i: usize = 0;
        while i < self.owners.len()
            invariant
                i <= self.owners@.len(),
                forall|j: int| 0 <= j < i ==> self.owners@[j]@ != owner@,
            decreases self.owners@.len() - i,
        {
            if self.owners[i].eq(owner) {
                assert(self@[i as int] == owner@);
                return;
            }
            i = i + 1;
        }
        proof {
            if self@.contains(owner@) {
                let j = choose|j: int| 0 <= j < self@.len() && #[trigger] self@[j] == owner@;
                assert(self.owners@[j]@ == owner@);
            }
        }
        let ghost before = self.owners@;
        self.owners.push(owner.clone());
        assert(self@ =~= views_of(before).push(owner@));
    }

    /// The recorded owners, in the order first recorded.
    pub fn owners(&self) -> (r: &[String])
        ensures
            views_of(r@) == self@,
    {
        self.owners.as_slice()
    }

}

/// Recording an owner keeps every owner held once: the cleanup set never
/// lists an owner twice, however many of its repositories were removed.
pub proof fn lemma_record_keeps_unique(before: Seq<Seq<char>>, owner: Seq<char>)
    requires
        before.no_duplicates(),
    ensures
        (if before.contains(owner) { before } else { before.push(owner) }).no_duplicates(),
{
    if !before.contains(owner) {
        let after = before.push(owner);
        assert forall|a: int, b: int| 0 <= a < b < after.len() implies after[a] != after[b] by {
            if b == before.len() {
                assert(before[a] == after[a]);
            }
        }
    }
}

/// How many units of work succeeded and how many failed.
#[derive(Debug, Clone, Copy, PartialEq, Eq)]
pub struct RunTally {
    pub succeeded: usize,
    pub failed: usize,
}

/// How many outcomes are successes.
pub open spec fn count_ok(os: Seq<Result<QueryResults, String>>) -> nat
    decreases os.len(),
{
    if os.len() == 0 {
        0
    } else {
        count_ok(os.drop_last()) + (if os.last() is Ok { 1nat } else { 0nat })
    }
}

/// How many outcomes are failures.
pub open spec fn count_err(os: Seq<Result<QueryResults, String>>) -> nat
    decreases os.len(),
{
    if os.len() == 0 {
        0
    } else {
        count_err(os.drop_last()) + (if os.last() is Err { 1nat } else { 0nat })
    }
}

/// The table after adding the record of each successful outcome, in order.
pub open spec fn table_after(
    t: Map<Seq<char>, MatchCounts>,
    os: Seq<Result<QueryResults, String>>,
) -> Map<Seq<char>, MatchCounts>
    decreases os.len(),
{
    if os.len() == 0 {
        t
    } else {
        let prev = table_after(t, os.drop_last());
        match os.last() {
            Ok(q) => prev.insert(q.identifier(), q.inner),
            Err(_) => prev,
        }
    }
}

/// The identifiers after adding the record of each successful outcome, in order.
pub open spec fn ids_after(ids: Seq<Seq<char>>, os: Seq<Result<QueryResults, String>>) -> Seq<Seq<char>>
    decreases os.len(),
{
    if os.len() == 0 {
        ids
    } else {
        let prev = ids_after(ids, os.drop_last());
        match os.last() {
            Ok(q) => if prev.contains(q.identifier()) { prev } else { prev.push(q.identifier()) },
            Err(_) => prev,
        }
    }
}

/// Whether some successful outcome carries the identifier `id`.
pub open spec fn succeeded_with(os: Seq<Result<QueryResults, String>>, id: Seq<char>) -> bool {
    exists|i: int| 0 <= i < os.len() && (#[trigger] os[i]) is Ok && os[i]->Ok_0.identifier() == id
}

/// Collecting the outcomes of a run into an empty table leaves exactly one
/// identifier per distinct repository that succeeded, so the report has one
/// data line for each of them and for nothing else.
pub proof fn lemma_ids_are_distinct_successes(os: Seq<Result<QueryResults, String>>)
    ensures
        ids_after(Seq::empty(), os).no_duplicates(),
        forall|id: Seq<char>| #[trigger] ids_after(Seq::empty(), os).contains(id) <==> succeeded_with(os, id),
    decreases os.len(),
{
    if os.len() > 0 {
        let pre = os.drop_last();
        lemma_ids_are_distinct_successes(pre);
        let prev = ids_after(Seq::empty(), pre);
        assert forall|id: Seq<char>| succeeded_with(pre, id) ==> #[trigger] succeeded_with(os, id) by {
            if succeeded_with(pre, id) {
                let i = choose|i: int| 0 <= i < pre.len() && (#[trigger] pre[i]) is Ok && pre[i]->Ok_0.identifier() == id;
                assert(os[i] == pre[i]);
            }
        }
        assert forall|id: Seq<char>| #[trigger] succeeded_with(os, id) ==> succeeded_with(pre, id)
            || (os.last() is Ok && os.last()->Ok_0.identifier() == id) by {
            if succeeded_with(os, id) {
                let i = choose|i: int| 0 <= i < os.len() && (#[trigger] os[i]) is Ok && os[i]->Ok_0.identifier() == id;
                if i < os.len() - 1 {
                    assert(pre[i] == os[i]);
                }
            }
        }
        match os.last() {
            Ok(q) => {
                assert(succeeded_with(os, q.identifier())) by {
                    assert(os[os.len() - 1] is Ok);
                }
                if !prev.contains(q.identifier()) {
                    lemma_record_keeps_unique(prev, q.identifier());
                    assert forall|id: Seq<char>| #[trigger] prev.push(q.identifier()).contains(id) <==> prev.contains(id) || id == q.identifier() by {
                        if prev.push(q.identifier()).contains(id) {
                            let j = choose|j: int| 0 <= j < prev.push(q.identifier()).len() && prev.push(q.identifier())[j] == id;
                            if j < prev.len() {
                                assert(prev[j] == id);
                            }
                        }
                        if prev.contains(id) {
                            let j = choose|j: int| 0 <= j < prev.len() && prev[j] == id;
                            assert(prev.push(q.identifier())[j] == id);
                        }
                        if id == q.identifier() {
                            assert(prev.push(q.identifier())[prev.len() as int] == id);
                        }
                    }
                }
            },
            Err(_) => {},
        }
    }
}

/// Feeds the outcome of every unit of work, in order, to the aggregator:
/// each success adds its record, each failure is counted.
pub fn collect_outcomes(agg: &mut Aggregator, outcomes: Vec<Result<QueryResults, String>>) -> (r: RunTally)
    ensures
        r.succeeded == count_ok(outcomes@),
        r.failed == count_err(outcomes@),
        r.succeeded + r.failed == outcomes@.len(),
        final(agg).table() == table_after(old(agg).table(), outcomes@),
        final(agg).ids() == ids_after(old(agg).ids(), outcomes@),
        final(agg).patterns() == old(agg).patterns(),
{
    let ghost all = outcomes@;
    let ghost n = outcomes@.len();
    assert(outcomes@.len() == outcomes.len());
    let mut rest = outcomes;
    let mut succeeded: usize = 0;
    let mut failed: usize = 0;
    while rest.len() > 0
        invariant
            n == all.len(),
            n <= usize::MAX,
            rest@.len() <= n,
            rest@ == all.subrange(n - rest@.len(), n as int),
            succeeded == count_ok(all.subrange(0, n - rest@.len())),
            failed == count_err(all.subrange(0, n - rest@.len())),
            succeeded + failed == n - rest@.len(),
            agg.table() == table_after(old(agg).table(), all.subrange(0, n - rest@.len())),
            agg.ids() == ids_after(old(agg).ids(), all.subrange(0, n - rest@.len())),
            agg.patterns() == old(agg).patterns(),
        decreases rest@.len(),
    {
        let ghost k = n - rest@.len();
        let ghost done = all.subrange(0, k);
        let ghost cur = all.subrange(0, k + 1);
        let o = rest.remove(0);
        assert(rest@ =~= all.subrange(k + 1, n as int));
        assert(cur.drop_last() =~= done);
        assert(cur.last() == o);
        match o {
            Ok(q) => {
                agg.add(q);
                succeeded = succeeded + 1;
            },
            Err(_) => {
                failed = failed + 1;
            },
        }
    }
    assert(all.subrange(0, n as int) =~= all);
    RunTally { succeeded, failed }
}

} // verus!
