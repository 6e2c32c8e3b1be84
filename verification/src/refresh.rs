//! Fetching all feeds, one after the other.

use vstd::prelude::*;

verus! {

/// What came of fetching a feed.
#[derive(Debug)]
pub enum FeedOutcome {
    /// The feed came. For each of its items: how many articles storing it has
    /// added.
    Stored(Vec<u64>),
    /// The feed did not come, or could not be read.
    Failed,
}

/// What came of fetching a feed, as plain values.
pub enum OutcomeData {
    Stored(Seq<u64>),
    Failed,
}

impl DeepView for FeedOutcome {
    type V = OutcomeData;

    open spec fn deep_view(&self) -> OutcomeData {
        match self {
            FeedOutcome::Stored(added) => OutcomeData::Stored(added@),
            FeedOutcome::Failed => OutcomeData::Failed,
        }
    }
}

/// What is to be done next.
#[derive(Debug)]
pub enum RefreshAction {
    /// Fetch the feed with this number and this address.
    Fetch(i64, String),
    /// All feeds have been fetched: so many new articles, so many failures.
    Done(usize, usize),
}

/// What is to be done next, as plain values.
pub enum RefreshActionData {
    Fetch(i64, Seq<char>),
    Done(int, int),
}

impl DeepView for RefreshAction {
    type V = RefreshActionData;

    open spec fn deep_view(&self) -> RefreshActionData {
        match self {
            RefreshAction::Fetch(id, url) => RefreshActionData::Fetch(*id, url@),
            RefreshAction::Done(inserted, failed) => RefreshActionData::Done(
                *inserted as int,
                *failed as int,
            ),
        }
    }
}

/// The feeds to fetch, by number and address, how many of them have been
/// fetched, and what came of it.
#[derive(Debug)]
pub struct Refresh {
    pub feeds: Vec<(i64, String)>,
    pub next: usize,
    pub inserted: usize,
    pub failed: usize,
}

/// The feeds to fetch and what came of it, as plain values.
pub struct RefreshData {
    pub feeds: Seq<(i64, Seq<char>)>,
    pub next: int,
    pub inserted: int,
    pub failed: int,
}

impl DeepView for Refresh {
    type V = RefreshData;

    open spec fn deep_view(&self) -> RefreshData {
        RefreshData {
            feeds: self.feeds.deep_view(),
            next: self.next as int,
            inserted: self.inserted as int,
            failed: self.failed as int,
        }
    }
}

/// The sum of some numbers.
pub open spec fn sum(added: Seq<u64>) -> int
    decreases added.len(),
{
    if added.len() == 0 {
        0
    } else {
        sum(added.drop_last()) + added.last()
    }
}

/// How many articles a feed has added.
pub open spec fn added_by(outcome: OutcomeData) -> int {
    match outcome {
        OutcomeData::Stored(added) => sum(added),
        OutcomeData::Failed => 0,
    }
}

impl RefreshData {
    /// No more feeds have been fetched than there are, and no more have failed
    /// than were fetched.
    pub open spec fn wf(self) -> bool {
        0 <= self.failed <= self.next <= self.feeds.len()
    }

    /// The state after the next feed was fetched.
    pub open spec fn after(self, outcome: OutcomeData) -> RefreshData {
        RefreshData {
            next: self.next + 1,
            inserted: self.inserted + added_by(outcome),
            failed: self.failed + if outcome is Failed {
                1int
            } else {
                0int
            },
            ..self
        }
    }

    /// The state after some more feeds were fetched.
    pub open spec fn after_all(self, outcomes: Seq<OutcomeData>) -> RefreshData
        decreases outcomes.len(),
    {
        if outcomes.len() == 0 {
            self
        } else {
            self.after_all(outcomes.drop_last()).after(outcomes.last())
        }
    }

    /// What is to be done next.
    pub open spec fn action(self) -> RefreshActionData {
        if self.next < self.feeds.len() {
            RefreshActionData::Fetch(self.feeds[self.next].0, self.feeds[self.next].1)
        } else {
            RefreshActionData::Done(self.inserted, self.failed)
        }
    }
}

/// Adds numbers to a sum, as far as the result can be held.
fn add_all(start: usize, added: &[u64]) -> (total: Option<usize>)
    ensures
        match total {
            Some(n) => n == start + sum(added@),
            None => start + sum(added@) > usize::MAX,
        },
{
    let mut total: usize = start;
    let mut i: usize = 0;
    while i < added.len()
        invariant
            i <= added@.len(),
            total == start + sum(added@.take(i as int)),
        decreases added@.len() - i,
    {
        assert(added@.take(i + 1).drop_last() == added@.take(i as int));
        let n: u64 = added[i];
        if n > (usize::MAX - total) as u64 {
            proof {
                lemma_sum_grows(added@, i + 1);
            }
            return None;
        }
        total = total + n as usize;
        i = i + 1;
    }
    assert(added@.take(i as int) =~= added@);
    Some(total)
}

/// More numbers do not make a sum less.
proof fn lemma_sum_grows(added: Seq<u64>, n: int)
    requires
        0 <= n <= added.len(),
    ensures
        0 <= sum(added.take(n)) <= sum(added),
    decreases added.len() - n, n,
{
    if n == added.len() {
        assert(added.take(n) =~= added);
        if n > 0 {
            assert(added.drop_last() =~= added.take(n - 1));
            lemma_sum_not_negative(added);
        }
    } else {
        lemma_sum_grows(added, n + 1);
        assert(added.take(n + 1).drop_last() =~= added.take(n));
        lemma_sum_not_negative(added.take(n));
    }
}

/// A sum is not negative.
proof fn lemma_sum_not_negative(added: Seq<u64>)
    ensures
        sum(added) >= 0,
    decreases added.len(),
{
    if added.len() > 0 {
        lemma_sum_not_negative(added.drop_last());
    }
}

impl Refresh {
    /// No more feeds have been fetched than there are.
    pub open spec fn wf(self) -> bool {
        self.deep_view().wf()
    }

    /// Starts with the first feed.
    pub fn new(feeds: Vec<(i64, String)>) -> (refresh: Self)
        ensures
            refresh.wf(),
            refresh.deep_view() == (RefreshData {
                feeds: feeds.deep_view(),
                next: 0,
                inserted: 0,
                failed: 0,
            }),
    {
        Refresh { feeds, next: 0, inserted: 0, failed: 0 }
    }

    /// What is to be done next.
    pub fn action(&self) -> (action: RefreshAction)
        requires
            self.wf(),
        ensures
            action.deep_view() == self.deep_view().action(),
    {
        assert(self.feeds.deep_view().len() == self.feeds@.len());
        if self.next < self.feeds.len() {
            assert(self.feeds.deep_view()[self.next as int]
                == self.feeds@[self.next as int].deep_view());
            RefreshAction::Fetch(self.feeds[self.next].0, self.feeds[self.next].1.clone())
        } else {
            RefreshAction::Done(self.inserted, self.failed)
        }
    }

    /// Takes what came of the feed that was fetched. Gives `false`, and leaves
    /// all as it is, where there are more new articles than can be counted.
    pub fn fetched(&mut self, outcome: FeedOutcome) -> (counted: bool)
        requires
            old(self).wf(),
            old(self).deep_view().next < old(self).deep_view().feeds.len(),
        ensures
            final(self).wf(),
            counted == (old(self).deep_view().inserted + added_by(outcome.deep_view())
                <= usize::MAX),
            final(self).deep_view() == if counted {
                old(self).deep_view().after(outcome.deep_view())
            } else {
                old(self).deep_view()
            },
    {
        let count: usize = self.feeds.len();
        assert(self.deep_view().feeds.len() == count);
        match outcome {
            FeedOutcome::Stored(added) => match add_all(self.inserted, &added) {
                Some(total) => {
                    self.inserted = total;
                    self.next = self.next + 1;
                    true
                },
                None => false,
            },
            FeedOutcome::Failed => {
                self.failed = self.failed + 1;
                self.next = self.next + 1;
                true
            },
        }
    }
}

/// How many of some outcomes are failures.
pub open spec fn failures(outcomes: Seq<OutcomeData>) -> int
    decreases outcomes.len(),
{
    if outcomes.len() == 0 {
        0
    } else {
        failures(outcomes.drop_last()) + if outcomes.last() is Failed {
            1int
        } else {
            0int
        }
    }
}

/// How many articles some outcomes have added.
pub open spec fn all_added(outcomes: Seq<OutcomeData>) -> int
    decreases outcomes.len(),
{
    if outcomes.len() == 0 {
        0
    } else {
        all_added(outcomes.drop_last()) + added_by(outcomes.last())
    }
}

/// A feed that fails stops nothing: each feed is fetched once, in turn, and when
/// all have been, the numbers of new articles and of failures are those of all
/// of them.
pub proof fn law_refresh(feeds: Seq<(i64, Seq<char>)>, outcomes: Seq<OutcomeData>)
    requires
        outcomes.len() <= feeds.len(),
    ensures
        ({
            let start = RefreshData { feeds, next: 0, inserted: 0, failed: 0 };
            let r = start.after_all(outcomes);
            &&& r.wf()
            &&& outcomes.len() < feeds.len() ==> r.action() == RefreshActionData::Fetch(
                feeds[outcomes.len() as int].0,
                feeds[outcomes.len() as int].1,
            )
            &&& outcomes.len() == feeds.len() ==> r.action() == RefreshActionData::Done(
                all_added(outcomes),
                failures(outcomes),
            )
        }),
{
    lemma_after_all(
        RefreshData { feeds, next: 0, inserted: 0, failed: 0 },
        outcomes,
    );
}

/// The state after some outcomes.
proof fn lemma_after_all(start: RefreshData, outcomes: Seq<OutcomeData>)
    ensures
        start.after_all(outcomes) == (RefreshData {
            feeds: start.feeds,
            next: start.next + outcomes.len(),
            inserted: start.inserted + all_added(outcomes),
            failed: start.failed + failures(outcomes),
        }),
        0 <= failures(outcomes) <= outcomes.len(),
    decreases outcomes.len(),
{
    if outcomes.len() > 0 {
        lemma_after_all(start, outcomes.drop_last());
    }
}

/// Each outcome counts once: a feed that failed as one failure and no article, a
/// feed that came as no failure and as many articles as its items have added
/// together, in whatever order they were stored.
pub proof fn law_counted(r: RefreshData, added: Seq<u64>, more: Seq<u64>, x: u64)
    ensures
        r.after(OutcomeData::Failed) == (RefreshData { next: r.next + 1, failed: r.failed + 1, ..r }),
        r.after(OutcomeData::Stored(added)) == (RefreshData {
            next: r.next + 1,
            inserted: r.inserted + sum(added),
            ..r
        }),
        sum(added + more) == sum(added) + sum(more),
        sum(seq![x]) == x,
        sum(Seq::<u64>::empty()) == 0,
    decreases more.len(),
{
    assert(seq![x].drop_last() =~= seq![]);
    assert(sum(seq![x].drop_last()) == 0);
    assert(seq![x].last() == x);
    assert(sum(seq![x]) == x);
    if more.len() == 0 {
        assert(added + more =~= added);
    } else {
        assert((added + more).drop_last() =~= added + more.drop_last());
        law_counted(r, added, more.drop_last(), x);
    }
}

/// Outcomes are counted one after the other, and each feed is fetched once: what
/// is done next depends on how many outcomes there were, whatever they were.
pub proof fn law_one_by_one(r: RefreshData, a: Seq<OutcomeData>, b: Seq<OutcomeData>)
    ensures
        r.after_all(a + b) == r.after_all(a).after_all(b),
        r.after_all(a).next == r.next + a.len(),
        r.after_all(a).feeds == r.feeds,
        failures(a + b) == failures(a) + failures(b),
        all_added(a + b) == all_added(a) + all_added(b),
    decreases b.len(),
{
    lemma_after_all(r, a);
    if b.len() == 0 {
        assert(a + b =~= a);
    } else {
        assert((a + b).drop_last() =~= a + b.drop_last());
        law_one_by_one(r, a, b.drop_last());
    }
}

} // verus!
