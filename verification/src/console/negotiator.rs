//! The size of the shared screen: what fits in the local terminal and in that of each helper.
use crate::protocol::{HelperId, PtySize, TIMEOUT};
use crate::time::{nanos, span, MAX_NANOS};
use std::collections::HashMap;
use std::time::{Duration, Instant};
use vstd::prelude::*;

verus! {

/// The screen that a helper has, and when this no longer counts unless the helper is heard from
/// again. Times are nanoseconds since the negotiator was made.
#[derive(Debug, Clone, Copy, PartialEq, Eq, Structural)]
pub struct HelperLifetime {
    pub size: PtySize,
    pub deadline: u128,
}

/// The helpers that count at the given time.
pub open spec fn live(helpers: Map<u64, HelperLifetime>, now: u128) -> Map<u64, HelperLifetime> {
    helpers.restrict(
        helpers.dom().filter(|id: u64| now < helpers[id].deadline),
    )
}

/// Whether a size fits in the local terminal and in that of each helper.
pub open spec fn fits_all(
    size: PtySize,
    local: PtySize,
    helpers: Map<u64, HelperLifetime>,
) -> bool {
    &&& size.fits_in(local)
    &&& forall|id: u64| helpers.contains_key(id) ==> size.fits_in((#[trigger] helpers[id]).size)
}

/// Whether a size is the largest that fits in the local terminal and in that of each helper.
pub open spec fn is_best(size: PtySize, local: PtySize, helpers: Map<u64, HelperLifetime>) -> bool {
    &&& fits_all(size, local, helpers)
    &&& forall|other: PtySize| fits_all(other, local, helpers) ==> #[trigger] other.fits_in(size)
}

/// When a helper that was heard from at the given time no longer counts.
pub open spec fn deadline_after(now: u128) -> u128 {
    (now + TIMEOUT * 1_000_000_000) as u128
}

/// Whether a clock that was started at the given moment shows the time `t` at some moment.
pub open spec fn clock_shows(started: Instant, t: u128) -> bool {
    exists|moment: Instant| t == nanos(#[trigger] span(moment, started))
}

/// Finds the size of the shared screen. A helper that has not been heard from for a while no longer
/// counts.
pub struct TerminalSizeNegotiator {
    local_size: PtySize,
    helpers: HashMap<u64, HelperLifetime>,
    started: Instant,
}

impl TerminalSizeNegotiator {
    /// The size of the local terminal.
    pub closed spec fn local(self) -> PtySize {
        self.local_size
    }

    /// The helpers that have been heard from.
    pub closed spec fn helpers(self) -> Map<u64, HelperLifetime> {
        self.helpers@
    }

    /// When the negotiator was made.
    pub closed spec fn started(self) -> Instant {
        self.started
    }

    /// Whether the clock of this negotiator shows the given time at some moment.
    pub open spec fn is_time(self, t: u128) -> bool {
        clock_shows(self.started(), t)
    }

    /// A negotiator without helpers.
    pub fn new(local_size: PtySize) -> (r: Self)
        ensures
            r.local() == local_size,
            r.helpers() == Map::<u64, HelperLifetime>::empty(),
    {
        TerminalSizeNegotiator { local_size, helpers: HashMap::new(), started: Instant::now() }
    }

    /// The time: nanoseconds since the negotiator was made.
    pub fn clock(&self) -> (r: u128)
        ensures
            self.is_time(r),
            r <= MAX_NANOS,
    {
        let moment: Instant = Instant::now();
        let since: Duration = moment.duration_since(self.started);
        assert(since == span(moment, self.started()));
        since.as_nanos()
    }

    /// Takes over the size of the local terminal.
    pub fn update_local(&mut self, size: PtySize) -> (r: PtySize)
        ensures
            final(self).started() == old(self).started(),
            final(self).local() == size,
            is_best(r, size, final(self).helpers()),
            exists|now: u128|
                old(self).is_time(now) && final(self).helpers() == #[trigger] live(
                    old(self).helpers(),
                    now,
                ),
    {
        let now: u128 = self.clock();
        self.update_local_at(size, now)
    }

    /// Takes over the size that a helper has told, which counts for a while from now on.
    pub fn update_helper(&mut self, id: HelperId, size: PtySize) -> (r: PtySize)
        ensures
            final(self).started() == old(self).started(),
            final(self).local() == old(self).local(),
            is_best(r, final(self).local(), final(self).helpers()),
            exists|heard: u128, now: u128|
                heard <= MAX_NANOS && old(self).is_time(heard) && old(self).is_time(now)
                    && final(self).helpers() == #[trigger] live(
                    old(self).helpers().insert(
                        id.0,
                        HelperLifetime { size, deadline: deadline_after(heard) },
                    ),
                    now,
                ),
    {
        let heard: u128 = self.clock();
        let now: u128 = self.clock();
        self.update_helper_at(id, size, heard, now)
    }

    /// Forgets a helper that has left.
    pub fn remove_helper(&mut self, id: HelperId) -> (r: PtySize)
        ensures
            final(self).started() == old(self).started(),
            final(self).local() == old(self).local(),
            is_best(r, final(self).local(), final(self).helpers()),
            exists|now: u128|
                old(self).is_time(now) && final(self).helpers() == #[trigger] live(
                    old(self).helpers().remove(id.0),
                    now,
                ),
    {
        let now: u128 = self.clock();
        self.remove_helper_at(id, now)
    }

    /// The largest size that fits in the local terminal and in that of each helper that counts.
    /// Helpers that no longer count are forgotten.
    pub fn best_size(&mut self) -> (r: PtySize)
        ensures
            final(self).started() == old(self).started(),
            final(self).local() == old(self).local(),
            is_best(r, final(self).local(), final(self).helpers()),
            exists|now: u128|
                old(self).is_time(now) && final(self).helpers() == #[trigger] live(
                    old(self).helpers(),
                    now,
                ),
    {
        let now: u128 = self.clock();
        self.best_size_at(now)
    }

    /// Takes over the size that a helper told at time `heard`, and finds the best size at `now`.
    pub fn update_helper_at(&mut self, id: HelperId, size: PtySize, heard: u128, now: u128) -> (r:
        PtySize)
        requires
            heard <= MAX_NANOS,
        ensures
            final(self).started() == old(self).started(),
            final(self).local() == old(self).local(),
            final(self).helpers() == live(
                old(self).helpers().insert(
                    id.0,
                    HelperLifetime { size, deadline: deadline_after(heard) },
                ),
                now,
            ),
            is_best(r, final(self).local(), final(self).helpers()),
    {
        let deadline: u128 = heard + TIMEOUT as u128 * 1_000_000_000;
        self.helpers.insert(id.0, HelperLifetime { size, deadline });
        self.best_size_at(now)
    }

    /// Forgets a helper that has left, and finds the best size at `now`.
    pub fn remove_helper_at(&mut self, id: HelperId, now: u128) -> (r: PtySize)
        ensures
            final(self).started() == old(self).started(),
            final(self).local() == old(self).local(),
            final(self).helpers() == live(old(self).helpers().remove(id.0), now),
            is_best(r, final(self).local(), final(self).helpers()),
    {
        broadcast use vstd::std_specs::hash::group_hash_axioms;

        self.helpers.remove(&id.0);
        self.best_size_at(now)
    }

    /// Takes over the size of the local terminal, and finds the best size at `now`.
    pub fn update_local_at(&mut self, size: PtySize, now: u128) -> (r: PtySize)
        ensures
            final(self).started() == old(self).started(),
            final(self).local() == size,
            final(self).helpers() == live(old(self).helpers(), now),
            is_best(r, final(self).local(), final(self).helpers()),
    {
        self.local_size = size;
        self.best_size_at(now)
    }

    /// The best size at time `now`. Helpers that then no longer count are forgotten.
    pub fn best_size_at(&mut self, now: u128) -> (r: PtySize)
        ensures
            final(self).started() == old(self).started(),
            final(self).local() == old(self).local(),
            final(self).helpers() == live(old(self).helpers(), now),
            is_best(r, final(self).local(), final(self).helpers()),
    {
        broadcast use vstd::std_specs::hash::group_hash_axioms;

        let ghost before = self.helpers@;
        let mut best: PtySize = self.local_size;
        let mut expired: Vec<u64> = Vec::new();
        for (id, h) in it: self.helpers.iter()
            invariant
                self.helpers@ == before,
                forall|id: u64|
                    #[trigger] before.contains_key(id) ==> it.seq().contains((&id, &before[id])),
                forall|i: int|
                    0 <= i < it.seq().len() ==> before.contains_key(*(#[trigger] it.seq()[i]).0)
                        && before[*it.seq()[i].0] == *it.seq()[i].1,
                best.fits_in(self.local_size),
                forall|i: int|
                    0 <= i < it.index() && now < it.seq()[i].1.deadline ==> best.fits_in(
                        (#[trigger] it.seq()[i]).1.size,
                    ),
                forall|other: PtySize|
                    fits_all(other, self.local_size, live(before, now))
                        ==> #[trigger] other.fits_in(best),
                forall|j: int|
                    0 <= j < expired@.len() ==> before.contains_key(#[trigger] expired@[j])
                        && before[expired@[j]].deadline <= now,
                forall|i: int|
                    0 <= i < it.index() && it.seq()[i].1.deadline <= now ==> expired@.contains(
                        *(#[trigger] it.seq()[i]).0,
                    ),
        {
            if now < h.deadline {
                let ghost smaller = best.meet(h.size);
                assert(live(before, now).contains_key(*id));
                assert forall|other: PtySize|
                    fits_all(other, self.local_size, live(before, now)) implies #[trigger] other.fits_in(
                    smaller,
                ) by {
                    assert(other.fits_in(best));
                    assert(other.fits_in(live(before, now)[*id].size));
                }
                best = best.min_dimensions(h.size);
            } else {
                let ghost known = expired@;
                expired.push(*id);
                assert(forall|id: u64| known.contains(id) ==> #[trigger] expired@.contains(id)) by {
                    assert(forall|j: int| 0 <= j < known.len() ==> expired@[j] == known[j]);
                }
                assert(expired@.last() == *id);
            }
        }
        let n: usize = expired.len();
        let mut j: usize = 0;
        while j < n
            invariant
                j <= n,
                n == expired@.len(),
                self.local_size == old(self).local_size,
                self.started == old(self).started,
                forall|id: u64| #[trigger]
                    self.helpers@.contains_key(id) <==> before.contains_key(id)
                        && !expired@.take(j as int).contains(id),
                forall|id: u64| #[trigger]
                    self.helpers@.contains_key(id) ==> self.helpers@[id] == before[id],
            decreases n - j,
        {
            let ghost gone = expired@.take(j as int);
            let ghost last = expired@[j as int];
            self.helpers.remove(&expired[j]);
            j += 1;
            proof {
                let more = expired@.take(j as int);
                assert(more =~= gone.push(last));
                assert forall|id: u64| #[trigger] more.contains(id) <==> gone.contains(id) || id
                    == last by {
                    if gone.contains(id) {
                        let k = choose|k: int| 0 <= k < gone.len() && gone[k] == id;
                        assert(more[k] == id);
                    }
                    if id == last {
                        assert(more[gone.len() as int] == id);
                    }
                }
            }
        }
        proof {
            assert(expired@.take(n as int) =~= expired@);
            assert forall|id: u64| #[trigger]
                self.helpers@.contains_key(id) <==> live(before, now).contains_key(id) by {}
            assert(self.helpers@ =~= live(before, now));
        }
        best
    }
}

/// There is only one best size.
pub proof fn lemma_best_is_unique(
    a: PtySize,
    b: PtySize,
    local: PtySize,
    helpers: Map<u64, HelperLifetime>,
)
    requires
        is_best(a, local, helpers),
        is_best(b, local, helpers),
    ensures
        a == b,
{
    assert(a.fits_in(b) && b.fits_in(a));
}

/// As long as the local terminal and those of all helpers have a row and a column, the shared screen
/// has one too.
pub proof fn lemma_best_is_visible(
    best: PtySize,
    local: PtySize,
    helpers: Map<u64, HelperLifetime>,
)
    requires
        is_best(best, local, helpers),
        local.visible(),
        forall|id: u64| helpers.contains_key(id) ==> (#[trigger] helpers[id]).size.visible(),
    ensures
        best.visible(),
{
    let least = PtySize { cols: 1, rows: 1 };
    assert(fits_all(least, local, helpers));
    assert(least.fits_in(best));
}

/// Without helpers, the shared screen is the local terminal.
pub proof fn lemma_best_without_helpers(best: PtySize, local: PtySize)
    requires
        is_best(best, local, Map::empty()),
    ensures
        best == local,
{
    assert(fits_all(local, local, Map::empty()));
    assert(local.fits_in(best));
}

/// One helper more makes the shared screen what fits in it and in the terminal of that helper.
pub proof fn lemma_best_with_one_more(
    before: PtySize,
    after: PtySize,
    local: PtySize,
    helpers: Map<u64, HelperLifetime>,
    id: u64,
    h: HelperLifetime,
)
    requires
        !helpers.contains_key(id),
        is_best(before, local, helpers),
        is_best(after, local, helpers.insert(id, h)),
    ensures
        after == before.meet(h.size),
{
    let more = helpers.insert(id, h);
    let both = before.meet(h.size);
    assert(fits_all(both, local, more)) by {
        assert forall|k: u64| more.contains_key(k) implies both.fits_in((#[trigger] more[k]).size) by {
            if k != id {
                assert(before.fits_in(helpers[k].size));
            }
        }
    }
    assert(both.fits_in(after));
    assert(fits_all(after, local, helpers)) by {
        assert forall|k: u64| helpers.contains_key(k) implies after.fits_in(
            (#[trigger] helpers[k]).size,
        ) by {
            assert(more.contains_key(k) && more[k] == helpers[k]);
        }
    }
    assert(after.fits_in(before));
    assert(more.contains_key(id) && after.fits_in(more[id].size));
}

/// A helper counts until it has not been heard from for the whole timeout.
pub proof fn lemma_helper_counts_until_timeout(
    helpers: Map<u64, HelperLifetime>,
    id: u64,
    size: PtySize,
    heard: u128,
    now: u128,
)
    requires
        heard <= MAX_NANOS,
    ensures
        live(
            helpers.insert(id, HelperLifetime { size, deadline: deadline_after(heard) }),
            now,
        ).contains_key(id) <==> now < heard + TIMEOUT * 1_000_000_000,
{
}

/// A helper that comes and leaves again leaves no trace.
pub proof fn lemma_remove_undoes_update(
    helpers: Map<u64, HelperLifetime>,
    id: u64,
    h: HelperLifetime,
    joined: u128,
    left: u128,
)
    requires
        !helpers.contains_key(id),
        joined <= left,
    ensures
        live(live(helpers.insert(id, h), joined).remove(id), left) == live(helpers, left),
{
    assert(live(live(helpers.insert(id, h), joined).remove(id), left) =~= live(helpers, left));
}

/// Looking at the helpers at an earlier time does not change who counts later.
pub proof fn lemma_live_later(helpers: Map<u64, HelperLifetime>, earlier: u128, later: u128)
    requires
        earlier <= later,
    ensures
        live(live(helpers, earlier), later) == live(helpers, later),
{
    assert(live(live(helpers, earlier), later) =~= live(helpers, later));
}

/// The shared screen is nowhere larger than the local terminal and that of any helper, and each of
/// its sides is as long as the shortest of theirs.
pub proof fn lemma_best_is_the_smallest(
    best: PtySize,
    local: PtySize,
    helpers: Map<u64, HelperLifetime>,
)
    requires
        is_best(best, local, helpers),
    ensures
        best.cols <= local.cols,
        best.rows <= local.rows,
        forall|id: u64|
            helpers.contains_key(id) ==> best.cols <= (#[trigger] helpers[id]).size.cols && best.rows
                <= helpers[id].size.rows,
        best.cols == local.cols || exists|id: u64|
            helpers.contains_key(id) && best.cols == (#[trigger] helpers[id]).size.cols,
        best.rows == local.rows || exists|id: u64|
            helpers.contains_key(id) && best.rows == (#[trigger] helpers[id]).size.rows,
{
    if best.cols != local.cols && !exists|id: u64|
        helpers.contains_key(id) && best.cols == (#[trigger] helpers[id]).size.cols {
        let wider = PtySize { cols: (best.cols + 1) as u16, rows: best.rows };
        assert(fits_all(wider, local, helpers));
        assert(wider.fits_in(best));
    }
    if best.rows != local.rows && !exists|id: u64|
        helpers.contains_key(id) && best.rows == (#[trigger] helpers[id]).size.rows {
        let higher = PtySize { cols: best.cols, rows: (best.rows + 1) as u16 };
        assert(fits_all(higher, local, helpers));
        assert(higher.fits_in(best));
    }
}

/// A helper counts just until its deadline, with the size that it has told; and the deadline is ten
/// seconds after it was heard from.
pub proof fn lemma_who_counts(helpers: Map<u64, HelperLifetime>, id: u64, now: u128)
    ensures
        live(helpers, now).contains_key(id) <==> helpers.contains_key(id) && now
            < helpers[id].deadline,
        live(helpers, now).contains_key(id) ==> live(helpers, now)[id] == helpers[id],
        now <= MAX_NANOS ==> deadline_after(now) == now + 10_000_000_000,
{
}

/// A size fits in another just where neither its width nor its height is larger.
pub proof fn lemma_what_fits(a: PtySize, b: PtySize)
    ensures
        a.fits_in(b) <==> a.cols <= b.cols && a.rows <= b.rows,
        a.meet(b).cols == a.cols || a.meet(b).cols == b.cols,
        a.meet(b).rows == a.rows || a.meet(b).rows == b.rows,
        a.meet(b).cols <= a.cols && a.meet(b).cols <= b.cols,
        a.meet(b).rows <= a.rows && a.meet(b).rows <= b.rows,
        a.visible() <==> a.cols > 0 && a.rows > 0,
{
}

} // verus!
