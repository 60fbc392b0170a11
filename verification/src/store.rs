//! The posting store and the per-source reconciler.
//!
//! The store is the authoritative mapping from stable posting identity to
//! classified posting. Reconciliation merges one source's freshly scraped
//! batch into it: new postings are inserted, reappearing postings recover,
//! postings absent beyond the grace period are evicted, and postings of
//! every other source are left untouched.

use vstd::prelude::*;
use vstd::pervasive::VecAdditionalExecFns;

use crate::job::Job;
use crate::job::JobView;
use crate::job::day_in_range;
use crate::job::reparse_view;
use crate::text::str_eq;

verus! {

/// The views of a sequence of postings.
pub open spec fn views(s: Seq<Job>) -> Seq<JobView> {
    s.map_values(|j: Job| j@)
}

/// The mapping from id to posting that a sequence of postings describes;
/// a later entry supersedes an earlier one with the same id.
pub open spec fn entries_map(s: Seq<JobView>) -> Map<Seq<char>, JobView>
    decreases s.len(),
{
    if s.len() == 0 {
        Map::empty()
    } else {
        entries_map(s.drop_last()).insert(s.last().id, s.last())
    }
}

/// No two postings of the sequence share an id.
pub open spec fn unique_ids(s: Seq<JobView>) -> bool {
    forall|i: int, j: int| 0 <= i < j < s.len() ==> s[i].id != s[j].id
}

/// The posting's day numbers are in the range where arithmetic is safe.
pub open spec fn job_days_ok(j: JobView) -> bool {
    &&& day_in_range(j.first_seen)
    &&& match j.missing_since {
        Some(t) => day_in_range(t),
        None => true,
    }
}

/// Every posting of the sequence has day numbers in range.
pub open spec fn days_ok(s: Seq<JobView>) -> bool {
    forall|i: int| 0 <= i < s.len() ==> job_days_ok(#[trigger] s[i])
}

proof fn lemma_entries_map_contains(s: Seq<JobView>, id: Seq<char>)
    ensures
        entries_map(s).contains_key(id) <==> exists|i: int| 0 <= i < s.len() && s[i].id == id,
    decreases s.len(),
{
    if s.len() == 0 {
    } else {
        lemma_entries_map_contains(s.drop_last(), id);
        if s.last().id == id {
            assert(s[s.len() - 1].id == id);
        } else if entries_map(s).contains_key(id) {
            let i = choose|i: int| 0 <= i < s.drop_last().len() && s.drop_last()[i].id == id;
            assert(s[i].id == id);
        } else if exists|i: int| 0 <= i < s.len() && s[i].id == id {
            let i = choose|i: int| 0 <= i < s.len() && s[i].id == id;
            assert(s.drop_last()[i].id == id);
        }
    }
}

proof fn lemma_entries_map_value(s: Seq<JobView>, i: int)
    requires
        unique_ids(s),
        0 <= i < s.len(),
    ensures
        entries_map(s).contains_key(s[i].id),
        entries_map(s)[s[i].id] == s[i],
    decreases s.len(),
{
    if i == s.len() - 1 {
    } else {
        assert(unique_ids(s.drop_last()));
        assert(s.drop_last()[i] == s[i]);
        lemma_entries_map_value(s.drop_last(), i);
        assert(s[i].id != s.last().id);
    }
}

proof fn lemma_entries_map_len(s: Seq<JobView>)
    requires
        unique_ids(s),
    ensures
        entries_map(s).dom().finite(),
        entries_map(s).dom().len() == s.len(),
    decreases s.len(),
{
    if s.len() == 0 {
        assert(entries_map(s).dom() =~= Set::<Seq<char>>::empty());
    } else {
        assert(unique_ids(s.drop_last()));
        lemma_entries_map_len(s.drop_last());
        lemma_entries_map_contains(s.drop_last(), s.last().id);
        assert(!entries_map(s.drop_last()).contains_key(s.last().id));
    }
}

/// A later posting with an already-present id supersedes it in place.
proof fn lemma_entries_map_update(s: Seq<JobView>, k: int, v: JobView)
    requires
        unique_ids(s),
        0 <= k < s.len(),
        s[k].id == v.id,
    ensures
        entries_map(s.update(k, v)) == entries_map(s).insert(v.id, v),
    decreases s.len(),
{
    if k == s.len() - 1 {
        assert(s.update(k, v).drop_last() =~= s.drop_last());
        assert(s.update(k, v).last() == v);
        assert(entries_map(s.drop_last()).insert(s.last().id, s.last()).insert(v.id, v)
            =~= entries_map(s.drop_last()).insert(v.id, v));
    } else {
        assert(unique_ids(s.drop_last()));
        assert(s.drop_last()[k] == s[k]);
        lemma_entries_map_update(s.drop_last(), k, v);
        assert(s.update(k, v).drop_last() =~= s.drop_last().update(k, v));
        assert(s.update(k, v).last() == s.last());
        assert(v.id != s.last().id);
        assert(entries_map(s.drop_last()).insert(v.id, v).insert(s.last().id, s.last())
            =~= entries_map(s.drop_last()).insert(s.last().id, s.last()).insert(v.id, v));
    }
}

/// How many days a posting may stay missing before it is evicted.
pub const GRACE_DAYS: i64 = 3;

/// Whether a previously known posting, not re-observed for `src`, stays in
/// the store: postings of other sources always stay, and postings of `src`
/// stay until they have been missing for the grace period.
pub open spec fn survives(e: JobView, src: Seq<char>, now: int) -> bool {
    e.source != src || match e.missing_since {
        None => true,
        Some(t) => now - t < GRACE_DAYS as int,
    }
}

/// A posting of `src` that was not re-observed: if it was not already
/// missing, it is marked missing as of `now`; other postings are untouched.
pub open spec fn marked_entry(e: JobView, src: Seq<char>, now: int) -> JobView {
    if e.source == src && e.missing_since is None {
        JobView { missing_since: Some(now), ..e }
    } else {
        e
    }
}

/// A freshly observed posting merged with the previous store: a posting
/// already known keeps its original `first_seen`.
pub open spec fn merged_entry(prevm: Map<Seq<char>, JobView>, j: JobView) -> JobView {
    if prevm.contains_key(j.id) {
        JobView { first_seen: prevm[j.id].first_seen, ..j }
    } else {
        j
    }
}

/// Whether a posting of `src` goes missing in this pass: it was not
/// re-observed and was not already marked missing.
pub open spec fn newly_missing(e: JobView, src: Seq<char>, incm: Map<Seq<char>, JobView>) -> bool {
    e.source == src && !incm.contains_key(e.id) && e.missing_since is None
}

/// The store that reconciling `src`'s incoming batch against the previous
/// store produces: incoming postings supersede (keeping their original
/// `first_seen`), postings of `src` that were not re-observed are marked
/// missing or evicted once missing beyond the grace period, and postings of
/// other sources are untouched.
pub open spec fn next_store_spec(
    prevm: Map<Seq<char>, JobView>,
    src: Seq<char>,
    incm: Map<Seq<char>, JobView>,
    now: int,
) -> Map<Seq<char>, JobView> {
    Map::new(
        |id: Seq<char>|
            incm.contains_key(id) || (prevm.contains_key(id) && survives(prevm[id], src, now)),
        |id: Seq<char>|
            if incm.contains_key(id) {
                merged_entry(prevm, incm[id])
            } else {
                marked_entry(prevm[id], src, now)
            },
    )
}

/// What one reconciliation pass reports.
pub enum ReconcileEvent {
    /// A posting seen for the first time.
    New { id: String },
    /// A posting of the reconciled source that went missing, with how many
    /// days it had been known.
    Missing { id: String, days: i64 },
    /// A missing posting that reappeared, with how many days it was missing.
    Recovered { id: String, days: i64 },
}

/// The mathematical value of a reconciliation event.
pub enum EventView {
    New { id: Seq<char> },
    Missing { id: Seq<char>, days: int },
    Recovered { id: Seq<char>, days: int },
}

impl View for ReconcileEvent {
    type V = EventView;

    open spec fn view(&self) -> EventView {
        match self {
            ReconcileEvent::New { id } => EventView::New { id: id@ },
            ReconcileEvent::Missing { id, days } => EventView::Missing {
                id: id@,
                days: *days as int,
            },
            ReconcileEvent::Recovered { id, days } => EventView::Recovered {
                id: id@,
                days: *days as int,
            },
        }
    }
}

/// The views of a sequence of reconciliation events.
pub open spec fn event_views(s: Seq<ReconcileEvent>) -> Seq<EventView> {
    s.map_values(|e: ReconcileEvent| e@)
}

/// The missing events of one pass, in store order: one per posting of `src`
/// that goes missing, carrying how many days it had been known.
pub open spec fn missing_events_spec(
    prevs: Seq<JobView>,
    src: Seq<char>,
    incm: Map<Seq<char>, JobView>,
    now: int,
) -> Seq<EventView>
    decreases prevs.len(),
{
    if prevs.len() == 0 {
        Seq::empty()
    } else {
        let rest = missing_events_spec(prevs.drop_last(), src, incm, now);
        if newly_missing(prevs.last(), src, incm) {
            rest.push(
                EventView::Missing {
                    id: prevs.last().id,
                    days: now - prevs.last().first_seen,
                },
            )
        } else {
            rest
        }
    }
}

/// The event an incoming posting gives rise to: new when it was unknown,
/// recovered when it was known and marked missing, none otherwise.
pub open spec fn arrival_event(prevm: Map<Seq<char>, JobView>, j: JobView, now: int) -> Option<
    EventView,
> {
    if !prevm.contains_key(j.id) {
        Some(EventView::New { id: j.id })
    } else {
        match prevm[j.id].missing_since {
            Some(t) => Some(EventView::Recovered { id: j.id, days: now - t }),
            None => None,
        }
    }
}

/// The new and recovered events of one pass, in batch order.
pub open spec fn arrival_events_spec(
    incs: Seq<JobView>,
    prevm: Map<Seq<char>, JobView>,
    now: int,
) -> Seq<EventView>
    decreases incs.len(),
{
    if incs.len() == 0 {
        Seq::empty()
    } else {
        let rest = arrival_events_spec(incs.drop_last(), prevm, now);
        match arrival_event(prevm, incs.last(), now) {
            Some(e) => rest.push(e),
            None => rest,
        }
    }
}

/// The store entries that the first reconciliation phase keeps from the
/// previous store: postings not re-observed, marked or evicted as due.
pub open spec fn phase1_map(
    prevs: Seq<JobView>,
    src: Seq<char>,
    incm: Map<Seq<char>, JobView>,
    now: int,
) -> Map<Seq<char>, JobView>
    decreases prevs.len(),
{
    if prevs.len() == 0 {
        Map::empty()
    } else {
        let m = phase1_map(prevs.drop_last(), src, incm, now);
        let e = prevs.last();
        if !incm.contains_key(e.id) && survives(e, src, now) {
            m.insert(e.id, marked_entry(e, src, now))
        } else {
            m
        }
    }
}

/// The map after the second phase has added the merged incoming postings.
pub open spec fn with_arrivals(
    base: Map<Seq<char>, JobView>,
    incs: Seq<JobView>,
    prevm: Map<Seq<char>, JobView>,
) -> Map<Seq<char>, JobView>
    decreases incs.len(),
{
    if incs.len() == 0 {
        base
    } else {
        with_arrivals(base, incs.drop_last(), prevm).insert(
            incs.last().id,
            merged_entry(prevm, incs.last()),
        )
    }
}

/// What phase one yields, as a function of the previous store's mapping.
pub open spec fn phase1_target(
    prevm: Map<Seq<char>, JobView>,
    src: Seq<char>,
    incm: Map<Seq<char>, JobView>,
    now: int,
) -> Map<Seq<char>, JobView> {
    Map::new(
        |id: Seq<char>|
            prevm.contains_key(id) && !incm.contains_key(id) && survives(prevm[id], src, now),
        |id: Seq<char>| marked_entry(prevm[id], src, now),
    )
}

/// What phase two yields, as a function of the incoming batch's mapping.
pub open spec fn arrivals_target(
    base: Map<Seq<char>, JobView>,
    incm: Map<Seq<char>, JobView>,
    prevm: Map<Seq<char>, JobView>,
) -> Map<Seq<char>, JobView> {
    Map::new(
        |id: Seq<char>| base.contains_key(id) || incm.contains_key(id),
        |id: Seq<char>|
            if incm.contains_key(id) {
                merged_entry(prevm, incm[id])
            } else {
                base[id]
            },
    )
}

proof fn lemma_last_id_fresh(s: Seq<JobView>)
    requires
        unique_ids(s),
        s.len() > 0,
    ensures
        !entries_map(s.drop_last()).contains_key(s.last().id),
{
    lemma_entries_map_contains(s.drop_last(), s.last().id);
    if entries_map(s.drop_last()).contains_key(s.last().id) {
        let i = choose|i: int| 0 <= i < s.drop_last().len() && s.drop_last()[i].id == s.last().id;
        assert(s[i].id == s[s.len() - 1].id);
        assert(false);
    }
}

proof fn lemma_phase1_map_is(
    prevs: Seq<JobView>,
    src: Seq<char>,
    incm: Map<Seq<char>, JobView>,
    now: int,
)
    requires
        unique_ids(prevs),
    ensures
        phase1_map(prevs, src, incm, now) == phase1_target(entries_map(prevs), src, incm, now),
    decreases prevs.len(),
{
    if prevs.len() == 0 {
        assert(phase1_map(prevs, src, incm, now) =~= phase1_target(
            entries_map(prevs),
            src,
            incm,
            now,
        ));
    } else {
        let rest = prevs.drop_last();
        let last = prevs.last();
        assert(unique_ids(rest));
        lemma_phase1_map_is(rest, src, incm, now);
        lemma_last_id_fresh(prevs);
        assert(entries_map(prevs) == entries_map(rest).insert(last.id, last));
        assert(phase1_map(prevs, src, incm, now) =~= phase1_target(
            entries_map(prevs),
            src,
            incm,
            now,
        ));
    }
}

proof fn lemma_with_arrivals_is(
    base: Map<Seq<char>, JobView>,
    incs: Seq<JobView>,
    prevm: Map<Seq<char>, JobView>,
)
    requires
        unique_ids(incs),
    ensures
        with_arrivals(base, incs, prevm) == arrivals_target(base, entries_map(incs), prevm),
    decreases incs.len(),
{
    if incs.len() == 0 {
        assert(with_arrivals(base, incs, prevm) =~= arrivals_target(
            base,
            entries_map(incs),
            prevm,
        ));
    } else {
        let rest = incs.drop_last();
        let last = incs.last();
        assert(unique_ids(rest));
        lemma_with_arrivals_is(base, rest, prevm);
        lemma_last_id_fresh(incs);
        assert(entries_map(incs) == entries_map(rest).insert(last.id, last));
        assert(with_arrivals(base, incs, prevm) =~= arrivals_target(
            base,
            entries_map(incs),
            prevm,
        ));
    }
}

/// The two phases together produce exactly the reconciled store.
proof fn lemma_phases_give_next_store(
    prevs: Seq<JobView>,
    incs: Seq<JobView>,
    src: Seq<char>,
    now: int,
)
    requires
        unique_ids(prevs),
        unique_ids(incs),
    ensures
        with_arrivals(
            phase1_map(prevs, src, entries_map(incs), now),
            incs,
            entries_map(prevs),
        ) == next_store_spec(entries_map(prevs), src, entries_map(incs), now),
{
    let prevm = entries_map(prevs);
    let incm = entries_map(incs);
    lemma_phase1_map_is(prevs, src, incm, now);
    lemma_with_arrivals_is(phase1_map(prevs, src, incm, now), incs, prevm);
    assert(arrivals_target(phase1_target(prevm, src, incm, now), incm, prevm) =~= next_store_spec(
        prevm,
        src,
        incm,
        now,
    ));
}

/// A posting's discovery day is immutable: as long as an id stays in the
/// store across a reconciliation pass, its `first_seen` is carried over
/// unchanged, whether the posting was re-observed, marked missing, or left
/// alone.
pub proof fn lemma_first_seen_immutable(
    prevm: Map<Seq<char>, JobView>,
    src: Seq<char>,
    incm: Map<Seq<char>, JobView>,
    now: int,
    id: Seq<char>,
)
    requires
        prevm.contains_key(id),
        incm.contains_key(id) ==> incm[id].id == id,
        next_store_spec(prevm, src, incm, now).contains_key(id),
    ensures
        next_store_spec(prevm, src, incm, now)[id].first_seen == prevm[id].first_seen,
{
}

/// Reconciling one source never evicts or alters a posting that belongs to
/// a different source and is not superseded by the incoming batch.
pub proof fn lemma_cross_source_isolation(
    prevm: Map<Seq<char>, JobView>,
    src: Seq<char>,
    incm: Map<Seq<char>, JobView>,
    now: int,
    id: Seq<char>,
)
    requires
        prevm.contains_key(id),
        prevm[id].source != src,
        !incm.contains_key(id),
    ensures
        next_store_spec(prevm, src, incm, now).contains_key(id),
        next_store_spec(prevm, src, incm, now)[id] == prevm[id],
{
}

/// The authoritative mapping from stable posting identity to classified
/// posting, held as a vector of postings with pairwise distinct ids.
pub struct Store {
    /// The postings, with pairwise distinct ids whenever the store is
    /// well-formed.
    pub jobs: Vec<Job>,
}

impl View for Store {
    type V = Map<Seq<char>, JobView>;

    open spec fn view(&self) -> Map<Seq<char>, JobView> {
        entries_map(views(self.jobs@))
    }
}

impl Store {
    /// The postings of the store, in their held order.
    pub open spec fn entries(&self) -> Seq<JobView> {
        views(self.jobs@)
    }

    /// Well-formed: ids are pairwise distinct and day numbers are in range.
    pub open spec fn wf(&self) -> bool {
        &&& unique_ids(self.entries())
        &&& days_ok(self.entries())
    }

    /// An empty store.
    pub fn new() -> (s: Store)
        ensures
            s.wf(),
            s@ == Map::<Seq<char>, JobView>::empty(),
            s.entries().len() == 0,
    {
        let s = Store { jobs: Vec::new() };
        proof {
            assert(views(s.jobs@) =~= Seq::<JobView>::empty());
        }
        s
    }

    /// The number of postings held.
    pub fn len(&self) -> (n: usize)
        requires
            self.wf(),
        ensures
            n == self.entries().len(),
            self@.dom().finite(),
            n == self@.dom().len(),
    {
        proof {
            lemma_entries_map_len(self.entries());
        }
        self.jobs.len()
    }

    /// The postings of the store, for iteration.
    pub fn as_vec(&self) -> (v: &Vec<Job>)
        ensures
            views(v@) == self.entries(),
    {
        &self.jobs
    }

    /// The position of the posting with the given id, if one is held.
    fn find_index(&self, id: &str) -> (r: Option<usize>)
        ensures
            match r {
                Some(k) => k < self.entries().len() && self.entries()[k as int].id == id@,
                None => forall|i: int|
                    0 <= i < self.entries().len() ==> (#[trigger] self.entries()[i]).id != id@,
            },
    {
        let n = self.jobs.len();
        let mut i: usize = 0;
        while i < n
            invariant
                n == self.jobs@.len(),
                i <= n,
                forall|k: int| 0 <= k < i ==> (#[trigger] self.entries()[k]).id != id@,
            decreases n - i,
        {
            if str_eq(self.jobs[i].id.as_str(), id) {
                return Some(i);
            }
            i += 1;
        }
        None
    }

    /// The posting with the given id, if one is held.
    pub fn get(&self, id: &str) -> (r: Option<&Job>)
        requires
            self.wf(),
        ensures
            match r {
                Some(j) => self@.contains_key(id@) && j@ == self@[id@],
                None => !self@.contains_key(id@),
            },
    {
        proof {
            lemma_entries_map_contains(self.entries(), id@);
        }
        match self.find_index(id) {
            Some(k) => {
                proof {
                    lemma_entries_map_value(self.entries(), k as int);
                }
                Some(&self.jobs[k])
            },
            None => None,
        }
    }

    /// A store holding the given postings keyed by id; a duplicate id within
    /// the batch is a recoverable anomaly, and the posting parsed last wins.
    /// Also returns how many postings were superseded that way.
    pub fn from_postings(postings: &Vec<Job>) -> (r: (Store, usize))
        requires
            days_ok(views(postings@)),
        ensures
            r.0.wf(),
            r.0@ == entries_map(views(postings@)),
            r.1 == postings@.len() - r.0.entries().len(),
    {
        let mut out = Store::new();
        let mut dups: usize = 0;
        let n = postings.len();
        let mut i: usize = 0;
        proof {
            assert(views(postings@.take(0)) =~= Seq::<JobView>::empty());
        }
        while i < n
            invariant
                n == postings@.len(),
                i <= n,
                days_ok(views(postings@)),
                out.wf(),
                out@ == entries_map(views(postings@.take(i as int))),
                forall|id: Seq<char>|
                    #[trigger] out@.contains_key(id) ==> exists|k: int|
                        0 <= k < i && views(postings@)[k].id == id,
                dups + out.entries().len() == i,
            decreases n - i,
        {
            let ghost prevs = views(postings@.take(i as int));
            let ghost old_map = out@;
            let j = postings[i].duplicate();
            proof {
                let s1 = views(postings@.take(i + 1));
                assert(s1.drop_last() =~= prevs);
                assert(s1.last() == j@);
                assert(entries_map(s1) == entries_map(prevs).insert(j@.id, j@));
                assert(views(postings@)[i as int] == j@);
                assert(job_days_ok(j@));
            }
            match out.find_index(j.id.as_str()) {
                Some(k) => {
                    let ghost before = out.entries();
                    proof {
                        lemma_entries_map_update(before, k as int, j@);
                        assert(views(out.jobs@.update(k as int, j)) =~= before.update(k as int, j@));
                    }
                    out.jobs.set(k, j);
                    dups += 1;
                    proof {
                        assert(out.entries() == before.update(k as int, j@));
                        assert(out@ == entries_map(before.update(k as int, j@)));
                        assert(entries_map(before.update(k as int, j@)) == entries_map(
                            before,
                        ).insert(j@.id, j@));
                        assert(old_map == entries_map(before));
                        assert(out@ =~= old_map.insert(j@.id, j@));
                        assert forall|a: int, b: int|
                            0 <= a < b < out.entries().len() implies out.entries()[a].id
                            != out.entries()[b].id by {
                            assert(out.entries()[a].id == before[a].id);
                            assert(out.entries()[b].id == before[b].id);
                        };
                        assert forall|m: int|
                            0 <= m < out.entries().len() implies job_days_ok(
                            #[trigger] out.entries()[m],
                        ) by {
                            if m != k {
                                assert(out.entries()[m] == before[m]);
                            }
                        };
                    }
                },
                None => {
                    let ghost before = out.entries();
                    proof {
                        assert(views(out.jobs@.push(j)) =~= before.push(j@));
                    }
                    out.jobs.push(j);
                    proof {
                        assert(out.entries() == before.push(j@));
                        assert(before.push(j@).drop_last() =~= before);
                        assert(before.push(j@).last() == j@);
                        assert(out@ == entries_map(before).insert(j@.id, j@));
                        assert(old_map == entries_map(before));
                        assert(out@ == old_map.insert(j@.id, j@));
                        assert forall|a: int, b: int|
                            0 <= a < b < out.entries().len() implies out.entries()[a].id
                            != out.entries()[b].id by {
                            if b == out.entries().len() - 1 {
                                assert(before[a].id != j@.id);
                            }
                        };
                        assert forall|m: int|
                            0 <= m < out.entries().len() implies job_days_ok(
                            #[trigger] out.entries()[m],
                        ) by {
                            if m < out.entries().len() - 1 {
                                assert(out.entries()[m] == before[m]);
                            }
                        };
                    }
                },
            }
            proof {
                assert forall|id: Seq<char>| #[trigger] out@.contains_key(id) implies exists|k: int|
                    0 <= k < i + 1 && views(postings@)[k].id == id by {
                    if id == j@.id {
                        assert(views(postings@)[i as int].id == id);
                    } else {
                        assert(old_map.contains_key(id));
                    }
                };
            }
            i += 1;
        }
        proof {
            assert(postings@.take(n as int) =~= postings@);
        }
        (out, dups)
    }
}

impl Store {
    /// Recomputes every posting's classification from its stored title,
    /// leaving ids, urls and lifecycle history untouched. Useful when the
    /// rule tables change and historical data must be reclassified.
    pub fn fix_jobs(&mut self)
        requires
            old(self).wf(),
        ensures
            final(self).wf(),
            final(self).entries() == old(self).entries().map_values(
                |j: JobView| reparse_view(j),
            ),
            final(self)@.dom() == old(self)@.dom(),
            forall|id: Seq<char>|
                old(self)@.contains_key(id) ==> final(self)@[id] == reparse_view(old(self)@[id]),
    {
        let ghost orig = self.entries();
        let n = self.jobs.len();
        let mut i: usize = 0;
        while i < n
            invariant
                n == self.jobs@.len(),
                i <= n,
                orig.len() == n,
                forall|m: int| i <= m < n ==> self.entries()[m] == orig[m],
                forall|m: int| 0 <= m < i ==> self.entries()[m] == reparse_view(orig[m]),
            decreases n - i,
        {
            let ghost before_entries = self.entries();
            let mut j = self.jobs[i].duplicate();
            j.reparse();
            proof {
                assert(views(self.jobs@.update(i as int, j)) =~= before_entries.update(
                    i as int,
                    j@,
                ));
            }
            self.jobs.set(i, j);
            proof {
                assert(self.entries() == before_entries.update(i as int, j@));
            }
            i += 1;
        }
        proof {
            let news = self.entries();
            assert(news =~= orig.map_values(|j: JobView| reparse_view(j)));
            assert forall|a: int, b: int| 0 <= a < b < news.len() implies news[a].id
                != news[b].id by {
                assert(news[a].id == orig[a].id);
                assert(news[b].id == orig[b].id);
            };
            assert forall|m: int| 0 <= m < news.len() implies job_days_ok(
                #[trigger] news[m],
            ) by {
                assert(orig[m].first_seen == news[m].first_seen);
                assert(job_days_ok(orig[m]));
            };
            assert forall|id: Seq<char>|
                #[trigger] entries_map(orig).contains_key(id) implies entries_map(news).contains_key(
                id,
            ) && entries_map(news)[id] == reparse_view(entries_map(orig)[id]) by {
                lemma_entries_map_contains(orig, id);
                let m = choose|m: int| 0 <= m < orig.len() && orig[m].id == id;
                lemma_entries_map_value(orig, m);
                lemma_entries_map_value(news, m);
            };
            assert forall|id: Seq<char>|
                #[trigger] entries_map(news).contains_key(id) implies entries_map(orig).contains_key(
                id,
            ) by {
                lemma_entries_map_contains(news, id);
                let m = choose|m: int| 0 <= m < news.len() && news[m].id == id;
                lemma_entries_map_value(news, m);
                lemma_entries_map_value(orig, m);
            };
            assert(entries_map(news).dom() =~= entries_map(orig).dom());
        }
    }
}

proof fn lemma_unique_take(s: Seq<JobView>, i: int)
    requires
        unique_ids(s),
        0 <= i <= s.len(),
    ensures
        unique_ids(s.take(i)),
{
    assert forall|a: int, b: int|
        0 <= a < b < s.take(i).len() implies s.take(i)[a].id != s.take(i)[b].id by {
        assert(s.take(i)[a] == s[a]);
        assert(s.take(i)[b] == s[b]);
    };
}

proof fn lemma_phase1_push_fresh(
    prevs: Seq<JobView>,
    src: Seq<char>,
    incm: Map<Seq<char>, JobView>,
    now: int,
    i: int,
)
    requires
        unique_ids(prevs),
        0 <= i < prevs.len(),
    ensures
        !phase1_map(prevs.take(i), src, incm, now).contains_key(prevs[i].id),
{
    lemma_unique_take(prevs, i);
    lemma_phase1_map_is(prevs.take(i), src, incm, now);
    lemma_entries_map_contains(prevs.take(i), prevs[i].id);
    if phase1_map(prevs.take(i), src, incm, now).contains_key(prevs[i].id) {
        let m = choose|m: int| 0 <= m < prevs.take(i).len() && prevs.take(i)[m].id == prevs[i].id;
        assert(prevs[m].id == prevs[i].id);
        assert(false);
    }
}

proof fn lemma_phase2_push_fresh(
    prevs: Seq<JobView>,
    incs: Seq<JobView>,
    src: Seq<char>,
    now: int,
    k: int,
)
    requires
        unique_ids(prevs),
        unique_ids(incs),
        0 <= k < incs.len(),
    ensures
        !with_arrivals(
            phase1_map(prevs, src, entries_map(incs), now),
            incs.take(k),
            entries_map(prevs),
        ).contains_key(incs[k].id),
{
    let incm = entries_map(incs);
    lemma_unique_take(incs, k);
    lemma_phase1_map_is(prevs, src, incm, now);
    lemma_with_arrivals_is(phase1_map(prevs, src, incm, now), incs.take(k), entries_map(prevs));
    lemma_entries_map_value(incs, k);
    lemma_entries_map_contains(incs.take(k), incs[k].id);
    if entries_map(incs.take(k)).contains_key(incs[k].id) {
        let m = choose|m: int| 0 <= m < incs.take(k).len() && incs.take(k)[m].id == incs[k].id;
        assert(incs[m].id == incs[k].id);
        assert(false);
    }
}

/// Appends a posting whose id is not yet present.
fn push_entry(out: &mut Vec<Job>, j: Job)
    requires
        unique_ids(views(old(out)@)),
        days_ok(views(old(out)@)),
        !entries_map(views(old(out)@)).contains_key(j@.id),
        job_days_ok(j@),
    ensures
        views(final(out)@) == views(old(out)@).push(j@),
        unique_ids(views(final(out)@)),
        days_ok(views(final(out)@)),
        entries_map(views(final(out)@)) == entries_map(views(old(out)@)).insert(j@.id, j@),
{
    let ghost before = views(out@);
    proof {
        assert(views(out@.push(j)) =~= before.push(j@));
        lemma_entries_map_contains(before, j@.id);
    }
    out.push(j);
    proof {
        assert(views(out@) == before.push(j@));
        assert(before.push(j@).drop_last() =~= before);
        assert(before.push(j@).last() == j@);
        assert forall|a: int, b: int|
            0 <= a < b < views(out@).len() implies views(out@)[a].id != views(out@)[b].id by {
            if b == views(out@).len() - 1 {
                assert(before[a].id != j@.id);
            } else {
                assert(views(out@)[a] == before[a]);
                assert(views(out@)[b] == before[b]);
            }
        };
        assert forall|m: int|
            0 <= m < views(out@).len() implies job_days_ok(#[trigger] views(out@)[m]) by {
            if m < views(out@).len() - 1 {
                assert(views(out@)[m] == before[m]);
            }
        };
    }
}

/// Reconciles one source's freshly scraped batch against the previous
/// store, producing the next store and the events of the pass: postings of
/// other sources are untouched; a posting of this source that was not
/// re-observed is marked missing, and evicted once missing for the grace
/// period; a re-observed posting keeps its original `first_seen` and
/// recovers if it was missing; an unknown posting is inserted as new.
pub fn reconcile(prev: &Store, source: &str, incoming: &Store, now: i64) -> (r: (
    Store,
    Vec<ReconcileEvent>,
))
    requires
        prev.wf(),
        incoming.wf(),
        day_in_range(now as int),
        forall|i: int|
            0 <= i < incoming.entries().len() ==> (#[trigger] incoming.entries()[i]).source
                == source@ && incoming.entries()[i].missing_since is None,
    ensures
        r.0.wf(),
        r.0@ == next_store_spec(prev@, source@, incoming@, now as int),
        event_views(r.1@) == missing_events_spec(prev.entries(), source@, incoming@, now as int)
            + arrival_events_spec(incoming.entries(), prev@, now as int),
{
    let ghost prevs = prev.entries();
    let ghost incs = incoming.entries();
    let ghost incm = incoming@;
    let ghost nowg = now as int;
    let mut out: Vec<Job> = Vec::new();
    let mut events: Vec<ReconcileEvent> = Vec::new();
    proof {
        assert(views(out@) =~= Seq::<JobView>::empty());
        assert(event_views(events@) =~= Seq::<EventView>::empty());
        assert(prevs.take(0) =~= Seq::<JobView>::empty());
        assert(entries_map(views(out@)) =~= phase1_map(prevs.take(0), source@, incm, nowg));
        assert(event_views(events@) =~= missing_events_spec(prevs.take(0), source@, incm, nowg));
    }
    let n1 = prev.jobs.len();
    let mut i: usize = 0;
    while i < n1
        invariant
            prev.wf(),
            incoming.wf(),
            day_in_range(nowg),
            nowg == now as int,
            prevs == prev.entries(),
            incs == incoming.entries(),
            incm == incoming@,
            n1 == prev.jobs@.len(),
            i <= n1,
            unique_ids(views(out@)),
            days_ok(views(out@)),
            entries_map(views(out@)) == phase1_map(prevs.take(i as int), source@, incm, nowg),
            event_views(events@) == missing_events_spec(prevs.take(i as int), source@, incm, nowg),
        decreases n1 - i,
    {
        let e = &prev.jobs[i];
        proof {
            assert(prevs[i as int] == e@);
            assert(prevs.take(i + 1).drop_last() =~= prevs.take(i as int));
            assert(prevs.take(i + 1).last() == e@);
            assert(job_days_ok(e@));
        }
        match incoming.find_index(e.id.as_str()) {
            Some(k) => {
                proof {
                    assert(incs[k as int].id == e@.id);
                    lemma_entries_map_contains(incs, e@.id);
                    assert(incm.contains_key(e@.id));
                    assert(phase1_map(prevs.take(i + 1), source@, incm, nowg) == phase1_map(
                        prevs.take(i as int),
                        source@,
                        incm,
                        nowg,
                    ));
                    assert(!newly_missing(e@, source@, incm));
                    assert(missing_events_spec(prevs.take(i + 1), source@, incm, nowg)
                        == missing_events_spec(prevs.take(i as int), source@, incm, nowg));
                }
            },
            None => {
                proof {
                    lemma_entries_map_contains(incs, e@.id);
                    if incm.contains_key(e@.id) {
                        let m = choose|m: int| 0 <= m < incs.len() && incs[m].id == e@.id;
                        assert(false);
                    }
                    lemma_phase1_push_fresh(prevs, source@, incm, nowg, i as int);
                }
                if str_eq(e.source.as_str(), source) {
                    match e.missing_since {
                        None => {
                            let mut m = e.duplicate();
                            m.missing_since = Some(now);
                            proof {
                                assert(m@ == marked_entry(e@, source@, nowg));
                                assert(job_days_ok(m@));
                                assert(survives(e@, source@, nowg));
                            }
                            push_entry(&mut out, m);
                            let ev = ReconcileEvent::Missing {
                                id: e.id.clone(),
                                days: now - e.first_seen,
                            };
                            proof {
                                assert(newly_missing(e@, source@, incm));
                                assert(ev@ == (EventView::Missing {
                                    id: e@.id,
                                    days: nowg - e@.first_seen,
                                }));
                                assert(event_views(events@.push(ev)) =~= event_views(
                                    events@,
                                ).push(ev@));
                            }
                            events.push(ev);
                        },
                        Some(t) => {
                            proof {
                                assert(!newly_missing(e@, source@, incm));
                                assert(missing_events_spec(prevs.take(i + 1), source@, incm, nowg)
                                    == missing_events_spec(prevs.take(i as int), source@, incm, nowg));
                            }
                            if now - t < GRACE_DAYS {
                                proof {
                                    assert(survives(e@, source@, nowg));
                                    assert(marked_entry(e@, source@, nowg) == e@);
                                }
                                push_entry(&mut out, e.duplicate());
                            } else {
                                proof {
                                    assert(!survives(e@, source@, nowg));
                                    assert(phase1_map(prevs.take(i + 1), source@, incm, nowg)
                                        == phase1_map(prevs.take(i as int), source@, incm, nowg));
                                }
                            }
                        },
                    }
                } else {
                    proof {
                        assert(e@.source != source@);
                        assert(survives(e@, source@, nowg));
                        assert(marked_entry(e@, source@, nowg) == e@);
                        assert(!newly_missing(e@, source@, incm));
                        assert(missing_events_spec(prevs.take(i + 1), source@, incm, nowg)
                            == missing_events_spec(prevs.take(i as int), source@, incm, nowg));
                    }
                    push_entry(&mut out, e.duplicate());
                }
            },
        }
        i += 1;
    }
    let ghost kept = phase1_map(prevs, source@, incm, nowg);
    let ghost me = missing_events_spec(prevs, source@, incm, nowg);
    proof {
        assert(prevs.take(n1 as int) =~= prevs);
        assert(entries_map(views(out@)) == kept);
        assert(event_views(events@) == me);
        assert(incs.take(0) =~= Seq::<JobView>::empty());
        assert(with_arrivals(kept, incs.take(0), prev@) == kept);
        assert(arrival_events_spec(incs.take(0), prev@, nowg) =~= Seq::<EventView>::empty());
        assert(event_views(events@) =~= me + arrival_events_spec(incs.take(0), prev@, nowg));
    }
    let n2 = incoming.jobs.len();
    let mut k: usize = 0;
    while k < n2
        invariant
            prev.wf(),
            incoming.wf(),
            day_in_range(nowg),
            nowg == now as int,
            prevs == prev.entries(),
            incs == incoming.entries(),
            incm == incoming@,
            kept == phase1_map(prevs, source@, incm, nowg),
            me == missing_events_spec(prevs, source@, incm, nowg),
            forall|m: int|
                0 <= m < incs.len() ==> (#[trigger] incs[m]).source == source@
                    && incs[m].missing_since is None,
            n2 == incoming.jobs@.len(),
            k <= n2,
            unique_ids(views(out@)),
            days_ok(views(out@)),
            entries_map(views(out@)) == with_arrivals(kept, incs.take(k as int), prev@),
            event_views(events@) == me + arrival_events_spec(incs.take(k as int), prev@, nowg),
        decreases n2 - k,
    {
        let j = &incoming.jobs[k];
        proof {
            assert(incs[k as int] == j@);
            assert(incs.take(k + 1).drop_last() =~= incs.take(k as int));
            assert(incs.take(k + 1).last() == j@);
            assert(job_days_ok(j@));
            lemma_phase2_push_fresh(prevs, incs, source@, nowg, k as int);
        }
        match prev.find_index(j.id.as_str()) {
            Some(pi) => {
                proof {
                    assert(prevs[pi as int].id == j@.id);
                    lemma_entries_map_value(prevs, pi as int);
                    assert(prev@.contains_key(j@.id));
                    assert(prev@[j@.id] == prevs[pi as int]);
                }
                let old_entry = &prev.jobs[pi];
                proof {
                    assert(old_entry@ == prevs[pi as int]);
                    assert(job_days_ok(old_entry@));
                }
                let mut m = j.duplicate();
                m.first_seen = old_entry.first_seen;
                proof {
                    assert(m@ == merged_entry(prev@, j@));
                    assert(job_days_ok(m@));
                }
                push_entry(&mut out, m);
                match old_entry.missing_since {
                    Some(t) => {
                        let ev = ReconcileEvent::Recovered { id: j.id.clone(), days: now - t };
                        proof {
                            assert(arrival_event(prev@, j@, nowg) == Some(ev@));
                            assert(event_views(events@.push(ev)) =~= event_views(events@).push(
                                ev@,
                            ));
                        }
                        events.push(ev);
                    },
                    None => {
                        proof {
                            assert(arrival_event(prev@, j@, nowg) is None);
                            assert(arrival_events_spec(incs.take(k + 1), prev@, nowg)
                                == arrival_events_spec(incs.take(k as int), prev@, nowg));
                        }
                    },
                }
            },
            None => {
                proof {
                    lemma_entries_map_contains(prevs, j@.id);
                    if prev@.contains_key(j@.id) {
                        let m = choose|m: int| 0 <= m < prevs.len() && prevs[m].id == j@.id;
                        assert(false);
                    }
                    assert(merged_entry(prev@, j@) == j@);
                }
                push_entry(&mut out, j.duplicate());
                let ev = ReconcileEvent::New { id: j.id.clone() };
                proof {
                    assert(arrival_event(prev@, j@, nowg) == Some(ev@));
                    assert(event_views(events@.push(ev)) =~= event_views(events@).push(ev@));
                }
                events.push(ev);
            },
        }
        k += 1;
    }
    proof {
        assert(incs.take(n2 as int) =~= incs);
        lemma_phases_give_next_store(prevs, incs, source@, nowg);
    }
    (Store { jobs: out }, events)
}

} // verus!
