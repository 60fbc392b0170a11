//! A total order over postings for presentation.
//!
//! Postings are ordered ascending by: desirability (desirable postings
//! last), seen-today, seen-this-week, score minus age in days, then company
//! and title as final tie-breaks. Reading the resulting list bottom-up gives
//! the most attractive, freshest postings first.

use vstd::prelude::*;

use crate::job::Job;
use crate::job::JobView;
use crate::job::day_in_range;
use crate::job::score_spec;
use crate::store::Store;
use crate::store::days_ok;
use crate::store::job_days_ok;
use crate::store::views;
use crate::text::str_chars;

verus! {

broadcast use vstd::seq_lib::group_to_multiset_ensures;

/// Lexicographic order on character sequences, by code point.
pub open spec fn lex_le(a: Seq<char>, b: Seq<char>) -> bool
    decreases a.len(),
{
    if a.len() == 0 {
        true
    } else if b.len() == 0 {
        false
    } else if a[0] < b[0] {
        true
    } else if b[0] < a[0] {
        false
    } else {
        lex_le(a.drop_first(), b.drop_first())
    }
}

/// `lex_le` is total, and antisymmetric up to equality.
pub proof fn lemma_lex_le_props(a: Seq<char>, b: Seq<char>)
    ensures
        lex_le(a, b) || lex_le(b, a),
        (lex_le(a, b) && lex_le(b, a)) ==> a == b,
    decreases a.len(),
{
    if a.len() == 0 || b.len() == 0 {
        if a.len() == 0 && b.len() == 0 && lex_le(a, b) && lex_le(b, a) {
            assert(a =~= b);
        }
    } else {
        lemma_lex_le_props(a.drop_first(), b.drop_first());
        if lex_le(a, b) && lex_le(b, a) {
            assert(a[0] == b[0]);
            assert(a.drop_first() == b.drop_first());
            assert forall|i: int| 0 <= i < a.len() implies a[i] == b[i] by {
                if i > 0 {
                    assert(a.drop_first()[i - 1] == b.drop_first()[i - 1]);
                }
            };
            assert(a =~= b);
        }
    }
}

/// `lex_le` is transitive.
pub proof fn lemma_lex_le_trans(a: Seq<char>, b: Seq<char>, c: Seq<char>)
    requires
        lex_le(a, b),
        lex_le(b, c),
    ensures
        lex_le(a, c),
    decreases a.len(),
{
    if a.len() == 0 || b.len() == 0 || c.len() == 0 {
    } else {
        if a[0] == b[0] && b[0] == c[0] {
            lemma_lex_le_trans(a.drop_first(), b.drop_first(), c.drop_first());
        }
    }
}

/// A common prefix of length `i` decides the lexicographic comparison by
/// what follows it.
proof fn lemma_lex_cmp_prefix(a: Seq<char>, b: Seq<char>, i: int)
    requires
        0 <= i <= a.len(),
        i <= b.len(),
        forall|k: int| 0 <= k < i ==> a[k] == b[k],
    ensures
        (i < a.len() && i < b.len() && a[i] < b[i]) ==> (lex_le(a, b) && !lex_le(b, a)),
        (i < a.len() && i < b.len() && b[i] < a[i]) ==> (!lex_le(a, b) && lex_le(b, a)),
        (i == a.len() && i < b.len()) ==> (lex_le(a, b) && !lex_le(b, a)),
        (i == b.len() && i < a.len()) ==> (!lex_le(a, b) && lex_le(b, a)),
        (i == a.len() && i == b.len()) ==> a == b,
    decreases i,
{
    if i == 0 {
        if a.len() == 0 && b.len() == 0 {
            assert(a =~= b);
        }
    } else {
        assert(a[0] == b[0]);
        let a1 = a.drop_first();
        let b1 = b.drop_first();
        assert forall|k: int| 0 <= k < i - 1 implies a1[k] == b1[k] by {
            assert(a[k + 1] == b[k + 1]);
        };
        lemma_lex_cmp_prefix(a1, b1, i - 1);
        if i < a.len() && i < b.len() {
            assert(a1[i - 1] == a[i]);
            assert(b1[i - 1] == b[i]);
        }
        if i == a.len() && i == b.len() {
            assert(a1 == b1);
            assert(a =~= b);
        }
    }
}

/// Three-way lexicographic comparison of two strings.
fn lex_cmp(a: &str, b: &str) -> (c: i8)
    ensures
        c < 0 ==> lex_le(a@, b@) && !lex_le(b@, a@),
        c > 0 ==> !lex_le(a@, b@) && lex_le(b@, a@),
        c == 0 ==> a@ == b@,
{
    let va = str_chars(a);
    let vb = str_chars(b);
    let la = va.len();
    let lb = vb.len();
    let mut i: usize = 0;
    while i < la && i < lb
        invariant
            va@ == a@,
            vb@ == b@,
            la == va@.len(),
            lb == vb@.len(),
            i <= la,
            i <= lb,
            forall|k: int| 0 <= k < i ==> a@[k] == b@[k],
        decreases la - i,
    {
        let x = va[i];
        let y = vb[i];
        if x < y {
            proof {
                lemma_lex_cmp_prefix(a@, b@, i as int);
            }
            return -1;
        }
        if y < x {
            proof {
                lemma_lex_cmp_prefix(a@, b@, i as int);
            }
            return 1;
        }
        proof {
            assert(a@[i as int] == b@[i as int]);
        }
        i += 1;
    }
    proof {
        lemma_lex_cmp_prefix(a@, b@, i as int);
    }
    if la == lb {
        0
    } else if la < lb {
        -1
    } else {
        1
    }
}

/// How many days old a posting is, counted from when it was first seen.
pub open spec fn age_of(j: JobView, now: int) -> int {
    now - j.first_seen
}

/// A posting's net value: its score less its age in days.
pub open spec fn net_value(j: JobView, now: int) -> int {
    score_spec(j) - age_of(j, now)
}

/// The presentation order: ascending by desirability, seen-today,
/// seen-this-week, net value, then company and title. The most preferred
/// posting is last.
pub open spec fn rank_le(a: JobView, b: JobView, now: int) -> bool {
    let da = score_spec(a) > 0;
    let db = score_spec(b) > 0;
    let za = age_of(a, now) == 0;
    let zb = age_of(b, now) == 0;
    let wa = age_of(a, now) < 7;
    let wb = age_of(b, now) < 7;
    if da != db {
        db
    } else if za != zb {
        zb
    } else if wa != wb {
        wb
    } else if net_value(a, now) != net_value(b, now) {
        net_value(a, now) < net_value(b, now)
    } else if a.company != b.company {
        lex_le(a.company, b.company)
    } else {
        lex_le(a.title, b.title)
    }
}

/// The presentation order is total.
pub proof fn lemma_rank_le_total(a: JobView, b: JobView, now: int)
    ensures
        rank_le(a, b, now) || rank_le(b, a, now),
{
    lemma_lex_le_props(a.company, b.company);
    lemma_lex_le_props(a.title, b.title);
}

/// The presentation order is transitive.
pub proof fn lemma_rank_le_trans(a: JobView, b: JobView, c: JobView, now: int)
    requires
        rank_le(a, b, now),
        rank_le(b, c, now),
    ensures
        rank_le(a, c, now),
{
    lemma_lex_le_props(a.company, b.company);
    lemma_lex_le_props(b.company, c.company);
    lemma_lex_le_props(a.company, c.company);
    lemma_lex_le_props(a.title, b.title);
    lemma_lex_le_props(b.title, c.title);
    lemma_lex_le_props(a.title, c.title);
    if lex_le(a.company, b.company) && lex_le(b.company, c.company) {
        lemma_lex_le_trans(a.company, b.company, c.company);
    }
    if lex_le(a.title, b.title) && lex_le(b.title, c.title) {
        lemma_lex_le_trans(a.title, b.title, c.title);
    }
}

/// Two postings with equal score, equal age, and equal company are ordered
/// by title, ascending.
pub proof fn lemma_rank_title_tiebreak(a: JobView, b: JobView, now: int)
    requires
        score_spec(a) == score_spec(b),
        a.first_seen == b.first_seen,
        a.company == b.company,
    ensures
        rank_le(a, b, now) == lex_le(a.title, b.title),
{
}

/// Whether the postings stand in presentation order.
pub open spec fn sorted_rank(s: Seq<JobView>, now: int) -> bool {
    forall|i: int, j: int| 0 <= i < j < s.len() ==> rank_le(s[i], s[j], now)
}

/// The index of the first posting that stands in presentation order before
/// or alongside every other posting of `s`.
pub open spec fn first_min_index(s: Seq<JobView>, now: int) -> int
    decreases s.len(),
{
    if s.len() <= 1 {
        0
    } else {
        let m = first_min_index(s.drop_first(), now) + 1;
        if rank_le(s[0], s[m], now) {
            0
        } else {
            m
        }
    }
}

proof fn lemma_first_min_index_bounds(s: Seq<JobView>, now: int)
    requires
        s.len() > 0,
    ensures
        0 <= first_min_index(s, now) < s.len(),
    decreases s.len(),
{
    if s.len() > 1 {
        lemma_first_min_index_bounds(s.drop_first(), now);
    }
}

/// The postings of `s` in presentation order: the earliest least posting is
/// drawn out first, so the order is fully determined by the input.
pub open spec fn rank_sorted(s: Seq<JobView>, now: int) -> Seq<JobView>
    decreases s.len(),
    via rank_sorted_decreases
{
    if s.len() == 0 {
        s
    } else {
        let m = first_min_index(s, now);
        seq![s[m]] + rank_sorted(s.remove(m), now)
    }
}

#[via_fn]
proof fn rank_sorted_decreases(s: Seq<JobView>, now: int) {
    if s.len() != 0 {
        lemma_first_min_index_bounds(s, now);
    }
}

proof fn lemma_first_min_props(s: Seq<JobView>, now: int)
    requires
        s.len() > 0,
    ensures
        0 <= first_min_index(s, now) < s.len(),
        forall|k: int| 0 <= k < s.len() ==> rank_le(s[first_min_index(s, now)], #[trigger] s[k], now),
        forall|k: int| 0 <= k < first_min_index(s, now) ==> !rank_le(#[trigger] s[k], s[first_min_index(s, now)], now),
    decreases s.len(),
{
    if s.len() == 1 {
        lemma_rank_le_total(s[0], s[0], now);
    } else {
        let rest = s.drop_first();
        lemma_first_min_props(rest, now);
        let mr = first_min_index(rest, now);
        let fmi = first_min_index(s, now);
        assert(rest[mr] == s[mr + 1]);
        if rank_le(s[0], s[mr + 1], now) {
            assert(fmi == 0);
            lemma_rank_le_total(s[0], s[0], now);
            assert forall|k: int| 0 <= k < s.len() implies rank_le(s[fmi], #[trigger] s[k], now) by {
                if k > 0 {
                    assert(rank_le(rest[mr], rest[k - 1], now));
                    assert(rest[k - 1] == s[k]);
                    lemma_rank_le_trans(s[0], s[mr + 1], s[k], now);
                }
            };
        } else {
            assert(fmi == mr + 1);
            lemma_rank_le_total(s[0], s[mr + 1], now);
            assert forall|k: int| 0 <= k < s.len() implies rank_le(s[fmi], #[trigger] s[k], now) by {
                if k > 0 {
                    assert(rank_le(rest[mr], rest[k - 1], now));
                    assert(rest[k - 1] == s[k]);
                }
            };
            assert forall|k: int| 0 <= k < fmi implies !rank_le(#[trigger] s[k], s[fmi], now) by {
                if k > 0 {
                    assert(!rank_le(rest[k - 1], rest[mr], now));
                    assert(rest[k - 1] == s[k]);
                }
            };
        }
    }
}

/// Whether a posting is currently listed: it has not gone missing.
pub open spec fn visible(j: JobView) -> bool {
    j.missing_since is None
}

fn rank_le_exec(a: &Job, b: &Job, now: i64) -> (r: bool)
    requires
        day_in_range(now as int),
        job_days_ok(a@),
        job_days_ok(b@),
    ensures
        r == rank_le(a@, b@, now as int),
{
    let sa = a.score();
    let sb = b.score();
    let da = sa > 0;
    let db = sb > 0;
    if da != db {
        return db;
    }
    let age_a = now - a.first_seen;
    let age_b = now - b.first_seen;
    if (age_a == 0) != (age_b == 0) {
        return age_b == 0;
    }
    if (age_a < 7) != (age_b < 7) {
        return age_b < 7;
    }
    let na = sa as i64 - age_a;
    let nb = sb as i64 - age_b;
    if na != nb {
        return na < nb;
    }
    let cc = lex_cmp(a.company.as_str(), b.company.as_str());
    if cc < 0 {
        return true;
    }
    if cc > 0 {
        proof {
            lemma_lex_le_props(a@.company, b@.company);
        }
        return false;
    }
    let tc = lex_cmp(a.title.as_str(), b.title.as_str());
    proof {
        if tc == 0 {
            lemma_lex_le_props(a@.title, b@.title);
        }
    }
    tc <= 0
}

/// The index of the first posting that every other posting of `v` follows
/// in presentation order.
fn min_index(v: &Vec<Job>, now: i64) -> (mi: usize)
    requires
        day_in_range(now as int),
        days_ok(views(v@)),
        v@.len() > 0,
    ensures
        mi < v@.len(),
        forall|k: int| 0 <= k < v@.len() ==> rank_le(views(v@)[mi as int], #[trigger] views(v@)[k], now as int),
        forall|k: int| 0 <= k < mi ==> !rank_le(#[trigger] views(v@)[k], views(v@)[mi as int], now as int),
{
    let mut mi: usize = 0;
    let mut j: usize = 1;
    proof {
        lemma_rank_le_total(views(v@)[0], views(v@)[0], now as int);
    }
    while j < v.len()
        invariant
            day_in_range(now as int),
            days_ok(views(v@)),
            mi < j <= v@.len(),
            forall|k: int|
                0 <= k < j ==> rank_le(views(v@)[mi as int], #[trigger] views(v@)[k], now as int),
            forall|k: int|
                0 <= k < mi ==> !rank_le(#[trigger] views(v@)[k], views(v@)[mi as int], now as int),
        decreases v@.len() - j,
    {
        let ghost old_mi = mi as int;
        if !rank_le_exec(&v[mi], &v[j], now) {
            proof {
                lemma_rank_le_total(views(v@)[mi as int], views(v@)[j as int], now as int);
            }
            mi = j;
            proof {
                assert forall|k: int|
                    0 <= k < j + 1 implies rank_le(
                    views(v@)[mi as int],
                    #[trigger] views(v@)[k],
                    now as int,
                ) by {
                    if k < j {
                        lemma_rank_le_trans(
                            views(v@)[mi as int],
                            views(v@)[old_mi],
                            views(v@)[k],
                            now as int,
                        );
                    } else {
                        lemma_rank_le_total(views(v@)[mi as int], views(v@)[mi as int], now as int);
                    }
                };
                assert forall|k: int|
                    0 <= k < j implies !rank_le(
                    #[trigger] views(v@)[k],
                    views(v@)[mi as int],
                    now as int,
                ) by {
                    if rank_le(views(v@)[k], views(v@)[mi as int], now as int) {
                        lemma_rank_le_trans(
                            views(v@)[old_mi],
                            views(v@)[k],
                            views(v@)[mi as int],
                            now as int,
                        );
                        assert(false);
                    }
                };
            }
        } else {
            proof {
                assert forall|k: int|
                    0 <= k < j + 1 implies rank_le(
                    views(v@)[mi as int],
                    #[trigger] views(v@)[k],
                    now as int,
                ) by {};
            }
        }
        j += 1;
    }
    mi
}

/// Sorts postings into presentation order; the result holds exactly the
/// given postings.
fn sort_jobs(jobs: Vec<Job>, now: i64) -> (r: Vec<Job>)
    requires
        day_in_range(now as int),
        days_ok(views(jobs@)),
    ensures
        views(r@) == rank_sorted(views(jobs@), now as int),
        views(r@).to_multiset() == views(jobs@).to_multiset(),
        sorted_rank(views(r@), now as int),
        days_ok(views(r@)),
{
    let mut input = jobs;
    let mut out: Vec<Job> = Vec::new();
    let ghost orig = views(input@).to_multiset();
    let ghost target = rank_sorted(views(input@), now as int);
    proof {
        assert(views(out@) =~= Seq::<JobView>::empty());
        assert(views(out@).to_multiset().add(views(input@).to_multiset()) =~= orig);
        assert(views(out@) + rank_sorted(views(input@), now as int) =~= target);
    }
    while input.len() > 0
        invariant
            day_in_range(now as int),
            days_ok(views(input@)),
            days_ok(views(out@)),
            views(out@).to_multiset().add(views(input@).to_multiset()) == orig,
            views(out@) + rank_sorted(views(input@), now as int) == target,
            sorted_rank(views(out@), now as int),
            forall|oi: int, ii: int|
                0 <= oi < views(out@).len() && 0 <= ii < views(input@).len() ==> rank_le(
                    #[trigger] views(out@)[oi],
                    #[trigger] views(input@)[ii],
                    now as int,
                ),
        decreases input@.len(),
    {
        let mi = min_index(&input, now);
        let ghost in_before = views(input@);
        let ghost out_before = views(out@);
        proof {
            assert(views(input@.remove(mi as int)) =~= in_before.remove(mi as int));
            lemma_first_min_props(in_before, now as int);
            let fm = first_min_index(in_before, now as int);
            if (mi as int) < fm {
                assert(!rank_le(in_before[mi as int], in_before[fm], now as int));
                assert(rank_le(in_before[mi as int], in_before[fm], now as int));
                assert(false);
            }
            if fm < mi as int {
                assert(!rank_le(in_before[fm], in_before[mi as int], now as int));
                assert(rank_le(in_before[fm], in_before[mi as int], now as int));
                assert(false);
            }
            assert(mi as int == fm);
            assert(rank_sorted(in_before, now as int) == seq![in_before[fm]] + rank_sorted(
                in_before.remove(fm),
                now as int,
            ));
        }
        let x = input.remove(mi);
        proof {
            assert(views(input@) == in_before.remove(mi as int));
            assert(x@ == in_before[mi as int]);
            assert(views(out@.push(x)) =~= out_before.push(x@));
        }
        out.push(x);
        proof {
            assert(views(out@) == out_before.push(x@));
            assert(in_before.contains(in_before[mi as int]));
            assert(views(out@).to_multiset() =~= out_before.to_multiset().insert(x@));
            assert(views(input@).to_multiset() =~= in_before.to_multiset().remove(x@));
            assert(views(out@).to_multiset().add(views(input@).to_multiset()) =~= orig);
            assert(views(out@) + rank_sorted(views(input@), now as int) =~= out_before + (seq![x@]
                + rank_sorted(in_before.remove(mi as int), now as int)));
            assert(views(out@) + rank_sorted(views(input@), now as int) == target);
            assert forall|i: int, j: int|
                0 <= i < j < views(out@).len() implies rank_le(
                views(out@)[i],
                views(out@)[j],
                now as int,
            ) by {
                if j == views(out@).len() - 1 {
                    assert(rank_le(out_before[i], in_before[mi as int], now as int));
                }
            };
            assert forall|oi: int, ii: int|
                0 <= oi < views(out@).len() && 0 <= ii < views(input@).len() implies rank_le(
                views(out@)[oi],
                views(input@)[ii],
                now as int,
            ) by {
                let w = if ii < mi { ii } else { ii + 1 };
                assert(views(input@)[ii] == in_before[w]);
                if oi < views(out@).len() - 1 {
                    assert(rank_le(out_before[oi], in_before[w], now as int));
                } else {
                    assert(rank_le(in_before[mi as int], in_before[w], now as int));
                }
            };
            assert forall|m: int|
                0 <= m < views(out@).len() implies job_days_ok(#[trigger] views(out@)[m]) by {
                if m < views(out@).len() - 1 {
                    assert(views(out@)[m] == out_before[m]);
                } else {
                    assert(job_days_ok(in_before[mi as int]));
                }
            };
        }
    }
    proof {
        assert(views(out@) + rank_sorted(views(input@), now as int) =~= views(out@));
    }
    out
}

/// Every posting of the store, in presentation order.
pub fn ranked(store: &Store, now: i64) -> (r: Vec<Job>)
    requires
        store.wf(),
        day_in_range(now as int),
    ensures
        views(r@) == rank_sorted(store.entries(), now as int),
        views(r@).to_multiset() == store.entries().to_multiset(),
        sorted_rank(views(r@), now as int),
{
    let mut all: Vec<Job> = Vec::new();
    let n = store.jobs.len();
    let mut i: usize = 0;
    proof {
        assert(views(all@) =~= store.entries().take(0));
    }
    while i < n
        invariant
            n == store.jobs@.len(),
            i <= n,
            store.wf(),
            views(all@) == store.entries().take(i as int),
        decreases n - i,
    {
        proof {
            assert(views(all@.push(store.jobs@[i as int])) =~= views(all@).push(
                store.entries()[i as int],
            ));
            assert(store.entries().take(i + 1) =~= store.entries().take(i as int).push(
                store.entries()[i as int],
            ));
        }
        all.push(store.jobs[i].duplicate());
        i += 1;
    }
    proof {
        assert(store.entries().take(n as int) =~= store.entries());
    }
    sort_jobs(all, now)
}

/// The currently listed postings of the store — those not gone missing —
/// in presentation order.
pub fn list(store: &Store, now: i64) -> (r: Vec<Job>)
    requires
        store.wf(),
        day_in_range(now as int),
    ensures
        views(r@) == rank_sorted(store.entries().filter(|j: JobView| visible(j)), now as int),
        views(r@).to_multiset() == store.entries().filter(|j: JobView| visible(j)).to_multiset(),
        sorted_rank(views(r@), now as int),
{
    let mut vis: Vec<Job> = Vec::new();
    let n = store.jobs.len();
    let mut i: usize = 0;
    proof {
        reveal(Seq::<_>::filter);
        assert(store.entries().take(0).len() == 0);
        assert(views(vis@) =~= store.entries().take(0).filter(|j: JobView| visible(j)));
    }
    while i < n
        invariant
            n == store.jobs@.len(),
            i <= n,
            store.wf(),
            days_ok(views(vis@)),
            views(vis@) == store.entries().take(i as int).filter(|j: JobView| visible(j)),
        decreases n - i,
    {
        let ghost e = store.entries()[i as int];
        let ghost t1 = store.entries().take(i + 1);
        proof {
            assert(t1.drop_last() =~= store.entries().take(i as int));
            assert(t1.last() == e);
            assert(job_days_ok(e));
        }
        let job = &store.jobs[i];
        match job.missing_since {
            None => {
                let ghost before = views(vis@);
                proof {
                    assert(visible(e));
                    assert(views(vis@.push(store.jobs@[i as int])) =~= before.push(e));
                }
                vis.push(job.duplicate());
                proof {
                    reveal(Seq::<_>::filter);
                    assert(views(vis@) == before.push(e));
                    assert(t1.filter(|j: JobView| visible(j)) == store.entries().take(
                        i as int,
                    ).filter(|j: JobView| visible(j)).push(e));
                    assert forall|m: int|
                        0 <= m < views(vis@).len() implies job_days_ok(
                        #[trigger] views(vis@)[m],
                    ) by {
                        if m < views(vis@).len() - 1 {
                            assert(views(vis@)[m] == before[m]);
                        }
                    };
                }
            },
            Some(_) => {
                proof {
                    reveal(Seq::<_>::filter);
                    assert(!visible(e));
                    assert(t1.filter(|j: JobView| visible(j)) == store.entries().take(
                        i as int,
                    ).filter(|j: JobView| visible(j)));
                }
            },
        }
        i += 1;
    }
    proof {
        assert(store.entries().take(n as int) =~= store.entries());
    }
    sort_jobs(vis, now)
}

} // verus!
