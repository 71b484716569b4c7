//! Utilities related to [task progress](Occ::task_completion_progress):
//! excess progress of one occurrence donated to its neighbours.
use vstd::prelude::*;
use crate::db::StoredOcc;
use crate::types::{Config, Occ, OccDate};

verus! {

/// Progress details for a task, including donation information (see
/// [`excess_past`](crate::types::TaskCompletionConfig::excess_past),
/// [`excess_future`](crate::types::TaskCompletionConfig::excess_future)).
#[derive(Clone, Copy, Debug, PartialEq, Eq, Hash, Structural)]
pub struct TaskProgress {
    /// Progress registered directly with this occurrence, before transferring
    /// progress between occurrences.  This may be greater than `total`.
    pub progress: u32,
    /// Target occurrence completion amount.
    pub total: u32,
    /// Amount of `progress` donated to other occurrences.
    pub donated_excess: u32,
    /// Amount of progress received from other occurrences.
    pub received_excess: u64,
}

impl TaskProgress {
    /// No progress towards a target of 1.
    pub fn new() -> (r: TaskProgress)
        ensures
            r == (TaskProgress { progress: 0, total: 1, donated_excess: 0, received_excess: 0 }),
    {
        TaskProgress { progress: 0, total: 1, donated_excess: 0, received_excess: 0 }
    }
}

/// A possible donation: `(distance, recipient start, donor start, recipient,
/// donor)`, recipient and donor as indices of the occurrences.  Donations are
/// made in the (lexicographic) order of these tuples.
pub type Donation = (u64, i64, i64, usize, usize);

/// Target amount of an occurrence: the configured total, at least 1.
pub open spec fn total_of(cfg: Config) -> int {
    match cfg.task_completion_conf.total {
        Some(t) => if t >= 1 {
            t as int
        } else {
            1
        },
        None => 1,
    }
}

/// Progress beyond the target, available to donate.
pub open spec fn excess_of(occ: Occ, cfg: Config) -> int {
    if occ.task_completion_progress > total_of(cfg) {
        occ.task_completion_progress - total_of(cfg)
    } else {
        0
    }
}

pub open spec fn past_window(cfg: Config) -> int {
    match cfg.task_completion_conf.excess_past {
        Some(d) => d as int,
        None => 0,
    }
}

pub open spec fn future_window(cfg: Config) -> int {
    match cfg.task_completion_conf.excess_future {
        Some(d) => d as int,
        None => 0,
    }
}

/// Whether `donor` lies in the past part of the recipient's donation window.
pub open spec fn past_donor(recv: Occ, cfg: Config, donor: Occ) -> bool {
    donor.end <= recv.start && donor.end > recv.start - past_window(cfg)
}

/// Whether `donor` lies in the future part of the recipient's donation window.
pub open spec fn future_donor(recv: Occ, cfg: Config, donor: Occ) -> bool {
    donor.start >= recv.end && donor.start < recv.end + future_window(cfg)
}

/// The donation from occurrence `j` to occurrence `i`, where `j` lies in
/// `i`'s window.
pub open spec fn candidate(occs: Seq<(Occ, Config)>, i: int, j: int) -> Option<Donation> {
    let (recv, cfg) = occs[i];
    let donor = occs[j].0;
    if i == j {
        None
    } else if past_donor(recv, cfg, donor) {
        Some(((recv.start - donor.end) as u64, recv.start, donor.start, i as usize, j as usize))
    } else if future_donor(recv, cfg, donor) {
        Some(((donor.start - recv.end) as u64, recv.start, donor.start, i as usize, j as usize))
    } else {
        None
    }
}

/// The candidate donations to recipients `0..i`, from donors `0..j` for
/// recipient `i`, in that order.
pub open spec fn candidates_upto(occs: Seq<(Occ, Config)>, i: int, j: int) -> Seq<Donation>
    decreases i, j,
{
    if i <= 0 && j <= 0 {
        seq![]
    } else if j <= 0 {
        candidates_upto(occs, i - 1, occs.len() as int)
    } else {
        let rest = candidates_upto(occs, i, j - 1);
        match candidate(occs, i, j - 1) {
            Some(d) => rest.push(d),
            None => rest,
        }
    }
}

/// All candidate donations, recipient by recipient.
pub open spec fn candidates(occs: Seq<(Occ, Config)>) -> Seq<Donation> {
    candidates_upto(occs, occs.len() as int, 0)
}

pub open spec fn lex_le(a: Donation, b: Donation) -> bool {
    if a.0 != b.0 {
        a.0 < b.0
    } else if a.1 != b.1 {
        a.1 < b.1
    } else if a.2 != b.2 {
        a.2 < b.2
    } else if a.3 != b.3 {
        a.3 < b.3
    } else {
        a.4 <= b.4
    }
}

pub open spec fn sorted(s: Seq<Donation>) -> bool {
    forall|a: int, b: int| 0 <= a < b < s.len() ==> lex_le(s[a], s[b])
}

/// Per occurrence: `(received, donated, excess left)`.
pub type Ledger = Seq<(int, int, int)>;

pub open spec fn initial_ledger(occs: Seq<(Occ, Config)>) -> Ledger {
    Seq::new(occs.len(), |i: int| (0, 0, excess_of(occs[i].0, occs[i].1)))
}

/// How much donation `d` transfers, given the ledger so far.
pub open spec fn transfer_amount(occs: Seq<(Occ, Config)>, l: Ledger, d: Donation) -> int {
    let (i, j) = (d.3 as int, d.4 as int);
    let need = total_of(occs[i].1) + l[i].0 - occs[i].0.task_completion_progress;
    let excess = l[j].2;
    if need > 0 && excess > 0 {
        if need < excess {
            need
        } else {
            excess
        }
    } else {
        0
    }
}

/// The ledger after donation `d`.
pub open spec fn donate(occs: Seq<(Occ, Config)>, l: Ledger, d: Donation) -> Ledger {
    let (i, j) = (d.3 as int, d.4 as int);
    let t = transfer_amount(occs, l, d);
    let l1 = l.update(i, (l[i].0 + t, l[i].1, l[i].2));
    l1.update(j, (l1[j].0, l1[j].1 + t, l1[j].2 - t))
}

/// The ledger after the donations `ds`, in order.
pub open spec fn donate_all(occs: Seq<(Occ, Config)>, ds: Seq<Donation>) -> Ledger
    decreases ds.len(),
{
    if ds.len() == 0 {
        initial_ledger(occs)
    } else {
        donate(occs, donate_all(occs, ds.drop_last()), ds.last())
    }
}

/// The progress details of every occurrence, given the final ledger.
pub open spec fn progress_of(occs: Seq<(Occ, Config)>, l: Ledger, i: int) -> TaskProgress {
    TaskProgress {
        progress: occs[i].0.task_completion_progress,
        total: total_of(occs[i].1) as u32,
        donated_excess: l[i].1 as u32,
        received_excess: l[i].0 as u64,
    }
}

pub open spec fn sum(s: Seq<int>) -> int
    decreases s.len(),
{
    if s.len() == 0 {
        0
    } else {
        sum(s.drop_last()) + s.last()
    }
}

pub open spec fn received_seq(l: Ledger) -> Seq<int> {
    l.map_values(|e: (int, int, int)| e.0)
}

pub open spec fn donated_seq(l: Ledger) -> Seq<int> {
    l.map_values(|e: (int, int, int)| e.1)
}

/// Whether a ledger balances: each occurrence's donations and leftover excess
/// make up its initial excess, and all that was donated was received.
pub open spec fn balanced(occs: Seq<(Occ, Config)>, l: Ledger) -> bool {
    &&& l.len() == occs.len()
    &&& forall|i: int|
        0 <= i < l.len() ==> (#[trigger] l[i]).1 + l[i].2 == excess_of(occs[i].0, occs[i].1)
    &&& forall|i: int| 0 <= i < l.len() ==> 0 <= (#[trigger] l[i]).0 && 0 <= l[i].1 && 0 <= l[i].2
    &&& sum(received_seq(l)) == sum(donated_seq(l))
}

proof fn lemma_sum_update(s: Seq<int>, i: int, v: int)
    requires
        0 <= i < s.len(),
    ensures
        sum(s.update(i, v)) == sum(s) - s[i] + v,
    decreases s.len(),
{
    if i < s.len() - 1 {
        lemma_sum_update(s.drop_last(), i, v);
        assert(s.update(i, v).drop_last() =~= s.drop_last().update(i, v));
    } else {
        assert(s.update(i, v).drop_last() =~= s.drop_last());
    }
}

proof fn lemma_sum_bounds(s: Seq<int>, i: int, bound: int)
    requires
        0 <= i < s.len(),
        forall|k: int| 0 <= k < s.len() ==> 0 <= #[trigger] s[k] <= bound,
    ensures
        s[i] <= sum(s),
        0 <= sum(s) <= s.len() * bound,
    decreases s.len(),
{
    let t = s.drop_last();
    if s.len() == 1 {
        assert(sum(t) == 0);
    } else {
        assert forall|k: int| 0 <= k < t.len() implies 0 <= #[trigger] t[k] <= bound by {
            assert(t[k] == s[k]);
        }
        if i < s.len() - 1 {
            lemma_sum_bounds(t, i, bound);
        } else {
            lemma_sum_bounds(t, 0, bound);
        }
        assert(s[s.len() - 1] <= bound);
        assert((s.len() - 1) * bound + bound == s.len() * bound) by (nonlinear_arith);
    }
}

proof fn lemma_ledger_views(l: Ledger, i: int, e: (int, int, int))
    requires
        0 <= i < l.len(),
    ensures
        received_seq(l.update(i, e)) == received_seq(l).update(i, e.0),
        donated_seq(l.update(i, e)) == donated_seq(l).update(i, e.1),
{
    assert(received_seq(l.update(i, e)) =~= received_seq(l).update(i, e.0));
    assert(donated_seq(l.update(i, e)) =~= donated_seq(l).update(i, e.1));
}

/// A donation between two different occurrences keeps a ledger balanced.
proof fn lemma_donate_balanced(occs: Seq<(Occ, Config)>, l: Ledger, d: Donation)
    requires
        balanced(occs, l),
        d.3 < occs.len(),
        d.4 < occs.len(),
        d.3 != d.4,
    ensures
        balanced(occs, donate(occs, l, d)),
{
    let (i, j) = (d.3 as int, d.4 as int);
    let t = transfer_amount(occs, l, d);
    let l1 = l.update(i, (l[i].0 + t, l[i].1, l[i].2));
    let l2 = l1.update(j, (l1[j].0, l1[j].1 + t, l1[j].2 - t));
    lemma_ledger_views(l, i, (l[i].0 + t, l[i].1, l[i].2));
    lemma_ledger_views(l1, j, (l1[j].0, l1[j].1 + t, l1[j].2 - t));
    assert(received_seq(l)[i] == l[i].0);
    assert(donated_seq(l)[i] == l[i].1);
    assert(received_seq(l1)[j] == l1[j].0);
    assert(donated_seq(l1)[j] == l1[j].1);
    lemma_sum_update(received_seq(l), i, l[i].0 + t);
    lemma_sum_update(donated_seq(l), i, l[i].1);
    lemma_sum_update(received_seq(l1), j, l1[j].0);
    lemma_sum_update(donated_seq(l1), j, l1[j].1 + t);
    assert(donated_seq(l).update(i, l[i].1) =~= donated_seq(l));
    assert(received_seq(l1).update(j, l1[j].0) =~= received_seq(l1));
    assert(0 <= t);
    assert(l[j].2 > 0 ==> t <= l[j].2);
    assert forall|k: int| 0 <= k < l2.len() implies (#[trigger] l2[k]).1 + l2[k].2 == excess_of(
        occs[k].0,
        occs[k].1,
    ) && 0 <= l2[k].0 && 0 <= l2[k].1 && 0 <= l2[k].2 by {
        assert(l[k].1 + l[k].2 == excess_of(occs[k].0, occs[k].1));
        assert(0 <= l[k].0 && 0 <= l[k].1 && 0 <= l[k].2);
    }
    assert(l2 == donate(occs, l, d));
}

/// Every candidate donation is between two different occurrences, in range.
proof fn lemma_candidates_valid(occs: Seq<(Occ, Config)>, i: int, j: int)
    requires
        0 <= i <= occs.len(),
        0 <= j <= occs.len(),
        i == occs.len() ==> j == 0,
        occs.len() <= usize::MAX,
    ensures
        forall|k: int|
            0 <= k < candidates_upto(occs, i, j).len() ==> {
                let d = #[trigger] candidates_upto(occs, i, j)[k];
                d.3 < occs.len() && d.4 < occs.len() && d.3 != d.4
            },
    decreases i, j,
{
    if i <= 0 && j <= 0 {
        assert(candidates_upto(occs, i, j).len() == 0);
    } else if j <= 0 {
        lemma_candidates_valid(occs, i - 1, occs.len() as int);
        assert(candidates_upto(occs, i, j) == candidates_upto(occs, i - 1, occs.len() as int));
    } else {
        lemma_candidates_valid(occs, i, j - 1);
        let rest = candidates_upto(occs, i, j - 1);
        match candidate(occs, i, j - 1) {
            Some(d) => {
                assert(d.3 == i && d.4 == j - 1);
                assert(candidates_upto(occs, i, j) == rest.push(d));
                assert forall|k: int| 0 <= k < rest.push(d).len() implies {
                    let e = #[trigger] rest.push(d)[k];
                    e.3 < occs.len() && e.4 < occs.len() && e.3 != e.4
                } by {
                    if k < rest.len() {
                        assert(rest.push(d)[k] == rest[k]);
                    }
                }
            },
            None => {
                assert(candidates_upto(occs, i, j) == rest);
            },
        }
    }
}

/// Donating along any sequence of candidate donations keeps the ledger
/// balanced.
proof fn lemma_donate_all_balanced(occs: Seq<(Occ, Config)>, ds: Seq<Donation>)
    requires
        forall|k: int|
            0 <= k < ds.len() ==> (#[trigger] ds[k]).3 < occs.len() && ds[k].4 < occs.len()
                && ds[k].3 != ds[k].4,
    ensures
        balanced(occs, donate_all(occs, ds)),
    decreases ds.len(),
{
    if ds.len() == 0 {
        let l = initial_ledger(occs);
        assert(received_seq(l) =~= Seq::new(occs.len(), |i: int| 0int));
        assert(donated_seq(l) =~= Seq::new(occs.len(), |i: int| 0int));
        lemma_sum_zero(occs.len() as int);
    } else {
        lemma_donate_all_balanced(occs, ds.drop_last());
        lemma_donate_balanced(occs, donate_all(occs, ds.drop_last()), ds.last());
    }
}

proof fn lemma_sum_zero(n: int)
    requires
        n >= 0,
    ensures
        sum(Seq::new(n as nat, |i: int| 0int)) == 0,
    decreases n,
{
    if n > 0 {
        assert(Seq::new(n as nat, |i: int| 0int).drop_last() =~= Seq::new((n - 1) as nat, |i: int| 0int));
        lemma_sum_zero(n - 1);
    }
}

/// Raw progress is conserved across an item: whatever set of candidate
/// donations is made, in whatever order, every donor's donations and leftover
/// excess make up its initial excess, and the occurrences together receive
/// exactly what they donate, so the sum of `progress - donated + received`
/// equals the sum of raw progress.
pub proof fn lemma_donation_conserves_progress(occs: Seq<(Occ, Config)>, ds: Seq<Donation>)
    requires
        occs.len() <= usize::MAX,
        ds.to_multiset() == candidates(occs).to_multiset(),
    ensures
        balanced(occs, donate_all(occs, ds)),
        sum(received_seq(donate_all(occs, ds))) == sum(donated_seq(donate_all(occs, ds))),
{
    lemma_candidates_valid(occs, occs.len() as int, 0);
    assert forall|k: int| 0 <= k < ds.len() implies (#[trigger] ds[k]).3 < occs.len() && ds[k].4
        < occs.len() && ds[k].3 != ds[k].4 by {
        ds.to_multiset_ensures();
        candidates(occs).to_multiset_ensures();
        assert(ds.contains(ds[k]));
        assert(ds.to_multiset().count(ds[k]) > 0);
        assert(candidates(occs).to_multiset().count(ds[k]) > 0);
        assert(candidates(occs).contains(ds[k]));
    }
    lemma_donate_all_balanced(occs, ds);
}

/// With no donation window at all there is no candidate donation, so no
/// occurrence receives anything.
pub proof fn lemma_no_window_no_donation(occs: Seq<(Occ, Config)>, ds: Seq<Donation>)
    requires
        forall|i: int|
            0 <= i < occs.len() ==> past_window(#[trigger] occs[i].1) == 0 && future_window(
                occs[i].1,
            ) == 0,
        ds.to_multiset() == candidates(occs).to_multiset(),
    ensures
        candidates(occs).len() == 0,
        ds.len() == 0,
        forall|i: int| 0 <= i < occs.len() ==> #[trigger] donate_all(occs, ds)[i].0 == 0,
{
    lemma_no_window_upto(occs, occs.len() as int, 0);
    ds.to_multiset_ensures();
    candidates(occs).to_multiset_ensures();
    assert(ds.len() == 0);
    assert(ds =~= Seq::<Donation>::empty());
}

proof fn lemma_no_window_upto(occs: Seq<(Occ, Config)>, i: int, j: int)
    requires
        forall|k: int|
            0 <= k < occs.len() ==> past_window(#[trigger] occs[k].1) == 0 && future_window(
                occs[k].1,
            ) == 0,
        0 <= i <= occs.len(),
        0 <= j <= occs.len(),
        i == occs.len() ==> j == 0,
    ensures
        candidates_upto(occs, i, j).len() == 0,
    decreases i, j,
{
    if i <= 0 && j <= 0 {
    } else if j <= 0 {
        lemma_no_window_upto(occs, i - 1, occs.len() as int);
    } else {
        lemma_no_window_upto(occs, i, j - 1);
        assert(candidate(occs, i, j - 1) is None);
    }
}

fn total_for(cfg: &Config) -> (r: u32)
    ensures
        r == total_of(*cfg),
        r >= 1,
{
    match cfg.task_completion_conf.total {
        Some(t) => if t >= 1 {
            t
        } else {
            1
        },
        None => 1,
    }
}

fn window(d: Option<u64>) -> (r: u64)
    ensures
        r == match d {
            Some(v) => v,
            None => 0,
        },
{
    match d {
        Some(v) => v,
        None => 0,
    }
}

/// The donation from occurrence `j` to occurrence `i`, if `j` lies in `i`'s
/// window.
fn candidate_of(occs: &Vec<(Occ, Config)>, i: usize, j: usize) -> (r: Option<Donation>)
    requires
        i < occs@.len(),
        j < occs@.len(),
    ensures
        r == candidate(occs@, i as int, j as int),
{
    if i == j {
        return None;
    }
    let recv = &occs[i].0;
    let cfg = &occs[i].1;
    let donor = &occs[j].0;
    let past = window(cfg.task_completion_conf.excess_past);
    let future = window(cfg.task_completion_conf.excess_future);
    if donor.end <= recv.start && (donor.end as i128) > (recv.start as i128) - (past as i128) {
        Some((((recv.start as i128) - (donor.end as i128)) as u64, recv.start, donor.start, i, j))
    } else if donor.start >= recv.end && (donor.start as i128) < (recv.end as i128) + (
    future as i128) {
        Some((((donor.start as i128) - (recv.end as i128)) as u64, recv.start, donor.start, i, j))
    } else {
        None
    }
}

/// All candidate donations, recipient by recipient.
fn candidate_donations(occs: &Vec<(Occ, Config)>) -> (r: Vec<Donation>)
    ensures
        r@ == candidates(occs@),
{
    let n = occs.len();
    let mut r: Vec<Donation> = Vec::new();
    let mut i: usize = 0;
    while i < n
        invariant
            n == occs@.len(),
            i <= n,
            r@ == candidates_upto(occs@, i as int, 0),
        decreases n - i,
    {
        let mut j: usize = 0;
        while j < n
            invariant
                n == occs@.len(),
                i < n,
                j <= n,
                r@ == candidates_upto(occs@, i as int, j as int),
            decreases n - j,
        {
            if let Some(d) = candidate_of(occs, i, j) {
                r.push(d);
            }
            j += 1;
        }
        assert(candidates_upto(occs@, i as int + 1, 0) == candidates_upto(occs@, i as int, n as int));
        i += 1;
    }
    r
}

/// Relies on `slice::sort_unstable`: the same tuples, in ascending
/// lexicographic order (the order of tuples of integers).
#[verifier::external_body]
fn sort_donations(v: &mut Vec<Donation>)
    ensures
        final(v)@.to_multiset() == old(v)@.to_multiset(),
        sorted(final(v)@),
{
    v.sort_unstable();
}

/// How much a transfer from `excess` gives to `recv`: what it still needs
/// (its total plus what it received so far, less its own progress), as far as
/// `excess` goes.
pub open spec fn transfer_of(recv: TaskProgress, excess: int) -> int {
    let need = recv.total + recv.received_excess - recv.progress;
    if need > 0 && excess > 0 {
        if need < excess {
            need
        } else {
            excess
        }
    } else {
        0
    }
}

/// Transfer progress to `recv`, given `excess` progress available to
/// transfer.
///
/// Returns the new value for `excess` (remaining progress available to
/// transfer).
pub fn transfer_progress(excess: u32, recv: &mut TaskProgress) -> (r: u32)
    requires
        old(recv).received_excess + transfer_of(*old(recv), excess as int) <= u64::MAX,
    ensures
        final(recv).received_excess == old(recv).received_excess + transfer_of(
            *old(recv),
            excess as int,
        ),
        final(recv).progress == old(recv).progress,
        final(recv).total == old(recv).total,
        final(recv).donated_excess == old(recv).donated_excess,
        r == excess - transfer_of(*old(recv), excess as int),
{
    let need: i128 = recv.total as i128 + recv.received_excess as i128 - recv.progress as i128;
    let transfer: u32 = if need > 0 && excess > 0 {
        if need < excess as i128 {
            need as u32
        } else {
            excess
        }
    } else {
        0
    };
    recv.received_excess = recv.received_excess + transfer as u64;
    excess - transfer
}

/// Whether every donation is between two different occurrences of `n`.
pub open spec fn valid_donations(n: int, ds: Seq<Donation>) -> bool {
    forall|k: int| 0 <= k < ds.len() ==> (#[trigger] ds[k]).3 < n && ds[k].4 < n && ds[k].3 != ds[k].4
}

/// Make the donations `ds`, in order, between the occurrences `occs` (each
/// with its resolved config).
///
/// Each donation gives the recipient what it still needs (its total plus what
/// it received so far, less its own progress), as far as the donor's
/// remaining excess goes.
pub fn apply_donations(occs: &Vec<(Occ, Config)>, ds: &Vec<Donation>) -> (r: Vec<TaskProgress>)
    requires
        occs@.len() <= u32::MAX,
        valid_donations(occs@.len() as int, ds@),
    ensures
        r@.len() == occs@.len(),
        forall|i: int|
            0 <= i < occs@.len() ==> #[trigger] r@[i] == progress_of(
                occs@,
                donate_all(occs@, ds@),
                i,
            ),
{
    let n = occs.len();
    let mut results: Vec<TaskProgress> = Vec::new();
    let mut excess: Vec<u32> = Vec::new();
    let mut i: usize = 0;
    while i < n
        invariant
            n == occs@.len(),
            i <= n,
            results@.len() == i,
            excess@.len() == i,
            forall|k: int|
                0 <= k < i ==> #[trigger] results@[k] == progress_of(
                    occs@,
                    initial_ledger(occs@),
                    k,
                ),
            forall|k: int| 0 <= k < i ==> #[trigger] excess@[k] == excess_of(occs@[k].0, occs@[k].1),
        decreases n - i,
    {
        let progress = occs[i].0.task_completion_progress;
        let total = total_for(&occs[i].1);
        results.push(
            TaskProgress { progress, total, donated_excess: 0, received_excess: 0 },
        );
        excess.push(
            if progress > total {
                progress - total
            } else {
                0
            },
        );
        i += 1;
    }
    proof {
        assert(ds@.take(0) =~= Seq::<Donation>::empty());
        lemma_donate_all_balanced(occs@, ds@.take(0));
    }
    let mut k: usize = 0;
    while k < ds.len()
        invariant
            n == occs@.len(),
            n <= u32::MAX,
            valid_donations(n as int, ds@),
            k <= ds@.len(),
            results@.len() == n,
            excess@.len() == n,
            balanced(occs@, donate_all(occs@, ds@.take(k as int))),
            forall|m: int|
                0 <= m < n ==> #[trigger] results@[m] == progress_of(
                    occs@,
                    donate_all(occs@, ds@.take(k as int)),
                    m,
                ),
            forall|m: int|
                0 <= m < n ==> #[trigger] excess@[m] == donate_all(occs@, ds@.take(k as int))[m].2,
        decreases ds@.len() - k,
    {
        let d = ds[k];
        let (ri, di) = (d.3, d.4);
        let ghost l = donate_all(occs@, ds@.take(k as int));
        let ghost l2 = donate(occs@, l, d);
        proof {
            assert(ds@.take(k as int + 1).drop_last() =~= ds@.take(k as int));
            assert(ds@.take(k as int + 1).last() == d);
            assert(valid_donations(n as int, ds@.take(k as int + 1)));
            lemma_donate_all_balanced(occs@, ds@.take(k as int + 1));
            lemma_bounded(occs@, l2, ri as int);
            lemma_bounded(occs@, l, ri as int);
        }
        let available = excess[di];
        let mut recv = results[ri];
        proof {
            assert(transfer_of(recv, available as int) == transfer_amount(occs@, l, d));
        }
        let left = transfer_progress(available, &mut recv);
        let t = available - left;
        results.set(ri, recv);
        let donor = results[di];
        results.set(
            di,
            TaskProgress { donated_excess: donor.donated_excess + t, ..donor },
        );
        excess.set(di, left);
        proof {
            assert(ds@.take(k as int + 1).drop_last() =~= ds@.take(k as int));
        }
        k += 1;
    }
    proof {
        assert(ds@.take(ds@.len() as int) =~= ds@);
    }
    results
}

/// In a balanced ledger, all amounts fit their fields.
proof fn lemma_bounded(occs: Seq<(Occ, Config)>, l: Ledger, i: int)
    requires
        balanced(occs, l),
        occs.len() <= u32::MAX,
        0 <= i < occs.len(),
    ensures
        0 <= l[i].0 <= u64::MAX,
        0 <= l[i].1 <= u32::MAX,
        0 <= l[i].2 <= u32::MAX,
{
    let r = received_seq(l);
    let d = donated_seq(l);
    assert forall|k: int| 0 <= k < d.len() implies 0 <= #[trigger] d[k] <= u32::MAX by {
        assert(d[k] == l[k].1);
        assert(l[k].1 + l[k].2 == excess_of(occs[k].0, occs[k].1));
        assert(0 <= l[k].1 && 0 <= l[k].2);
        assert(excess_of(occs[k].0, occs[k].1) <= u32::MAX);
    }
    lemma_sum_bounds(d, i, u32::MAX as int);
    assert forall|k: int| 0 <= k < r.len() implies 0 <= #[trigger] r[k] by {
        assert(r[k] == l[k].0);
    }
    assert forall|k: int| 0 <= k < r.len() implies 0 <= #[trigger] r[k] <= u64::MAX by {
        lemma_elem_le_sum(r, k);
        assert(d.len() * (u32::MAX as int) <= (u32::MAX as int) * (u32::MAX as int)) by (
        nonlinear_arith)
            requires
                d.len() <= u32::MAX,
        ;
    }
    assert(l[i].0 == r[i]);
    assert(l[i].1 + l[i].2 == excess_of(occs[i].0, occs[i].1));
}

proof fn lemma_elem_le_sum(s: Seq<int>, i: int)
    requires
        0 <= i < s.len(),
        forall|k: int| 0 <= k < s.len() ==> 0 <= #[trigger] s[k],
    ensures
        s[i] <= sum(s),
        0 <= sum(s),
    decreases s.len(),
{
    let t = s.drop_last();
    if s.len() == 1 {
        assert(sum(t) == 0);
    } else {
        assert forall|k: int| 0 <= k < t.len() implies 0 <= #[trigger] t[k] by {
            assert(t[k] == s[k]);
        }
        if i < s.len() - 1 {
            lemma_elem_le_sum(t, i);
        } else {
            lemma_elem_le_sum(t, 0);
        }
    }
}

/// Resolve progress for occurrences of one item, each with its resolved
/// config.
///
/// All candidate donations (each occurrence as a recipient, from each other
/// occurrence in its donation window) are made in ascending order of
/// distance, then recipient start, then donor start.
pub fn resolve_occs_progress_using(occs: &Vec<(Occ, Config)>) -> (r: Vec<TaskProgress>)
    requires
        occs@.len() <= u32::MAX,
    ensures
        r@.len() == occs@.len(),
        exists|ds: Seq<Donation>|
            #![trigger sorted(ds)]
            ds.to_multiset() == candidates(occs@).to_multiset() && sorted(ds) && forall|i: int|
                0 <= i < occs@.len() ==> #[trigger] r@[i] == progress_of(
                    occs@,
                    donate_all(occs@, ds),
                    i,
                ),
{
    let mut ds = candidate_donations(occs);
    sort_donations(&mut ds);
    proof {
        lemma_candidates_valid(occs@, occs@.len() as int, 0);
        assert forall|k: int| 0 <= k < ds@.len() implies (#[trigger] ds@[k]).3 < occs@.len()
            && ds@[k].4 < occs@.len() && ds@[k].3 != ds@[k].4 by {
            ds@.to_multiset_ensures();
            candidates(occs@).to_multiset_ensures();
            assert(ds@.contains(ds@[k]));
            assert(ds@.to_multiset().count(ds@[k]) > 0);
            assert(candidates(occs@).to_multiset().count(ds@[k]) > 0);
            assert(candidates(occs@).contains(ds@[k]));
        }
    }
    let r = apply_donations(occs, &ds);
    assert(exists|dd: Seq<Donation>|
        #![trigger sorted(dd)]
        dd.to_multiset() == candidates(occs@).to_multiset() && sorted(dd) && forall|i: int|
            0 <= i < occs@.len() ==> #[trigger] r@[i] == progress_of(occs@, donate_all(occs@, dd), i))
        by {
        let w = ds@;
        assert(w.to_multiset() == candidates(occs@).to_multiset() && sorted(w) && forall|i: int|
            0 <= i < occs@.len() ==> #[trigger] r@[i] == progress_of(occs@, donate_all(occs@, w), i));
    }
    r
}

/// An instant limited to the range of `OccDate`.
pub open spec fn clamp_instant(t: int) -> int {
    if t < i64::MIN {
        i64::MIN as int
    } else if t > i64::MAX {
        i64::MAX as int
    } else {
        t
    }
}

/// Earliest start of any donation window among the first `n` occurrences.
pub open spec fn window_start(occs: Seq<(Occ, Config)>, n: int) -> int
    decreases n,
{
    let here = occs[n - 1].0.start - past_window(occs[n - 1].1);
    if n <= 1 {
        here
    } else {
        let rest = window_start(occs, n - 1);
        if here < rest {
            here
        } else {
            rest
        }
    }
}

/// Latest end of any donation window among the first `n` occurrences.
pub open spec fn window_end(occs: Seq<(Occ, Config)>, n: int) -> int
    decreases n,
{
    let here = occs[n - 1].0.end + future_window(occs[n - 1].1);
    if n <= 1 {
        here
    } else {
        let rest = window_end(occs, n - 1);
        if here > rest {
            here
        } else {
            rest
        }
    }
}

/// The time range that holds every donation window of the occurrences (each
/// with its resolved config): the range in which the store is asked for
/// further occurrences that may donate to them.  `None` without occurrences.
pub fn progress_window(occs: &Vec<(Occ, Config)>) -> (r: Option<(OccDate, OccDate)>)
    ensures
        occs@.len() == 0 <==> r is None,
        r matches Some((start, end)) ==> start == clamp_instant(
            window_start(occs@, occs@.len() as int),
        ) && end == clamp_instant(window_end(occs@, occs@.len() as int)),
{
    if occs.len() == 0 {
        return None;
    }
    let mut start: i128 = 0;
    let mut end: i128 = 0;
    let mut i: usize = 0;
    while i < occs.len()
        invariant
            i <= occs@.len(),
            i > 0 ==> start == window_start(occs@, i as int),
            i > 0 ==> end == window_end(occs@, i as int),
            i64::MIN - u64::MAX <= start <= i64::MAX,
            i64::MIN <= end <= i64::MAX + u64::MAX,
        decreases occs@.len() - i,
    {
        let (o, cfg) = (&occs[i].0, &occs[i].1);
        let s = o.start as i128 - window(cfg.task_completion_conf.excess_past) as i128;
        let e = o.end as i128 + window(cfg.task_completion_conf.excess_future) as i128;
        if i == 0 || s < start {
            start = s;
        }
        if i == 0 || e > end {
            end = e;
        }
        i += 1;
    }
    let start = if start < i64::MIN as i128 {
        i64::MIN
    } else {
        start as i64
    };
    let end = if end > i64::MAX as i128 {
        i64::MAX
    } else {
        end as i64
    };
    Some((start, end))
}

/// Whether one of `known` has the id `id`.
pub open spec fn known_id(known: Seq<StoredOcc>, id: Seq<char>) -> bool {
    exists|k: int| 0 <= k < known.len() && #[trigger] known[k].id@ == id
}

/// Whether an occurrence's id is none of `known`'s.
pub open spec fn unknown_to(known: Seq<StoredOcc>) -> spec_fn(StoredOcc) -> bool {
    |o: StoredOcc| !known_id(known, o.id@)
}

/// The occurrences of `found` whose ids are not among those of `known`: the
/// neighbours that a search of the store added.
pub fn new_neighbours(known: &Vec<StoredOcc>, found: &Vec<StoredOcc>) -> (r: Vec<StoredOcc>)
    ensures
        r@ == found@.filter(unknown_to(known@)),
{
    let mut r: Vec<StoredOcc> = Vec::new();
    let mut i: usize = 0;
    while i < found.len()
        invariant
            i <= found@.len(),
            r@ == found@.take(i as int).filter(unknown_to(known@)),
        decreases found@.len() - i,
    {
        let o = &found[i];
        let mut seen = false;
        let mut k: usize = 0;
        while k < known.len()
            invariant
                k <= known@.len(),
                seen == known_id(known@.take(k as int), o.id@),
            decreases known@.len() - k,
        {
            proof {
                assert(known@.take(k as int + 1).drop_last() =~= known@.take(k as int));
                if known_id(known@.take(k as int), o.id@) {
                    let w = choose|w: int|
                        0 <= w < k && #[trigger] known@.take(k as int)[w].id@ == o.id@;
                    assert(known@.take(k as int + 1)[w] == known@.take(k as int)[w]);
                }
                if known_id(known@.take(k as int + 1), o.id@) && known@[k as int].id@ != o.id@ {
                    let w = choose|w: int|
                        0 <= w < k + 1 && #[trigger] known@.take(k as int + 1)[w].id@ == o.id@;
                    assert(known@.take(k as int)[w] == known@.take(k as int + 1)[w]);
                }
                assert(known@.take(k as int + 1)[k as int] == known@[k as int]);
            }
            if known[k].id == o.id {
                seen = true;
            }
            k += 1;
        }
        proof {
            assert(known@.take(known@.len() as int) =~= known@);
            assert(found@.take(i as int + 1).drop_last() =~= found@.take(i as int));
            assert(found@.take(i as int + 1).last() == found@[i as int]);
        }
        if !seen {
            r.push(StoredOcc { id: o.id.clone(), occ: o.occ });
        }
        proof {
            let t = found@.take(i as int + 1);
            assert(t.len() == i + 1);
            reveal(Seq::filter);
            assert(t.filter(unknown_to(known@)) == if unknown_to(known@)(t.last()) {
                t.drop_last().filter(unknown_to(known@)).push(t.last())
            } else {
                t.drop_last().filter(unknown_to(known@))
            });
        }
        i += 1;
    }
    assert(found@.take(found@.len() as int) =~= found@);
    r
}

} // verus!
