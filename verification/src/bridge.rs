//! Decisions of the ledger bridge.
//!
//! The bridge polls a ledger node for the events and transactions of an account and
//! hands the ones it has not seen before to a verifier. Talking to the node and to the
//! verifier is the program's business; which items are new, and whether the trusted
//! state has to be fetched before they can be handed on, is decided here, on the
//! version numbers alone.

use vstd::prelude::*;

verus! {

/// A balance of an account in one currency.
#[derive(Debug, Clone, PartialEq)]
pub struct Amount {
    /// Number of units.
    pub amount: u64,
    /// Code of the currency.
    pub currency: String,
}

/// What the bridge reads of a transaction that the ledger node reports.
#[derive(Debug, Clone, Copy, PartialEq, Eq)]
pub struct TransactionSummary {
    /// Version of the ledger at which the transaction was committed.
    pub version: u64,
    /// Whether a user submitted the transaction; other kinds are never handed on.
    pub is_user_transaction: bool,
}

/// `version` is among the versions recorded by an earlier poll.
pub open spec fn is_known(known: Option<Seq<u64>>, version: u64) -> bool {
    known matches Some(versions) && versions.contains(version)
}

/// `positions` lists, in increasing order, exactly the positions that `wanted` marks.
pub open spec fn selects(positions: Seq<usize>, wanted: Seq<bool>) -> bool {
    &&& forall|i: int, j: int| 0 <= i < j < positions.len() ==> positions[i] < positions[j]
    &&& forall|i: int|
        0 <= i < positions.len() ==> (#[trigger] positions[i]) < wanted.len() && wanted[positions[i] as int]
    &&& forall|p: int| 0 <= p < wanted.len() && #[trigger] wanted[p] ==> positions.contains(p as usize)
}

/// The marks of `wanted` select one list of positions and no other.
pub proof fn lemma_selection_is_unique(first: Seq<usize>, second: Seq<usize>, wanted: Seq<bool>)
    requires
        selects(first, wanted),
        selects(second, wanted),
    ensures
        first == second,
    decreases first.len() + second.len(),
{
    if first.len() == 0 {
        if second.len() > 0 {
            assert(wanted[second[0] as int]);
            assert(first.contains(second[0]));
        }
    } else if second.len() == 0 {
        assert(wanted[first[0] as int]);
        assert(second.contains(first[0]));
    } else {
        let a = first.last();
        let b = second.last();
        assert(wanted[a as int]);
        assert(wanted[b as int]);
        assert(second.contains(a));
        assert(first.contains(b));
        let ia = choose|i: int| 0 <= i < second.len() && second[i] == a;
        let ib = choose|i: int| 0 <= i < first.len() && first[i] == b;
        assert(a == b) by {
            if ia < second.len() - 1 {
                assert(second[ia] < second[second.len() - 1]);
            }
            if ib < first.len() - 1 {
                assert(first[ib] < first[first.len() - 1]);
            }
        }
        let narrowed = wanted.subrange(0, a as int);
        assert forall|p: int| 0 <= p < narrowed.len() && #[trigger] narrowed[p] implies first.drop_last().contains(
            p as usize,
        ) by {
            assert(wanted[p]);
            let i = choose|i: int| 0 <= i < first.len() && first[i] == p as usize;
            assert(first.drop_last()[i] == p as usize);
        }
        assert forall|p: int| 0 <= p < narrowed.len() && #[trigger] narrowed[p] implies second.drop_last().contains(
            p as usize,
        ) by {
            assert(wanted[p]);
            let i = choose|i: int| 0 <= i < second.len() && second[i] == p as usize;
            assert(second.drop_last()[i] == p as usize);
        }
        assert forall|i: int| 0 <= i < first.len() - 1 implies (#[trigger] first.drop_last()[i])
            < narrowed.len() && narrowed[first.drop_last()[i] as int] by {
            assert(first[i] < first[first.len() - 1]);
            assert(wanted[first[i] as int]);
        }
        assert forall|i: int| 0 <= i < second.len() - 1 implies (#[trigger] second.drop_last()[i])
            < narrowed.len() && narrowed[second.drop_last()[i] as int] by {
            assert(second[i] < second[second.len() - 1]);
            assert(wanted[second[i] as int]);
        }
        lemma_selection_is_unique(first.drop_last(), second.drop_last(), narrowed);
        assert(first =~= first.drop_last().push(a));
        assert(second =~= second.drop_last().push(b));
    }
}

/// The model of what earlier polls recorded.
pub open spec fn known_versions(known: Option<Vec<u64>>) -> Option<Seq<u64>> {
    match known {
        Some(versions) => Some(versions@),
        None => None,
    }
}

/// Whether `version` is among `known`.
fn contains_version(known: &Vec<u64>, version: u64) -> (found: bool)
    ensures
        found == known@.contains(version),
{
    let mut i: usize = 0;
    while i < known.len()
        invariant
            i <= known.len(),
            forall|j: int| 0 <= j < i ==> known@[j] != version,
        decreases known.len() - i,
    {
        if known[i] == version {
            return true;
        }
        i += 1;
    }
    false
}

/// Whether `version` was recorded by an earlier poll. Before the first poll nothing is
/// known.
pub fn is_known_version(known: &Option<Vec<u64>>, version: u64) -> (found: bool)
    ensures
        found == is_known(known_versions(*known), version),
{
    match known {
        Some(versions) => contains_version(versions, version),
        None => false,
    }
}

/// For each event of a report, whether it is new: no earlier poll recorded its
/// transaction version.
pub open spec fn new_event_marks(known: Option<Seq<u64>>, received: Seq<u64>) -> Seq<bool> {
    Seq::new(received.len(), |p: int| !is_known(known, received[p]))
}

/// For each transaction of a report, whether it has to be handed on: a user submitted
/// it and no earlier poll recorded its version.
pub open spec fn new_user_transaction_marks(
    known: Option<Seq<u64>>,
    reported: Seq<TransactionSummary>,
) -> Seq<bool> {
    Seq::new(
        reported.len(),
        |p: int| reported[p].is_user_transaction && !is_known(known, reported[p].version),
    )
}

/// The positions of the events that are new: those whose transaction version no
/// earlier poll recorded. `received` holds the transaction version of each event that
/// the node reports, in the order of the report.
///
/// An event that the node reports twice in one poll is new both times.
pub fn new_events(known: &Option<Vec<u64>>, received: &Vec<u64>) -> (positions: Vec<usize>)
    ensures
        selects(positions@, new_event_marks(known_versions(*known), received@)),
{
    let ghost wanted = new_event_marks(known_versions(*known), received@);
    let mut positions: Vec<usize> = Vec::new();
    let mut p: usize = 0;
    while p < received.len()
        invariant
            p <= received.len(),
            wanted == new_event_marks(known_versions(*known), received@),
            selects(positions@, wanted.subrange(0, p as int)),
        decreases received.len() - p,
    {
        let ghost before = positions@;
        let is_new = !is_known_version(known, received[p]);
        if is_new {
            positions.push(p);
        }
        proof {
            lemma_selection_grows(before, wanted, p as int);
        }
        p += 1;
    }
    assert(wanted.subrange(0, p as int) =~= wanted);
    positions
}

/// The positions of the transactions that have to be handed on: those that a user
/// submitted and whose version no earlier poll recorded.
pub fn new_user_transactions(known: &Option<Vec<u64>>, reported: &Vec<TransactionSummary>) -> (positions:
    Vec<usize>)
    ensures
        selects(positions@, new_user_transaction_marks(known_versions(*known), reported@)),
{
    let ghost wanted = new_user_transaction_marks(known_versions(*known), reported@);
    let mut positions: Vec<usize> = Vec::new();
    let mut p: usize = 0;
    while p < reported.len()
        invariant
            p <= reported.len(),
            wanted == new_user_transaction_marks(known_versions(*known), reported@),
            selects(positions@, wanted.subrange(0, p as int)),
        decreases reported.len() - p,
    {
        let ghost before = positions@;
        let is_new = !is_known_version(known, reported[p].version);
        if is_new && reported[p].is_user_transaction {
            positions.push(p);
        }
        proof {
            lemma_selection_grows(before, wanted, p as int);
        }
        p += 1;
    }
    assert(wanted.subrange(0, p as int) =~= wanted);
    positions
}

/// A selection among the first `p` marks becomes one among the first `p + 1` by
/// adding `p` when it is marked, and as it is when not.
proof fn lemma_selection_grows(positions: Seq<usize>, wanted: Seq<bool>, p: int)
    requires
        0 <= p < wanted.len(),
        p <= usize::MAX,
        selects(positions, wanted.subrange(0, p)),
    ensures
        wanted[p] ==> selects(positions.push(p as usize), wanted.subrange(0, p + 1)),
        !wanted[p] ==> selects(positions, wanted.subrange(0, p + 1)),
{
    let shorter = wanted.subrange(0, p);
    let longer = wanted.subrange(0, p + 1);
    if wanted[p] {
        let grown = positions.push(p as usize);
        assert forall|q: int| 0 <= q < longer.len() && #[trigger] longer[q] implies grown.contains(
            q as usize,
        ) by {
            if q < p {
                assert(shorter[q]);
                let i = choose|i: int| 0 <= i < positions.len() && positions[i] == q as usize;
                assert(grown[i] == q as usize);
            } else {
                assert(grown[positions.len() as int] == p as usize);
            }
        }
        assert forall|i: int| 0 <= i < grown.len() implies (#[trigger] grown[i]) < longer.len()
            && longer[grown[i] as int] by {
            if i < positions.len() {
                assert(shorter[positions[i] as int]);
            }
        }
    } else {
        assert forall|q: int| 0 <= q < longer.len() && #[trigger] longer[q] implies positions.contains(
            q as usize,
        ) by {
            assert(shorter[q]);
        }
        assert forall|i: int| 0 <= i < positions.len() implies (#[trigger] positions[i])
            < longer.len() && longer[positions[i] as int] by {
            assert(shorter[positions[i] as int]);
        }
    }
}

/// Once a report has been recorded, polling it again finds nothing new: no event of
/// the report is new against the versions of the report itself.
pub proof fn lemma_recorded_events_are_known(received: Seq<u64>, positions: Seq<usize>)
    requires
        selects(positions, new_event_marks(Some(received), received)),
    ensures
        positions.len() == 0,
{
    if positions.len() > 0 {
        let p = positions[0] as int;
        assert(new_event_marks(Some(received), received)[p]);
        assert(received.contains(received[p]));
    }
}

/// Once the versions of a report have been recorded, polling it again hands on no
/// transaction.
pub proof fn lemma_recorded_transactions_are_known(
    reported: Seq<TransactionSummary>,
    positions: Seq<usize>,
)
    requires
        selects(
            positions,
            new_user_transaction_marks(
                Some(Seq::new(reported.len(), |p: int| reported[p].version)),
                reported,
            ),
        ),
    ensures
        positions.len() == 0,
{
    let versions = Seq::new(reported.len(), |p: int| reported[p].version);
    if positions.len() > 0 {
        let p = positions[0] as int;
        assert(new_user_transaction_marks(Some(versions), reported)[p]);
        assert(versions[p] == reported[p].version);
        assert(versions.contains(reported[p].version));
    }
}

/// Whether the trusted state has to be fetched before the new items are handed on:
/// when there is something to hand on and the state has not been fetched in this
/// round.
pub fn must_init_state(new_items: usize, state_initiated: bool) -> (init: bool)
    ensures
        init == (new_items > 0 && !state_initiated),
{
    new_items > 0 && !state_initiated
}

/// Whether a ledger info is older than what the bridge already trusts. A stale ledger
/// info is refused before its signatures are looked at.
pub fn is_stale(ledger_version: u64, trusted_version: u64) -> (stale: bool)
    ensures
        stale == (ledger_version < trusted_version),
{
    ledger_version < trusted_version
}

} // verus!
