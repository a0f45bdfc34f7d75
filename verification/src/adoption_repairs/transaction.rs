//! How the requests of a repair lie within its transactions.

use vstd::prelude::*;

use crate::adoption_repairs::request::{RepairKey, Request};

verus! {

impl Request {
    /// Whether the request changes rows, and so has to lie in a transaction.
    pub open spec fn changes_rows(self) -> bool {
        match self {
            Request::ImportMembership { .. } => true,
            Request::AppendLink { .. } => true,
            Request::FinishMembershipImport => true,
            Request::DeleteLinksOf(_) => true,
            Request::DeleteItem(_) => true,
            Request::ReleaseOwnedBy(_) => true,
            Request::ReleaseMisownedVideos => true,
            Request::SetOwner { .. } => true,
            Request::PointVersionsAtParents => true,
            Request::Repoint { .. } => true,
            Request::DropSharedCredits { .. } => true,
            Request::MoveCredits { .. } => true,
            Request::DeletePerson(_) => true,
            _ => false,
        }
    }

    /// Whether the request takes a row of items or people away.
    pub open spec fn deletes_row(self) -> bool {
        self is DeleteItem || self is DeletePerson
    }
}

/// Whether a transaction is open behind the request, or nothing where the
/// request may not stand there: rows change only within a transaction, and the
/// bookkeeping is written and the repair reported as over only outside of one.
pub open spec fn open_after(open: bool, request: Request) -> Option<bool> {
    match request {
        Request::Begin => if open { None } else { Some(true) },
        Request::Commit => if open { Some(false) } else { None },
        Request::WriteMarker(_) => if open { None } else { Some(false) },
        Request::Finish(_) => if open { None } else { Some(false) },
        _ => if request.changes_rows() && !open { None } else { Some(open) },
    }
}

/// [`open_after`] for a run of requests.
pub open spec fn open_after_all(open: bool, requests: Seq<Request>) -> Option<bool>
    decreases requests.len(),
{
    if requests.len() == 0 {
        Some(open)
    } else {
        match open_after_all(open, requests.drop_last()) {
            Some(then_open) => open_after(then_open, requests.last()),
            None => None,
        }
    }
}

/// How many of the requests take a row away.
pub open spec fn deletions(requests: Seq<Request>) -> int
    decreases requests.len(),
{
    if requests.len() == 0 {
        0
    } else {
        deletions(requests.drop_last()) + if requests.last().deletes_row() { 1int } else { 0 }
    }
}

/// How many of the requests append a link.
pub open spec fn appended_links(requests: Seq<Request>) -> int
    decreases requests.len(),
{
    if requests.len() == 0 {
        0
    } else {
        appended_links(requests.drop_last()) + if requests.last() is AppendLink { 1int } else { 0 }
    }
}

/// A sum that stops at the largest `usize`.
pub open spec fn capped(n: int) -> int {
    if n > usize::MAX { usize::MAX as int } else { n }
}

/// The sum, or the largest `usize` where it is larger than that.
pub fn capped_sum(a: usize, b: usize) -> (sum: usize)
    ensures
        sum == capped(a + b),
{
    if a > usize::MAX - b {
        usize::MAX
    } else {
        a + b
    }
}

/// The requests that end a repair: commit, record that it has run, report.
pub open spec fn closing(key: RepairKey, changed: int) -> Seq<Request> {
    seq![Request::Commit, Request::WriteMarker(key), Request::Finish(changed as usize)]
}

/// Appends the requests that end a repair.
pub fn close(key: RepairKey, changed: usize, block: &mut Vec<Request>)
    ensures
        final(block)@ == old(block)@ + closing(key, changed as int),
{
    block.push(Request::Commit);
    block.push(Request::WriteMarker(key));
    block.push(Request::Finish(changed));
}

/// Ending a repair closes its transaction and takes nothing away.
pub proof fn lemma_closing(key: RepairKey, changed: int)
    ensures
        open_after_all(true, closing(key, changed)) == Some(false),
        deletions(closing(key, changed)) == 0,
        appended_links(closing(key, changed)) == 0,
        closing(key, changed).last() == Request::Finish(changed as usize),
{
    reveal_with_fuel(open_after_all, 4);
    reveal_with_fuel(deletions, 4);
    reveal_with_fuel(appended_links, 4);
    assert(closing(key, changed).drop_last().drop_last().drop_last() =~= Seq::<Request>::empty());
}

/// What a single request does.
pub proof fn lemma_single(open: bool, request: Request)
    ensures
        open_after_all(open, seq![request]) == open_after(open, request),
        deletions(seq![request]) == if request.deletes_row() { 1int } else { 0 },
        appended_links(seq![request]) == if request is AppendLink { 1int } else { 0 },
{
    reveal_with_fuel(open_after_all, 2);
    reveal_with_fuel(deletions, 2);
    reveal_with_fuel(appended_links, 2);
    assert(seq![request].drop_last() =~= Seq::<Request>::empty());
}

/// Two runs of requests, one behind the other, do what the one and then the
/// other does.
pub proof fn lemma_runs_join(open: bool, a: Seq<Request>, b: Seq<Request>)
    ensures
        open_after_all(open, a + b) == match open_after_all(open, a) {
            Some(then_open) => open_after_all(then_open, b),
            None => None,
        },
        deletions(a + b) == deletions(a) + deletions(b),
        appended_links(a + b) == appended_links(a) + appended_links(b),
    decreases b.len(),
{
    if b.len() == 0 {
        assert(a + b =~= a);
    } else {
        assert((a + b).drop_last() =~= a + b.drop_last());
        assert((a + b).last() == b.last());
        lemma_runs_join(open, a, b.drop_last());
    }
}

/// No run makes less than no deletions or links.
pub proof fn lemma_counts_are_natural(requests: Seq<Request>)
    ensures
        deletions(requests) >= 0,
        appended_links(requests) >= 0,
    decreases requests.len(),
{
    if requests.len() > 0 {
        lemma_counts_are_natural(requests.drop_last());
    }
}

/// A run that ends in a report leaves no transaction open.
pub proof fn lemma_last_closes(open: bool, requests: Seq<Request>)
    requires
        requests.len() > 0,
        requests.last() is Finish,
        open_after_all(open, requests) is Some,
    ensures
        open_after_all(open, requests) == Some(false),
{
}

/// A sum is kept as it is as long as a `usize` holds it, and is the largest one
/// beyond that.
pub proof fn law_sums_are_exact_up_to_the_largest(n: int)
    ensures
        n <= usize::MAX ==> capped(n) == n,
        n > usize::MAX ==> capped(n) == usize::MAX,
{
}

} // verus!
