use vstd::prelude::*;

use crate::error::ScanError;

verus! {

/// One item yielded by listing the metadata subdirectory, identified by
/// its file name (as raw bytes, so that unusual names are carried
/// faithfully).
pub struct Entry {
    pub name: Vec<u8>,
}

/// The suffix that marks an entry as non-package metadata: the bytes of
/// `.json` (`.`, `j`, `s`, `o`, `n`). Entries carrying it are sidecar
/// files, never dispatched.
pub open spec fn excluded_suffix() -> Seq<u8> {
    seq![46u8, 106u8, 115u8, 111u8, 110u8]
}

/// Whether a file name carries the excluded-extension marker.
pub open spec fn name_excluded(name: Seq<u8>) -> bool {
    name.len() >= 5 && name.subrange(name.len() - 5, name.len() as int) == excluded_suffix()
}

/// Whether an entry is excluded from dispatch.
pub open spec fn entry_excluded(e: Entry) -> bool {
    name_excluded(e.name@)
}

/// The entries of a listing that are dispatched, in listing order: every
/// entry except those carrying the excluded-extension marker.
pub open spec fn eligible_of(listing: Seq<Entry>) -> Seq<Entry>
    decreases listing.len(),
{
    if listing.len() == 0 {
        Seq::empty()
    } else {
        let front = eligible_of(listing.drop_last());
        if entry_excluded(listing.last()) {
            front
        } else {
            front.push(listing.last())
        }
    }
}

/// Checks whether a file name ends in the excluded-extension marker.
pub fn is_excluded(name: &Vec<u8>) -> (r: bool)
    ensures
        r == name_excluded(name@),
{
    let n: usize = name.len();
    if n < 5 {
        return false;
    }
    let r = name[n - 5] == 46u8 && name[n - 4] == 106u8 && name[n - 3] == 115u8 && name[n - 2]
        == 111u8 && name[n - 1] == 110u8;
    proof {
        let tail = name@.subrange(n - 5, n as int);
        assert(tail.len() == 5);
        if r {
            assert(tail =~= excluded_suffix());
        }
        if name_excluded(name@) {
            assert(name@[n - 5] == tail[0] && name@[n - 4] == tail[1] && name@[n - 3] == tail[2]
                && name@[n - 2] == tail[3] && name@[n - 1] == tail[4]);
        }
    }
    r
}

/// Drops every excluded entry from a listing, keeping the rest in listing
/// order. Excluded entries never reach dispatch and are not counted
/// against the concurrency limit.
pub fn eligible_entries(listing: Vec<Entry>) -> (kept: Vec<Entry>)
    ensures
        kept@ == eligible_of(listing@),
{
    let ghost all = listing@;
    let mut rest = listing;
    let mut kept: Vec<Entry> = Vec::new();
    let ghost mut k: int = 0;
    while rest.len() > 0
        invariant
            0 <= k <= all.len(),
            rest@ == all.subrange(k, all.len() as int),
            kept@ == eligible_of(all.take(k)),
        decreases rest.len(),
    {
        let e = rest.remove(0);
        proof {
            assert(e == all[k]);
            assert(rest@ =~= all.subrange(k + 1, all.len() as int));
            assert(all.take(k + 1).drop_last() =~= all.take(k));
            assert(all.take(k + 1).last() == all[k]);
        }
        if !is_excluded(&e.name) {
            kept.push(e);
        }
        proof {
            k = k + 1;
        }
    }
    proof {
        assert(all.take(k) =~= all);
    }
    kept
}

/// The result of attempting to enumerate the metadata subdirectory,
/// reduced to plain values.
pub enum ListingOutcome {
    /// The metadata subdirectory does not exist.
    Missing,
    /// The subdirectory exists but could not be enumerated (permissions,
    /// transient I/O); `cause` describes why.
    Failed { cause: String },
    /// The subdirectory was enumerated, yielding these entries.
    Listed { entries: Vec<Entry> },
}

/// Turns the outcome of listing the metadata subdirectory into the list
/// of entries to dispatch.
///
/// A missing subdirectory is a normal state (an environment with no
/// installed packages): the scan proceeds with no entries and succeeds
/// with an empty collection. Any other listing failure is fatal. Excluded
/// entries are dropped here and never reach dispatch.
pub fn plan_scan(listing: ListingOutcome) -> (r: Result<Vec<Entry>, ScanError>)
    ensures
        (match listing {
            ListingOutcome::Missing => r matches Ok(v) && v@ == Seq::<Entry>::empty(),
            ListingOutcome::Failed { cause } => r matches Err(e) && e == (ScanError::Listing {
                cause,
            }),
            ListingOutcome::Listed { entries } => r matches Ok(v) && v@ == eligible_of(entries@),
        }),
{
    match listing {
        ListingOutcome::Missing => Ok(Vec::new()),
        ListingOutcome::Failed { cause } => Err(ScanError::Listing { cause }),
        ListingOutcome::Listed { entries } => Ok(eligible_entries(entries)),
    }
}

/// An entry is dispatched if and only if it occurs in the listing and
/// does not carry the excluded-extension marker.
pub proof fn lemma_eligible_of_contains(listing: Seq<Entry>, e: Entry)
    ensures
        eligible_of(listing).contains(e) <==> (listing.contains(e) && !entry_excluded(e)),
    decreases listing.len(),
{
    if listing.len() == 0 {
    } else {
        let front = listing.drop_last();
        let last = listing.last();
        lemma_eligible_of_contains(front, e);
        assert(listing.contains(e) <==> (front.contains(e) || last == e)) by {
            if front.contains(e) {
                let i = choose|i: int| 0 <= i < front.len() && front[i] == e;
                assert(listing[i] == e);
            }
            if last == e {
                assert(listing[listing.len() - 1] == e);
            }
            if listing.contains(e) {
                let i = choose|i: int| 0 <= i < listing.len() && listing[i] == e;
                if i < listing.len() - 1 {
                    assert(front[i] == e);
                }
            }
        };
        if !entry_excluded(last) {
            let fe = eligible_of(front);
            assert(eligible_of(listing) == fe.push(last));
            assert(fe.push(last).contains(e) <==> (fe.contains(e) || last == e)) by {
                if fe.contains(e) {
                    let i = choose|i: int| 0 <= i < fe.len() && fe[i] == e;
                    assert(fe.push(last)[i] == e);
                }
                if last == e {
                    assert(fe.push(last)[fe.len() as int] == e);
                }
                if fe.push(last).contains(e) {
                    let i = choose|i: int| 0 <= i < fe.push(last).len() && fe.push(last)[i] == e;
                    if i < fe.len() {
                        assert(fe[i] == e);
                    }
                }
            };
        }
    }
}

/// Excluded entries are never dispatched, whatever listing they appear
/// in.
pub proof fn lemma_excluded_never_dispatched(listing: Seq<Entry>, e: Entry)
    requires
        entry_excluded(e),
    ensures
        !eligible_of(listing).contains(e),
{
    lemma_eligible_of_contains(listing, e);
}

/// The predicate an entry must satisfy to be dispatched.
pub open spec fn eligible_pred() -> spec_fn(Entry) -> bool {
    |e: Entry| !entry_excluded(e)
}

/// The entries a listing dispatches, counted with multiplicity, are a
/// function of the listing's contents alone: they form exactly the
/// multiset of its non-excluded entries.
pub proof fn lemma_eligible_multiset(listing: Seq<Entry>)
    ensures
        eligible_of(listing).to_multiset() == listing.to_multiset().filter(eligible_pred()),
    decreases listing.len(),
{
    broadcast use vstd::seq_lib::group_to_multiset_ensures;
    broadcast use vstd::multiset::group_multiset_axioms;

    if listing.len() == 0 {
        assert(eligible_of(listing).to_multiset() =~= listing.to_multiset().filter(
            eligible_pred(),
        ));
    } else {
        let front = listing.drop_last();
        let last = listing.last();
        lemma_eligible_multiset(front);
        assert(front.push(last) =~= listing);
        assert(front.push(last).to_multiset() =~= front.to_multiset().insert(last));
        if entry_excluded(last) {
            assert(front.to_multiset().insert(last).filter(eligible_pred())
                =~= front.to_multiset().filter(eligible_pred()));
        } else {
            assert(eligible_of(front).push(last).to_multiset() =~= eligible_of(
                front,
            ).to_multiset().insert(last));
            assert(front.to_multiset().insert(last).filter(eligible_pred())
                =~= front.to_multiset().filter(eligible_pred()).insert(last));
        }
    }
}

/// Re-ordering the directory listing does not change what is dispatched:
/// two listings holding the same entries (as a multiset) dispatch the
/// same multiset of eligible entries — the same parse tasks run, the
/// same number of times, so failures aside the same set of records is
/// produced; only completion order may differ.
pub proof fn lemma_listing_order_irrelevant(l1: Seq<Entry>, l2: Seq<Entry>)
    requires
        l1.to_multiset() == l2.to_multiset(),
    ensures
        eligible_of(l1).to_multiset() == eligible_of(l2).to_multiset(),
        eligible_of(l1).len() == eligible_of(l2).len(),
        forall|e: Entry| eligible_of(l1).contains(e) <==> eligible_of(l2).contains(e),
{
    broadcast use vstd::seq_lib::group_to_multiset_ensures;

    lemma_eligible_multiset(l1);
    lemma_eligible_multiset(l2);
    vstd::seq_lib::to_multiset_len(eligible_of(l1));
    vstd::seq_lib::to_multiset_len(eligible_of(l2));
    assert forall|e: Entry| eligible_of(l1).contains(e) <==> eligible_of(l2).contains(e) by {
        lemma_eligible_of_contains(l1, e);
        lemma_eligible_of_contains(l2, e);
        vstd::seq_lib::to_multiset_contains(l1, e);
        vstd::seq_lib::to_multiset_contains(l2, e);
        assert(l1.to_multiset().count(e) == l2.to_multiset().count(e));
    }
}

} // verus!
