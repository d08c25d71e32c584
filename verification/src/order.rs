//! The order in which cached revisions are shown: newest first.

use std::cmp::Ordering;

use itertools::Itertools;
use vstd::prelude::*;

use crate::manifest::{revisions, Item, Revision};

verus! {

/// The revisions written at `time`.
pub open spec fn written_at(time: i64) -> spec_fn(Revision) -> bool {
    |item: Revision| item.timestamp == time
}

/// `output` holds the revisions of `input`, each as often as `input` does,
/// from the newest to the oldest, and those written at the same time in the
/// order they have in `input`.
pub open spec fn newest_first(input: Seq<Revision>, output: Seq<Revision>) -> bool {
    &&& output.len() == input.len()
    &&& output.to_multiset() == input.to_multiset()
    &&& forall|i: int, j: int|
        0 <= i < j < output.len() ==> output[i].timestamp >= output[j].timestamp
    &&& forall|time: i64| #[trigger] output.filter(written_at(time)) == input.filter(written_at(time))
}

/// What is put newest first holds every revision that was there, and no
/// other.
pub proof fn lemma_newest_first_holds_all(input: Seq<Revision>, output: Seq<Revision>)
    requires
        newest_first(input, output),
    ensures
        forall|i: int| 0 <= i < input.len() ==> output.contains(#[trigger] input[i]),
        forall|k: int| 0 <= k < output.len() ==> input.contains(#[trigger] output[k]),
{
    assert forall|i: int| 0 <= i < input.len() implies output.contains(#[trigger] input[i]) by {
        let at = written_at(input[i].timestamp);
        input.lemma_filter_contains(at, i);
        assert(output.filter(at) == input.filter(at));
        output.lemma_filter_contains_rev(at, input[i]);
    }
    assert forall|k: int| 0 <= k < output.len() implies input.contains(#[trigger] output[k]) by {
        let at = written_at(output[k].timestamp);
        output.lemma_filter_contains(at, k);
        assert(output.filter(at) == input.filter(at));
        input.lemma_filter_contains_rev(at, output[k]);
    }
}

/// Orders two items so that the one written later comes first.
pub fn newer_first(a: &Item, b: &Item) -> (order: Ordering)
    ensures
        a.timestamp > b.timestamp <==> order is Less,
        a.timestamp < b.timestamp <==> order is Greater,
        a.timestamp == b.timestamp <==> order is Equal,
{
    if a.timestamp > b.timestamp {
        Ordering::Less
    } else if a.timestamp < b.timestamp {
        Ordering::Greater
    } else {
        Ordering::Equal
    }
}

/// `Itertools::sorted_by` of itertools, on copies of the items and with
/// [`newer_first`] as the order. It sorts by the order it is given and is
/// stable: items that the order holds equal keep their places among
/// themselves.
#[verifier::external_body]
pub(crate) fn sorted_newest_first(items: &Vec<Item>) -> (sorted: Vec<Item>)
    ensures
        newest_first(revisions(items@), revisions(sorted@)),
{
    items.iter().cloned().sorted_by(|a, b| newer_first(a, b)).collect()
}

} // verus!
