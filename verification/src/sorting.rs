//! The two orders a page decoder needs: cell pointers from the end of the
//! page towards its start, and routing cells by their key.

use crate::cell::InteriorTableCell;
use std::cmp::Ordering;
use vstd::prelude::*;
use vstd::relations::{sorted_by, total_ordering};
use vstd::seq_lib::lemma_sorted_unique;

verus! {

/// The order "at least" on cell pointers.
pub open spec fn descending() -> spec_fn(u16, u16) -> bool {
    |a: u16, b: u16| a >= b
}

/// The cell pointers from the largest to the smallest.
pub open spec fn sorted_descending(pointers: Seq<u16>) -> Seq<u16> {
    pointers.sort_by(descending())
}

/// The key by which cell pointers are sorted: the larger the pointer, the
/// smaller its key.
pub fn descending_key(offset: &u16) -> (r: u16)
    ensures
        r == 0xffff - *offset,
{
    0xffff - *offset
}

/// `slice::sort_unstable_by_key` with `descending_key`: the same values in
/// ascending order of their keys, which is from the largest value to the
/// smallest.
#[verifier::external_body]
fn sort_unstable_descending(values: &mut Vec<u16>)
    ensures
        sorted_by(final(values)@, descending()),
        final(values)@.to_multiset() == old(values)@.to_multiset(),
{
    values.sort_unstable_by_key(|offset| descending_key(offset));
}

/// Sorts cell pointers from the largest to the smallest.
pub fn sort_descending(values: &mut Vec<u16>)
    ensures
        final(values)@ == sorted_descending(old(values)@),
{
    sort_unstable_descending(values);
    proof {
        assert(total_ordering(descending()));
        old(values)@.lemma_sort_by_ensures(descending());
        lemma_sorted_unique(values@, sorted_descending(old(values)@), descending());
    }
}

/// The order "at most" on row ids.
pub open spec fn ascending() -> spec_fn(i64, i64) -> bool {
    |a: i64, b: i64| a <= b
}

/// The row ids from the smallest to the largest.
pub open spec fn sorted_ascending(ids: Seq<i64>) -> Seq<i64> {
    ids.sort_by(ascending())
}

/// `slice::sort`: the same values, from the smallest to the largest.
#[verifier::external_body]
fn sort_slice(values: &mut Vec<i64>)
    ensures
        sorted_by(final(values)@, ascending()),
        final(values)@.to_multiset() == old(values)@.to_multiset(),
{
    values.sort();
}

/// Sorts row ids from the smallest to the largest.
pub fn sort_ascending(values: &mut Vec<i64>)
    ensures
        final(values)@ == sorted_ascending(old(values)@),
{
    sort_slice(values);
    proof {
        assert(total_ordering(ascending()));
        old(values)@.lemma_sort_by_ensures(ascending());
        lemma_sorted_unique(values@, sorted_ascending(old(values)@), ascending());
    }
}

/// The cells with a given key.
pub open spec fn has_key(key: i64) -> spec_fn(InteriorTableCell) -> bool {
    |cell: InteriorTableCell| cell.left_ptr == key
}

/// Keys never go down from one cell to the next.
pub open spec fn keys_ascend(cells: Seq<InteriorTableCell>) -> bool {
    forall|i: int, j: int| 0 <= i < j < cells.len() ==> cells[i].left_ptr <= cells[j].left_ptr
}

/// `output` holds the cells of `input` in ascending order of their keys, and
/// cells with the same key in the order that they had in `input`.
pub open spec fn is_stable_sort_by_key(
    input: Seq<InteriorTableCell>,
    output: Seq<InteriorTableCell>,
) -> bool {
    &&& keys_ascend(output)
    &&& forall|key: i64| #[trigger] output.filter(has_key(key)) == input.filter(has_key(key))
}

/// The cells in ascending order of their keys, cells with the same key in
/// the order that they came in.
pub open spec fn sorted_by_key(cells: Seq<InteriorTableCell>) -> Seq<InteriorTableCell> {
    choose|output: Seq<InteriorTableCell>| is_stable_sort_by_key(cells, output)
}

/// How the keys of two routing cells compare.
pub fn compare_keys(a: &InteriorTableCell, b: &InteriorTableCell) -> (r: Ordering)
    ensures
        (r is Less) == (a.left_ptr < b.left_ptr),
        (r is Equal) == (a.left_ptr == b.left_ptr),
        (r is Greater) == (a.left_ptr > b.left_ptr),
{
    if a.left_ptr < b.left_ptr {
        Ordering::Less
    } else if a.left_ptr == b.left_ptr {
        Ordering::Equal
    } else {
        Ordering::Greater
    }
}

/// `Itertools::sorted_by` with `compare_keys`: the cells in ascending order
/// of `left_ptr`. The sort is stable, so cells with the same key keep the
/// order that they had.
#[verifier::external_body]
fn itertools_sorted_by_key(cells: Vec<InteriorTableCell>) -> (r: Vec<InteriorTableCell>)
    ensures
        is_stable_sort_by_key(cells@, r@),
        r@.to_multiset() == cells@.to_multiset(),
{
    itertools::Itertools::sorted_by(cells.into_iter(), |a, b| compare_keys(a, b)).collect()
}

/// How `filter` treats the last element of a sequence.
pub proof fn lemma_filter_last<A>(s: Seq<A>, pred: spec_fn(A) -> bool)
    requires
        s.len() > 0,
    ensures
        pred(s.last()) ==> s.filter(pred) == s.drop_last().filter(pred).push(s.last()),
        !pred(s.last()) ==> s.filter(pred) == s.drop_last().filter(pred),
{
    reveal(Seq::filter);
}

/// Nothing is left of an empty sequence.
pub proof fn lemma_filter_empty<A>(s: Seq<A>, pred: spec_fn(A) -> bool)
    requires
        s.len() == 0,
    ensures
        s.filter(pred).len() == 0,
{
    reveal(Seq::filter);
}

/// An element of the filtered sequence is an element of the sequence.
pub proof fn lemma_filter_member<A>(s: Seq<A>, pred: spec_fn(A) -> bool, x: A)
    requires
        s.filter(pred).contains(x),
    ensures
        s.contains(x),
        pred(x),
    decreases s.len(),
{
    reveal(Seq::filter);
    if s.len() > 0 {
        let sub = s.drop_last().filter(pred);
        if pred(s.last()) && x == s.last() {
            assert(s[s.len() - 1] == x);
        } else {
            let i = choose|i: int| 0 <= i < s.filter(pred).len() && s.filter(pred)[i] == x;
            if pred(s.last()) {
                assert(i < sub.len());
                assert(sub[i] == x);
            }
            assert(sub.contains(x));
            lemma_filter_member(s.drop_last(), pred, x);
            let j = choose|j: int| 0 <= j < s.drop_last().len() && s.drop_last()[j] == x;
            assert(s[j] == x);
        }
    }
}

/// The last key of `a` is no larger than the last key of `b`.
proof fn lemma_last_key_bound(a: Seq<InteriorTableCell>, b: Seq<InteriorTableCell>)
    requires
        a.len() > 0,
        b.len() > 0,
        keys_ascend(b),
        forall|key: i64| #[trigger] a.filter(has_key(key)) == b.filter(has_key(key)),
    ensures
        a.last().left_ptr <= b.last().left_ptr,
{
    let key = a.last().left_ptr;
    lemma_filter_last(a, has_key(key));
    let last = a.last();
    assert(a.filter(has_key(key)).last() == last);
    assert(a.filter(has_key(key)).contains(last));
    assert(b.filter(has_key(key)).contains(last));
    lemma_filter_member(b, has_key(key), last);
    let j = choose|j: int| 0 <= j < b.len() && b[j] == last;
    assert(b[j].left_ptr <= b[b.len() - 1].left_ptr);
}

/// Two sequences in ascending key order that agree, key by key, on the
/// cells with that key are the same sequence.
pub proof fn lemma_stable_sort_unique(a: Seq<InteriorTableCell>, b: Seq<InteriorTableCell>)
    requires
        keys_ascend(a),
        keys_ascend(b),
        forall|key: i64| #[trigger] a.filter(has_key(key)) == b.filter(has_key(key)),
    ensures
        a == b,
    decreases a.len(),
{
    if a.len() == 0 {
        if b.len() > 0 {
            let key = b.last().left_ptr;
            lemma_filter_last(b, has_key(key));
            lemma_filter_empty(a, has_key(key));
            assert(a.filter(has_key(key)) == b.filter(has_key(key)));
        }
        assert(a =~= b);
    } else {
        if b.len() == 0 {
            let key = a.last().left_ptr;
            lemma_filter_last(a, has_key(key));
            lemma_filter_empty(b, has_key(key));
            assert(a.filter(has_key(key)) == b.filter(has_key(key)));
        }
        lemma_last_key_bound(a, b);
        lemma_last_key_bound(b, a);
        let key = a.last().left_ptr;
        let a0 = a.drop_last();
        let b0 = b.drop_last();
        assert forall|k: i64| #[trigger] a0.filter(has_key(k)) == b0.filter(has_key(k)) by {
            lemma_filter_last(a, has_key(k));
            lemma_filter_last(b, has_key(k));
            assert(a.filter(has_key(k)) == b.filter(has_key(k)));
            if k == key {
                assert(a0.filter(has_key(k)) =~= a0.filter(has_key(k)).push(
                    a.last(),
                ).drop_last());
                assert(b0.filter(has_key(k)) =~= b0.filter(has_key(k)).push(
                    b.last(),
                ).drop_last());
            }
        }
        lemma_filter_last(a, has_key(key));
        lemma_filter_last(b, has_key(key));
        assert(a.filter(has_key(key)) == b.filter(has_key(key)));
        assert(a.last() == a.filter(has_key(key)).last());
        assert(b.last() == b.filter(has_key(key)).last());
        lemma_stable_sort_unique(a0, b0);
        assert(a =~= a0.push(a.last()));
        assert(b =~= b0.push(b.last()));
    }
}

/// Sorts routing cells by their key, keeping the order of cells whose keys
/// are the same.
pub fn sort_by_key(cells: Vec<InteriorTableCell>) -> (r: Vec<InteriorTableCell>)
    ensures
        r@ == sorted_by_key(cells@),
        is_stable_sort_by_key(cells@, r@),
        r@.to_multiset() == cells@.to_multiset(),
{
    let sorted = itertools_sorted_by_key(cells);
    proof {
        let chosen = sorted_by_key(cells@);
        assert(is_stable_sort_by_key(cells@, chosen));
        lemma_stable_sort_unique(sorted@, chosen);
    }
    sorted
}

} // verus!
