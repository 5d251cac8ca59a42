//! The entries of an index, and what a probe for a key can find among them.

use crate::btree::{
    concat, index_step, leaf_hit, leaf_hits, page_steps, spec_index_probe, spec_probe_steps,
    type_code, IndexStep,
};
use crate::cell::{CellView, InteriorIndexCellView};
use crate::database::spec_search_index;
use crate::error::MyError;
use crate::header::Header;
use crate::page_type::BTreePageType;
use crate::record::{value_eq, value_ge, ValueView};
use crate::sorting::{ascending, sorted_ascending};
use crate::sqlite::{spec_page, spec_page_count};
use vstd::prelude::*;

verus! {

/// An entry of an index: the key values and the row id of the row that has
/// them.
pub struct IndexEntry {
    pub payload: Seq<ValueView>,
    pub row_id: i64,
}

/// The entries on a leaf page of an index, in the order of its cells.
pub open spec fn leaf_entries(cells: Seq<CellView>) -> Seq<IndexEntry>
    decreases cells.len(),
{
    if cells.len() == 0 {
        Seq::empty()
    } else {
        match cells.last() {
            CellView::LeafIndex(cell) => leaf_entries(cells.drop_last()).push(
                IndexEntry { payload: cell.payload, row_id: cell.row_id },
            ),
            _ => leaf_entries(cells.drop_last()),
        }
    }
}

/// The interior index cells among the cells of a page, in their order.
pub open spec fn interior_cells(cells: Seq<CellView>) -> Seq<InteriorIndexCellView>
    decreases cells.len(),
{
    if cells.len() == 0 {
        Seq::empty()
    } else {
        match cells.last() {
            CellView::InteriorIndex(cell) => interior_cells(cells.drop_last()).push(cell),
            _ => interior_cells(cells.drop_last()),
        }
    }
}

/// The entry that an interior cell holds itself; the cell for the
/// right-most child, which has no key values, holds none.
pub open spec fn own_entry(cell: InteriorIndexCellView) -> Seq<IndexEntry> {
    if cell.payload.len() > 0 {
        seq![IndexEntry { payload: cell.payload, row_id: cell.row_id }]
    } else {
        Seq::empty()
    }
}

/// All entries of the index b-tree below the page with zero-based index
/// `index`: below an interior page those of each child, followed by the
/// entry of its cell.
pub open spec fn spec_index_entries(file: Seq<u8>, header: Header, index: int, depth: nat) -> Result<
    Seq<IndexEntry>,
    MyError,
>
    decreases depth, 0nat,
{
    match spec_page(file, header, index + 1) {
        Err(e) => Err(e),
        Ok(page) => match page.page_type {
            BTreePageType::IndexLeaf => Ok(leaf_entries(page.cells)),
            BTreePageType::IndexInterior => if depth == 0 {
                Err(MyError::TreeTooDeep)
            } else {
                spec_cells_entries(file, header, interior_cells(page.cells), (depth - 1) as nat)
            },
            _ => Err(MyError::InvalidPageType(type_code(page.page_type))),
        },
    }
}

/// The entries below and in each interior cell in turn.
pub open spec fn spec_cells_entries(
    file: Seq<u8>,
    header: Header,
    cells: Seq<InteriorIndexCellView>,
    depth: nat,
) -> Result<Seq<IndexEntry>, MyError>
    decreases depth, 1 + cells.len(),
{
    if cells.len() == 0 {
        Ok(Seq::empty())
    } else {
        concat(
            concat(
                spec_index_entries(file, header, cells[0].child_page as int, depth),
                Ok(own_entry(cells[0])),
            ),
            spec_cells_entries(file, header, cells.drop_first(), depth),
        )
    }
}

/// The steps of a probe for `key` at interior cells.
pub open spec fn steps_of(cells: Seq<InteriorIndexCellView>, key: ValueView) -> Seq<IndexStep> {
    Seq::new(cells.len(), |i: int| index_step(cells[i], key))
}

/// Whether one of the entries has the row id and `key` as its first key
/// value.
pub open spec fn is_hit(entries: Seq<IndexEntry>, key: ValueView, id: i64) -> bool {
    exists|j: int|
        0 <= j < entries.len() && (#[trigger] entries[j]).row_id == id && entries[j].payload.len()
            > 0 && value_eq(entries[j].payload[0], key)
}

/// Whether every row id is that of an entry with `key` as its first key
/// value.
pub open spec fn all_hits(ids: Seq<i64>, entries: Seq<IndexEntry>, key: ValueView) -> bool {
    forall|i: int| 0 <= i < ids.len() ==> is_hit(entries, key, #[trigger] ids[i])
}

proof fn lemma_hits_concat(
    a: Seq<i64>,
    x: Seq<IndexEntry>,
    b: Seq<i64>,
    y: Seq<IndexEntry>,
    key: ValueView,
)
    requires
        all_hits(a, x, key),
        all_hits(b, y, key),
    ensures
        all_hits(a + b, x + y, key),
{
    assert forall|i: int| 0 <= i < (a + b).len() implies is_hit(x + y, key, #[trigger] (a + b)[i]) by {
        if i < a.len() {
            assert(is_hit(x, key, a[i]));
            let j = choose|j: int|
                0 <= j < x.len() && (#[trigger] x[j]).row_id == a[i] && x[j].payload.len() > 0
                    && value_eq(x[j].payload[0], key);
            assert((x + y)[j] == x[j]);
        } else {
            assert(is_hit(y, key, b[i - a.len()]));
            let j = choose|j: int|
                0 <= j < y.len() && (#[trigger] y[j]).row_id == b[i - a.len()]
                    && y[j].payload.len() > 0 && value_eq(y[j].payload[0], key);
            assert((x + y)[x.len() + j] == y[j]);
        }
    }
}

/// The steps of a probe at the cells of a page are the steps at its
/// interior cells.
proof fn lemma_page_steps(cells: Seq<CellView>, key: ValueView)
    ensures
        page_steps(cells, key) == steps_of(interior_cells(cells), key),
    decreases cells.len(),
{
    if cells.len() > 0 {
        lemma_page_steps(cells.drop_last(), key);
        match cells.last() {
            CellView::InteriorIndex(cell) => {
                assert(steps_of(interior_cells(cells.drop_last()).push(cell), key) =~= steps_of(
                    interior_cells(cells.drop_last()),
                    key,
                ).push(index_step(cell, key)));
            },
            _ => {},
        }
    } else {
        assert(page_steps(cells, key) =~= steps_of(interior_cells(cells), key));
    }
}

/// The hits on a leaf page are among the entries of the page.
proof fn lemma_leaf_hits(cells: Seq<CellView>, key: ValueView)
    ensures
        all_hits(leaf_hits(cells, key), leaf_entries(cells), key),
    decreases cells.len(),
{
    if cells.len() > 0 {
        lemma_leaf_hits(cells.drop_last(), key);
        let ids = leaf_hits(cells.drop_last(), key);
        let entries = leaf_entries(cells.drop_last());
        match cells.last() {
            CellView::LeafIndex(cell) => {
                let entry = IndexEntry { payload: cell.payload, row_id: cell.row_id };
                let own: Seq<i64> = if leaf_hit(cell, key) {
                    seq![cell.row_id]
                } else {
                    Seq::empty()
                };
                assert(all_hits(own, seq![entry], key)) by {
                    if leaf_hit(cell, key) {
                        assert(seq![entry][0].row_id == cell.row_id);
                    }
                }
                lemma_hits_concat(ids, entries, own, seq![entry], key);
                assert(entries + seq![entry] =~= entries.push(entry));
                if leaf_hit(cell, key) {
                    assert(ids + own =~= ids.push(cell.row_id));
                } else {
                    assert(ids + own =~= ids);
                }
            },
            _ => {},
        }
    }
}

/// Every row id that a probe for `key` finds below a page is the row id of
/// an entry below that page whose first key value equals `key`.
pub proof fn lemma_probe_hits(file: Seq<u8>, header: Header, index: int, key: ValueView, depth: nat)
    requires
        spec_index_entries(file, header, index, depth) is Ok,
        spec_index_probe(file, header, index, key, depth) is Ok,
    ensures
        all_hits(
            spec_index_probe(file, header, index, key, depth)->Ok_0,
            spec_index_entries(file, header, index, depth)->Ok_0,
            key,
        ),
    decreases depth, 0nat,
{
    let page = spec_page(file, header, index + 1)->Ok_0;
    if page.page_type == BTreePageType::IndexLeaf {
        lemma_leaf_hits(page.cells, key);
    } else if page.page_type == BTreePageType::IndexInterior {
        lemma_page_steps(page.cells, key);
        lemma_steps_hits(file, header, interior_cells(page.cells), key, (depth - 1) as nat);
    }
}

/// Every row id that a probe for `key` finds at interior cells and below
/// them is the row id of an entry there whose first key value equals `key`.
pub proof fn lemma_steps_hits(
    file: Seq<u8>,
    header: Header,
    cells: Seq<InteriorIndexCellView>,
    key: ValueView,
    depth: nat,
)
    requires
        spec_cells_entries(file, header, cells, depth) is Ok,
        spec_probe_steps(file, header, steps_of(cells, key), key, depth) is Ok,
    ensures
        all_hits(
            spec_probe_steps(file, header, steps_of(cells, key), key, depth)->Ok_0,
            spec_cells_entries(file, header, cells, depth)->Ok_0,
            key,
        ),
    decreases depth, 1 + cells.len(),
{
    if cells.len() > 0 {
        let steps = steps_of(cells, key);
        let step = steps[0];
        let child = cells[0].child_page as int;
        assert(step == index_step(cells[0], key));
        assert(steps.drop_first() =~= steps_of(cells.drop_first(), key));
        let below_entries = spec_index_entries(file, header, child, depth)->Ok_0;
        let rest_entries = spec_cells_entries(file, header, cells.drop_first(), depth)->Ok_0;
        let below: Seq<i64> = if step.descend {
            spec_index_probe(file, header, child, key, depth)->Ok_0
        } else {
            Seq::empty()
        };
        let own: Seq<i64> = if step.hit {
            seq![step.row_id]
        } else {
            Seq::empty()
        };
        let rest = spec_probe_steps(file, header, steps.drop_first(), key, depth)->Ok_0;
        if step.descend {
            lemma_probe_hits(file, header, child, key, depth);
        }
        assert(all_hits(own, own_entry(cells[0]), key)) by {
            if step.hit {
                assert(own_entry(cells[0])[0].row_id == step.row_id);
            }
        }
        lemma_steps_hits(file, header, cells.drop_first(), key, depth);
        lemma_hits_concat(below, below_entries, own, own_entry(cells[0]), key);
        lemma_hits_concat(
            below + own,
            below_entries + own_entry(cells[0]),
            rest,
            rest_entries,
            key,
        );
    }
}

/// No value equals two different keys.
pub proof fn lemma_one_key_per_value(value: ValueView, first: ValueView, second: ValueView)
    requires
        value_eq(value, first),
        value_eq(value, second),
    ensures
        first == second,
{
}

/// The probes for two different keys find no row id in common in an index
/// in which no two entries have the same row id.
pub proof fn lemma_different_keys_share_no_row(
    file: Seq<u8>,
    header: Header,
    index_root: usize,
    first_key: ValueView,
    second_key: ValueView,
)
    requires
        first_key != second_key,
        spec_search_index(file, header, index_root, first_key) is Ok,
        spec_search_index(file, header, index_root, second_key) is Ok,
        spec_index_entries(
            file,
            header,
            index_root - 1,
            spec_page_count(file, header) as nat,
        ) is Ok,
        ({
            let entries = spec_index_entries(
                file,
                header,
                index_root - 1,
                spec_page_count(file, header) as nat,
            )->Ok_0;
            forall|i: int, j: int|
                0 <= i < j < entries.len() ==> (#[trigger] entries[i]).row_id != (
                #[trigger] entries[j]).row_id
        }),
    ensures
        forall|id: i64|
            !(spec_search_index(file, header, index_root, first_key)->Ok_0.contains(id)
                && #[trigger] spec_search_index(file, header, index_root, second_key)->Ok_0.contains(
                id,
            )),
{
    broadcast use vstd::seq_lib::group_to_multiset_ensures;

    let depth = spec_page_count(file, header) as nat;
    let entries = spec_index_entries(file, header, index_root - 1, depth)->Ok_0;
    let first = spec_index_probe(file, header, index_root - 1, first_key, depth)->Ok_0;
    let second = spec_index_probe(file, header, index_root - 1, second_key, depth)->Ok_0;
    lemma_probe_hits(file, header, index_root - 1, first_key, depth);
    lemma_probe_hits(file, header, index_root - 1, second_key, depth);
    first.lemma_sort_by_ensures(ascending());
    second.lemma_sort_by_ensures(ascending());
    assert forall|id: i64|
        !(sorted_ascending(first).contains(id) && #[trigger] sorted_ascending(second).contains(
            id,
        )) by {
        if sorted_ascending(first).contains(id) && sorted_ascending(second).contains(id) {
            assert(first.to_multiset().count(id) > 0);
            assert(second.to_multiset().count(id) > 0);
            assert(first.contains(id));
            assert(second.contains(id));
            let a = choose|a: int| 0 <= a < first.len() && first[a] == id;
            let b = choose|b: int| 0 <= b < second.len() && second[b] == id;
            assert(is_hit(entries, first_key, first[a]));
            assert(is_hit(entries, second_key, second[b]));
            let i = choose|i: int|
                0 <= i < entries.len() && (#[trigger] entries[i]).row_id == id
                    && entries[i].payload.len() > 0 && value_eq(entries[i].payload[0], first_key);
            let j = choose|j: int|
                0 <= j < entries.len() && (#[trigger] entries[j]).row_id == id
                    && entries[j].payload.len() > 0 && value_eq(entries[j].payload[0], second_key);
            if i != j {
                if i < j {
                    assert(entries[i].row_id != entries[j].row_id);
                } else {
                    assert(entries[j].row_id != entries[i].row_id);
                }
            }
            lemma_one_key_per_value(entries[i].payload[0], first_key, second_key);
        }
    }
}

/// Whether an entry is an entry for `key`: its first key value equals it.
pub open spec fn entry_matches(entry: IndexEntry, key: ValueView) -> bool {
    entry.payload.len() > 0 && value_eq(entry.payload[0], key)
}

/// The row ids of the entries for `key`, in the order of the entries, one
/// for every such entry.
pub open spec fn entry_hits(entries: Seq<IndexEntry>, key: ValueView) -> Seq<i64>
    decreases entries.len(),
{
    if entries.len() == 0 {
        Seq::empty()
    } else if entry_matches(entries.last(), key) {
        entry_hits(entries.drop_last(), key).push(entries.last().row_id)
    } else {
        entry_hits(entries.drop_last(), key)
    }
}

/// A value that a key can equal is at most `bound`. NULL, doubles and blobs
/// equal no key and are held to nothing.
pub open spec fn value_at_most(value: ValueView, bound: ValueView) -> bool {
    (value is Integer || value is Text) ==> value_ge(bound, value)
}

/// The first key value of every entry is at most `bound`.
pub open spec fn entries_at_most(entries: Seq<IndexEntry>, bound: ValueView) -> bool {
    forall|j: int|
        0 <= j < entries.len() && (#[trigger] entries[j]).payload.len() > 0 ==> value_at_most(
            entries[j].payload[0],
            bound,
        )
}

/// The index b-tree below the page with zero-based index `index` is in
/// order: below every interior cell that has key values, the entries of its
/// child are at most the first key value of the cell.
pub open spec fn spec_index_ordered(file: Seq<u8>, header: Header, index: int, depth: nat) -> bool
    decreases depth, 0nat,
{
    match spec_page(file, header, index + 1) {
        Err(_) => true,
        Ok(page) => match page.page_type {
            BTreePageType::IndexInterior => depth > 0 ==> spec_cells_ordered(
                file,
                header,
                interior_cells(page.cells),
                (depth - 1) as nat,
            ),
            _ => true,
        },
    }
}

/// The index is in order below each of the interior cells.
pub open spec fn spec_cells_ordered(
    file: Seq<u8>,
    header: Header,
    cells: Seq<InteriorIndexCellView>,
    depth: nat,
) -> bool
    decreases depth, 1 + cells.len(),
{
    if cells.len() == 0 {
        true
    } else {
        let below = spec_index_entries(file, header, cells[0].child_page as int, depth);
        &&& cells[0].payload.len() > 0 && below is Ok ==> entries_at_most(
            below->Ok_0,
            cells[0].payload[0],
        )
        &&& spec_index_ordered(file, header, cells[0].child_page as int, depth)
        &&& spec_cells_ordered(file, header, cells.drop_first(), depth)
    }
}

/// No two entries have the same first key value.
pub open spec fn unique_entries(entries: Seq<IndexEntry>) -> bool {
    forall|i: int, j: int|
        0 <= i < j < entries.len() && (#[trigger] entries[i]).payload.len() > 0 && (
        #[trigger] entries[j]).payload.len() > 0 ==> entries[i].payload[0] != entries[j].payload[0]
}

/// The hits among entries one after another are the hits among the first
/// followed by the hits among the second.
pub proof fn lemma_entry_hits_concat(a: Seq<IndexEntry>, b: Seq<IndexEntry>, key: ValueView)
    ensures
        entry_hits(a + b, key) == entry_hits(a, key) + entry_hits(b, key),
    decreases b.len(),
{
    if b.len() == 0 {
        assert(a + b =~= a);
        assert(entry_hits(a, key) + entry_hits(b, key) =~= entry_hits(a, key));
    } else {
        assert((a + b).drop_last() =~= a + b.drop_last());
        assert((a + b).last() == b.last());
        lemma_entry_hits_concat(a, b.drop_last(), key);
        if entry_matches(b.last(), key) {
            assert((entry_hits(a, key) + entry_hits(b.drop_last(), key)).push(b.last().row_id)
                =~= entry_hits(a, key) + entry_hits(b.drop_last(), key).push(b.last().row_id));
        }
    }
}

/// Entries of which none is for `key` give no hit.
pub proof fn lemma_entry_hits_none(entries: Seq<IndexEntry>, key: ValueView)
    requires
        forall|j: int| 0 <= j < entries.len() ==> !entry_matches(#[trigger] entries[j], key),
    ensures
        entry_hits(entries, key) == Seq::<i64>::empty(),
    decreases entries.len(),
{
    if entries.len() > 0 {
        assert forall|j: int| 0 <= j < entries.drop_last().len() implies !entry_matches(
            #[trigger] entries.drop_last()[j],
            key,
        ) by {
            assert(entries.drop_last()[j] == entries[j]);
        }
        lemma_entry_hits_none(entries.drop_last(), key);
        assert(!entry_matches(entries[entries.len() - 1], key));
    }
}

/// Where there is a hit there is an entry for the key.
pub proof fn lemma_entry_hits_some(entries: Seq<IndexEntry>, key: ValueView)
    requires
        entry_hits(entries, key).len() > 0,
    ensures
        exists|j: int| 0 <= j < entries.len() && entry_matches(#[trigger] entries[j], key),
    decreases entries.len(),
{
    if entries.len() > 0 {
        if entry_matches(entries.last(), key) {
            assert(entry_matches(entries[entries.len() - 1], key));
        } else {
            lemma_entry_hits_some(entries.drop_last(), key);
            let j = choose|j: int|
                0 <= j < entries.drop_last().len() && entry_matches(
                    #[trigger] entries.drop_last()[j],
                    key,
                );
            assert(entries[j] == entries.drop_last()[j]);
        }
    }
}

/// The hits of one entry.
proof fn lemma_own_hits(cell: InteriorIndexCellView, key: ValueView)
    ensures
        entry_hits(own_entry(cell), key) == (if index_step(cell, key).hit {
            seq![cell.row_id]
        } else {
            Seq::<i64>::empty()
        }),
{
    if cell.payload.len() > 0 {
        let entry = IndexEntry { payload: cell.payload, row_id: cell.row_id };
        assert(own_entry(cell) == seq![entry]);
        assert(seq![entry].drop_last() =~= Seq::<IndexEntry>::empty());
        assert(seq![entry].last() == entry);
        assert(entry_hits(seq![entry].drop_last(), key) == Seq::<i64>::empty());
        assert(entry_matches(entry, key) == index_step(cell, key).hit);
        if entry_matches(entry, key) {
            assert(Seq::<i64>::empty().push(cell.row_id) =~= seq![cell.row_id]);
        }
    }
}

/// The hits on a leaf page are the hits among its entries.
proof fn lemma_leaf_entry_hits(cells: Seq<CellView>, key: ValueView)
    ensures
        leaf_hits(cells, key) == entry_hits(leaf_entries(cells), key),
    decreases cells.len(),
{
    if cells.len() > 0 {
        lemma_leaf_entry_hits(cells.drop_last(), key);
        match cells.last() {
            CellView::LeafIndex(cell) => {
                let entry = IndexEntry { payload: cell.payload, row_id: cell.row_id };
                let before = leaf_entries(cells.drop_last());
                assert(before.push(entry).drop_last() =~= before);
                assert(before.push(entry).last() == entry);
            },
            _ => {},
        }
    }
}

/// A key that a value equals is at most what the value is at most.
pub proof fn lemma_key_bound(value: ValueView, bound: ValueView, key: ValueView)
    requires
        value_eq(value, key),
        value_at_most(value, bound),
    ensures
        value_ge(bound, key),
{
}

/// In an index that is in order, a probe for `key` below a page finds the
/// row id of every entry for `key` below that page, once for each entry and
/// in the order of the entries.
pub proof fn lemma_probe_complete(
    file: Seq<u8>,
    header: Header,
    index: int,
    key: ValueView,
    depth: nat,
)
    requires
        spec_index_entries(file, header, index, depth) is Ok,
        spec_index_ordered(file, header, index, depth),
    ensures
        spec_index_probe(file, header, index, key, depth) == Ok::<Seq<i64>, MyError>(
            entry_hits(spec_index_entries(file, header, index, depth)->Ok_0, key),
        ),
    decreases depth, 0nat,
{
    let page = spec_page(file, header, index + 1)->Ok_0;
    if page.page_type == BTreePageType::IndexLeaf {
        lemma_leaf_entry_hits(page.cells, key);
    } else if page.page_type == BTreePageType::IndexInterior {
        lemma_page_steps(page.cells, key);
        lemma_steps_complete(file, header, interior_cells(page.cells), key, (depth - 1) as nat);
    }
}

/// In an index that is in order, a probe for `key` at interior cells finds
/// the row id of every entry for `key` in the cells and below them.
pub proof fn lemma_steps_complete(
    file: Seq<u8>,
    header: Header,
    cells: Seq<InteriorIndexCellView>,
    key: ValueView,
    depth: nat,
)
    requires
        spec_cells_entries(file, header, cells, depth) is Ok,
        spec_cells_ordered(file, header, cells, depth),
    ensures
        spec_probe_steps(file, header, steps_of(cells, key), key, depth) == Ok::<
            Seq<i64>,
            MyError,
        >(entry_hits(spec_cells_entries(file, header, cells, depth)->Ok_0, key)),
    decreases depth, 1 + cells.len(),
{
    if cells.len() > 0 {
        let steps = steps_of(cells, key);
        let step = steps[0];
        let child = cells[0].child_page as int;
        assert(step == index_step(cells[0], key));
        assert(steps.drop_first() =~= steps_of(cells.drop_first(), key));
        let below_entries = spec_index_entries(file, header, child, depth)->Ok_0;
        let rest_entries = spec_cells_entries(file, header, cells.drop_first(), depth)->Ok_0;
        let below = if step.descend {
            spec_index_probe(file, header, child, key, depth)
        } else {
            Ok(Seq::empty())
        };
        if step.descend {
            lemma_probe_complete(file, header, child, key, depth);
        } else {
            assert forall|j: int| 0 <= j < below_entries.len() implies !entry_matches(
                #[trigger] below_entries[j],
                key,
            ) by {
                if entry_matches(below_entries[j], key) {
                    lemma_key_bound(below_entries[j].payload[0], cells[0].payload[0], key);
                }
            }
            lemma_entry_hits_none(below_entries, key);
        }
        assert(below == Ok::<Seq<i64>, MyError>(entry_hits(below_entries, key)));
        lemma_own_hits(cells[0], key);
        lemma_steps_complete(file, header, cells.drop_first(), key, depth);
        lemma_entry_hits_concat(below_entries, own_entry(cells[0]), key);
        lemma_entry_hits_concat(below_entries + own_entry(cells[0]), rest_entries, key);
    }
}

/// In an index that is in order, a search for `key` returns the row id of
/// every entry of the index whose first key value equals `key`, once for
/// each such entry, in ascending order.
pub proof fn lemma_search_index_finds_all(
    file: Seq<u8>,
    header: Header,
    index_root: usize,
    key: ValueView,
)
    requires
        spec_index_entries(
            file,
            header,
            index_root - 1,
            spec_page_count(file, header) as nat,
        ) is Ok,
        spec_index_ordered(file, header, index_root - 1, spec_page_count(file, header) as nat),
    ensures
        spec_search_index(file, header, index_root, key) == Ok::<Seq<i64>, MyError>(
            sorted_ascending(
                entry_hits(
                    spec_index_entries(
                        file,
                        header,
                        index_root - 1,
                        spec_page_count(file, header) as nat,
                    )->Ok_0,
                    key,
                ),
            ),
        ),
{
    lemma_probe_complete(file, header, index_root - 1, key, spec_page_count(file, header) as nat);
}

/// Among entries of which no two have the same first key value, at most
/// one is for a given key.
pub proof fn lemma_unique_entries_one_hit(entries: Seq<IndexEntry>, key: ValueView)
    requires
        unique_entries(entries),
    ensures
        entry_hits(entries, key).len() <= 1,
    decreases entries.len(),
{
    if entries.len() > 0 {
        let front = entries.drop_last();
        assert forall|i: int, j: int|
            0 <= i < j < front.len() && (#[trigger] front[i]).payload.len() > 0 && (
            #[trigger] front[j]).payload.len() > 0 implies front[i].payload[0]
            != front[j].payload[0] by {
            assert(front[i] == entries[i] && front[j] == entries[j]);
        }
        lemma_unique_entries_one_hit(front, key);
        if entry_matches(entries.last(), key) && entry_hits(front, key).len() > 0 {
            lemma_entry_hits_some(front, key);
            let i = choose|i: int| 0 <= i < front.len() && entry_matches(#[trigger] front[i], key);
            assert(front[i] == entries[i]);
            let j = entries.len() - 1;
            assert(entries[i].payload[0] != entries[j].payload[0]);
            assert(false);
        }
    }
}

/// In a unique index that is in order, a search for a key returns at most
/// one row id.
pub proof fn lemma_unique_index_one_row(
    file: Seq<u8>,
    header: Header,
    index_root: usize,
    key: ValueView,
)
    requires
        spec_index_entries(
            file,
            header,
            index_root - 1,
            spec_page_count(file, header) as nat,
        ) is Ok,
        spec_index_ordered(file, header, index_root - 1, spec_page_count(file, header) as nat),
        unique_entries(
            spec_index_entries(
                file,
                header,
                index_root - 1,
                spec_page_count(file, header) as nat,
            )->Ok_0,
        ),
    ensures
        spec_search_index(file, header, index_root, key) is Ok,
        spec_search_index(file, header, index_root, key)->Ok_0.len() <= 1,
{
    broadcast use vstd::seq_lib::group_to_multiset_ensures;

    let entries = spec_index_entries(
        file,
        header,
        index_root - 1,
        spec_page_count(file, header) as nat,
    )->Ok_0;
    lemma_search_index_finds_all(file, header, index_root, key);
    lemma_unique_entries_one_hit(entries, key);
    let hits = entry_hits(entries, key);
    hits.lemma_sort_by_ensures(ascending());
    assert(sorted_ascending(hits).to_multiset().len() == hits.to_multiset().len());
    assert(sorted_ascending(hits).len() == hits.len());
}

/// No two entries have the same row id.
pub open spec fn distinct_rows(entries: Seq<IndexEntry>) -> bool {
    forall|i: int, j: int|
        0 <= i < j < entries.len() ==> (#[trigger] entries[i]).row_id != (
        #[trigger] entries[j]).row_id
}

/// In a unique index that is in order and has one entry for every row,
/// the searches for two different keys both succeed, each returns at most
/// one row id, and the two return no row id in common.
pub proof fn lemma_unique_index_keys_apart(
    file: Seq<u8>,
    header: Header,
    index_root: usize,
    first_key: ValueView,
    second_key: ValueView,
)
    requires
        first_key != second_key,
        spec_index_entries(
            file,
            header,
            index_root - 1,
            spec_page_count(file, header) as nat,
        ) is Ok,
        spec_index_ordered(file, header, index_root - 1, spec_page_count(file, header) as nat),
        unique_entries(
            spec_index_entries(
                file,
                header,
                index_root - 1,
                spec_page_count(file, header) as nat,
            )->Ok_0,
        ),
        distinct_rows(
            spec_index_entries(
                file,
                header,
                index_root - 1,
                spec_page_count(file, header) as nat,
            )->Ok_0,
        ),
    ensures
        spec_search_index(file, header, index_root, first_key) is Ok,
        spec_search_index(file, header, index_root, second_key) is Ok,
        spec_search_index(file, header, index_root, first_key)->Ok_0.len() <= 1,
        spec_search_index(file, header, index_root, second_key)->Ok_0.len() <= 1,
        forall|id: i64|
            !(spec_search_index(file, header, index_root, first_key)->Ok_0.contains(id)
                && #[trigger] spec_search_index(file, header, index_root, second_key)->Ok_0.contains(
                id,
            )),
{
    lemma_unique_index_one_row(file, header, index_root, first_key);
    lemma_unique_index_one_row(file, header, index_root, second_key);
    lemma_different_keys_share_no_row(file, header, index_root, first_key, second_key);
}

} // verus!
