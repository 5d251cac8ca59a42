//! Tables as search trees: where the keys of the routing cells bound the row
//! ids below them, looking rows up by row id finds what reading the whole
//! table finds.

use crate::btree::{
    above, at_most, page_routing, page_rows, row_in, spec_children_by_ids,
    spec_children_rows, spec_rows_by_ids, spec_table_rows,
};
use crate::cell::{InteriorTableCell, LeafTableCellView};
use crate::database::{payloads, spec_by_row_ids, spec_full_table, spec_search_index};
use crate::error::MyError;
use crate::header::Header;
use crate::page_type::BTreePageType;
use crate::query::{row_matches, spec_indexed_rows, spec_scanned_rows};
use crate::record::ValueView;
use crate::sorting::lemma_filter_member;
use crate::sqlite::{spec_page, spec_page_count};
use vstd::prelude::*;

verus! {

/// Every row has a row id above `low` and at most `high`.
pub open spec fn rows_in_range(rows: Seq<LeafTableCellView>, low: int, high: int) -> bool {
    forall|i: int| 0 <= i < rows.len() ==> low < (#[trigger] rows[i]).row_id <= high
}

/// The larger of two bounds.
pub open spec fn upper(a: int, b: int) -> int {
    if a < b {
        b
    } else {
        a
    }
}

/// The smaller of two bounds.
pub open spec fn lower(a: int, b: int) -> int {
    if a < b {
        a
    } else {
        b
    }
}

/// The table b-tree below the page with zero-based index `index` is a
/// search tree for the row ids above `low` and up to `high`: the rows of a
/// leaf have their row ids in that range, and below an interior page the
/// rows of each child lie above the key of the routing cell before it and at
/// most at its own key.
pub open spec fn spec_in_range(
    file: Seq<u8>,
    header: Header,
    index: int,
    low: int,
    high: int,
    depth: nat,
) -> bool
    decreases depth, 0nat,
{
    match spec_page(file, header, index + 1) {
        Err(_) => true,
        Ok(page) => match page.page_type {
            BTreePageType::TableLeaf => rows_in_range(page_rows(page.cells), low, high),
            BTreePageType::TableInterior => depth > 0 ==> spec_children_in_range(
                file,
                header,
                page_routing(page.cells),
                low,
                high,
                (depth - 1) as nat,
            ),
            _ => true,
        },
    }
}

/// The children of the routing cells share the range out in the order of
/// the cells: each child gets what is left of the range up to its key.
pub open spec fn spec_children_in_range(
    file: Seq<u8>,
    header: Header,
    routing: Seq<InteriorTableCell>,
    low: int,
    high: int,
    depth: nat,
) -> bool
    decreases depth, 1 + routing.len(),
{
    if routing.len() == 0 {
        true
    } else {
        let key = routing[0].left_ptr as int;
        &&& spec_in_range(file, header, routing[0].child_page as int, low, lower(key, high), depth)
        &&& spec_children_in_range(
            file,
            header,
            routing.drop_first(),
            upper(key, low),
            high,
            depth,
        )
    }
}

/// The table with root page `root_page` is a search tree.
pub open spec fn spec_search_tree(file: Seq<u8>, header: Header, root_page: usize) -> bool {
    spec_in_range(
        file,
        header,
        root_page - 1,
        i64::MIN - 1,
        i64::MAX as int,
        spec_page_count(file, header) as nat,
    )
}

/// Two tests that agree on the elements of a sequence keep the same
/// elements.
pub proof fn lemma_filter_same<A>(a: Seq<A>, p: spec_fn(A) -> bool, q: spec_fn(A) -> bool)
    requires
        forall|i: int| 0 <= i < a.len() ==> p(#[trigger] a[i]) == q(a[i]),
    ensures
        a.filter(p) == a.filter(q),
    decreases a.len(),
{
    reveal(Seq::filter);
    if a.len() > 0 {
        assert forall|i: int| 0 <= i < a.drop_last().len() implies p(#[trigger] a.drop_last()[i])
            == q(a.drop_last()[i]) by {
            assert(a.drop_last()[i] == a[i]);
        }
        lemma_filter_same(a.drop_last(), p, q);
        assert(p(a[a.len() - 1]) == q(a[a.len() - 1]));
    }
}

/// A test that no element passes keeps nothing.
pub proof fn lemma_filter_none<A>(a: Seq<A>, p: spec_fn(A) -> bool)
    requires
        forall|i: int| 0 <= i < a.len() ==> !p(#[trigger] a[i]),
    ensures
        a.filter(p) == Seq::<A>::empty(),
    decreases a.len(),
{
    reveal(Seq::filter);
    if a.len() > 0 {
        assert forall|i: int| 0 <= i < a.drop_last().len() implies !p(
            #[trigger] a.drop_last()[i],
        ) by {
            assert(a.drop_last()[i] == a[i]);
        }
        lemma_filter_none(a.drop_last(), p);
        assert(!p(a[a.len() - 1]));
    } else {
        assert(a =~= Seq::<A>::empty());
    }
}

/// The ids that a child gets are the ids at most its key.
pub proof fn lemma_ids_at_most(ids: Seq<i64>, key: i64, id: i64)
    ensures
        ids.filter(at_most(key)).contains(id) <==> ids.contains(id) && id <= key,
{
    if ids.filter(at_most(key)).contains(id) {
        lemma_filter_member(ids, at_most(key), id);
    }
    if ids.contains(id) && id <= key {
        let i = choose|i: int| 0 <= i < ids.len() && ids[i] == id;
        ids.lemma_filter_contains(at_most(key), i);
    }
}

/// The ids that are left for later children are the ids above the key.
pub proof fn lemma_ids_above(ids: Seq<i64>, key: i64, id: i64)
    ensures
        ids.filter(above(key)).contains(id) <==> ids.contains(id) && id > key,
{
    if ids.filter(above(key)).contains(id) {
        lemma_filter_member(ids, above(key), id);
    }
    if ids.contains(id) && id > key {
        let i = choose|i: int| 0 <= i < ids.len() && ids[i] == id;
        ids.lemma_filter_contains(above(key), i);
    }
}

/// The rows read below a page of a search tree lie in its range.
pub proof fn lemma_rows_in_range(
    file: Seq<u8>,
    header: Header,
    index: int,
    low: int,
    high: int,
    depth: nat,
)
    requires
        spec_in_range(file, header, index, low, high, depth),
        spec_table_rows(file, header, index, depth) is Ok,
    ensures
        rows_in_range(spec_table_rows(file, header, index, depth)->Ok_0, low, high),
    decreases depth, 0nat,
{
    let page = spec_page(file, header, index + 1)->Ok_0;
    if page.page_type == BTreePageType::TableInterior {
        lemma_children_rows_in_range(
            file,
            header,
            page_routing(page.cells),
            low,
            high,
            (depth - 1) as nat,
        );
    }
}

/// The rows read below the routing cells of a search tree lie in its range.
pub proof fn lemma_children_rows_in_range(
    file: Seq<u8>,
    header: Header,
    routing: Seq<InteriorTableCell>,
    low: int,
    high: int,
    depth: nat,
)
    requires
        spec_children_in_range(file, header, routing, low, high, depth),
        spec_children_rows(file, header, routing, depth) is Ok,
    ensures
        rows_in_range(spec_children_rows(file, header, routing, depth)->Ok_0, low, high),
    decreases depth, 1 + routing.len(),
{
    if routing.len() > 0 {
        let key = routing[0].left_ptr as int;
        let first = spec_table_rows(file, header, routing[0].child_page as int, depth)->Ok_0;
        let rest = spec_children_rows(file, header, routing.drop_first(), depth)->Ok_0;
        lemma_rows_in_range(file, header, routing[0].child_page as int, low, lower(key, high), depth);
        lemma_children_rows_in_range(
            file,
            header,
            routing.drop_first(),
            upper(key, low),
            high,
            depth,
        );
        let all = spec_children_rows(file, header, routing, depth)->Ok_0;
        assert(all == first + rest);
        assert forall|i: int| 0 <= i < all.len() implies low < (#[trigger] all[i]).row_id
            <= high by {
            if i < first.len() {
                assert(all[i] == first[i]);
            } else {
                assert(all[i] == rest[i - first.len()]);
            }
        }
    }
}

/// Below a page of a search tree, the rows found for a list of row ids are
/// the rows that a full read finds with one of those row ids.
pub proof fn lemma_rows_by_ids(
    file: Seq<u8>,
    header: Header,
    index: int,
    ids: Seq<i64>,
    low: int,
    high: int,
    depth: nat,
)
    requires
        spec_in_range(file, header, index, low, high, depth),
        spec_table_rows(file, header, index, depth) is Ok,
    ensures
        spec_rows_by_ids(file, header, index, ids, depth) == Ok::<
            Seq<LeafTableCellView>,
            MyError,
        >(spec_table_rows(file, header, index, depth)->Ok_0.filter(row_in(ids))),
    decreases depth, 0nat,
{
    let page = spec_page(file, header, index + 1)->Ok_0;
    if page.page_type == BTreePageType::TableInterior {
        lemma_children_by_ids(
            file,
            header,
            page_routing(page.cells),
            ids,
            low,
            high,
            (depth - 1) as nat,
        );
    }
}

/// Below the routing cells of a search tree, the rows found for a list of
/// row ids are the rows that a full read finds with one of those row ids.
pub proof fn lemma_children_by_ids(
    file: Seq<u8>,
    header: Header,
    routing: Seq<InteriorTableCell>,
    ids: Seq<i64>,
    low: int,
    high: int,
    depth: nat,
)
    requires
        spec_children_in_range(file, header, routing, low, high, depth),
        spec_children_rows(file, header, routing, depth) is Ok,
    ensures
        spec_children_by_ids(file, header, routing, ids, depth) == Ok::<
            Seq<LeafTableCellView>,
            MyError,
        >(spec_children_rows(file, header, routing, depth)->Ok_0.filter(row_in(ids))),
    decreases depth, 1 + routing.len(),
{
    reveal(Seq::filter);
    if routing.len() > 0 {
        let key = routing[0].left_ptr;
        let child = routing[0].child_page as int;
        let here = ids.filter(at_most(key));
        let later = ids.filter(above(key));
        let first = spec_table_rows(file, header, child, depth)->Ok_0;
        let rest = spec_children_rows(file, header, routing.drop_first(), depth)->Ok_0;
        lemma_rows_in_range(file, header, child, low, lower(key as int, high), depth);
        lemma_children_rows_in_range(
            file,
            header,
            routing.drop_first(),
            upper(key as int, low),
            high,
            depth,
        );
        // the rows of the first child
        assert forall|i: int| 0 <= i < first.len() implies row_in(here)(#[trigger] first[i])
            == row_in(ids)(first[i]) by {
            lemma_ids_at_most(ids, key, first[i].row_id);
        }
        lemma_filter_same(first, row_in(here), row_in(ids));
        let found_first = if here.len() > 0 {
            spec_rows_by_ids(file, header, child, here, depth)
        } else {
            Ok(Seq::empty())
        };
        if here.len() > 0 {
            lemma_rows_by_ids(file, header, child, here, low, lower(key as int, high), depth);
        } else {
            assert forall|i: int| 0 <= i < first.len() implies !row_in(here)(
                #[trigger] first[i],
            ) by {}
            lemma_filter_none(first, row_in(here));
        }
        assert(found_first == Ok::<Seq<LeafTableCellView>, MyError>(first.filter(row_in(ids))));
        // the rows of the children behind it
        assert forall|i: int| 0 <= i < rest.len() implies row_in(later)(#[trigger] rest[i])
            == row_in(ids)(rest[i]) by {
            lemma_ids_above(ids, key, rest[i].row_id);
        }
        lemma_filter_same(rest, row_in(later), row_in(ids));
        lemma_children_by_ids(
            file,
            header,
            routing.drop_first(),
            later,
            upper(key as int, low),
            high,
            depth,
        );
        Seq::filter_distributes_over_add(first, rest, row_in(ids));
    }
}

/// In a table that is a search tree, looking rows up by row id finds
/// exactly the rows of the table with one of the row ids, in the order of
/// the table.
pub proof fn lemma_by_row_ids_is_filtered_table(
    file: Seq<u8>,
    header: Header,
    root_page: usize,
    ids: Seq<i64>,
)
    requires
        spec_full_table(file, header, root_page) is Ok,
        spec_search_tree(file, header, root_page),
    ensures
        spec_by_row_ids(file, header, root_page, ids) == Ok::<Seq<Seq<ValueView>>, MyError>(
            payloads(
                spec_table_rows(
                    file,
                    header,
                    root_page - 1,
                    spec_page_count(file, header) as nat,
                )->Ok_0.filter(row_in(ids)),
            ),
        ),
{
    lemma_rows_by_ids(
        file,
        header,
        root_page - 1,
        ids,
        i64::MIN - 1,
        i64::MAX as int,
        spec_page_count(file, header) as nat,
    );
}

/// The payloads of the rows that pass a test on rows are the payloads that
/// pass a test on payloads, if the two tests agree on every row.
pub proof fn lemma_payloads_of_filtered(
    rows: Seq<LeafTableCellView>,
    p: spec_fn(LeafTableCellView) -> bool,
    q: spec_fn(Seq<ValueView>) -> bool,
)
    requires
        forall|i: int| 0 <= i < rows.len() ==> p(#[trigger] rows[i]) == q(rows[i].payload),
    ensures
        payloads(rows.filter(p)) == payloads(rows).filter(q),
    decreases rows.len(),
{
    reveal(Seq::filter);
    if rows.len() > 0 {
        let front = rows.drop_last();
        assert forall|i: int| 0 <= i < front.len() implies p(#[trigger] front[i]) == q(
            front[i].payload,
        ) by {
            assert(front[i] == rows[i]);
        }
        lemma_payloads_of_filtered(front, p, q);
        assert(payloads(rows).drop_last() =~= payloads(front));
        assert(payloads(rows).last() == rows.last().payload);
        assert(p(rows[rows.len() - 1]) == q(rows[rows.len() - 1].payload));
        if p(rows.last()) {
            assert(payloads(front.filter(p).push(rows.last())) =~= payloads(front.filter(p)).push(
                rows.last().payload,
            ));
        }
    } else {
        assert(payloads(rows.filter(p)) =~= payloads(rows).filter(q));
    }
}

/// The two ways to find the rows whose column equals a key give the same
/// rows in the same order, where both succeed, the table is a search tree
/// and the index lists exactly the row ids of the rows whose column equals
/// the key.
pub proof fn lemma_indexed_path_is_scan_path(
    file: Seq<u8>,
    header: Header,
    index_root: usize,
    table_root: usize,
    column: int,
    key: ValueView,
)
    requires
        spec_full_table(file, header, table_root) is Ok,
        spec_search_index(file, header, index_root, key) is Ok,
        spec_search_tree(file, header, table_root),
        ({
            let rows = spec_table_rows(
                file,
                header,
                table_root - 1,
                spec_page_count(file, header) as nat,
            )->Ok_0;
            let ids = spec_search_index(file, header, index_root, key)->Ok_0;
            forall|i: int|
                0 <= i < rows.len() ==> (ids.contains((#[trigger] rows[i]).row_id)
                    <==> row_matches(column, key)(rows[i].payload))
        }),
    ensures
        spec_indexed_rows(file, header, index_root, table_root, key) == spec_scanned_rows(
            file,
            header,
            table_root,
            column,
            key,
        ),
        spec_indexed_rows(file, header, index_root, table_root, key) is Ok,
        spec_indexed_rows(file, header, index_root, table_root, key)->Ok_0.to_multiset()
            == spec_scanned_rows(file, header, table_root, column, key)->Ok_0.to_multiset(),
{
    let rows = spec_table_rows(
        file,
        header,
        table_root - 1,
        spec_page_count(file, header) as nat,
    )->Ok_0;
    let ids = spec_search_index(file, header, index_root, key)->Ok_0;
    lemma_by_row_ids_is_filtered_table(file, header, table_root, ids);
    lemma_payloads_of_filtered(rows, row_in(ids), row_matches(column, key));
}

/// Row ids go up from each row to the next.
pub open spec fn rows_ascend(rows: Seq<LeafTableCellView>) -> bool {
    forall|i: int, j: int|
        0 <= i < j < rows.len() ==> (#[trigger] rows[i]).row_id < (#[trigger] rows[j]).row_id
}

/// On every leaf below the page with zero-based index `index` the rows
/// stand in ascending order of their row ids.
pub open spec fn spec_leaves_ascend(file: Seq<u8>, header: Header, index: int, depth: nat) -> bool
    decreases depth, 0nat,
{
    match spec_page(file, header, index + 1) {
        Err(_) => true,
        Ok(page) => match page.page_type {
            BTreePageType::TableLeaf => rows_ascend(page_rows(page.cells)),
            BTreePageType::TableInterior => depth > 0 ==> spec_children_leaves_ascend(
                file,
                header,
                page_routing(page.cells),
                (depth - 1) as nat,
            ),
            _ => true,
        },
    }
}

/// On every leaf below the routing cells the rows stand in ascending order
/// of their row ids.
pub open spec fn spec_children_leaves_ascend(
    file: Seq<u8>,
    header: Header,
    routing: Seq<InteriorTableCell>,
    depth: nat,
) -> bool
    decreases depth, 1 + routing.len(),
{
    if routing.len() == 0 {
        true
    } else {
        &&& spec_leaves_ascend(file, header, routing[0].child_page as int, depth)
        &&& spec_children_leaves_ascend(file, header, routing.drop_first(), depth)
    }
}

/// A full read of a search tree whose leaves are in order gives the rows in
/// ascending order of their row ids.
pub proof fn lemma_rows_ascend(
    file: Seq<u8>,
    header: Header,
    index: int,
    low: int,
    high: int,
    depth: nat,
)
    requires
        spec_in_range(file, header, index, low, high, depth),
        spec_leaves_ascend(file, header, index, depth),
        spec_table_rows(file, header, index, depth) is Ok,
    ensures
        rows_ascend(spec_table_rows(file, header, index, depth)->Ok_0),
    decreases depth, 0nat,
{
    let page = spec_page(file, header, index + 1)->Ok_0;
    if page.page_type == BTreePageType::TableInterior {
        lemma_children_rows_ascend(
            file,
            header,
            page_routing(page.cells),
            low,
            high,
            (depth - 1) as nat,
        );
    }
}

/// The rows below the routing cells of a search tree whose leaves are in
/// order come in ascending order of their row ids.
pub proof fn lemma_children_rows_ascend(
    file: Seq<u8>,
    header: Header,
    routing: Seq<InteriorTableCell>,
    low: int,
    high: int,
    depth: nat,
)
    requires
        spec_children_in_range(file, header, routing, low, high, depth),
        spec_children_leaves_ascend(file, header, routing, depth),
        spec_children_rows(file, header, routing, depth) is Ok,
    ensures
        rows_ascend(spec_children_rows(file, header, routing, depth)->Ok_0),
    decreases depth, 1 + routing.len(),
{
    if routing.len() > 0 {
        let key = routing[0].left_ptr as int;
        let child = routing[0].child_page as int;
        let first = spec_table_rows(file, header, child, depth)->Ok_0;
        let rest = spec_children_rows(file, header, routing.drop_first(), depth)->Ok_0;
        lemma_rows_in_range(file, header, child, low, lower(key, high), depth);
        lemma_children_rows_in_range(
            file,
            header,
            routing.drop_first(),
            upper(key, low),
            high,
            depth,
        );
        lemma_rows_ascend(file, header, child, low, lower(key, high), depth);
        lemma_children_rows_ascend(
            file,
            header,
            routing.drop_first(),
            upper(key, low),
            high,
            depth,
        );
        let all = spec_children_rows(file, header, routing, depth)->Ok_0;
        assert(all == first + rest);
        assert forall|i: int, j: int| 0 <= i < j < all.len() implies (#[trigger] all[i]).row_id < (
        #[trigger] all[j]).row_id by {
            if j < first.len() {
                assert(all[i] == first[i] && all[j] == first[j]);
            } else if i >= first.len() {
                assert(all[i] == rest[i - first.len()] && all[j] == rest[j - first.len()]);
            } else {
                assert(all[i] == first[i] && all[j] == rest[j - first.len()]);
            }
        }
    }
}

} // verus!
