//! Walking the b-trees of a database: all rows of a table, the rows with
//! given row ids, and the row ids that an index has for a key.

use crate::cell::{
    Cell, CellView, InteriorIndexCellView, InteriorTableCell, LeafIndexCellView, LeafTableCell,
    LeafTableCellView,
};
use crate::error::MyError;
use crate::header::Header;
use crate::page::{cells_view, Page};
use crate::page_type::BTreePageType;
use crate::record::{value_eq, value_ge, Value, ValueView};
use crate::sorting::lemma_filter_last;
use crate::sqlite::{spec_page, SQLite};
use vstd::prelude::*;

verus! {

/// The byte that stands for a kind of page in a page header.
pub open spec fn type_code(ty: BTreePageType) -> u8 {
    match ty {
        BTreePageType::IndexInterior => 0x02,
        BTreePageType::TableInterior => 0x05,
        BTreePageType::IndexLeaf => 0x0a,
        BTreePageType::TableLeaf => 0x0d,
    }
}

/// The byte that stands for a kind of page in a page header.
pub fn code_of(ty: BTreePageType) -> (r: u8)
    ensures
        r == type_code(ty),
{
    match ty {
        BTreePageType::IndexInterior => 0x02,
        BTreePageType::TableInterior => 0x05,
        BTreePageType::IndexLeaf => 0x0a,
        BTreePageType::TableLeaf => 0x0d,
    }
}

/// One result after the other; the first error is the error of the whole.
pub open spec fn concat<T>(first: Result<Seq<T>, MyError>, second: Result<Seq<T>, MyError>) -> Result<
    Seq<T>,
    MyError,
> {
    match first {
        Err(e) => Err(e),
        Ok(a) => match second {
            Err(e) => Err(e),
            Ok(b) => Ok(a + b),
        },
    }
}

/// The views of a sequence of rows, one for one.
pub open spec fn rows_view(rows: Seq<LeafTableCell>) -> Seq<LeafTableCellView> {
    Seq::new(rows.len(), |i: int| rows[i]@)
}

/// The rows among the cells of a page, in the order of the cells.
pub open spec fn page_rows(cells: Seq<CellView>) -> Seq<LeafTableCellView>
    decreases cells.len(),
{
    if cells.len() == 0 {
        Seq::empty()
    } else {
        match cells.last() {
            CellView::LeafTable(row) => page_rows(cells.drop_last()).push(row),
            _ => page_rows(cells.drop_last()),
        }
    }
}

/// The routing cells among the cells of a page, in the order of the cells.
pub open spec fn page_routing(cells: Seq<CellView>) -> Seq<InteriorTableCell>
    decreases cells.len(),
{
    if cells.len() == 0 {
        Seq::empty()
    } else {
        match cells.last() {
            CellView::InteriorTable(cell) => page_routing(cells.drop_last()).push(cell),
            _ => page_routing(cells.drop_last()),
        }
    }
}

/// All rows of the table b-tree below the page with zero-based index
/// `index`, leaf by leaf in the order of the routing cells. `depth` is how
/// many levels of children may be followed.
pub open spec fn spec_table_rows(file: Seq<u8>, header: Header, index: int, depth: nat) -> Result<
    Seq<LeafTableCellView>,
    MyError,
>
    decreases depth, 0nat,
{
    match spec_page(file, header, index + 1) {
        Err(e) => Err(e),
        Ok(page) => match page.page_type {
            BTreePageType::TableLeaf => Ok(page_rows(page.cells)),
            BTreePageType::TableInterior => if depth == 0 {
                Err(MyError::TreeTooDeep)
            } else {
                spec_children_rows(file, header, page_routing(page.cells), (depth - 1) as nat)
            },
            _ => Err(MyError::InvalidPageType(type_code(page.page_type))),
        },
    }
}

/// The rows below each routing cell in turn.
pub open spec fn spec_children_rows(
    file: Seq<u8>,
    header: Header,
    routing: Seq<InteriorTableCell>,
    depth: nat,
) -> Result<Seq<LeafTableCellView>, MyError>
    decreases depth, 1 + routing.len(),
{
    if routing.len() == 0 {
        Ok(Seq::empty())
    } else {
        concat(
            spec_table_rows(file, header, routing[0].child_page as int, depth),
            spec_children_rows(file, header, routing.drop_first(), depth),
        )
    }
}

/// The row ids that are at most `key`.
pub open spec fn at_most(key: i64) -> spec_fn(i64) -> bool {
    |id: i64| id <= key
}

/// The row ids that are above `key`.
pub open spec fn above(key: i64) -> spec_fn(i64) -> bool {
    |id: i64| id > key
}

/// The rows whose row id is one of `ids`.
pub open spec fn row_in(ids: Seq<i64>) -> spec_fn(LeafTableCellView) -> bool {
    |row: LeafTableCellView| ids.contains(row.row_id)
}

/// The rows with a row id in `ids` that are found below the page with
/// zero-based index `index` when only those children are visited whose key
/// range can hold one of the ids looked for.
pub open spec fn spec_rows_by_ids(
    file: Seq<u8>,
    header: Header,
    index: int,
    ids: Seq<i64>,
    depth: nat,
) -> Result<Seq<LeafTableCellView>, MyError>
    decreases depth, 0nat,
{
    match spec_page(file, header, index + 1) {
        Err(e) => Err(e),
        Ok(page) => match page.page_type {
            BTreePageType::TableLeaf => Ok(page_rows(page.cells).filter(row_in(ids))),
            BTreePageType::TableInterior => if depth == 0 {
                Err(MyError::TreeTooDeep)
            } else {
                spec_children_by_ids(
                    file,
                    header,
                    page_routing(page.cells),
                    ids,
                    (depth - 1) as nat,
                )
            },
            _ => Err(MyError::InvalidPageType(type_code(page.page_type))),
        },
    }
}

/// The ids are dealt out to the routing cells in turn: a cell gets the ids
/// that are at most its key and that no earlier cell got. A child that gets
/// no id is not visited.
pub open spec fn spec_children_by_ids(
    file: Seq<u8>,
    header: Header,
    routing: Seq<InteriorTableCell>,
    ids: Seq<i64>,
    depth: nat,
) -> Result<Seq<LeafTableCellView>, MyError>
    decreases depth, 1 + routing.len(),
{
    if routing.len() == 0 {
        Ok(Seq::empty())
    } else {
        let here = ids.filter(at_most(routing[0].left_ptr));
        let later = ids.filter(above(routing[0].left_ptr));
        concat(
            if here.len() > 0 {
                spec_rows_by_ids(file, header, routing[0].child_page as int, here, depth)
            } else {
                Ok(Seq::empty())
            },
            spec_children_by_ids(file, header, routing.drop_first(), later, depth),
        )
    }
}

/// What an index probe does at one cell of an interior page.
#[derive(Clone, Copy, Debug, PartialEq, Eq, Structural)]
pub struct IndexStep {
    /// The zero-based index of the child page.
    pub child_page: u32,
    /// Whether the child can hold the key and is visited.
    pub descend: bool,
    /// Whether the cell itself holds the key.
    pub hit: bool,
    /// The row id of the cell's entry.
    pub row_id: i64,
}

/// What a probe for `key` does at an interior cell: the child is visited if
/// the first key value of the cell is at least `key`, or if the cell has no
/// key values, as the entry for the right-most child has; the cell is a hit
/// if its first key value equals `key`.
pub open spec fn index_step(cell: InteriorIndexCellView, key: ValueView) -> IndexStep {
    IndexStep {
        child_page: cell.child_page,
        descend: cell.payload.len() == 0 || value_ge(cell.payload[0], key),
        hit: cell.payload.len() > 0 && value_eq(cell.payload[0], key),
        row_id: cell.row_id,
    }
}

/// The steps of a probe at the interior index cells of a page.
pub open spec fn page_steps(cells: Seq<CellView>, key: ValueView) -> Seq<IndexStep>
    decreases cells.len(),
{
    if cells.len() == 0 {
        Seq::empty()
    } else {
        match cells.last() {
            CellView::InteriorIndex(cell) => page_steps(cells.drop_last(), key).push(
                index_step(cell, key),
            ),
            _ => page_steps(cells.drop_last(), key),
        }
    }
}

/// Whether an index entry on a leaf page is an entry for `key`.
pub open spec fn leaf_hit(cell: LeafIndexCellView, key: ValueView) -> bool {
    cell.payload.len() > 0 && value_eq(cell.payload[0], key)
}

/// The row ids of the leaf index entries of a page whose first key value
/// equals `key`.
pub open spec fn leaf_hits(cells: Seq<CellView>, key: ValueView) -> Seq<i64>
    decreases cells.len(),
{
    if cells.len() == 0 {
        Seq::empty()
    } else {
        match cells.last() {
            CellView::LeafIndex(cell) => if leaf_hit(cell, key) {
                leaf_hits(cells.drop_last(), key).push(cell.row_id)
            } else {
                leaf_hits(cells.drop_last(), key)
            },
            _ => leaf_hits(cells.drop_last(), key),
        }
    }
}

/// The row ids that the index b-tree below the page with zero-based index
/// `index` has for `key`, in the order in which the probe meets them.
pub open spec fn spec_index_probe(
    file: Seq<u8>,
    header: Header,
    index: int,
    key: ValueView,
    depth: nat,
) -> Result<Seq<i64>, MyError>
    decreases depth, 0nat,
{
    match spec_page(file, header, index + 1) {
        Err(e) => Err(e),
        Ok(page) => match page.page_type {
            BTreePageType::IndexLeaf => Ok(leaf_hits(page.cells, key)),
            BTreePageType::IndexInterior => if depth == 0 {
                Err(MyError::TreeTooDeep)
            } else {
                spec_probe_steps(
                    file,
                    header,
                    page_steps(page.cells, key),
                    key,
                    (depth - 1) as nat,
                )
            },
            _ => Err(MyError::InvalidPageType(type_code(page.page_type))),
        },
    }
}

/// The row ids found at each step in turn: those of the child, if it is
/// visited, then that of the cell, if it is a hit.
pub open spec fn spec_probe_steps(
    file: Seq<u8>,
    header: Header,
    steps: Seq<IndexStep>,
    key: ValueView,
    depth: nat,
) -> Result<Seq<i64>, MyError>
    decreases depth, 1 + steps.len(),
{
    if steps.len() == 0 {
        Ok(Seq::empty())
    } else {
        concat(
            concat(
                if steps[0].descend {
                    spec_index_probe(file, header, steps[0].child_page as int, key, depth)
                } else {
                    Ok(Seq::empty())
                },
                Ok(
                    if steps[0].hit {
                        seq![steps[0].row_id]
                    } else {
                        Seq::empty()
                    },
                ),
            ),
            spec_probe_steps(file, header, steps.drop_first(), key, depth),
        )
    }
}

/// Putting `x` behind what is done and then the rest is the same as putting
/// the rest behind what is done with `x`.
pub proof fn lemma_concat_assoc<T>(
    done: Seq<T>,
    first: Result<Seq<T>, MyError>,
    second: Result<Seq<T>, MyError>,
)
    ensures
        concat(Ok(done), concat(first, second)) == concat(concat(Ok(done), first), second),
{
    match first {
        Ok(a) => match second {
            Ok(b) => {
                assert(done + (a + b) =~= (done + a) + b);
            },
            Err(_) => {},
        },
        Err(_) => {},
    }
}

proof fn lemma_concat_empty<T>(rows: Seq<T>)
    ensures
        concat(Ok(rows), Ok(Seq::<T>::empty())) == Ok::<Seq<T>, MyError>(rows),
        concat(Ok(Seq::<T>::empty()), Ok(rows)) == Ok::<Seq<T>, MyError>(rows),
{
    assert(rows + Seq::<T>::empty() =~= rows);
    assert(Seq::<T>::empty() + rows =~= rows);
}

/// Copies the rows out of a page.
fn collect_rows(page: &Page) -> (r: Vec<LeafTableCell>)
    ensures
        rows_view(r@) == page_rows(page@.cells),
{
    let mut rows: Vec<LeafTableCell> = Vec::new();
    let mut i: usize = 0;
    let ghost cells = page@.cells;
    assert(cells.subrange(0, 0) =~= Seq::<CellView>::empty());
    assert(rows_view(rows@) =~= Seq::<LeafTableCellView>::empty());
    while i < page.cells.len()
        invariant
            i <= page.cells@.len(),
            cells == cells_view(page.cells@),
            rows_view(rows@) == page_rows(cells.subrange(0, i as int)),
        decreases page.cells@.len() - i,
    {
        let ghost before = rows_view(rows@);
        assert(cells.subrange(0, i + 1).drop_last() =~= cells.subrange(0, i as int));
        assert(cells.subrange(0, i + 1).last() == page.cells@[i as int]@);
        match &page.cells[i] {
            Cell::LeafTable(row) => {
                rows.push(row.clone());
                assert(rows_view(rows@) =~= before.push(row@));
            },
            _ => {},
        }
        i = i + 1;
    }
    assert(cells.subrange(0, i as int) =~= cells);
    rows
}

/// Copies the rows with a row id in `ids` out of a page.
fn collect_rows_by_ids(page: &Page, ids: &Vec<i64>) -> (r: Vec<LeafTableCell>)
    ensures
        rows_view(r@) == page_rows(page@.cells).filter(row_in(ids@)),
{
    let mut rows: Vec<LeafTableCell> = Vec::new();
    let mut i: usize = 0;
    let ghost cells = page@.cells;
    let ghost wanted = row_in(ids@);
    proof {
        assert(cells.subrange(0, 0) =~= Seq::<CellView>::empty());
        reveal(Seq::filter);
        assert(rows_view(rows@) =~= page_rows(cells.subrange(0, 0)).filter(wanted));
    }
    while i < page.cells.len()
        invariant
            i <= page.cells@.len(),
            cells == cells_view(page.cells@),
            wanted == row_in(ids@),
            rows_view(rows@) == page_rows(cells.subrange(0, i as int)).filter(wanted),
        decreases page.cells@.len() - i,
    {
        let ghost before = rows_view(rows@);
        let ghost seen = page_rows(cells.subrange(0, i as int));
        assert(cells.subrange(0, i + 1).drop_last() =~= cells.subrange(0, i as int));
        assert(cells.subrange(0, i + 1).last() == page.cells@[i as int]@);
        match &page.cells[i] {
            Cell::LeafTable(row) => {
                proof {
                    lemma_filter_last(seen.push(row@), wanted);
                    assert(seen.push(row@).drop_last() =~= seen);
                }
                if contains_id(ids, row.row_id) {
                    rows.push(row.clone());
                    assert(rows_view(rows@) =~= before.push(row@));
                }
            },
            _ => {},
        }
        i = i + 1;
    }
    assert(cells.subrange(0, i as int) =~= cells);
    rows
}

/// Copies the routing cells out of a page.
fn collect_routing(page: &Page) -> (r: Vec<InteriorTableCell>)
    ensures
        r@ == page_routing(page@.cells),
{
    let mut routing: Vec<InteriorTableCell> = Vec::new();
    let mut i: usize = 0;
    let ghost cells = page@.cells;
    assert(cells.subrange(0, 0) =~= Seq::<CellView>::empty());
    while i < page.cells.len()
        invariant
            i <= page.cells@.len(),
            cells == cells_view(page.cells@),
            routing@ == page_routing(cells.subrange(0, i as int)),
        decreases page.cells@.len() - i,
    {
        assert(cells.subrange(0, i + 1).drop_last() =~= cells.subrange(0, i as int));
        assert(cells.subrange(0, i + 1).last() == page.cells@[i as int]@);
        match &page.cells[i] {
            Cell::InteriorTable(cell) => {
                routing.push(*cell);
            },
            _ => {},
        }
        i = i + 1;
    }
    assert(cells.subrange(0, i as int) =~= cells);
    routing
}

/// Works out the steps of a probe for `key` at the cells of a page.
fn collect_steps(page: &Page, key: &Value) -> (r: Vec<IndexStep>)
    ensures
        r@ == page_steps(page@.cells, key@),
{
    let mut steps: Vec<IndexStep> = Vec::new();
    let mut i: usize = 0;
    let ghost cells = page@.cells;
    assert(cells.subrange(0, 0) =~= Seq::<CellView>::empty());
    while i < page.cells.len()
        invariant
            i <= page.cells@.len(),
            cells == cells_view(page.cells@),
            steps@ == page_steps(cells.subrange(0, i as int), key@),
        decreases page.cells@.len() - i,
    {
        assert(cells.subrange(0, i + 1).drop_last() =~= cells.subrange(0, i as int));
        assert(cells.subrange(0, i + 1).last() == page.cells@[i as int]@);
        match &page.cells[i] {
            Cell::InteriorIndex(cell) => {
                let keyed = cell.payload.values.len() > 0;
                let descend = !keyed || cell.payload.values[0].at_least(key);
                let hit = keyed && cell.payload.values[0].equals(key);
                steps.push(
                    IndexStep { child_page: cell.child_page, descend, hit, row_id: cell.row_id },
                );
            },
            _ => {},
        }
        i = i + 1;
    }
    assert(cells.subrange(0, i as int) =~= cells);
    steps
}

/// Collects the row ids of the leaf entries of a page that are for `key`.
fn collect_hits(page: &Page, key: &Value) -> (r: Vec<i64>)
    ensures
        r@ == leaf_hits(page@.cells, key@),
{
    let mut hits: Vec<i64> = Vec::new();
    let mut i: usize = 0;
    let ghost cells = page@.cells;
    assert(cells.subrange(0, 0) =~= Seq::<CellView>::empty());
    while i < page.cells.len()
        invariant
            i <= page.cells@.len(),
            cells == cells_view(page.cells@),
            hits@ == leaf_hits(cells.subrange(0, i as int), key@),
        decreases page.cells@.len() - i,
    {
        assert(cells.subrange(0, i + 1).drop_last() =~= cells.subrange(0, i as int));
        assert(cells.subrange(0, i + 1).last() == page.cells@[i as int]@);
        match &page.cells[i] {
            Cell::LeafIndex(cell) => {
                if cell.payload.values.len() > 0 && cell.payload.values[0].equals(key) {
                    hits.push(cell.row_id);
                }
            },
            _ => {},
        }
        i = i + 1;
    }
    assert(cells.subrange(0, i as int) =~= cells);
    hits
}

/// Whether `id` is one of `ids`.
pub fn contains_id(ids: &Vec<i64>, id: i64) -> (r: bool)
    ensures
        r == ids@.contains(id),
{
    let mut i: usize = 0;
    while i < ids.len()
        invariant
            i <= ids@.len(),
            forall|j: int| 0 <= j < i ==> ids@[j] != id,
        decreases ids@.len() - i,
    {
        if ids[i] == id {
            return true;
        }
        i = i + 1;
    }
    false
}

/// Deals the ids out between a child with key `key` and the children
/// behind it.
pub fn split_ids(ids: &Vec<i64>, key: i64) -> (r: (Vec<i64>, Vec<i64>))
    ensures
        r.0@ == ids@.filter(at_most(key)),
        r.1@ == ids@.filter(above(key)),
{
    let mut here: Vec<i64> = Vec::new();
    let mut later: Vec<i64> = Vec::new();
    let mut i: usize = 0;
    proof {
        reveal(Seq::filter);
        assert(ids@.subrange(0, 0) =~= Seq::<i64>::empty());
    }
    while i < ids.len()
        invariant
            i <= ids@.len(),
            here@ == ids@.subrange(0, i as int).filter(at_most(key)),
            later@ == ids@.subrange(0, i as int).filter(above(key)),
        decreases ids@.len() - i,
    {
        proof {
            assert(ids@.subrange(0, i + 1).drop_last() =~= ids@.subrange(0, i as int));
            lemma_filter_last(ids@.subrange(0, i + 1), at_most(key));
            lemma_filter_last(ids@.subrange(0, i + 1), above(key));
        }
        if ids[i] <= key {
            here.push(ids[i]);
        } else {
            later.push(ids[i]);
        }
        i = i + 1;
    }
    assert(ids@.subrange(0, i as int) =~= ids@);
    (here, later)
}

/// Reads all rows of the table b-tree below the page with zero-based index
/// `index`, following at most `depth` levels of children.
pub fn table_rows(db: &mut SQLite, index: usize, depth: usize) -> (r: Result<
    Vec<LeafTableCell>,
    MyError,
>)
    requires
        old(db).wf(),
    ensures
        final(db).wf(),
        final(db).file@ == old(db).file@,
        final(db).header == old(db).header,
        match r {
            Ok(rows) => spec_table_rows(old(db).file@, old(db).header, index as int, depth as nat)
                == Ok::<Seq<LeafTableCellView>, MyError>(rows_view(rows@)),
            Err(e) => spec_table_rows(old(db).file@, old(db).header, index as int, depth as nat)
                == Err::<Seq<LeafTableCellView>, MyError>(e),
        },
    decreases depth,
{
    if index >= db.pages.len() {
        return Err(MyError::Truncated);
    }
    let routing = {
        let page = match db.page(index + 1) {
            Ok(page) => page,
            Err(e) => { return Err(e); },
        };
        match page.page_type {
            BTreePageType::TableLeaf => { return Ok(collect_rows(page)); },
            BTreePageType::TableInterior => collect_routing(page),
            other => { return Err(MyError::InvalidPageType(code_of(other))); },
        }
    };
    if depth == 0 {
        return Err(MyError::TreeTooDeep);
    }
    let ghost file = db.file@;
    let ghost header = db.header;
    let mut rows: Vec<LeafTableCell> = Vec::new();
    let mut i: usize = 0;
    let ghost whole = spec_children_rows(file, header, routing@, (depth - 1) as nat);
    let ghost target = spec_table_rows(file, header, index as int, depth as nat);
    proof {
        assert(routing@.subrange(0, routing@.len() as int) =~= routing@);
        match whole {
            Ok(all) => {
                lemma_concat_empty(all);
            },
            Err(_) => {},
        }
        assert(rows_view(rows@) =~= Seq::<LeafTableCellView>::empty());
    }
    while i < routing.len()
        invariant
            i <= routing@.len(),
            depth > 0,
            db.wf(),
            db.file@ == file,
            db.header == header,
            file == old(db).file@,
            header == old(db).header,
            target == whole,
            target == spec_table_rows(file, header, index as int, depth as nat),
            whole == concat(
                Ok(rows_view(rows@)),
                spec_children_rows(
                    file,
                    header,
                    routing@.subrange(i as int, routing@.len() as int),
                    (depth - 1) as nat,
                ),
            ),
        decreases routing@.len() - i,
    {
        let ghost left = routing@.subrange(i as int, routing@.len() as int);
        let ghost before = rows_view(rows@);
        assert(left[0] == routing@[i as int]);
        assert(left.drop_first() =~= routing@.subrange(i + 1, routing@.len() as int));
        let ghost below = spec_table_rows(
            file,
            header,
            routing@[i as int].child_page as int,
            (depth - 1) as nat,
        );
        let ghost rest = spec_children_rows(file, header, left.drop_first(), (depth - 1) as nat);
        proof {
            lemma_concat_assoc(before, below, rest);
        }
        let mut found = match table_rows(db, routing[i].child_page as usize, depth - 1) {
            Ok(found) => found,
            Err(e) => { return Err(e); },
        };
        let ghost found_view = rows_view(found@);
        rows.append(&mut found);
        assert(rows_view(rows@) =~= before + found_view);
        i = i + 1;
    }
    proof {
        lemma_concat_empty(rows_view(rows@));
    }
    Ok(rows)
}

/// Reads the rows with a row id in `ids` below the page with zero-based
/// index `index`, visiting only the children whose key range can hold one
/// of them.
pub fn rows_by_ids(db: &mut SQLite, index: usize, ids: &Vec<i64>, depth: usize) -> (r: Result<
    Vec<LeafTableCell>,
    MyError,
>)
    requires
        old(db).wf(),
    ensures
        final(db).wf(),
        final(db).file@ == old(db).file@,
        final(db).header == old(db).header,
        match r {
            Ok(rows) => spec_rows_by_ids(
                old(db).file@,
                old(db).header,
                index as int,
                ids@,
                depth as nat,
            ) == Ok::<Seq<LeafTableCellView>, MyError>(rows_view(rows@)),
            Err(e) => spec_rows_by_ids(
                old(db).file@,
                old(db).header,
                index as int,
                ids@,
                depth as nat,
            ) == Err::<Seq<LeafTableCellView>, MyError>(e),
        },
    decreases depth,
{
    if index >= db.pages.len() {
        return Err(MyError::Truncated);
    }
    let routing = {
        let page = match db.page(index + 1) {
            Ok(page) => page,
            Err(e) => { return Err(e); },
        };
        match page.page_type {
            BTreePageType::TableLeaf => { return Ok(collect_rows_by_ids(page, ids)); },
            BTreePageType::TableInterior => collect_routing(page),
            other => { return Err(MyError::InvalidPageType(code_of(other))); },
        }
    };
    if depth == 0 {
        return Err(MyError::TreeTooDeep);
    }
    let ghost file = db.file@;
    let ghost header = db.header;
    let mut rows: Vec<LeafTableCell> = Vec::new();
    let mut left_ids: Vec<i64> = split_ids(ids, i64::MAX).0;
    let mut i: usize = 0;
    let ghost whole = spec_children_by_ids(file, header, routing@, ids@, (depth - 1) as nat);
    let ghost target = spec_rows_by_ids(file, header, index as int, ids@, depth as nat);
    proof {
        assert(routing@.subrange(0, routing@.len() as int) =~= routing@);
        lemma_filter_all(ids@);
        match whole {
            Ok(all) => {
                lemma_concat_empty(all);
            },
            Err(_) => {},
        }
        assert(rows_view(rows@) =~= Seq::<LeafTableCellView>::empty());
    }
    while i < routing.len()
        invariant
            i <= routing@.len(),
            depth > 0,
            db.wf(),
            db.file@ == file,
            db.header == header,
            file == old(db).file@,
            header == old(db).header,
            target == whole,
            target == spec_rows_by_ids(file, header, index as int, ids@, depth as nat),
            whole == concat(
                Ok(rows_view(rows@)),
                spec_children_by_ids(
                    file,
                    header,
                    routing@.subrange(i as int, routing@.len() as int),
                    left_ids@,
                    (depth - 1) as nat,
                ),
            ),
        decreases routing@.len() - i,
    {
        let ghost left = routing@.subrange(i as int, routing@.len() as int);
        let ghost before = rows_view(rows@);
        assert(left[0] == routing@[i as int]);
        assert(left.drop_first() =~= routing@.subrange(i + 1, routing@.len() as int));
        let (here, later) = split_ids(&left_ids, routing[i].left_ptr);
        let ghost below = if here@.len() > 0 {
            spec_rows_by_ids(
                file,
                header,
                routing@[i as int].child_page as int,
                here@,
                (depth - 1) as nat,
            )
        } else {
            Ok(Seq::empty())
        };
        let ghost rest = spec_children_by_ids(
            file,
            header,
            left.drop_first(),
            later@,
            (depth - 1) as nat,
        );
        proof {
            lemma_concat_assoc(before, below, rest);
        }
        if here.len() > 0 {
            let mut found = match rows_by_ids(db, routing[i].child_page as usize, &here, depth - 1) {
                Ok(found) => found,
                Err(e) => { return Err(e); },
            };
            let ghost found_view = rows_view(found@);
            rows.append(&mut found);
            assert(rows_view(rows@) =~= before + found_view);
        } else {
            assert(before + Seq::<LeafTableCellView>::empty() =~= before);
        }
        left_ids = later;
        i = i + 1;
    }
    proof {
        lemma_concat_empty(rows_view(rows@));
    }
    Ok(rows)
}

/// Every row id is at most the largest there is.
proof fn lemma_filter_all(ids: Seq<i64>)
    ensures
        ids.filter(at_most(i64::MAX)) == ids,
    decreases ids.len(),
{
    reveal(Seq::filter);
    if ids.len() > 0 {
        lemma_filter_all(ids.drop_last());
        assert(ids.drop_last().push(ids.last()) =~= ids);
    }
}

/// Looks `key` up in the index b-tree below the page with zero-based index
/// `index` and returns the row ids found, in the order of the probe.
pub fn index_probe(db: &mut SQLite, index: usize, key: &Value, depth: usize) -> (r: Result<
    Vec<i64>,
    MyError,
>)
    requires
        old(db).wf(),
    ensures
        final(db).wf(),
        final(db).file@ == old(db).file@,
        final(db).header == old(db).header,
        match r {
            Ok(ids) => spec_index_probe(
                old(db).file@,
                old(db).header,
                index as int,
                key@,
                depth as nat,
            ) == Ok::<Seq<i64>, MyError>(ids@),
            Err(e) => spec_index_probe(
                old(db).file@,
                old(db).header,
                index as int,
                key@,
                depth as nat,
            ) == Err::<Seq<i64>, MyError>(e),
        },
    decreases depth,
{
    if index >= db.pages.len() {
        return Err(MyError::Truncated);
    }
    let steps = {
        let page = match db.page(index + 1) {
            Ok(page) => page,
            Err(e) => { return Err(e); },
        };
        match page.page_type {
            BTreePageType::IndexLeaf => { return Ok(collect_hits(page, key)); },
            BTreePageType::IndexInterior => collect_steps(page, key),
            other => { return Err(MyError::InvalidPageType(code_of(other))); },
        }
    };
    if depth == 0 {
        return Err(MyError::TreeTooDeep);
    }
    let ghost file = db.file@;
    let ghost header = db.header;
    let mut ids: Vec<i64> = Vec::new();
    let mut i: usize = 0;
    let ghost whole = spec_probe_steps(file, header, steps@, key@, (depth - 1) as nat);
    let ghost target = spec_index_probe(file, header, index as int, key@, depth as nat);
    proof {
        assert(steps@.subrange(0, steps@.len() as int) =~= steps@);
        match whole {
            Ok(all) => {
                lemma_concat_empty(all);
            },
            Err(_) => {},
        }
    }
    while i < steps.len()
        invariant
            i <= steps@.len(),
            depth > 0,
            db.wf(),
            db.file@ == file,
            db.header == header,
            file == old(db).file@,
            header == old(db).header,
            target == whole,
            target == spec_index_probe(file, header, index as int, key@, depth as nat),
            whole == concat(
                Ok(ids@),
                spec_probe_steps(
                    file,
                    header,
                    steps@.subrange(i as int, steps@.len() as int),
                    key@,
                    (depth - 1) as nat,
                ),
            ),
        decreases steps@.len() - i,
    {
        let ghost left = steps@.subrange(i as int, steps@.len() as int);
        let ghost before = ids@;
        let step = steps[i];
        assert(left[0] == step);
        assert(left.drop_first() =~= steps@.subrange(i + 1, steps@.len() as int));
        let ghost below = if step.descend {
            spec_index_probe(file, header, step.child_page as int, key@, (depth - 1) as nat)
        } else {
            Ok(Seq::empty())
        };
        let ghost own: Seq<i64> = if step.hit {
            seq![step.row_id]
        } else {
            Seq::empty()
        };
        let ghost rest = spec_probe_steps(file, header, left.drop_first(), key@, (depth - 1) as nat);
        proof {
            lemma_concat_assoc(before, concat(below, Ok(own)), rest);
            lemma_concat_assoc(before, below, Ok(own));
        }
        if step.descend {
            let mut found = match index_probe(db, step.child_page as usize, key, depth - 1) {
                Ok(found) => found,
                Err(e) => { return Err(e); },
            };
            ids.append(&mut found);
        } else {
            assert(before + Seq::<i64>::empty() =~= before);
        }
        let ghost middle = ids@;
        if step.hit {
            ids.push(step.row_id);
            assert(ids@ =~= middle + seq![step.row_id]);
        } else {
            assert(middle + Seq::<i64>::empty() =~= middle);
        }
        i = i + 1;
    }
    proof {
        lemma_concat_empty(ids@);
    }
    Ok(ids)
}

} // verus!
