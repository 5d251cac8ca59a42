//! B-tree pages: the page header, the cell pointer array and the cells.

use crate::bytes::{byte_at, count_be_u16, spec_be_u16, spec_be_u16_array, spec_be_u32, u16_at, u32_at};
use crate::cell::{
    cell_kind, page_index, spec_cell, spec_page_index, Cell, CellView, InteriorIndexCell,
    InteriorIndexCellView, InteriorTableCell,
};
use crate::error::MyError;
use crate::header::TextEncoding;
use crate::page_type::{spec_btree_page_type, BTreePageType, PageType};
use crate::record::{Record, ValueView};
use crate::sorting::{sort_by_key, sort_descending, sorted_by_key, sorted_descending};
use vstd::prelude::*;
use vstd::slice::slice_subrange;

verus! {

/// The fields of a b-tree page header.
#[derive(Clone, Copy, Debug, PartialEq, Eq, Structural)]
pub struct PageHeader {
    pub page_type: BTreePageType,
    /// Offset of the first freeblock, or zero.
    pub first_freeblock: u16,
    /// The number of cells on the page.
    pub cell_count: u16,
    /// Where the cell content area starts.
    pub cell_content_start: usize,
    /// The number of fragmented free bytes in the cell content area.
    pub fragmented_free_bytes: u8,
    /// The number of the right-most child page, on interior pages.
    pub right_most_pointer: Option<u32>,
}

/// A decoded b-tree page. The cells of a leaf page stand in the order of
/// their offsets, last in the page first. The cells of an interior page end
/// with an entry for the right-most child: on a table page it has the
/// largest key there is and the cells are in ascending order of their keys;
/// on an index page it has no key values.
#[derive(Debug)]
pub struct Page {
    pub page_type: BTreePageType,
    pub cells: Vec<Cell>,
}

pub struct PageView {
    pub page_type: BTreePageType,
    pub cells: Seq<CellView>,
}

/// The views of a sequence of cells, one for one.
pub open spec fn cells_view(cells: Seq<Cell>) -> Seq<CellView> {
    Seq::new(cells.len(), |i: int| cells[i]@)
}

impl View for Page {
    type V = PageView;

    open spec fn view(&self) -> PageView {
        PageView { page_type: self.page_type, cells: cells_view(self.cells@) }
    }
}

/// The length of the page header: twelve bytes with a right-most pointer,
/// eight without.
pub open spec fn spec_header_len(ty: BTreePageType) -> int {
    if ty.spec_is_interior() {
        12
    } else {
        8
    }
}

/// The start of the cell content area that the header field stands for:
/// zero means 65536.
pub open spec fn spec_content_start(raw: u16) -> usize {
    if raw == 0 {
        65536
    } else {
        raw as usize
    }
}

/// The header of the page whose header starts at byte `start`.
pub open spec fn spec_page_header(page: Seq<u8>, start: int) -> Result<PageHeader, MyError> {
    if page.len() < start + 8 {
        Err(MyError::Truncated)
    } else {
        match spec_btree_page_type(page[start]) {
            None => Err(MyError::InvalidPageType(page[start])),
            Some(ty) => if page.len() < start + spec_header_len(ty) {
                Err(MyError::Truncated)
            } else {
                Ok(
                    PageHeader {
                        page_type: ty,
                        first_freeblock: spec_be_u16(page.subrange(start + 1, start + 3)),
                        cell_count: spec_be_u16(page.subrange(start + 3, start + 5)),
                        cell_content_start: spec_content_start(
                            spec_be_u16(page.subrange(start + 5, start + 7)),
                        ),
                        fragmented_free_bytes: page[start + 7],
                        right_most_pointer: if ty.spec_is_interior() {
                            Some(spec_be_u32(page.subrange(start + 8, start + 12)))
                        } else {
                            None
                        },
                    },
                )
            },
        }
    }
}

/// Where the cell pointer array ends.
pub open spec fn spec_pointers_end(header: PageHeader, start: int) -> int {
    start + spec_header_len(header.page_type) + 2 * header.cell_count
}

/// The lowest offset at which a cell may start: behind the page header and
/// the cell pointer array, and not before the cell content area.
pub open spec fn spec_cells_start(header: PageHeader, start: int) -> int {
    if header.cell_content_start < spec_pointers_end(header, start) {
        spec_pointers_end(header, start)
    } else {
        header.cell_content_start as int
    }
}

/// The cell pointer array, as it stands in the page.
pub open spec fn spec_cell_pointers(page: Seq<u8>, start: int, header: PageHeader) -> Seq<u16> {
    spec_be_u16_array(
        page.subrange(start + spec_header_len(header.page_type), spec_pointers_end(header, start)),
        header.cell_count as nat,
    )
}

/// Puts the cells decoded so far in front of what the rest decodes to.
pub open spec fn prepend_cells(done: Seq<CellView>, rest: Result<Seq<CellView>, MyError>) -> Result<
    Seq<CellView>,
    MyError,
> {
    match rest {
        Ok(cells) => Ok(done + cells),
        Err(e) => Err(e),
    }
}

/// The cells at the offsets `pointers`, which go down the page, of a page
/// whose bytes from `end` on have been given to earlier cells. Each offset
/// has to lie at `content_start` or behind it, inside the page and not
/// behind `end`; its cell gets the bytes from the offset up to `end`. A fault in a
/// cell is reported with the offset of the cell.
pub open spec fn spec_carve(
    encoding: TextEncoding,
    ty: BTreePageType,
    page: Seq<u8>,
    content_start: int,
    pointers: Seq<u16>,
    end: int,
) -> Result<Seq<CellView>, MyError>
    decreases pointers.len(),
{
    if pointers.len() == 0 {
        Ok(Seq::empty())
    } else {
        let offset = pointers[0];
        if offset < content_start || offset >= page.len() || offset > end {
            Err(MyError::CellOffsetOutOfBounds(offset as usize))
        } else {
            match spec_cell(encoding, page.subrange(offset as int, end), ty) {
                Err(e) => Err(MyError::AtOffset { offset: offset as usize, fault: Box::new(e) }),
                Ok(cell) => prepend_cells(
                    seq![cell],
                    spec_carve(
                        encoding,
                        ty,
                        page,
                        content_start,
                        pointers.drop_first(),
                        offset as int,
                    ),
                ),
            }
        }
    }
}

/// The routing cells of a table-interior page.
pub open spec fn routing_cells(cells: Seq<CellView>) -> Seq<InteriorTableCell> {
    Seq::new(cells.len(), |i: int| cells[i]->InteriorTable_0)
}

/// Routing cells as cells of a page.
pub open spec fn as_cells(routing: Seq<InteriorTableCell>) -> Seq<CellView> {
    Seq::new(routing.len(), |i: int| CellView::InteriorTable(routing[i]))
}

/// The entry that stands for the right-most child of a table-interior page.
pub open spec fn table_sentinel(child_page: u32) -> InteriorTableCell {
    InteriorTableCell { left_ptr: i64::MAX, child_page }
}

/// The entry that stands for the right-most child of an index-interior page.
pub open spec fn index_sentinel(child_page: u32) -> InteriorIndexCellView {
    InteriorIndexCellView { row_id: i64::MAX, child_page, payload: Seq::empty() }
}

/// The cells that a page exposes, given the cells that stand in it.
pub open spec fn spec_exposed_cells(header: PageHeader, stored: Seq<CellView>) -> Result<
    Seq<CellView>,
    MyError,
> {
    match header.page_type {
        BTreePageType::TableLeaf => Ok(stored),
        BTreePageType::IndexLeaf => Ok(stored),
        BTreePageType::TableInterior => match spec_page_index(header.right_most_pointer->0) {
            Err(e) => Err(e),
            Ok(child) => Ok(
                as_cells(sorted_by_key(routing_cells(stored).push(table_sentinel(child)))),
            ),
        },
        BTreePageType::IndexInterior => match spec_page_index(header.right_most_pointer->0) {
            Err(e) => Err(e),
            Ok(child) => Ok(stored.push(CellView::InteriorIndex(index_sentinel(child)))),
        },
    }
}

/// The page that `page` decodes to when its header starts at byte `start`.
pub open spec fn spec_page_from_bytes(encoding: TextEncoding, page: Seq<u8>, start: int) -> Result<
    PageView,
    MyError,
> {
    match spec_page_header(page, start) {
        Err(e) => Err(e),
        Ok(header) => if header.page_type.spec_is_interior() && spec_page_index(
            header.right_most_pointer->0,
        ) is Err {
            Err(MyError::InvalidRecord)
        } else if page.len() < spec_pointers_end(header, start) || page.len()
            < header.cell_content_start {
            Err(MyError::Truncated)
        } else {
            match spec_carve(
                encoding,
                header.page_type,
                page,
                spec_cells_start(header, start),
                sorted_descending(spec_cell_pointers(page, start, header)),
                page.len() as int,
            ) {
                Err(e) => Err(e),
                Ok(stored) => match spec_exposed_cells(header, stored) {
                    Err(e) => Err(e),
                    Ok(cells) => Ok(PageView { page_type: header.page_type, cells }),
                },
            }
        },
    }
}

/// Cells that decode stand at offsets inside the cell content area and
/// inside the page, one cell for every offset.
pub proof fn lemma_carve_in_bounds(
    encoding: TextEncoding,
    ty: BTreePageType,
    page: Seq<u8>,
    content_start: int,
    pointers: Seq<u16>,
    end: int,
)
    requires
        spec_carve(encoding, ty, page, content_start, pointers, end) is Ok,
    ensures
        spec_carve(encoding, ty, page, content_start, pointers, end)->Ok_0.len()
            == pointers.len(),
        forall|i: int|
            0 <= i < pointers.len() ==> content_start <= #[trigger] pointers[i] < page.len(),
    decreases pointers.len(),
{
    if pointers.len() > 0 {
        let offset = pointers[0];
        lemma_carve_in_bounds(
            encoding,
            ty,
            page,
            content_start,
            pointers.drop_first(),
            offset as int,
        );
        assert forall|i: int| 0 <= i < pointers.len() implies content_start
            <= #[trigger] pointers[i] < page.len() by {
            if i > 0 {
                assert(pointers[i] == pointers.drop_first()[i - 1]);
            }
        }
    }
}

/// On every page that decodes, the cell pointer array has as many entries
/// as the header counts cells, and every cell pointer points behind the
/// page header and the pointer array, into the cell content area and
/// inside the page.
pub proof fn lemma_cell_pointers_in_bounds(encoding: TextEncoding, page: Seq<u8>, start: int)
    requires
        spec_page_from_bytes(encoding, page, start) is Ok,
    ensures
        spec_page_header(page, start) is Ok,
        ({
            let header = spec_page_header(page, start)->Ok_0;
            let pointers = spec_cell_pointers(page, start, header);
            &&& pointers.len() == header.cell_count
            &&& forall|i: int|
                0 <= i < pointers.len() ==> {
                    &&& spec_pointers_end(header, start) <= #[trigger] pointers[i]
                    &&& header.cell_content_start <= pointers[i]
                    &&& pointers[i] < page.len()
                }
        }),
{
    broadcast use vstd::seq_lib::group_to_multiset_ensures;

    let header = spec_page_header(page, start)->Ok_0;
    let pointers = spec_cell_pointers(page, start, header);
    let sorted = sorted_descending(pointers);
    pointers.lemma_sort_by_ensures(crate::sorting::descending());
    lemma_carve_in_bounds(
        encoding,
        header.page_type,
        page,
        spec_cells_start(header, start),
        sorted,
        page.len() as int,
    );
    assert forall|i: int| 0 <= i < pointers.len() implies spec_cells_start(header, start)
        <= #[trigger] pointers[i] < page.len() by {
        assert(pointers.contains(pointers[i]));
        assert(pointers.to_multiset().count(pointers[i]) > 0);
        assert(sorted.to_multiset().count(pointers[i]) > 0);
        assert(sorted.contains(pointers[i]));
        let j = choose|j: int| 0 <= j < sorted.len() && sorted[j] == pointers[i];
        assert(spec_cells_start(header, start) <= sorted[j] < page.len());
    }
}

impl PageHeader {
    /// Reads the page header that starts at byte `start` of `page`.
    pub fn parse(page: &[u8], start: usize) -> (r: Result<PageHeader, MyError>)
        requires
            start <= 100,
        ensures
            r == spec_page_header(page@, start as int),
    {
        if page.len() < start + 8 {
            return Err(MyError::Truncated);
        }
        let code = byte_at(page, start);
        let ty = match PageType::try_from(code) {
            Ok(PageType::BTree(ty)) => ty,
            Ok(_) => { return Err(MyError::InvalidPageType(code)); },
            Err(e) => { return Err(e); },
        };
        let interior = ty.is_interior();
        if interior && page.len() < start + 12 {
            return Err(MyError::Truncated);
        }
        let raw_content_start = u16_at(page, start + 5);
        Ok(
            PageHeader {
                page_type: ty,
                first_freeblock: u16_at(page, start + 1),
                cell_count: u16_at(page, start + 3),
                cell_content_start: if raw_content_start == 0 {
                    65536
                } else {
                    raw_content_start as usize
                },
                fragmented_free_bytes: byte_at(page, start + 7),
                right_most_pointer: if interior {
                    Some(u32_at(page, start + 8))
                } else {
                    None
                },
            },
        )
    }
}

proof fn lemma_prepend_cells_push(
    done: Seq<CellView>,
    cell: CellView,
    rest: Result<Seq<CellView>, MyError>,
)
    ensures
        prepend_cells(done, prepend_cells(seq![cell], rest)) == prepend_cells(done.push(cell), rest),
{
    match rest {
        Ok(more) => {
            assert(done + (seq![cell] + more) =~= done.push(cell) + more);
        },
        Err(_) => {},
    }
}

/// Decodes the cells at the offsets `pointers`, from the end of the page
/// towards its start.
fn carve(
    encoding: TextEncoding,
    ty: BTreePageType,
    page: &[u8],
    content_start: usize,
    pointers: &Vec<u16>,
) -> (r: Result<Vec<Cell>, MyError>)
    ensures
        match r {
            Ok(cells) => {
                &&& spec_carve(
                    encoding,
                    ty,
                    page@,
                    content_start as int,
                    pointers@,
                    page@.len() as int,
                ) == Ok::<Seq<CellView>, MyError>(cells_view(cells@))
                &&& forall|j: int| 0 <= j < cells@.len() ==> cell_kind(#[trigger] cells@[j]@) == ty
            },
            Err(e) => spec_carve(
                encoding,
                ty,
                page@,
                content_start as int,
                pointers@,
                page@.len() as int,
            ) == Err::<Seq<CellView>, MyError>(e),
        },
{
    let mut cells: Vec<Cell> = Vec::new();
    let mut end: usize = page.len();
    let mut i: usize = 0;
    let ghost whole = spec_carve(
        encoding,
        ty,
        page@,
        content_start as int,
        pointers@,
        page@.len() as int,
    );
    proof {
        assert(pointers@.subrange(0, pointers@.len() as int) =~= pointers@);
        match whole {
            Ok(all) => {
                assert(cells_view(cells@) + all =~= all);
            },
            Err(_) => {},
        }
    }
    while i < pointers.len()
        invariant
            i <= pointers@.len(),
            end <= page@.len(),
            whole == spec_carve(
                encoding,
                ty,
                page@,
                content_start as int,
                pointers@,
                page@.len() as int,
            ),
            whole == prepend_cells(
                cells_view(cells@),
                spec_carve(
                    encoding,
                    ty,
                    page@,
                    content_start as int,
                    pointers@.subrange(i as int, pointers@.len() as int),
                    end as int,
                ),
            ),
            forall|j: int| 0 <= j < cells@.len() ==> cell_kind(#[trigger] cells@[j]@) == ty,
        decreases pointers@.len() - i,
    {
        let ghost before = cells_view(cells@);
        let ghost left = pointers@.subrange(i as int, pointers@.len() as int);
        let offset = pointers[i] as usize;
        assert(left[0] == pointers@[i as int]);
        if offset < content_start || offset >= page.len() || offset > end {
            return Err(MyError::CellOffsetOutOfBounds(offset));
        }
        let cell = match Cell::parse(encoding, slice_subrange(page, offset, end), ty) {
            Ok(cell) => cell,
            Err(e) => { return Err(MyError::AtOffset { offset, fault: Box::new(e) }); },
        };
        let ghost rest_result = spec_carve(
            encoding,
            ty,
            page@,
            content_start as int,
            left.drop_first(),
            offset as int,
        );
        assert(left.drop_first() =~= pointers@.subrange(i + 1, pointers@.len() as int));
        let ghost cell_view = cell@;
        cells.push(cell);
        proof {
            assert(cells_view(cells@) =~= before.push(cell_view));
            lemma_prepend_cells_push(before, cell_view, rest_result);
        }
        end = offset;
        i = i + 1;
    }
    assert(cells_view(cells@) + Seq::<CellView>::empty() =~= cells_view(cells@));
    Ok(cells)
}

/// Puts the entry for the right-most child behind the routing cells of a
/// table-interior page and sorts all of them by key.
fn expose_table_interior(stored: Vec<Cell>, child: u32) -> (r: Vec<Cell>)
    requires
        forall|j: int|
            0 <= j < stored@.len() ==> cell_kind(#[trigger] stored@[j]@)
                == BTreePageType::TableInterior,
    ensures
        cells_view(r@) == as_cells(
            sorted_by_key(routing_cells(cells_view(stored@)).push(table_sentinel(child))),
        ),
{
    let mut routing: Vec<InteriorTableCell> = Vec::new();
    let mut i: usize = 0;
    while i < stored.len()
        invariant
            i <= stored@.len(),
            routing@.len() == i,
            forall|j: int|
                0 <= j < stored@.len() ==> cell_kind(#[trigger] stored@[j]@)
                    == BTreePageType::TableInterior,
            forall|j: int| 0 <= j < i ==> routing@[j] == (#[trigger] stored@[j]@)->InteriorTable_0,
        decreases stored@.len() - i,
    {
        assert(cell_kind(stored@[i as int]@) == BTreePageType::TableInterior);
        match &stored[i] {
            Cell::InteriorTable(cell) => {
                routing.push(*cell);
            },
            _ => {
                assert(false);
            },
        }
        i = i + 1;
    }
    routing.push(InteriorTableCell { left_ptr: i64::MAX, child_page: child });
    assert(routing@ =~= routing_cells(cells_view(stored@)).push(table_sentinel(child)));
    let sorted = sort_by_key(routing);
    let mut cells: Vec<Cell> = Vec::new();
    let mut k: usize = 0;
    while k < sorted.len()
        invariant
            k <= sorted@.len(),
            cells@.len() == k,
            forall|j: int| 0 <= j < k ==> (#[trigger] cells@[j])@ == CellView::InteriorTable(sorted@[j]),
        decreases sorted@.len() - k,
    {
        cells.push(Cell::InteriorTable(sorted[k]));
        k = k + 1;
    }
    assert(cells_view(cells@) =~= as_cells(sorted@));
    cells
}

impl Page {
    /// Decodes a page from its bytes. `header_start` is where the page
    /// header starts: at byte 100 on the first page of the file, at byte 0
    /// on every other page.
    pub fn from_bytes(encoding: TextEncoding, page: &[u8], header_start: usize) -> (r: Result<
        Page,
        MyError,
    >)
        requires
            header_start <= 100,
        ensures
            match r {
                Ok(decoded) => spec_page_from_bytes(encoding, page@, header_start as int) == Ok::<
                    PageView,
                    MyError,
                >(decoded@),
                Err(e) => spec_page_from_bytes(encoding, page@, header_start as int) == Err::<
                    PageView,
                    MyError,
                >(e),
            },
    {
        let header = match PageHeader::parse(page, header_start) {
            Ok(header) => header,
            Err(e) => { return Err(e); },
        };
        let ty = header.page_type;
        let mut right_most: u32 = 0;
        if let Some(number) = header.right_most_pointer {
            right_most = match page_index(number) {
                Ok(index) => index,
                Err(e) => { return Err(e); },
            };
        }
        let header_len: usize = if ty.is_interior() {
            12
        } else {
            8
        };
        let count = header.cell_count as usize;
        let pointers_start = header_start + header_len;
        let pointers_end = pointers_start + 2 * count;
        if page.len() < pointers_end || page.len() < header.cell_content_start {
            return Err(MyError::Truncated);
        }
        let mut pointers = match count_be_u16(
            slice_subrange(page, pointers_start, pointers_end),
            count,
        ) {
            Ok((_, pointers)) => pointers,
            Err(e) => { return Err(e); },
        };
        assert(pointers@ == spec_cell_pointers(page@, header_start as int, header));
        sort_descending(&mut pointers);
        let cells_start = if header.cell_content_start < pointers_end {
            pointers_end
        } else {
            header.cell_content_start
        };
        let stored = match carve(encoding, ty, page, cells_start, &pointers) {
            Ok(stored) => stored,
            Err(e) => { return Err(e); },
        };
        let cells = match ty {
            BTreePageType::TableLeaf => stored,
            BTreePageType::IndexLeaf => stored,
            BTreePageType::TableInterior => expose_table_interior(stored, right_most),
            BTreePageType::IndexInterior => {
                let mut cells = stored;
                let ghost before = cells_view(cells@);
                let sentinel = InteriorIndexCell {
                    row_id: i64::MAX,
                    child_page: right_most,
                    payload: Record { values: Vec::new() },
                };
                assert(sentinel@.payload =~= Seq::<ValueView>::empty());
                cells.push(Cell::InteriorIndex(sentinel));
                assert(cells_view(cells@) =~= before.push(
                    CellView::InteriorIndex(index_sentinel(right_most)),
                ));
                cells
            },
        };
        Ok(Page { page_type: ty, cells })
    }

    /// Decodes a page from its bytes; the first page of the file has its
    /// header behind the 100 bytes of the file header.
    pub fn parse(input: &[u8], is_first_page: bool, encoding: TextEncoding) -> (r: Result<
        Page,
        MyError,
    >)
        ensures
            match r {
                Ok(decoded) => spec_page_from_bytes(
                    encoding,
                    input@,
                    if is_first_page {
                        100
                    } else {
                        0
                    },
                ) == Ok::<PageView, MyError>(decoded@),
                Err(e) => spec_page_from_bytes(
                    encoding,
                    input@,
                    if is_first_page {
                        100
                    } else {
                        0
                    },
                ) == Err::<PageView, MyError>(e),
            },
    {
        Page::from_bytes(
            encoding,
            input,
            if is_first_page {
                100
            } else {
                0
            },
        )
    }
}

} // verus!
