//! The database file as a store of pages, with the pages decoded so far.

use crate::error::MyError;
use crate::header::{spec_parse_header, Header};
use crate::page::{spec_page_from_bytes, Page, PageView};
use vstd::prelude::*;
use vstd::slice::slice_subrange;

verus! {

/// A slot of the page cache.
#[derive(Debug)]
pub enum LazyPage {
    Unloaded,
    Loaded(Page),
}

/// An open database: the bytes of the file, its header, and one cache slot
/// for every page.
#[derive(Debug)]
pub struct SQLite {
    pub file: Vec<u8>,
    pub header: Header,
    pub pages: Vec<LazyPage>,
}

/// The number of pages that can be read: as many as the header counts, and
/// no more than the file holds in full.
pub open spec fn spec_page_count(file: Seq<u8>, header: Header) -> int {
    let in_file = file.len() as int / header.page_size as int;
    if header.size_in_pages <= in_file {
        header.size_in_pages as int
    } else {
        in_file
    }
}

/// The page with number `n`, counted from one. Its bytes start at
/// `(n - 1) * page_size`; the reserved bytes at its end are left out; on
/// page one the page header stands behind the file header. A number that
/// names no page of the file is `Truncated`; a fault in the page is
/// reported with the number of the page.
pub open spec fn spec_page(file: Seq<u8>, header: Header, n: int) -> Result<PageView, MyError> {
    if n < 1 || n > spec_page_count(file, header) {
        Err(MyError::Truncated)
    } else {
        match spec_page_from_bytes(
            header.text_encoding,
            file.subrange((n - 1) * header.page_size, (n - 1) * header.page_size
                + header.spec_usable_page_size()),
            if n == 1 {
                100
            } else {
                0
            },
        ) {
            Ok(page) => Ok(page),
            Err(e) => Err(MyError::InPage { page: n as usize, fault: Box::new(e) }),
        }
    }
}

proof fn lemma_page_fits(n: int, page_size: int, len: int)
    by (nonlinear_arith)
    requires
        1 <= n <= len / page_size,
        page_size > 0,
        len >= 0,
    ensures
        0 <= (n - 1) * page_size,
        (n - 1) * page_size + page_size <= len,
{
}

impl SQLite {
    /// The header is the one the file starts with, and every cached page is
    /// what its bytes decode to.
    pub open spec fn wf(&self) -> bool {
        &&& spec_parse_header(self.file@) == Ok::<Header, MyError>(self.header)
        &&& self.header.wf()
        &&& self.pages@.len() == spec_page_count(self.file@, self.header)
        &&& forall|i: int|
            0 <= i < self.pages@.len() ==> (#[trigger] self.pages@[i] matches LazyPage::Loaded(page)
                ==> spec_page(self.file@, self.header, i + 1) == Ok::<PageView, MyError>(page@))
    }

    /// Opens a database on the bytes of its file: reads the header and
    /// starts with an empty page cache.
    pub fn new(file: Vec<u8>) -> (r: Result<SQLite, MyError>)
        ensures
            match r {
                Ok(db) => {
                    &&& db.wf()
                    &&& db.file@ == file@
                    &&& forall|i: int| 0 <= i < db.pages@.len() ==> #[trigger] db.pages@[i] is Unloaded
                },
                Err(e) => spec_parse_header(file@) == Err::<Header, MyError>(e),
            },
    {
        let header = match Header::parse(file.as_slice()) {
            Ok((_, header)) => header,
            Err(e) => { return Err(e); },
        };
        let in_file = file.len() / header.page_size;
        let count = if header.size_in_pages <= in_file {
            header.size_in_pages
        } else {
            in_file
        };
        let mut pages: Vec<LazyPage> = Vec::new();
        let mut i: usize = 0;
        while i < count
            invariant
                i <= count,
                pages@.len() == i,
                forall|j: int| 0 <= j < i ==> #[trigger] pages@[j] is Unloaded,
            decreases count - i,
        {
            pages.push(LazyPage::Unloaded);
            i = i + 1;
        }
        Ok(SQLite { file, header, pages })
    }

    /// Decodes the page with number `n` unless the cache already has it.
    pub fn load(&mut self, n: usize) -> (r: Result<(), MyError>)
        requires
            old(self).wf(),
        ensures
            final(self).wf(),
            final(self).file@ == old(self).file@,
            final(self).header == old(self).header,
            forall|i: int|
                0 <= i < old(self).pages@.len() && old(self).pages@[i] is Loaded
                    ==> final(self).pages@[i] == old(self).pages@[i],
            match r {
                Ok(_) => 1 <= n <= final(self).pages@.len() && final(self).pages@[n - 1] is Loaded,
                Err(e) => spec_page(old(self).file@, old(self).header, n as int) == Err::<
                    PageView,
                    MyError,
                >(e),
            },
    {
        if n < 1 || n > self.pages.len() {
            return Err(MyError::Truncated);
        }
        if let LazyPage::Loaded(_) = &self.pages[n - 1] {
            return Ok(());
        }
        let page_size = self.header.page_size;
        let usable = self.header.usable_page_size();
        let len = self.file.len();
        assert(n <= len as int / page_size as int);
        assert((n - 1) * page_size + page_size <= len) by {
            lemma_page_fits(n as int, page_size as int, len as int);
        }
        let start = (n - 1) * page_size;
        let bytes = slice_subrange(self.file.as_slice(), start, start + usable);
        let header_start: usize = if n == 1 {
            100
        } else {
            0
        };
        let page = match Page::from_bytes(self.header.text_encoding, bytes, header_start) {
            Ok(page) => page,
            Err(e) => { return Err(MyError::InPage { page: n, fault: Box::new(e) }); },
        };
        self.pages.set(n - 1, LazyPage::Loaded(page));
        Ok(())
    }

    /// The page with number `n`, counted from one, decoded on first use and
    /// kept from then on.
    pub fn page(&mut self, n: usize) -> (r: Result<&Page, MyError>)
        requires
            old(self).wf(),
        ensures
            final(self).wf(),
            final(self).file@ == old(self).file@,
            final(self).header == old(self).header,
            forall|i: int|
                0 <= i < old(self).pages@.len() && old(self).pages@[i] is Loaded
                    ==> final(self).pages@[i] == old(self).pages@[i],
            r is Ok ==> 1 <= n <= final(self).pages@.len() && final(self).pages@[n - 1] is Loaded,
            match r {
                Ok(page) => spec_page(old(self).file@, old(self).header, n as int) == Ok::<
                    PageView,
                    MyError,
                >(page@),
                Err(e) => spec_page(old(self).file@, old(self).header, n as int) == Err::<
                    PageView,
                    MyError,
                >(e),
            },
    {
        match self.load(n) {
            Ok(_) => {},
            Err(e) => { return Err(e); },
        }
        match &self.pages[n - 1] {
            LazyPage::Loaded(page) => Ok(page),
            LazyPage::Unloaded => Err(MyError::Truncated),
        }
    }
}

} // verus!
