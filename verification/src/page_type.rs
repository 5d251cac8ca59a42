//! The kinds of page a database file holds.

use crate::error::MyError;
use vstd::prelude::*;

verus! {

/// What a page of the file is used for.
#[derive(Clone, Copy, Debug, PartialEq, Eq, Structural)]
pub enum PageType {
    /// The lock-byte page.
    LockByte,
    /// A freelist page.
    Freelist(FreelistPageType),
    /// A b-tree page.
    BTree(BTreePageType),
    /// A payload overflow page.
    PayloadOverflow,
    /// A pointer map page.
    PointerMap,
}

/// The two kinds of freelist page.
#[derive(Clone, Copy, Debug, PartialEq, Eq, Structural)]
pub enum FreelistPageType {
    /// A freelist trunk page.
    Trunk,
    /// A freelist leaf page.
    Leaf,
}

/// The four kinds of b-tree page.
#[derive(Clone, Copy, Debug, PartialEq, Eq, Structural)]
pub enum BTreePageType {
    /// A table b-tree interior page.
    TableInterior,
    /// A table b-tree leaf page.
    TableLeaf,
    /// An index b-tree interior page.
    IndexInterior,
    /// An index b-tree leaf page.
    IndexLeaf,
}

/// The b-tree page kind that the first byte of a page header stands for.
pub open spec fn spec_btree_page_type(code: u8) -> Option<BTreePageType> {
    if code == 0x02 {
        Some(BTreePageType::IndexInterior)
    } else if code == 0x05 {
        Some(BTreePageType::TableInterior)
    } else if code == 0x0a {
        Some(BTreePageType::IndexLeaf)
    } else if code == 0x0d {
        Some(BTreePageType::TableLeaf)
    } else {
        None
    }
}

/// The page kind that the first byte of a page header stands for.
pub open spec fn spec_page_type(code: u8) -> Result<PageType, MyError> {
    match spec_btree_page_type(code) {
        Some(ty) => Ok(PageType::BTree(ty)),
        None => Err(MyError::InvalidPageType(code)),
    }
}

impl BTreePageType {
    /// Whether pages of this kind hold child pointers.
    pub open spec fn spec_is_interior(self) -> bool {
        self == BTreePageType::TableInterior || self == BTreePageType::IndexInterior
    }

    /// Whether pages of this kind hold child pointers.
    pub fn is_interior(&self) -> (r: bool)
        ensures
            r == self.spec_is_interior(),
    {
        match self {
            BTreePageType::TableInterior => true,
            BTreePageType::IndexInterior => true,
            _ => false,
        }
    }
}

impl PageType {
    /// The page kind that the first byte of a page header stands for; any
    /// byte but the four b-tree codes is refused.
    pub fn try_from(value: u8) -> (r: Result<PageType, MyError>)
        ensures
            r == spec_page_type(value),
    {
        if value == 0x02 {
            Ok(PageType::BTree(BTreePageType::IndexInterior))
        } else if value == 0x05 {
            Ok(PageType::BTree(BTreePageType::TableInterior))
        } else if value == 0x0a {
            Ok(PageType::BTree(BTreePageType::IndexLeaf))
        } else if value == 0x0d {
            Ok(PageType::BTree(BTreePageType::TableLeaf))
        } else {
            Err(MyError::InvalidPageType(value))
        }
    }
}

} // verus!
