//! The domain that guards the bytes of the pages, and the passes to it.
//!
//! The domain owns the cell of every page that was made under it. A page is
//! reached through a handle and a pass. A read pass is a shared borrow of
//! the domain: any number of them can be held together, and each lets its
//! holder read every cell. A write pass is the one exclusive borrow: while
//! it is held there is no other pass, and it lets its holder change every
//! cell. A write pass serves wherever a read pass is asked for.

use crate::page::{
    page_with_leaf_data, page_with_node, page_without_leaf_data, slot_of, LeafData, Node, PageData,
    NODES_PER_PAGE,
};
use vstd::prelude::*;

verus! {

/// A handle to a page. It is cheap to copy, and every copy reaches the same page.
#[derive(Clone, Copy, Debug, PartialEq, Eq)]
pub struct Page {
    slot: usize,
}

impl Page {
    /// The number of the cell that the handle reaches in its domain.
    pub closed spec fn index(self) -> int {
        self.slot as int
    }

    /// The handle that reaches the cell with the given number.
    pub closed spec fn of_index(index: int) -> Page {
        Page { slot: index as usize }
    }

    /// The handle for a number reaches the cell with that number.
    pub proof fn lemma_index_of(index: int)
        requires
            0 <= index <= usize::MAX,
        ensures
            Page::of_index(index).index() == index,
    {
    }

    /// A handle is known by the number of its cell.
    pub proof fn lemma_of_index(self)
        ensures
            Page::of_index(self.index()) == self,
            0 <= self.index() <= usize::MAX,
    {
    }
}

/// The cells of the pages made under one domain.
pub struct RwPassDomain {
    cells: Vec<PageData>,
}

/// What lets its holder read the pages of a domain: a shared borrow of it.
pub type ReadPass = RwPassDomain;

/// What lets its holder change the pages of a domain: the exclusive borrow of it.
pub type WritePass = RwPassDomain;

impl View for RwPassDomain {
    type V = Seq<Seq<u8>>;

    /// The bytes of each cell, by the number of the cell.
    closed spec fn view(&self) -> Seq<Seq<u8>> {
        Seq::new(self.cells@.len(), |i: int| self.cells@[i]@)
    }
}

impl RwPassDomain {
    /// Whether the page of the handle was made under this domain.
    pub open spec fn protects(&self, page: Page) -> bool {
        0 <= page.index() < self@.len()
    }

    /// A domain without pages.
    pub fn new() -> (r: Self)
        ensures
            r@ == Seq::<Seq<u8>>::empty(),
    {
        let r: Self = Self { cells: Vec::new() };
        assert(r@ =~= Seq::<Seq<u8>>::empty());
        r
    }

    /// Puts a page under the guard of the domain and hands out the handle to it.
    pub fn protect(&mut self, data: PageData) -> (page: Page)
        ensures
            page == Page::of_index(old(self)@.len() as int),
            page.index() == old(self)@.len(),
            final(self)@ == old(self)@.push(data@),
            final(self)@.len() <= usize::MAX,
    {
        let slot: usize = self.cells.len();
        self.cells.push(data);
        assert(self.cells@.len() == self.cells.len());
        assert(self@ =~= old(self)@.push(data@));
        Page { slot }
    }

    /// Whether the page of the handle was made under this domain.
    pub fn holds(&self, page: &Page) -> (r: bool)
        ensures
            r == self.protects(*page),
    {
        page.slot < self.cells.len()
    }

    /// The cell of a page of this domain.
    pub fn page_data(&self, page: &Page) -> (r: &PageData)
        requires
            self.protects(*page),
        ensures
            r@ == self@[page.index()],
    {
        &self.cells[page.slot]
    }
}

impl Page {
    /// Reads the node in the slot `index` of the page.
    pub fn node(&self, read_pass: &ReadPass, index: usize) -> (r: Node)
        requires
            read_pass.protects(*self),
            index < NODES_PER_PAGE,
        ensures
            r@ == slot_of(read_pass@[self.index()], index as int),
    {
        read_pass.cells[self.slot].node(index)
    }

    /// Writes a node into the slot `index` of the page. The slot no longer
    /// counts as leaf data afterwards.
    pub fn set_node(&self, write_pass: &mut WritePass, index: usize, node: Node)
        requires
            old(write_pass).protects(*self),
            index < NODES_PER_PAGE,
        ensures
            final(write_pass)@ == old(write_pass)@.update(
                self.index(),
                page_with_node(old(write_pass)@[self.index()], index as int, node@),
            ),
    {
        let ghost before: Seq<Seq<u8>> = write_pass@;
        let cell: &mut PageData = &mut write_pass.cells[self.slot];
        cell.set_node(index, node);
        assert(write_pass@ =~= before.update(
            self.index(),
            page_with_node(before[self.index()], index as int, node@),
        ));
    }

    /// Writes the data of a leaf into the two slots below it, `left_index`
    /// and the one after, and marks both as leaf data.
    pub fn set_leaf_data(&self, write_pass: &mut WritePass, left_index: usize, leaf_data: LeafData)
        requires
            old(write_pass).protects(*self),
            left_index < NODES_PER_PAGE - 1,
        ensures
            final(write_pass)@ == old(write_pass)@.update(
                self.index(),
                page_with_leaf_data(old(write_pass)@[self.index()], left_index as int, leaf_data),
            ),
    {
        let ghost before: Seq<Seq<u8>> = write_pass@;
        let cell: &mut PageData = &mut write_pass.cells[self.slot];
        cell.set_leaf_data(left_index, leaf_data);
        assert(write_pass@ =~= before.update(
            self.index(),
            page_with_leaf_data(before[self.index()], left_index as int, leaf_data),
        ));
    }

    /// Takes the leaf data away from the two slots `left_index` and the one
    /// after. Each of them that counted as leaf data is zero afterwards.
    pub fn clear_leaf_data(&self, write_pass: &mut WritePass, left_index: usize)
        requires
            old(write_pass).protects(*self),
            left_index < NODES_PER_PAGE - 1,
        ensures
            final(write_pass)@ == old(write_pass)@.update(
                self.index(),
                page_without_leaf_data(old(write_pass)@[self.index()], left_index as int),
            ),
    {
        let ghost before: Seq<Seq<u8>> = write_pass@;
        let cell: &mut PageData = &mut write_pass.cells[self.slot];
        cell.clear_leaf_data(left_index);
        assert(write_pass@ =~= before.update(
            self.index(),
            page_without_leaf_data(before[self.index()], left_index as int),
        ));
    }
}

} // verus!
