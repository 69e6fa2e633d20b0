//! What the cache asks of the store when pages are written out.

use crate::page::PAGE_SIZE;
use crate::page_id::PageId;
use vstd::prelude::*;

verus! {

/// One change that the store is asked to make.
#[derive(Debug)]
pub enum StoreWrite {
    /// Remove the page: it has become empty.
    DeletePage(PageId),
    /// Put the 4096 bytes in the place of the whole page.
    WritePage(PageId, Vec<u8>),
    /// Change some slots of the page. Each slot that changes takes 33 bytes:
    /// its number, then the 32 bytes that it holds from now on.
    WritePageNodes(PageId, Vec<u8>),
}

/// A change to the store, with the page id as its path and the bytes as a sequence.
pub enum StoreWriteView {
    DeletePage(Seq<u8>),
    WritePage(Seq<u8>, Seq<u8>),
    WritePageNodes(Seq<u8>, Seq<u8>),
}

impl View for StoreWrite {
    type V = StoreWriteView;

    open spec fn view(&self) -> StoreWriteView {
        match *self {
            StoreWrite::DeletePage(page_id) => StoreWriteView::DeletePage(page_id@),
            StoreWrite::WritePage(page_id, page) => StoreWriteView::WritePage(page_id@, page@),
            StoreWrite::WritePageNodes(page_id, nodes) => StoreWriteView::WritePageNodes(
                page_id@,
                nodes@,
            ),
        }
    }
}

/// The changes to the store that belong together, in the order in which they were asked for.
#[derive(Debug)]
pub struct Transaction {
    writes: Vec<StoreWrite>,
}

impl View for Transaction {
    type V = Seq<StoreWriteView>;

    closed spec fn view(&self) -> Seq<StoreWriteView> {
        Seq::new(self.writes@.len(), |i: int| self.writes@[i]@)
    }
}

impl Transaction {
    /// A transaction that asks for nothing yet.
    pub fn new() -> (r: Self)
        ensures
            r@ == Seq::<StoreWriteView>::empty(),
    {
        let r: Self = Self { writes: Vec::new() };
        assert(r@ =~= Seq::<StoreWriteView>::empty());
        r
    }

    fn record(&mut self, write: StoreWrite)
        ensures
            final(self)@ == old(self)@.push(write@),
    {
        self.writes.push(write);
        assert(self@ =~= old(self)@.push(write@));
    }

    /// Asks the store to remove a page.
    pub fn delete_page(&mut self, page_id: PageId)
        ensures
            final(self)@ == old(self)@.push(StoreWriteView::DeletePage(page_id@)),
    {
        self.record(StoreWrite::DeletePage(page_id));
    }

    /// Asks the store to put `page` in the place of a whole page.
    pub fn write_page(&mut self, page_id: PageId, page: &Vec<u8>)
        requires
            page@.len() == PAGE_SIZE,
        ensures
            final(self)@ == old(self)@.push(StoreWriteView::WritePage(page_id@, page@)),
    {
        self.record(StoreWrite::WritePage(page_id, page.clone()));
    }

    /// Asks the store to change the slots of a page that `nodes` lists.
    pub fn write_page_nodes(&mut self, page_id: PageId, nodes: Vec<u8>)
        ensures
            final(self)@ == old(self)@.push(StoreWriteView::WritePageNodes(page_id@, nodes@)),
    {
        self.record(StoreWrite::WritePageNodes(page_id, nodes));
    }

    /// The changes asked for so far, first to last.
    pub fn writes(&self) -> (r: &Vec<StoreWrite>)
        ensures
            r@.len() == self@.len(),
            forall|i: int| 0 <= i < r@.len() ==> r@[i]@ == self@[i],
    {
        &self.writes
    }

    /// The changes asked for, first to last, for the store to carry out.
    pub fn into_writes(self) -> (r: Vec<StoreWrite>)
        ensures
            r@.len() == self@.len(),
            forall|i: int| 0 <= i < r@.len() ==> r@[i]@ == self@[i],
    {
        self.writes
    }
}

} // verus!
