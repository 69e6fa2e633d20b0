//! The meeting point of all who wait for one page to arrive.

use crate::rw_pass::Page;
use vstd::prelude::*;

verus! {

/// A fetch of a page that is under way.
///
/// It is pending until a page is handed to it, once. From then on it is
/// completed, and everyone who asks gets that same page.
#[derive(Debug)]
pub struct InflightFetch {
    page: Option<Page>,
}

impl View for InflightFetch {
    type V = Option<Page>;

    /// The page that the fetch was completed with, if it was.
    closed spec fn view(&self) -> Option<Page> {
        self.page
    }
}

impl InflightFetch {
    /// A fetch that is pending.
    pub fn new() -> (r: Self)
        ensures
            r@ is None,
    {
        Self { page: None }
    }

    /// Completes a pending fetch with the page `p` and says that those who
    /// wait are to be woken. On a completed fetch it does nothing: the page
    /// that came first stays.
    pub fn complete_and_notify(&mut self, p: Page) -> (notify: bool)
        ensures
            old(self)@ is None ==> notify && final(self)@ == Some(p),
            old(self)@ is Some ==> !notify && final(self)@ == old(self)@,
    {
        if self.page.is_some() {
            return false;
        }
        self.page = Some(p);
        true
    }

    /// The page of a completed fetch; `None` while the fetch is pending,
    /// when the one who asks has to wait and ask again.
    pub fn wait(&self) -> (r: Option<Page>)
        ensures
            r == self@,
    {
        self.page
    }
}

} // verus!
