use vstd::prelude::*;

use crate::repository::PijulRepository;

verus! {

/// Holds the repository that the channel picker reads its channels from.
pub struct PijulStore<R: PijulRepository> {
    repository: R,
}

impl<R: PijulRepository> PijulStore<R> {
    pub fn new(repository: R) -> (r: Self)
        ensures
            r.repository_view() == repository,
    {
        PijulStore { repository }
    }

    pub closed spec fn repository_view(&self) -> R {
        self.repository
    }

    pub fn repository(&self) -> (r: &R)
        ensures
            *r == self.repository_view(),
    {
        &self.repository
    }
}

} // verus!
