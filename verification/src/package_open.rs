//! A package path handed over on the command line (file association or
//! double-click), parked until the frontend has mounted and asks for it.
use vstd::prelude::*;

verus! {

/// The parked path, if one is waiting.
#[derive(Debug)]
pub struct PendingPackageOpen {
    path: Option<String>,
}

impl View for PendingPackageOpen {
    type V = Option<Seq<char>>;

    closed spec fn view(&self) -> Option<Seq<char>> {
        match self.path {
            Some(p) => Some(p@),
            None => None,
        }
    }
}

impl PendingPackageOpen {
    /// Parks `path` (or nothing).
    pub fn new(path: Option<String>) -> (r: PendingPackageOpen)
        ensures
            r@ == match path {
                Some(p) => Some(p@),
                None => None::<Seq<char>>,
            },
    {
        PendingPackageOpen { path }
    }

    /// Hands the parked path over, once: afterwards nothing is waiting.
    pub fn take(&mut self) -> (r: Option<String>)
        ensures
            final(self)@ is None,
            match r {
                Some(p) => old(self)@ == Some(p@),
                None => old(self)@ is None,
            },
    {
        let r = self.path.take();
        r
    }
}

} // verus!
