//! The startup configuration: the snapshot directory and file name, both
//! optional, fixed once at startup and never mutated.
//!
//! Reading the command line itself happens outside the library; this type
//! holds the plain values it produced.

use vstd::prelude::*;

verus! {

/// Mathematical model of the startup configuration.
pub struct ConfigModel {
    pub dir: Option<Seq<u8>>,
    pub dbfilename: Option<Seq<u8>>,
}

/// The startup options as plain byte strings.
#[derive(Debug)]
pub struct ArgHandler {
    /// Directory that holds the snapshot file, when given.
    pub dir: Option<Vec<u8>>,
    /// Snapshot file name within `dir`, when given.
    pub dbfilename: Option<Vec<u8>>,
}

impl View for ArgHandler {
    type V = ConfigModel;

    open spec fn view(&self) -> ConfigModel {
        ConfigModel {
            dir: match self.dir {
                Some(d) => Some(d@),
                None => None,
            },
            dbfilename: match self.dbfilename {
                Some(f) => Some(f@),
                None => None,
            },
        }
    }
}

impl ArgHandler {
    /// Both options were supplied, so a snapshot can be looked for.
    pub fn can_be_parsed(&self) -> (r: bool)
        ensures
            r == (self@.dir is Some && self@.dbfilename is Some),
    {
        self.dir.is_some() && self.dbfilename.is_some()
    }
}

} // verus!
