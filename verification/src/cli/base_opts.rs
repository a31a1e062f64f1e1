//! What every mode's options share.
use super::{HostOptions, JoinOptions, PracticeOptions};
use vstd::prelude::*;

verus! {

/// Options that may name the user.
pub trait BaseOpts {
    /// The user name given on the command line, if any.
    fn get_username(&self) -> Option<&str>;
}

impl BaseOpts for HostOptions {
    fn get_username(&self) -> (u: Option<&str>)
        ensures
            u matches Some(s) && s@ == self.user@,
    {
        Some(self.user.as_str())
    }
}

impl BaseOpts for JoinOptions {
    fn get_username(&self) -> (u: Option<&str>)
        ensures
            u matches Some(s) && s@ == self.user@,
    {
        Some(self.user.as_str())
    }
}

impl BaseOpts for PracticeOptions {
    fn get_username(&self) -> (u: Option<&str>)
        ensures
            match self.username {
                Some(n) => u matches Some(s) && s@ == n@,
                None => u is None,
            },
    {
        match &self.username {
            Some(n) => Some(n.as_str()),
            None => None,
        }
    }
}

} // verus!
