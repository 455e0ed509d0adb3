//! Where a node lives.
pub use crate::random::random_seed_from_thread;
use vstd::prelude::*;

verus! {

/// The version under which the client makes itself known.
pub struct Version {
    pub version: String,
    pub build: String,
}

impl Version {
    /// The version of what is built from the sources.
    pub fn trunk() -> (v: Version)
        ensures
            v.version@ == "trunk"@,
            v.build@ == "unknown"@,
    {
        Version { version: "trunk".to_owned(), build: "unknown".to_owned() }
    }
}

/// A directory: a place, and the name of what is meant in it, if not the place
/// itself.
pub enum Home<P> {
    /// The directory that was given.
    Given(P),
    /// `name` in the home directory of the user.
    Under { home: P, name: String },
    /// No directory in particular.
    Nowhere,
}

/// The home directory of a node: what NEAR_HOME says, else .near in the home
/// directory of the user, else none in particular.
pub fn get_default_home<P>(near_home: Option<P>, home_dir: Option<P>) -> (h: Home<P>)
    ensures
        match (near_home, home_dir) {
            (Some(dir), _) => h == Home::Given(dir),
            (None, Some(dir)) => h matches Home::Under { home, name } && home == dir && name@
                == ".near"@,
            (None, None) => h is Nowhere,
        },
{
    if let Some(near_home) = near_home {
        return Home::Given(near_home);
    }
    if let Some(home) = home_dir {
        return Home::Under { home, name: ".near".to_owned() };
    }
    Home::Nowhere
}

} // verus!
