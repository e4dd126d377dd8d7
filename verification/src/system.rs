//! The provider of the filesystem root the binder scans from, so that the
//! same logic runs against the real device tree or against a disposable tree
//! built for a test.

use vstd::prelude::*;

verus! {

/// Supplies the root filesystem path to scan from.
pub trait SystemShim {
    /// The root path, as text.
    fn root_path(&self) -> String;
}

/// The real system: everything lives under the filesystem root.
pub struct Ev3DevSystem;

impl SystemShim for Ev3DevSystem {
    fn root_path(&self) -> String {
        String::from_str("/")
    }
}

} // verus!
