//! Typed access to sysfs-style hardware peripherals: device directories full
//! of plain-text attribute files, discovered by name prefix and attribute
//! matching, then read and written through typed accessors.
//!
//! The directory tree a device class lives in is modelled as plain values
//! ([`sysfs::DirListing`], [`sysfs::DeviceDir`], [`sysfs::AttrFile`]): the
//! binding and accessor logic is verified over that model, and an unverified
//! embedding keeps the model in step with the real filesystem.

/// Verified text utilities: trimming, decimal parsing and formatting,
/// splitting on spaces.
pub mod text;

/// The model of a device-class directory tree.
pub mod sysfs;

/// The device binder and its typed attribute accessors.
pub mod device;

/// The closed sets of port and sensor-type identifiers.
pub mod ports;

/// The provider of the filesystem root to scan from.
pub mod system;

/// Helpers for unit testing.
pub mod testbase;

use vstd::prelude::*;

verus! {

/// How an operation on a device can fail.
#[derive(Clone, Copy, Debug, PartialEq, Eq, Structural)]
pub enum Error {
    /// An operation that needs a binding was invoked on an unbound device.
    NotConnected,
    /// A discovery scan completed without a candidate satisfying the prefix
    /// and the attribute constraints, or the scan directory could not be
    /// listed at all.
    NoMatch,
    /// A bound attribute file could not be opened, read, or written.
    IoError,
    /// Attribute text could not be interpreted as the requested type.
    ParseError,
}

} // verus!
