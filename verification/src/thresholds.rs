//! The live thresholds of the impact detector, and their reload.

use vstd::prelude::*;

verus! {

/// The two limits that a floor strike must fall below, in coordinate units
/// per tick. Both are meant negative: a strike moves down, and faster than
/// the tick before.
#[derive(Clone, Copy, Debug, PartialEq, Eq, Structural)]
pub struct Thresholds {
    /// Limit on the vertical change of displacement between two ticks.
    pub acc_factor: i64,
    /// Limit on the vertical displacement within one tick.
    pub vel_factor: i64,
}

/// What a reload did to the live thresholds.
#[derive(Clone, Copy, Debug, PartialEq, Eq, Structural)]
pub enum Reload {
    /// The document was read; its values are in effect.
    Replaced,
    /// The document could not be read; the values from before stay in
    /// effect, and the caller owes a diagnostic.
    Retained,
}

/// The thresholds in effect after a reload: those of the document where it
/// could be read, else those from before.
pub open spec fn reloaded(live: Thresholds, document: Option<Thresholds>) -> Thresholds {
    match document {
        Some(fresh) => fresh,
        None => live,
    }
}

impl Thresholds {
    /// Takes the outcome of reading the configuration document: `None` where
    /// the document was missing or malformed.
    ///
    /// Both values change together or not at all.
    pub fn reload(&mut self, document: Option<Thresholds>) -> (r: Reload)
        ensures
            *final(self) == reloaded(*old(self), document),
            r == (if document is Some {
                Reload::Replaced
            } else {
                Reload::Retained
            }),
    {
        match document {
            Some(fresh) => {
                *self = fresh;
                Reload::Replaced
            },
            None => Reload::Retained,
        }
    }
}

} // verus!
