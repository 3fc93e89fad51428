//! Contact inference for tracked bodies in a VR scene.
//!
//! Two detectors turn continuous pose and collision streams into one-shot
//! events:
//!
//! * [`contact`] debounces collision notifications between contact bodies
//!   (drumsticks) and categorised zone colliders (the head and the rim of a
//!   drum), so that one engagement dispatches one action;
//! * [`impact`] raises a floor-strike event from the one-sample position
//!   history of a tracked body, against hot-reloadable [`thresholds`].
//!
//! Beside them, [`spring`] computes the pull that returns a free contact body
//! to its rest place, and [`hitbox`] frames the text of the geometry files
//! from which the zone colliders are built.
//!
//! All quantities are integers. A coordinate is a fixed-point number in a
//! unit of the caller's choice ([`geometry`]), so that every difference and
//! product taken here is exact; an identity is the 64-bit key under which
//! the host engine knows an entity. Reading poses, collisions and files, and
//! acting on the events, is the host's part.

pub mod contact;
pub mod geometry;
pub mod hitbox;
pub mod impact;
pub mod spring;
pub mod thresholds;
