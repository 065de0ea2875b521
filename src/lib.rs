//! A countdown to a moment in time: the link that carries it and the
//! ticking that counts it down.

pub mod instant;
pub mod remaining;
pub mod ticker;
pub mod link;
