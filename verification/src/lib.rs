//! Verified core of a motorbike simulation: the control-driven state
//! machine of the bike, the wheel contact rules, the uniform-grid collision
//! index, and the picture archive reader.

pub mod contact;
pub mod control;
pub mod grid;
pub mod lgr;
pub mod moto;
