//! Canonical forms.

pub mod coeff;
pub mod number;
