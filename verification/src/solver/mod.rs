//! The solver coprocessor's host side: the configuration wire's strict
//! reader, and the probe that answers whether a configuration asks for the
//! guest's own derivative.

pub mod config;
pub mod probe;
