//! Scales of measurement units: conversion between a flat base-unit count and
//! a per-unit breakdown, canonical forms, carrying increments, and the choice
//! of round tick positions between two base values.
pub mod builder;
pub mod calendar;
pub mod composite;
pub mod conversion;
pub mod laws;
pub mod scale;
pub mod ticks;
pub mod unit;

pub use builder::{ScaleBuilder, UnitBuilder};
pub use calendar::Gregorian;
pub use composite::{Composite, CompositeUnit, ScaleError, Sign};
pub use conversion::{Conversion, Standard};
pub use scale::Scale;
pub use ticks::Ticks;
pub use unit::Unit;
