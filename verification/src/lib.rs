//! Core of an interactive tutorial runner for small language exercises.
//!
//! The library holds the verified logic: locating an exercise file by name,
//! interpreting the outcomes of the external compile-and-run steps, keeping
//! and persisting a learner's progress record, and generating the derived
//! module manifests from an observed directory layout. All filesystem,
//! process and terminal work lives outside the library and hands plain
//! values in and out.

pub mod text;
pub mod progress;
pub mod codec;
pub mod codec_laws;
pub mod runner;
pub mod locator;
pub mod sync;
pub mod scan;
pub mod clock;
pub mod dashboard;
pub mod exercises;
