//! Decides whether the GPS traces of a driver and of a passenger describe one shared trip.
//!
//! The crate works on whole numbers only. Coordinates are carried as the bit patterns of
//! their IEEE 754 double values and are never interpreted: they are compared for equality
//! and handed back unchanged. Everything that has to be measured on the globe (the length
//! and the bearing of a leg, membership in the service region, a Fréchet distance) is
//! measured by the caller and handed in as a whole number of millimetres or of
//! micro-degrees; the rules that turn those measurements into a verdict live here.
//!
//! A caller with a submitted journey proceeds in three steps:
//!
//! 1. [`journey::Journey::try_from`] gives the submitted journey its shape, or says what
//!    is missing.
//! 2. The caller measures: it merges the two traces with
//!    [`trace::Trace::merged_with`], surveys the legs between the merged points into a
//!    [`measure::Survey`], simplifies both traces, and fills a [`journey::Evidence`].
//! 3. [`journey::Journey::validate`] judges the journey on the evidence.
//!
//! The modules, from the ground up: [`measure`] holds units and thresholds, [`point`] and
//! [`order`] the fixes and their order in time, [`route`] the extraction of the common
//! route, [`trace`] the trace and what two traces have in common, [`journey`] the checks
//! on a journey, [`input`], [`output`] and [`error`] what goes in and what comes out,
//! [`validate_journey`] the verdict in one call, and [`visualize`] the address of a map.

pub mod error;
pub mod input;
pub mod journey;
pub mod measure;
pub mod order;
pub mod output;
pub mod point;
pub mod route;
pub mod trace;
pub mod validate_journey;
pub mod visualize;
