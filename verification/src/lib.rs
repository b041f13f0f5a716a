//! The decision core of a path tracer.
//!
//! A renderer of this kind spends its time in real-number geometry, but what it
//! does with the numbers is decided by comparisons: which root of a quadratic
//! is taken, which surface is nearest, whether a path goes on, in which order
//! pixels leave. This crate holds those decisions, each with a contract.
//!
//! Scalars enter as ranks (see [`rank`]): signed integers that are zero for
//! zero, negative for negative, and ordered as the scalars are.

pub mod color;
pub mod dispatch;
pub mod hittable;
pub mod hittable_list;
pub mod integrator;
pub mod material;
pub mod rank;
pub mod raster;
pub mod sphere;
pub mod vec3;
