//! The discrete core of a Monte Carlo path tracer.
//!
//! A path tracer spends its time on arithmetic with real numbers: where a
//! ray pierces a sphere, how light bends in glass. This crate holds what is
//! left when that arithmetic is taken away, which is everything the tracer
//! decides: which of two roots is the meeting, which child of a node is
//! searched first and which subtree is passed over, whether a ray leaves a
//! surface or is swallowed by it, when a path is given up, where a pixel
//! goes in the picture. Whoever uses the crate does the arithmetic and
//! hands the results in, as [`scalar::Scalar`]s; the crate compares them,
//! chooses, and keeps the books.
//!
//! Searches that need arithmetic in the middle are written as machines. A
//! [`hittable_vec::Scan`] walks through a list of primitives and a
//! [`bounded_volume_hierarchy::Traversal`] searches a hierarchy of bounding
//! boxes; each says what it wants to know next and takes the answer. The
//! module [`nearest_hit`] shows that the two find the same meeting.
//! A [`ray::Path`] follows light from bounce to bounce in the same manner,
//! and a [`render::Assembly`] puts a picture together from pixels that
//! arrive in any order.

pub mod aabb;
pub mod args;
pub mod axis;
pub mod axis_aligned_rect;
pub mod bounded_volume_hierarchy;
pub mod color64;
pub mod cuboid;
pub mod hittable_vec;
pub mod hittables;
pub mod image_texture;
pub mod materials;
pub mod nearest_hit;
pub mod noise;
pub mod perlin;
pub mod point64;
pub mod ppm;
mod random;
pub mod raster;
pub mod ray;
pub mod render;
pub mod scalar;
pub mod sphere;
pub mod textures;
pub mod triangle;
pub mod worlds;
