//! A Monte Carlo path tracer with machine-checked contracts.
//!
//! A scene is a set of spheres, each with a material. A [`camera::Camera`]
//! casts many randomly placed rays through every pixel, follows each ray
//! from bounce to bounce, and averages the light that comes back. A
//! [`bvh_node::BvhNode`] over the spheres lets a ray skip most of them.
//!
//! All numbers are fixed-point ([`scalar::Scalar`]), so every operation
//! has an exact meaning over the integers, and every function says in
//! its contract what it computes. Beyond that the crate proves:
//!
//! * the union of boxes encloses its parts and is commutative and
//!   associative ([`aabb`]);
//! * a list reports the closest hit of all its members, whatever their
//!   order ([`hittable_list`]);
//! * traversal of the hierarchy finds what a scan of all objects finds,
//!   for every ray whose hits the boxes of the objects admit
//!   ([`bvh_node`]);
//! * a mirror without blur ignores the random sample, and the angle of
//!   reflection equals the angle of incidence up to nine units of
//!   rounding, exactly so about an axis ([`material`], [`vec3`]);
//! * a vector divided by its length, and so every random direction, has
//!   length one up to rounding ([`vec3`], [`vector`]);
//! * the box of a moving sphere encloses the sphere's box at every time
//!   of its motion ([`sphere`]);
//! * head-on reflectance is exactly `r0` ([`material`]);
//! * a ray that hits nothing sees the sky ([`ray`], [`camera`]).
//!
//! Randomness comes from the `rand` crate. Each function that draws has
//! a twin that takes the drawn values as arguments and is fully
//! specified; the drawing function promises that its result is what the
//! twin gives for some values in range.
pub mod aabb;
pub mod bvh_node;
pub mod camera;
pub mod canvas;
pub mod color;
pub mod hittable;
pub mod hittable_list;
pub mod interval;
pub mod material;
pub mod ray;
pub mod scalar;
pub mod sphere;
pub mod vec3;
pub mod vector;
