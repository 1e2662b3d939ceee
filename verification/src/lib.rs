//! The decisions of an offline path tracer.
//!
//! A renderer of this kind does two things with numbers. It computes with
//! them: roots, dot products, reflections. And it decides by them: which hit
//! is the nearest, from which side a ray meets a surface, into which half of
//! a tree a surface goes. This crate holds the deciding and the data: ranges,
//! boxes, rays and hit records; surfaces, materials and textures; the list
//! and the bounding volume hierarchy that answer nearest-hit queries; the
//! recursion behind the colour of a pixel; and the image as text. The
//! computing is handed in by the caller as functions, and the contracts say
//! what is decided, whatever those functions compute.
//!
//! Scalars are carried as ordered codes of IEEE 754 binary64 values; the
//! module `scalar` says how.

pub mod aabb;
pub mod bvh;
pub mod camera;
pub mod color;
pub mod constant_medium;
pub mod hittable;
pub mod hittable_list;
pub mod interval;
pub mod material;
pub mod perlin;
pub mod prune;
pub mod quad;
pub mod ray;
pub mod rtw_image;
pub mod scalar;
pub mod scan;
pub mod sphere;
pub mod texture;
pub mod utilities;
pub mod vec3;
