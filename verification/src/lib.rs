//! A Monte-Carlo path tracer for scenes of spheres.
//!
//! A [`camera::Camera`] sends rays through the pixels of its picture; each is
//! followed through the [`scene::Scene`] from surface to surface, as the
//! [`material::Material`] of each scatters it, and brings back the light of
//! the sky times what the materials on its way keep. The sums of many such
//! samples make the [`image::PPM`].
//!
//! All numbers are fixed-point ([`scalar::Scalar`]) and every operation on
//! them is total, so that each result is an exact function of the inputs and
//! of what was drawn at random. Where rounding or clamping on the way would
//! change what is decided, the way is gone in full: the coefficients of an
//! intersection are whole numbers of up to 256 bits ([`wide::U256`]), and
//! the tangent of the angle of view is worked out in a finer unit and
//! rounded once. Contracts say which function each result is: intersections
//! are the nearest ones, normals face the ray, and a picture taken without
//! bounces is black.
pub mod camera;
pub mod color;
pub mod error;
pub mod image;
pub mod material;
pub mod ray;
pub mod scalar;
pub mod scene;
pub mod text;
pub mod utils;
pub mod vector;
pub mod wide;
