//! A beeswarm layout: given a sorted sequence of fixed-point scalar values
//! and a minimum separation radius, assign each value a position in
//! D-dimensional space whose primary coordinate is the value itself, such
//! that no two points whose values lie within twice the radius of each other
//! end up within the radius of each other.

pub mod layout;
pub mod model;

pub use layout::beeswarm;
pub use layout::euclidean_distance_sq;
pub use layout::intersection_range;
pub use layout::intersections;
pub use layout::jiggle;
