//! Verified decision logic behind the look-up operations on a subpath of
//! Bézier segments: which sample positions a look-up table visits, how the
//! signed area and centroid integrals are assembled segment by segment, and
//! which segment a projection picks.
pub mod lookup_table;
pub mod signed_area;
pub mod projection;
pub mod segments;
