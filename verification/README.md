# bezier_rs look-up logic

Look-up operations on a subpath of Bézier segments (look-up tables, length,
signed area, centroid, projection, conversions of positions along the path).

- `src/` is verified with Verus and holds every decision that does not depend
  on a floating-point value:
  - `segments`: how many segments a subpath has and which manipulator groups
    each one joins;
  - `lookup_table`: the sample positions of a look-up table;
  - `signed_area`: how the signed area and centroid integrals are assembled
    segment by segment, with the running sign flipping at every
    self-intersection;
  - `projection`: which segment a projection picks, with distances standing in
    as integer keys ordered like IEEE 754 totalOrder.
- `app/` computes the floating-point parts (points, lengths, integrals,
  distances) on top of it, over traits for the curve operations.
