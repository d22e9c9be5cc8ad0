# vrp_pragmatic

Verified helpers of the pragmatic format for vehicle routing problems, and the
rules of its solution checker.

- `src/` is the library, verified with Verus:
  - `capacity`: a multi dimensional capacity of up to eight `i32` dimensions,
    with its arithmetic and ordering laws;
  - `model`: the plain problem and solution model that the checker reads;
  - `checker`: the checker's rules (vehicle loads and shared resources,
    relations, breaks, job presence, groups, dispatch, skills, job time bounds,
    routing matrix shapes, stop and tour statistics, shift lookup, shift times,
    tour size limits) with exact contracts, and the laws that tie them together;
  - `format`: violation code mapping, the geojson color palettes, and the
    fleet's vehicle plan (one vehicle per type, shift and id);
  - `collections`, `text`, `datetime`: the few calls into `hashbrown`, `time`
    and `std` that the rules make, each behind a small trusted wrapper.
- `app/` is ordinary Rust around the library: JSON reading with serde, and the
  checks that decide on floating point break offsets, durations, limits, scales
  and coordinates, matching of activities to jobs among them. It hands what those checks find to the verified checker.
- `tests/` runs the library on concrete problems and solutions.
