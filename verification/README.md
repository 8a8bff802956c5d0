# csm_rs

Point-to-line ICP scan matching of ordered 2D laser scans (Censi, 2007):
smart correspondence search over jump tables, outlier rejection, restarts,
cycle detection, and an optional closed-form covariance estimate.

## Layout

- `src/` is the verified library. It holds the part of the matcher that
  decides on plain values, each function with a contract proved by Verus:
  - `math`: the correspondence hash used to detect oscillating iterations;
  - `icp`: the ICP loop's state machine (`IcpLoop`): iteration counting,
    cycle detection over correspondence hashes, termination reasons and
    success, with laws over a whole run of the loop, plus the accounting of
    the at most six restarts (`RestartShell`);
  - `laser_data`: order keys of floating-point values, the four jump tables
    of the smart search, orientation neighbourhoods, the reading-interval and
    visibility filters, duplicate bearings, and the structural validation of
    scan input (storage shape, ray count, bearing bounds, per-ray checks and
    the share of valid rays, in that order), with the capacity checks;
  - `matching`: match, covariance and termination statuses and when a
    result counts as accepted;
  - `params`: the configuration enums, their defaults and the validation
    verdict;
  - `scan`: gap filling of per-ray sequences;
  - `text`: error messages.

  Readings and bearings enter the library as order keys (`Option<u64>`, with
  `None` for NaN), computed from the values' bit patterns and proved to
  compare as the values do.
  Laws that span several calls are public proof functions next to the
  functions they are about.

- `app/` is the floating-point matching engine built around the library:
  scans, poses, correspondence search, the closed-form solver, the
  covariance estimate, and the public `Matcher` / `PreparedMatcher` API. It
  calls the verified functions for every decision on plain values.

- `tests/` runs the library on concrete inputs.
