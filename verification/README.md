# wmtext

`wmtext` scans UTF-8 text for observable Unicode and surface-level signals
(invisible format controls, bidi controls, tag characters, variation-selector
channels, private-use characters, unusual whitespace, mixed-script tokens,
long combining-mark runs, non-NFC text) and sanitizes the recognized carriers
of hidden content. It does not detect statistical (token-sampling)
watermarks: their status is always reported as indeterminate.

## Layout

- `src/` is the library, written in Verus and verified:
  - `text.rs`: character sequences, decimal and code point formatting, lines,
    trailing whitespace;
  - `unicode_context.rs`: the classification of every character in its context;
  - `unicode_rules.rs`: findings and metrics derived from the classification;
  - `sanitizer.rs`: removal of recognized carriers, and the plan of a file
    sanitation (report and writes);
  - `model.rs`, `scanner.rs`: scan reports, candidate selection, per-file reports;
  - `render.rs`: human-readable reports and the rules text;
  - `cli.rs`: the command-line arguments and the decisions taken from them;
  - `binary64.rs`: a ratio of two counts, and its percentage with two
    decimals, as binary64 (IEEE 754 double precision) arithmetic computes them,
    emulated exactly with integers.
- `app/` is the command-line program: argument parsing, directory walks, file
  reads and writes, JSON output.
- `tests/` holds the tests of the library.

Reading and writing files is left to `app/`: it hands the library what the
file system says (sizes, bytes, walk entries, errors) and carries out the
writes the library plans.
