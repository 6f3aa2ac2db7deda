# spectrix_histoer

The histogramming logic of a spectrum-analysis tool, written in Verus and
verified: naming and sanitizing columns, histograms, cuts and file names;
expanding histogram definitions over column groups and `{a-b}` / `{a,b}`
patterns; expanding computed columns over groups; reading computed-column
expressions into trees and simple sums into editable terms; planning which
computed columns a data set gains; the columns a histogram script offers;
merging and checking configurations, and the histogram definitions that hold
them (fill columns, expansion, validation); cuts and their collections;
peak-marker ids and names; when peak guesses are estimated and what an
estimate leaves behind; the readiness checks of a fit; rebinning; and the
decisions behind color maps.

Layout:

- `src/` — the verified library, one module per concern; each public function
  states its result in its `ensures`, and the `lemma_*` proof functions state
  the properties that hold across calls (merging twice changes nothing,
  removing undoes adding, a sorted key ignores order, sanitized names are
  safe, rebinning keeps the total, peak ids stay unique, ...).
- `tests/` — tests of the library on concrete values.
- `app/` — what works in floating point or with the outside world around the
  library: color-map interpolation, writing computed-column terms, testing
  rows against cuts, rebinning with bin widths, comparing histogram shapes when
  merging, and serde copies of library types for saved settings.

Pattern matching (tokenizing expressions, matching cut conditions, term
shapes and `{a-b}` / `{a,b}` source patterns) is done by the `regex` crate;
the library names what each pattern call returns and proves everything
around those calls.
