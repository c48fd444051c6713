# im_etna

Property checks for the persistent collections of the `im` crate (`OrdMap`,
`Vector`), written in Verus.

- `src/persistent.rs`: the `im` methods the checks call, each behind a trusted
  contract: the queries under test answer named results, the building
  methods state their effect on the elements.
- `src/keys.rs`: reference counting of keys in a half-open range.
- `src/properties.rs`: the six property functions; each one's contract states
  that it passes exactly when `im`'s answers agree with the reference, and
  otherwise fails with the text of the first disagreement.
- `src/adapters.rs`: outcome conversions, frozen witnesses, seed projections,
  a bounded seed sweep and the error texts of a run's ending, shared by the
  testing front ends.
- `src/report.rs`, `src/text.rs`: the one-line JSON report and decimal rendering.
- `app/`: the command-line runner that drives proptest, quickcheck, crabcheck
  and hegel over the properties.
