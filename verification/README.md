# linienschluessel

Assignment of observed spectral lines to level transitions, written in Verus.

- `src/spectro_contract` reads and validates the input contract: the level set,
  the line list, the rate table and the covariance file. Each reader is proved
  to return exactly the refusals its specification names, in order; the
  bytes of a file lex the same with LF or CRLF endings and with or without
  its last line terminator; and what `written` and `accepted` describe, a file written line
  by line from conforming cells, is proved to be accepted.
- `src/spectro_adapters` turns the levels and lines exports of the NIST Atomic
  Spectra Database into contract files, with every cell it cannot carry
  reported rather than guessed. Every conversion that succeeds is proved to
  emit a file the validator accepts; a carriage return in a unit is refused
  rather than copied. Columns are proved to be found by their labels: an
  export widened by a column the adapter does not read converts to the same
  file, and a cell's padding is proved to be taken off before it is used.
- `src/assoc_model` holds the assignment object: observations, hypotheses over
  transition items, and the claims that exclude or support one another. Its
  laws (arrangement independence, symmetry of exclusion, disjointness of
  exclusion and support) are proof functions.
- `src/number`, `src/text` and `src/utf8` are the small verified helpers the
  readers rest on.

`tests/` runs the library on concrete inputs; `app/` is the program shell.
