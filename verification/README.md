# rosav

The logic of a spectrum analyzer, verified with Verus: the life cycle of its acquisitors
(a folder watcher, an Ibsen IMON spectrometer on a serial port, and an example source),
the IMON's serial protocol (identification, pixel count, pixel readings, acknowledgements),
the lists of frozen and shadow spectra, the time series of valleys and peaks (match matrices,
batches, cleanup of old entries), the traces of the interface (names, colors, groups,
freezing and deletion), the geometry of the graph, and the parsing of the configuration
fields.

- `src/` is the verified library. Each module states its contracts over spec functions, and
  the properties that span several calls stand as `law_*` proof functions beside them.
- `tests/` runs the library on concrete values.
- `app/` is the ordinary Rust around it: logging, configuration files, serial and file
  input and output, and everything computed in floating point (spectra, Lorentzian fits,
  drawing paths, matching by wavelength).
