# MindRush

A document translator: EPUB, Markdown and PDF files are cut into segments,
the segments are translated by an LLM in batches, and the translations are
put back where the segments stood.

- `src/` is the verified library (Verus): segmentation of EPUB sections and
  Markdown event streams, the batch prompt/response format, the batch
  scheduler of a translation job, marker replacement on export, the LLM
  request/response decisions and retry policy, the configuration registry,
  history, the translation cache and text processing. Each public function
  carries a contract; the laws that relate several functions are public
  proof functions.
- `app/` is the program around it: files, archives, the HTML rewriter, the
  HTTP client, the async runtime, and the PDF layout, which works on
  floating-point coordinates.
- `tests/` exercises the library on concrete values.
