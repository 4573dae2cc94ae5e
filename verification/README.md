# pdf_engine

A service that renders HTML/Jinja templates into PDFs with PrinceXML and hands
them back as bytes or stores them in S3-compatible storage.

- `src/` is the verified library (Verus): request authorization, storage
  configuration, reading the PDF form field by field, template rendering and
  XML-safe escaping, the Prince command line, post-processing of the rendered
  PDF (removing the spacer page, encryption), error answers, storage keys and
  reports, and the in-memory user registry.
- `app/` is the HTTP server around it (axum, tokio, opendal, the Prince
  process); it reads requests, runs the renderer, talks to storage and
  turns the library's answers into HTTP responses.
- `tests/` runs the library on concrete inputs.
