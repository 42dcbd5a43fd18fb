# applib

The verified core of a small hotel-search system made of three HTTP
services: a supplier service that serves stored XML documents, an adapter
that forwards to it, and a processor that asks the adapter for several
suppliers at once and answers with one `HotelFindResponse`.

- `src/` is the library, checked by Verus: XML element extraction on top of
  `quick_xml` (`xml`), decimal text (`text`), SHA-256 digests as hex text
  (`digest`), random choices (`random`), merging of supplier documents
  (`merge`), and the decisions of the three services (`supplier`, `adapter`,
  `processor`), whose replies are plain values (`response`).
- `app/` holds the HTTP servers and clients, files, configuration files,
  tasks and timers, and the serde/thiserror forms of the library's types.
- `tests/` runs the library on concrete values.
