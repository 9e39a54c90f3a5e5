# web_sanitizer

A sanitizer for web pages and the resources they load. It rewrites HTML (event handlers,
`javascript:`/`data:` URIs, internationalized and dangerous domains, scripts not on an allow
list), fetches sub-resources over HTTPS with SSRF protection and size limits, and cleans what it
fetches: JPEG and PNG metadata, CSS references, dangerous JavaScript, active content in PDFs and
XML entity declarations.

Layout:

- `src/` is the library, verified with Verus: the sanitizer's checks and rewriting decisions are
  functions with contracts, and the properties that span functions are stated as proof
  functions.
  - `text`, `url`: character sequences, and URLs and hosts (parsed by the `url` crate).
  - `html`: decisions on attributes, links and scripts of a document.
  - `http_client`: address safety, response checks, body limits and redirects.
  - `crawl_session`: resource classification and sanitization, and the crawl limits.
  - `resources`: MIME sniffing, image metadata, CSS, JavaScript, PDF and entity scanning.
  - `rules`, `log`, `errors`, `engine_structs`, `cli`: policy rules, logging, errors and inputs.
  - `sanitizer_engine`: the earlier engine's resource sanitizer and policy types.
- `app/` is the command-line tool around it: argument parsing, the policy file, the HTTP client
  and DNS resolver, the streaming HTML rewriter, the crawl and the log output. It applies what
  the library decides: it reads plain values from requests, responses and HTML elements, calls
  the library, and carries out the answer.
- `tests/` exercises the library.
