# apis_catalog

A catalog of API specifications (OpenAPI v3, AsyncAPI v1 and v2, Proto3)
kept in git repositories: it reads them, keeps statistics on them (rules
that they ignore, endpoints per audience and per subdomain), organises them
by domain, system and layer, and indexes them for search.

- `src/`: the library, verified with Verus: the readings of each format, the
  statistics, the domain tree, the refresh steps and the cache contracts.
- `app/`: the HTTP server and the command line around it: configuration,
  file walks, shell commands, the database, the search index.
- `tests/`: tests of the library.
