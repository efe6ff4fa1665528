# bsmcp

The core of a semantic-search companion for a BookStack wiki, written in Verus: the
library under `src/` states in its contracts what it does, and Verus proves them.

The program around it fetches the pages of a wiki, cuts them into chunks, has them
embedded by a model, and stores the vectors for semantic search. A second role keeps
an index of the wiki's shelves, books, chapters and pages.

## Layout

- `src/` is the verified library.
  - Text and values: `text`, `json`, `calendar`, `time`, `crypto`, `frontmatter`.
  - Pages and chunks: `chunking` (with `chunk_laws`), `pipeline`, `embed_run`, `vector`,
    `providers`, `models`.
  - The index: `index`, `index_store`, `directory` (with `directory_laws`), `worker`, `walk`.
  - Jobs: `jobs`, `queue` (with `job_laws`).
  - Access: `auth`, `acl`, `semantic` (with `access_laws`).
  - The wiki's API: `bookstack`, `content`, `rate_limit`.
  - Settings and the rest: `settings`, `config`, `startup`, `backup`, `types`, `rows`.
- `app/` is the program: the command line, HTTP, the databases, the models, and the
  floating-point arithmetic. It holds no rules of its own: it fetches and stores what the
  library asks for.
- `tests/` runs the library, with the outside crates linked.

## What is proved

Each public function states its result for every input; what rests on the clock or on
chance states what holds of every outcome, beside a function that takes the reading as an
argument and is exact. Properties that span several functions are the public proof
functions named `law_...`: what a token gives back, that an ended job stays ended, that a
walk reaches every page, that an interrupted page is embedded again, that no text is lost
between a page and its chunks, and others.

Calls into outside crates stand behind small functions marked
`#[verifier::external_body]`. Their contracts are believed, not proved; the comment above
each one says what it claims.
