# vectorless

Tree-based document indexing and retrieval: documents are organised as
trees of sections (from Markdown headers or a PDF table of contents), each
section summarised, and a language model navigates the tree to answer
questions, with no vector index.

## Layout

- `src/` — the library, written in Verus: every function carries a
  contract and is proved against it. Text and page handling (`text`,
  `pdf`, `pagespec`), the document tree (`node`, `outline`, `tree_builder`),
  Markdown parsing (`markdown`), tables of contents (`toc`), model-driven
  parsing and summaries (`parse`, `summary`), retrieval (`retrieve`),
  documents and collections (`document`, `client`, `storage`), model and
  service clients (`llm`, `sdk`, `service`), and command-line arguments
  (`cli`, `config`).
- `tests/` — tests of the library.
- `app/` — the command-line program: file and network I/O, the model and
  service HTTP calls, JSON files, and the loops that ask the model and hand
  its replies to the library.

The library never talks to a model itself: where the work needs one, it
offers the prompt and reads the reply, and the program does the asking.
The program's loops are written against its `ChatModel` trait, so another
model provider plugs in by implementing that trait; the HTTP clients for
OpenAI and Z.AI are the two that come with it.
