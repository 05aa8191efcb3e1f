# rush-qdrant

Semantic search indexing for monorepos and folders. A crawler splits source files and
documents into chunks, embeds them and keeps them in a Qdrant collection; a command line
tool and an MCP server search them.

- `src/` is the library, written in Verus: what is indexed anew, skipped or deleted, when
  a file counts as complete, how chunks are batched and padded, which requests go to the
  collection and what the replies mean, how selectors are read, what is shown, and how the
  MCP server answers. Each function has a contract. All are proved but those of eight
  wrappers around calls into other crates and into std, which are marked
  `#[verifier::external_body]`, and of `String::push`: what these claim is taken as it
  stands, and said above each of them.
- `app/` is the program around it: the command line, files, HTTP, threads and the model.
  It expects a chunking engine, described by the trait in `app/engine.rs`.
- `tests/` runs the library on concrete values.

## Where things are

| module | what it holds |
| --- | --- |
| `crawl`, `tracking`, `hash`, `warnings`, `report` | the crawl of a catalog |
| `batching`, `engine::parallel_embedder` | batches and tensors for the model |
| `engine::uploader`, `engine::bodies`, `engine::chunk` | the collection |
| `selector`, `display` | requests for chunks, and how results are shown |
| `mcp`, `json` | the MCP server's messages |
| `watcher`, `clock` | waiting for quiet, times and spans |
| `settings`, `files` | configuration and paths |
| `dump`, `audit` | diagnostics of the partitioner |
| `text`, `scan`, `text_map`, `order` | texts, maps and sorting |

Names that start with `law_` are properties that hold of several functions together.
