# mcproxy

A proxy that stands in front of several MCP (Model Context Protocol) servers and
shows them to its clients as one. It names what its servers offer, selects which
tools a client is shown, searches the others, and sends each call to the server
that it is for.

The rules of the proxy are a library, verified with Verus, under `src/`:

| Module                 | What it holds                                               |
|------------------------|-------------------------------------------------------------|
| `config`               | the configuration, its defaults, the environment            |
| `http_server`          | where to listen, which origins are answered                 |
| `naming`               | the names of items, with their server before them           |
| `order`                | the orders that tools are put in                            |
| `score`                | single precision numbers in their bits                      |
| `query`                | which texts the parser of queries can be given              |
| `search_index`         | the full text index that the crate `tantivy` keeps          |
| `tool_search`          | the selection of tools and the search for the others        |
| `description_enricher` | descriptions that are replaced or added to                  |
| `middleware`           | middleware, one after the other                             |
| `proxy`                | connections, listings, calls, shutdown                      |
| `json`, `model`        | JSON values, and tools, prompts and resources               |
| `text`, `error`        | texts and errors                                            |

`app/` is the program around it: it reads the configuration file and the
environment, speaks to the servers and to the clients, and starts and ends
processes. `tests/` holds the tests of the library.

A score is held in the 32 bits of a single precision number, because the library
has no floating point arithmetic of its own: `score` proves that it compares such
numbers by their size and that it rounds ten times a number to the nearest one.

What is not proved is what the functions of `tantivy` do, whether a text can be
the value of an HTTP header, and that a shared pointer can be copied. Each stands
behind one small function, whose comment says what is claimed of it.
