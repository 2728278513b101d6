# markdown_plugin

The decisions of a gateway plugin that turns documents into Markdown, verified
with Verus.

The plugin carries two entities over one conversion engine. The *backend* is
invoked by the model, as a tool: it acquires bytes and may ask a host to enrich
the document. The *transform* is invoked by the gateway, on a payload in flight.
Both read one registry of profiles.

| Module | What it decides |
|---|---|
| `source` | where the bytes of a call come from, and which sources are refused |
| `fetch` | one step of a fetch at a time: which target may be contacted, which redirect followed, how much read |
| `enrich` | what a model is asked about a document, and what its replies make of it |
| `convert` | what a conversion records, and what a caller is told |
| `state` | which profiles are usable, and which one a name leads to |
| `backend_entity`, `transform_entity` | what a tool call and a pipeline step come to |
| `obs` | what is measured |
| `json` | JSON values and JSON Pointers |
| `document`, `stream`, `config`, `error` | the values that the others speak of |
| `text`, `codec` | text as characters; base64 and BLAKE3 |

`enrich_laws` and `fetch_laws` state what holds of every enrichment pass and of
every fetch; the other modules end with their own laws.

The library does no I/O. `app/` reads configuration, opens sockets, calls the
engine and talks to the gateway.
