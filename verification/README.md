# csyn

A verified toolkit for Synapse topics: the topic catalog and its value contracts, bags in
the `synapse/1` MCAP profile, and the graph of a zenoh network. The library in `src/` is
written and proved in Verus; the program in `app/` puts sessions, files and sockets around
it.

| Module | What it holds |
| --- | --- |
| `catalog`, `types` | the pinned catalog, how topics are found, how payloads are carried |
| `payload` | wrapper tables of fixed-layout structs, scalar slots of root tables |
| `framing`, `container`, `bag` | MCAP framing, records, channels and messages; bags |
| `playback` | replay, export and summary of a bag |
| `contract_warning`, `topic` | throttled warnings; listing, observing, publishing, recording |
| `json`, `admin`, `graph`, `http` | admin-space reports, the graph, the graph server |
| `cli`, `report`, `zenoh_util`, `error` | commands, printed lines, configuration, failures |
| `text`, `ordered` | text primitives and the ordered map |

A bag is built in memory and written out when it is finished. The readers of
MCAP cannot be handed every file: `framing` says what has to be kept from them, and `bag`
stops before it.
