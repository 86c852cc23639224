# sail-kafka

Batch reads from Kafka as tables, and the planning of scans of Delta tables, as a library whose
behaviour is stated in contracts and proved with Verus.

## The library, `src/`

| Module | What it holds |
|--------|---------------|
| `options` | The options of a read: names without regard to case, the settings that a caller may not make, topics, offsets, and the configuration of the client |
| `offsets` | Which partitions a selection takes, where a read starts and ends, and how ranges are cut |
| `stream` | Where to start when data was lost, which messages make a batch, and what columns they become |
| `batch` | Columns and batches of Arrow; decoding of JSON lines and Avro messages |
| `encoding`, `schema`, `arrow_schema` | The columns of a read, and schemas as Arrow has them |
| `avro`, `json_schema`, `json` | What Avro schemas and JSON Schemas become |
| `schema_registry` | What a registry is asked, what its answers mean, and which schemas are kept |
| `table_format`, `provider`, `scan_exec` | The schema and the encoding of a read, its table, and its scan |
| `delta` | Statistics, locations and groups of the files of a Delta table, which bounds can be cast and compared, and the plan of a scan |
| `text`, `map`, `error` | Strings, maps from strings, and errors |

Work that goes over the network is left to the caller. Where a decision needs an answer from
outside, a type of the library says what to ask next and takes the answer: `OffsetResolver` for the
offsets of partitions, `StreamState` and `MessagePoll` for messages, `SchemaRegistryClient` for
schemas.

What the library takes on trust from other crates stands in functions marked `external_body`. The
comment above each names the outside function and says what is claimed of it.

Proof functions whose names begin with `law_` state what holds across functions: that ranges are cut
without loss, that batches keep every message, that every file of a scan is in one group.

## Around it

`app/` connects the library to `rdkafka`, `reqwest` and DataFusion. `tests/` runs the library on
concrete values, with the outside crates linked.
