# riak_async

A client library for Riak KV's Protocol Buffers API, with its behaviour stated
in contracts and proved.

- `src/` is the library. `wire` holds the Protocol Buffers wire format (varints,
  keys, fields) as spec functions, with readers and writers proved against them.
  `proto` holds the messages of the API: for each, its value, and its bytes where
  the client writes it or how a buffer reads as one where the client reads it.
  The messages that are both written and read (pairs, module functions, commit
  hooks, bucket properties, links, contents, search indexes and schemas) come
  with proofs that what is written reads back, and so do the requests that set
  bucket properties and store objects, whose reading is stated as a spec
  function only. `bucket`,
  `object`, `data_type`, `secondary_index`, `yokozuna` and `preflist` hold the
  request and response types that users build and read. `connection` holds the
  framing of messages and whether a connection can take a request; `stream` the
  state of a streamed reply, and how a MapReduce job on it leaves the
  connection; `client` the bytes of each request and what each
  reply holds; `pool` the addresses that pooled connections go to.
- `app/` is the async client around it: the TCP connection, the streams, the
  `deadpool` manager and the error types with their messages.
- `tests/` runs the library on concrete values.
