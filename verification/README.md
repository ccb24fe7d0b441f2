# volo_codec

Pieces of an RPC framework, verified with Verus:

- `compression`: the encodings of gRPC messages, their negotiation by header fields,
  and the compression and decompression of message bodies.
- `thrift`: the choice of the protocol in which Thrift messages are read and written.
- `body_limit`: the decision on HTTP requests by the size of their bodies.
- `text`: lists, white space and decimal numbers in header fields.
- `laws`: what holds across the functions of these modules.

Three modules declare what is taken on trust from outside crates: `buffer` (`bytes`,
`linkedbytes`), `header` (`http`) and `backend` (`flate2`, `zstd`). `body_limit` takes the
number of one status code from `http`.

`app/` puts the library behind the traits of `motore` and `pilota`.
