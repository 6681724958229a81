# json_serializer

JSON values sent as token streams. An array element or an object member
travels in a nested stream of its own, handed over by an `Element` token, so
that a reader can skip or copy it without building it.

- `src/types.rs`: the value type `Json`, the token type `JC`, accessor paths
  `Accessor`, the two ends of a stream (`Sender`, `Receiver`), and their
  mathematical views (`JsonValue`, `Token`).
- `src/model.rs`: the meaning of streams and paths as spec functions:
  `encode` (what is sent for a value), `parse_value` (what a reader reads),
  `normalize` (what a reader builds), `select` and `eval_tokens` (what a path
  selects from a value, and sends on a stream).
- `src/json.rs`, `src/serialization.rs`, `src/utils.rs`: sending, reading,
  evaluating, copying and skipping, each verified against those functions.
- `src/equality.rs`: `==` on `Json` as on JSON documents: numbers compare
  as doubles (no NaN equals anything, the two zeros are equal), objects as
  maps whatever the order of their members.
- `src/laws.rs`: what holds of them together, such as reading back what was
  sent, and that evaluating a path on a sent value and reading the result
  gives what the path selects.
- `app/main.rs`: a program that runs the three stages in three threads.

Numbers are carried as the bit pattern of a double.
