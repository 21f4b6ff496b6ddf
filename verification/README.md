# titans

A cluster service: a master reads its settings, finds its nodes and builds them over
SSH; nodes run a small remote-call service over TCP.

- `src/` is the verified library: the settings model and the rules for naming a node and
  building it (`install`), display styles and tables (`gui`), call arguments and their
  text and byte forms (`args`), the procedure registry and the executor (`rpc`, kept in
  name order with the help of `keyed` and `text`), the client's request set (`request`),
  ordering (`order`), fixed-size batches (`omega`) and the CPU report rows (`service`).
- `app/` is the program around it: tasks, sockets, SSH, files, logging, serde forms and
  terminal rendering.
