# pkw

An admission webhook for Kubernetes that validates and mutates incoming
objects through JSON pointers.

`src/` is the verified library:

- `json`: JSON documents as plain values, with their mathematical model.
- `pointer`: JSON pointers: parsing (through `jsonptr`), reading the node a
  pointer designates, and writing a value there, creating the missing path.
- `types`: the checks given on the command line, how they are grouped and
  ordered, and the verdict of a check on an object.
- `validation`: combining the verdicts (any, all, or a boolean expression
  evaluated by `evalexpr`).
- `mutation`: the object the mutating webhook makes once every check passes.
- `helpers`, `ingress`: the TLS checks of Ingresses and Gateway API routes,
  and the annotations they add.
- `review`: what the webhook reads of an admission review, and its refusal.
- `text`: the few operations on text the rest needs.

`app/` is the program around it: command line, TLS server, Kubernetes API
requests, conversion between `serde_json` documents and the library's, the
certificate watcher, and the JSON patches (`json_patch` works on
`serde_json` documents, whose numbers may be floats).
