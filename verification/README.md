# istio_lens

Static analysis of an Istio service mesh and Kubernetes cluster forensics, as a
library whose behaviour is specified and proved with Verus, and a terminal
interface around it.

- `src/` — the verified library:
  - `analyzer/`: duplicate destination rules and colliding virtual-service routes,
    unused gateways, routes to services that do not exist, and routes to services
    without a ready pod;
  - `graph.rs`: hop-by-hop traffic traces (gateway → virtual service → service and
    destination-rule subset → pods);
  - `diagnostics/`: incident timelines with a root-cause verdict, node capacity
    profiles with QoS classes, admission-webhook risk audit;
  - `k8s.rs`, `model.rs`, `objects.rs`, `labels.rs`: the data the analyses read;
  - `tui/`: the interface state machine (tabs, search, namespace scope, selection)
    and what the views derive from the data;
  - `text.rs`, `seqs.rs`: string and sequence utilities with their specifications.
- `tests/` — tests of the library on concrete values.
- `app/` — the program: Kubernetes API calls, conversion of API objects, the
  floating-point capacity ratios, terminal drawing and the event loop.
