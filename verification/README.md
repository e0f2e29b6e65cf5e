# bangumi-proxy

A local HTTP/HTTPS proxy for Bangumi (`bgm.tv`, `chii.in`, `lain.bgm.tv`,
`next.bgm.tv`) that prefers ECH towards Cloudflare backends, decrypts only the
target hosts with a local CA, and tunnels everything else.

## Layout

- `src/` is the library, written in Verus. Its functions are verified
  against their `requires` and `ensures`; the calls into `base64`, `rcgen`,
  `rustls` and std that Verus cannot read sit in small trusted wrappers whose
  contracts say what those crates do. The properties that span several
  functions are stated and proved as public proof functions named `law_*`.
  - `text`: character and byte sequence helpers and their specifications.
  - `ipv4`: IPv4 addresses, their dotted text form and its parser.
  - `targets`: the target host list, Cloudflare ranges and CIDR matching.
  - `dns`: DoH JSON answers, the plain DNS wire format, resolver selection.
  - `proxy`: request-line and header parsing, forwarding decisions, relaying.
  - `hosts`: hosts-file parsing.
  - `ech`: the ECH config and address cache and its lookup steps.
  - `backend`: how a backend connection is reached, ECH attempt order.
  - `browser`: browser detection and launch arguments.
  - `ca`: the local CA (through `rcgen` and `rustls`) and the trust-store steps.
  - `cli`: command-line settings and the browser launch plan.
- `tests/` runs the library on concrete values.
- `app/` is the program around the library: sockets, files, processes, the
  OpenSSL ECH calls, and the loops that carry out the library's decisions.
