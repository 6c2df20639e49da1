# mNIC-CLI

An HTTP proxy for a host with two network interfaces. Client connections are assigned the
interfaces in turn, and with `--range-split` a resource whose server supports byte ranges is
fetched in two halves at once, one over each interface. `CONNECT` requests become tunnels that
are relayed unread. A screen in the terminal shows what each interface carries.

The rules of the proxy are a Verus library: the functions under `src/` have contracts, and Verus
proves them. What is not proved is how the library reaches outside: the small functions marked
`#[verifier::external_body]`, the types declared beside them and one assumed specification say what
the crates `http`, `hyper` and `bytes` and a few functions of the standard library do, and Verus
believes them. Each names the function that it stands for and what it claims of it.

## Layout

| Where | What |
| --- | --- |
| `src/chunk.rs` | the two halves of a resource |
| `src/cli.rs`, `src/config.rs` | the command line and the configuration |
| `src/fields.rs`, `src/body.rs`, `src/status.rs` | header fields, bodies and status codes, held in the types of `http` and `bytes` |
| `src/http.rs` | requests to upstream servers and what is made of their replies |
| `src/response.rs` | replies to clients |
| `src/handler.rs` | the steps in which a request is handled |
| `src/dial.rs`, `src/tunnel.rs` | where tunnels lead and how their bytes are counted |
| `src/proxy.rs`, `src/stats.rs` | the shared state and the statistics |
| `src/output.rs` | the screen |
| `src/rate.rs` | seconds and throughput |
| `src/clock.rs`, `src/net.rs`, `src/text.rs`, `src/units.rs` | time, addresses, texts and amounts |
| `src/laws.rs` | what holds of the proxy as a whole |
| `app/` | the program: sockets, files, the terminal and the clock |
| `tests/` | tests of the library |

## Running

The program reads `config.toml` from the current directory:

```toml
[[nics]]
ip = "192.168.1.10"

[[nics]]
ip = "192.168.1.11"

[proxy]
listen = "127.0.0.1:8080"
```

Range splitting is off unless `--range-split` is given.
