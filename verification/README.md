# `vzglyd_sidecar`

The standard library for VZGLYD sidecars: small `wasm32-wasip1` programs that fetch live data and
push it to a paired slide.

- `src/` is the library: URLs, HTTP responses, the chunked transfer coding, name resolution, the wire
  between a sidecar and its host, and the polling loop. It is written in Verus, and what its functions
  do is stated in their contracts and proved.
- `app/` puts the library to work: sockets, TLS streams, JSON, the calls of the host, and the public
  functions of a sidecar.
- `tests/` runs the library on concrete values.

Typical usage:

```rust
fn main() {
    poll_loop(300, || {
        let body = https_get_text("api.example.com", "/forecast")?;
        Ok(body.into_bytes())
    });
}
```
