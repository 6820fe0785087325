# unikernel

A small x86-64 unikernel that boots under QEMU, fetches WebAssembly apps
and static pages from a registry on the host, and serves them over HTTP,
with a key/value store on a virtio block disk and the host's secrets and
files reached over vsock.

The crate is in two parts:

- `src/` is the library, verified with Verus: every function carries a
  contract and is proved against it. It holds the store's on-disk format
  and operations (with their laws in `store_laws.rs`), the virtqueue layout
  and the drivers' ring bookkeeping (`virtio.rs`, `virtq.rs`), PCI and
  firmware-configuration walks, the vsock protocol (`vsock.rs`), the HTTP
  server's and client's decisions as step machines (`net.rs`, `http.rs`,
  `fetch.rs`, `registry.rs`), the WebAssembly app contract (`wasm_rt.rs`),
  and the clock, interrupt table and console (`rtc.rs`, `idt.rs`,
  `timer.rs`, `serial.rs`, `boot.rs`). Devices are reached through traits
  (`BlockDevice`, `ConfigSpace`, `FwCfgPort`, `VsockTransport`,
  `SerialPort`), each with an in-memory implementation in the library.
- `app/` is the kernel around it: port I/O and MMIO, the hardware
  implementations of those traits, smoltcp, wasmi instantiation and the
  host functions' I/O, and the loops that carry out the library's steps.

The one call into an outside crate from the library, compiling a module
with wasmi, sits behind a trusted wrapper in `wasm_rt.rs`; so does UTF-8
validation in `text.rs`.
