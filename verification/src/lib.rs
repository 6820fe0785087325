//! Verified core of a small x86-64 unikernel that serves WebAssembly apps
//! over HTTP: the on-disk key/value store, the virtio drivers' ring
//! bookkeeping, PCI configuration-space walks, the vsock host protocol and
//! file service, the HTTP server's and client's decisions, the contract
//! between the kernel and its WebAssembly apps, and the arithmetic of the
//! clock, interrupt table, firmware configuration and console output.
//!
//! Hardware access (port I/O, MMIO, interrupts) and the network stack live
//! outside this crate; the logic here reaches devices through small traits
//! whose models are stated in the traits' contracts, or hands the caller
//! the writes to carry out.

pub mod bytes;
pub mod text;
pub mod store;
pub mod store_laws;
pub mod pci;
pub mod virtio;
pub mod virtq;
pub mod rtc;
pub mod net;
pub mod serial;
pub mod vsock;
pub mod scripted;
pub mod wasm_rt;
pub mod http;
pub mod fetch;
pub mod registry;
pub mod fw_cfg;
pub mod idt;
pub mod timer;
pub mod boot;
