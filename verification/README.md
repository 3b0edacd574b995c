# hypster

Verified host-side logic of a static-partitioning hypervisor, written in
Verus: configuration validation and compilation, platform checks, CPU and
EPT planning, EPT table installation, boot and guest ABI layout checks, ACPI
and ELF parsing, IPC rings and an e1000 register model.

Layout:

- `src/` — the library; every function carries a contract that Verus checks.
  - `config/` — raw configuration, normalization and its rules, the
    platform requirements, canonical text and SHA-256 hash, the static
    intent and the generated artifacts; `config/laws.rs` states what every
    accepted configuration satisfies.
  - `platform/` — observed platform, validation against the requirements,
    the QEMU fixture.
  - `cpu_topology.rs`, `ept/` — exclusive-core CPU planning, EPT planning
    and installation of 4-level tables into a buffer.
  - `acpi/`, `elf.rs`, `boot_abi.rs`, `guest_abi.rs`, `ipc.rs`, `e1000.rs`,
    `boot.rs`, `cpu.rs` — parsers, layouts, ring buffer, device model, boot
    state machine and CPUID decoding.
- `tests/` — tests run against the compiled library.
- `app/` — the unverified edges: YAML reading, loss-ratio parsing (floating
  point), CPUID execution and raw-pointer views of in-memory blobs.

Not here: resolving the static platform (`resolve_platform` and the
`StaticPlatformIR` it builds) rests on the memory and VT-d planners of the
separate `hv_memory` and `hv_vtd` crates, which this library does not depend
on; that step and its two tests, which also read a `configs/qemu.yaml`
fixture this repository does not carry, are left out. The configuration tests
build an equivalent QEMU configuration by calls instead.
