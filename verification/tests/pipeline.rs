use hypster::config::artifact::GeneratedArtifacts;
use hypster::config::error::ConfigError;
use hypster::config::hash::ConfigHash;
use hypster::config::normalize::{normalize, DeviceKind};
use hypster::config::pipeline::{compile_config, validate_config, CompiledConfig};
use hypster::config::raw::{
    FaultPolicy, IpcDirection, QueueFullPolicy, RawBenchmark, RawBoot, RawConfig, RawDevice,
    RawIpc, RawPartition, RawPerformance, RawPlatform, RawPlatformRequirements, RawQemu,
    RawQemuDevice, RawSecurity, RawSmp, RequirementLevel, SmtPolicy, ThroughputMetric,
};
use hypster::config::requirements::PlatformRequirements;
use hypster::cpu_topology::{plan_cpu, CpuCore, CpuTopology, CpuTopologyError};
use hypster::ept::error::EptPlanError;
use hypster::ept::install::install_ept_mappings;
use hypster::ept::memory::{MemoryPlan, MemoryPurpose, MemoryRegion};
use hypster::ept::plan::{plan_ept, MMIO_GUEST_BASE, MMIO_HOST_BASE, MMIO_HOST_STRIDE, MMIO_REGION_SIZE};
use hypster::ept::types::{EptMemoryType, EptPermissions};
use hypster::platform::error::CoreError;
use hypster::platform::fixture::qemu_validation_observed;
use hypster::platform::observed::{topology_from_observed, ObservedPlatform};
use hypster::platform::validate::{validate_platform, PlatformValidationError};
use hypster::types::{ApicId, HostPhysAddr, LogicalCpuId, PhysicalCoreId};

const LOSS_PPM: Result<u32, &'static str> = Ok(1000);

fn minimal_requirements() -> RawPlatformRequirements {
    RawPlatformRequirements {
        arch: "x86_64".into(),
        vmx: RequirementLevel::Required,
        ept: RequirementLevel::Required,
        vtd: RequirementLevel::Required,
        min_physical_cores: 3,
        smt_policy: SmtPolicy::ExclusiveCore,
        min_ram_gib: 8,
        interrupt_remapping: RequirementLevel::Required,
        x2apic: RequirementLevel::Preferred,
        invariant_tsc: RequirementLevel::Preferred,
        vpid: RequirementLevel::Preferred,
        vmx_preemption_timer: RequirementLevel::Optional,
        nx: RequirementLevel::Required,
        page_sizes: vec![4096, 2_097_152],
    }
}

fn minimal_benchmark() -> RawBenchmark {
    RawBenchmark {
        protocol: "udp_ipv4".into(),
        frame_size: 1514,
        payload_size: 1472,
        throughput_metric: ThroughputMetric::UdpPayload,
        warmup_seconds: 10,
        measurement_seconds: 30,
        runs: 5,
        max_loss_ratio: "0.001".into(),
    }
}

fn base_config(partitions: Vec<RawPartition>, ipc: Vec<RawIpc>) -> RawConfig {
    RawConfig {
        version: 1,
        name: "test".into(),
        platform: RawPlatform { requirements: minimal_requirements() },
        partitions,
        ipc,
        security: RawSecurity {
            require_config_hash: true,
            ipc_corruption_policy: FaultPolicy::StopPartition,
            ept_violation_policy: FaultPolicy::StopPartition,
            iommu_fault_policy: FaultPolicy::StopPartition,
        },
        performance: RawPerformance { benchmark: minimal_benchmark() },
        boot: RawBoot {
            loader: "loader.efi".into(),
            hypervisor: "hypster".into(),
            exit_boot_services: true,
        },
        qemu: RawQemu {
            machine: "q35".into(),
            cpu: "host".into(),
            smp: RawSmp { cpus: 4, cores: 4, threads: 1 },
            memory_mib: 8192,
            accel: "tcg".into(),
            ovmf: "/opt/OVMF/OVMF_CODE.fd".into(),
            netdevs: vec![],
            devices: vec![],
        },
    }
}

fn partition(name: &str, bdf: Option<&str>) -> RawPartition {
    RawPartition {
        name: name.into(),
        vcpus: 1,
        memory_gib: 1,
        image: format!("guest-{name}"),
        devices: bdf
            .map(|b| vec![RawDevice { kind: "e1000".into(), bdf: b.into() }])
            .unwrap_or_default(),
        stack: None,
    }
}

fn channel(name: &str, producer: &str, consumer: &str) -> RawIpc {
    RawIpc {
        name: name.into(),
        producer: producer.into(),
        consumer: consumer.into(),
        direction: IpcDirection::Unidirectional,
        slot_count: 256,
        slot_size: 2048,
        queue_full_policy: QueueFullPolicy::DropTail,
    }
}

/// The in -> mid -> out datapath of the QEMU reference setup.
fn chain_config() -> RawConfig {
    let mut config = base_config(
        vec![
            partition("in", Some("0000:00:03.0")),
            partition("mid", None),
            partition("out", Some("0000:00:04.0")),
        ],
        vec![channel("in_to_mid", "in", "mid"), channel("mid_to_out", "mid", "out")],
    );
    config.platform.requirements.min_ram_gib = 4;
    config.qemu.devices = vec![RawQemuDevice {
        kind: "e1000".into(),
        bdf: "0000:00:03.0".into(),
        netdev: Some("net0".into()),
    }];
    config
}

fn compile_chain() -> CompiledConfig {
    compile_config(chain_config(), LOSS_PPM).expect("compile chain")
}

fn invalid(path: &'static str, reason: &str) -> ConfigError {
    ConfigError::InvalidValue { path, reason: reason.into() }
}

#[test]
fn valid_minimal_chain_normalizes() {
    let config = base_config(
        vec![
            RawPartition {
                name: "a".into(),
                vcpus: 1,
                memory_gib: 1,
                image: "a".into(),
                devices: vec![],
                stack: None,
            },
            RawPartition {
                name: "b".into(),
                vcpus: 1,
                memory_gib: 1,
                image: "b".into(),
                devices: vec![],
                stack: None,
            },
        ],
        vec![RawIpc {
            name: "a_to_b".into(),
            producer: "a".into(),
            consumer: "b".into(),
            direction: IpcDirection::Unidirectional,
            slot_count: 16,
            slot_size: 1024,
            queue_full_policy: QueueFullPolicy::DropTail,
        }],
    );
    assert!(normalize(config, LOSS_PPM).is_ok());
}

#[test]
fn duplicate_partition_names_are_rejected() {
    for name in ["a", "mid", "abcdefgh"] {
        let p = partition(name, None);
        let config = base_config(vec![p.clone(), p], vec![]);
        assert_eq!(
            normalize(config, LOSS_PPM).err(),
            Some(ConfigError::DuplicateId { namespace: "partition", name: name.into() })
        );
    }
}

#[test]
fn pci_bdf_conflict_is_rejected() {
    for bdf in ["0000:00:03.0", "0000:00:04.0"] {
        let config = base_config(vec![partition("a", Some(bdf)), partition("b", Some(bdf))], vec![]);
        assert_eq!(
            normalize(config, LOSS_PPM).err(),
            Some(ConfigError::PciOwnershipConflict {
                bdf: bdf.into(),
                first: "a".into(),
                second: "b".into(),
            })
        );
    }
}

#[test]
fn qemu_config_is_valid() {
    let compiled = compile_chain();
    assert_eq!(compiled.intent.partitions.len(), 3);
    assert_eq!(compiled.intent.ipc.len(), 2);
    assert!(compiled.validated.config_hash.to_hex().len() == 64);
}

#[test]
fn deterministic_vm_ids_follow_declaration_order() {
    let compiled = compile_chain();
    let names: Vec<_> = compiled
        .intent
        .partitions
        .iter()
        .map(|p| (p.vm_id.raw(), p.name.as_str()))
        .collect();
    assert_eq!(names, vec![(0, "in"), (1, "mid"), (2, "out")]);
}

#[test]
fn no_direct_nic_partition_ipc() {
    let compiled = compile_chain();
    let in_id = compiled.intent.partitions[0].vm_id;
    let out_id = compiled.intent.partitions[2].vm_id;
    assert!(!compiled.intent.ipc.iter().any(|ipc| {
        (ipc.producer == in_id && ipc.consumer == out_id)
            || (ipc.producer == out_id && ipc.consumer == in_id)
    }));
}

#[test]
fn compilation_is_deterministic() {
    let raw = chain_config();
    let first = compile_config(raw.clone(), LOSS_PPM).expect("first compile");
    let second = compile_config(raw, LOSS_PPM).expect("second compile");
    assert_eq!(first.validated.config_hash, second.validated.config_hash);
    assert_eq!(first.intent, second.intent);
}

#[test]
fn intent_carries_shared_bytes_and_devices() {
    let compiled = compile_chain();
    assert_eq!(compiled.intent.ipc[0].shared_bytes, 256 * 2048);
    assert_eq!(compiled.intent.partitions[0].devices.len(), 1);
    assert_eq!(compiled.intent.partitions[0].devices[0].kind, DeviceKind::E1000);
    assert_eq!(compiled.intent.partitions[0].devices[0].bdf, "0000:00:03.0");
    assert_eq!(compiled.intent.partitions[1].memory_bytes, 1 << 30);
    assert_eq!(compiled.intent.benchmark.max_loss_ppm, 1000);
}

#[test]
fn unsupported_version_is_rejected() {
    let mut config = chain_config();
    config.version = 2;
    assert_eq!(
        normalize(config, LOSS_PPM).err(),
        Some(ConfigError::UnsupportedVersion { found: 2, supported: vec![1] })
    );
}

#[test]
fn blank_name_is_missing() {
    let mut config = chain_config();
    config.name = "  \t".into();
    assert_eq!(normalize(config, LOSS_PPM).err(), Some(ConfigError::MissingField { path: "name" }));
}

#[test]
fn empty_partition_list_is_missing() {
    let config = base_config(vec![], vec![]);
    assert_eq!(
        normalize(config, LOSS_PPM).err(),
        Some(ConfigError::MissingField { path: "partitions" })
    );
}

#[test]
fn zero_vcpus_and_memory_are_rejected() {
    let mut config = chain_config();
    config.partitions[1].vcpus = 0;
    assert_eq!(
        normalize(config, LOSS_PPM).err(),
        Some(invalid("partitions[].vcpus", "must be greater than zero"))
    );
    let mut config = chain_config();
    config.partitions[1].memory_gib = 0;
    assert_eq!(
        normalize(config, LOSS_PPM).err(),
        Some(invalid("partitions[].memory_gib", "must be greater than zero"))
    );
}

#[test]
fn blank_image_is_missing() {
    let mut config = chain_config();
    config.partitions[2].image = String::new();
    assert_eq!(
        normalize(config, LOSS_PPM).err(),
        Some(ConfigError::MissingField { path: "partitions[].image" })
    );
}

#[test]
fn device_errors_are_reported() {
    let mut config = chain_config();
    config.partitions[0].devices[0].kind = "virtio".into();
    assert_eq!(
        normalize(config, LOSS_PPM).err(),
        Some(invalid("devices[].kind", "unsupported device kind `virtio`"))
    );
    let mut config = chain_config();
    config.partitions[0].devices[0].bdf = "00:03".into();
    assert_eq!(
        normalize(config, LOSS_PPM).err(),
        Some(invalid("partitions[].devices[].bdf", "invalid PCI BDF"))
    );
}

#[test]
fn ipc_errors_are_reported() {
    let mut config = chain_config();
    config.ipc[0].slot_count = 0;
    assert_eq!(
        normalize(config, LOSS_PPM).err(),
        Some(invalid("ipc[].slot_count", "must be greater than zero"))
    );
    let mut config = chain_config();
    config.ipc[0].slot_size = 0;
    assert_eq!(
        normalize(config, LOSS_PPM).err(),
        Some(invalid("ipc[].slot_size", "must be greater than zero"))
    );
    let mut config = chain_config();
    config.ipc[1].name = "in_to_mid".into();
    assert_eq!(
        normalize(config, LOSS_PPM).err(),
        Some(ConfigError::DuplicateId { namespace: "ipc", name: "in_to_mid".into() })
    );
    let mut config = chain_config();
    config.ipc[1].consumer = "nowhere".into();
    assert_eq!(
        normalize(config, LOSS_PPM).err(),
        Some(ConfigError::UnknownReference { kind: "consumer", name: "nowhere".into() })
    );
    let mut config = chain_config();
    config.ipc[0].consumer = "in".into();
    assert_eq!(
        normalize(config, LOSS_PPM).err(),
        Some(invalid("ipc[]", "producer and consumer must differ"))
    );
}

#[test]
fn bidirectional_ipc_is_forbidden() {
    let mut config = chain_config();
    config.ipc.push(channel("mid_to_in", "mid", "in"));
    assert_eq!(
        normalize(config, LOSS_PPM).err(),
        Some(ConfigError::DatapathViolation {
            reason: "bidirectional IPC between 0 and 1 is forbidden".into()
        })
    );
}

#[test]
fn direct_nic_to_nic_ipc_is_forbidden() {
    let mut config = chain_config();
    config.ipc.push(channel("in_to_out", "in", "out"));
    assert_eq!(
        normalize(config, LOSS_PPM).err(),
        Some(ConfigError::DatapathViolation {
            reason: "direct IPC between NIC partitions `in` and `out` is forbidden".into()
        })
    );
}

#[test]
fn ram_budget_is_enforced() {
    let mut config = chain_config();
    config.partitions[1].memory_gib = 7;
    assert_eq!(
        normalize(config, LOSS_PPM).err(),
        Some(ConfigError::ResourceBudgetExceeded {
            kind: "ram",
            required: 9 << 30,
            available: 4 << 30,
        })
    );
}

#[test]
fn platform_requirement_errors_are_reported() {
    let mut config = chain_config();
    config.platform.requirements.arch = "aarch64".into();
    assert_eq!(
        normalize(config, LOSS_PPM).err(),
        Some(invalid("platform.requirements.arch", "only x86_64 is supported"))
    );
    let mut config = chain_config();
    config.platform.requirements.min_physical_cores = 0;
    assert_eq!(
        normalize(config, LOSS_PPM).err(),
        Some(invalid("platform.requirements.min_physical_cores", "must be greater than zero"))
    );
    let mut config = chain_config();
    config.platform.requirements.page_sizes = vec![];
    assert_eq!(
        normalize(config, LOSS_PPM).err(),
        Some(ConfigError::MissingField { path: "platform.requirements.page_sizes" })
    );
    let mut config = chain_config();
    config.platform.requirements.page_sizes = vec![4096, 1 << 30];
    assert_eq!(
        normalize(config, LOSS_PPM).err(),
        Some(invalid(
            "platform.requirements.page_sizes",
            "only 4096 and 2097152 byte pages are supported in MVP"
        ))
    );
}

#[test]
fn benchmark_errors_are_reported() {
    let mut config = chain_config();
    config.performance.benchmark.runs = 4;
    assert_eq!(
        normalize(config, LOSS_PPM).err(),
        Some(invalid("performance.benchmark.runs", "must be at least 5"))
    );
    let mut config = chain_config();
    config.performance.benchmark.warmup_seconds = 0;
    assert_eq!(
        normalize(config, LOSS_PPM).err(),
        Some(invalid("performance.benchmark.warmup_seconds", "must be greater than zero"))
    );
    assert_eq!(
        normalize(chain_config(), Err("ratio out of range")).err(),
        Some(invalid("performance.benchmark.max_loss_ratio", "ratio out of range"))
    );
}

#[test]
fn qemu_errors_are_reported() {
    let mut config = chain_config();
    config.qemu.smp.threads = 0;
    assert_eq!(
        normalize(config, LOSS_PPM).err(),
        Some(invalid("qemu.smp", "cpus, cores and threads must be non-zero"))
    );
    let mut config = chain_config();
    config.qemu.memory_mib = u64::MAX;
    assert_eq!(
        normalize(config, LOSS_PPM).err(),
        Some(invalid("qemu.memory_mib", "overflow converting to bytes"))
    );
    let mut config = chain_config();
    config.qemu.devices[0].bdf = "zz".into();
    assert_eq!(
        normalize(config, LOSS_PPM).err(),
        Some(invalid("qemu.devices[].bdf", "invalid PCI BDF"))
    );
}

#[test]
fn validated_requirements_summarise_partitions() {
    let validated = validate_config(chain_config(), LOSS_PPM).expect("validate");
    let req = &validated.platform_requirements;
    assert_eq!(req.config_name, "test");
    assert_eq!(req.total_partition_vcpus, 3);
    assert_eq!(req.total_partition_ram_bytes, 3 << 30);
    assert_eq!(req.min_ram_bytes, 4 << 30);
    let owners: Vec<_> = req
        .expected_pci_devices
        .iter()
        .map(|d| (d.owner.as_str(), d.kind.as_str(), d.bdf.as_str()))
        .collect();
    assert_eq!(owners, vec![("in", "e1000", "0000:00:03.0"), ("out", "e1000", "0000:00:04.0")]);
}

#[test]
fn fail_closed_levels() {
    assert!(PlatformRequirements::is_fail_closed(RequirementLevel::Required));
    assert!(!PlatformRequirements::is_fail_closed(RequirementLevel::Preferred));
    assert!(!PlatformRequirements::is_fail_closed(RequirementLevel::Optional));
    assert!(!PlatformRequirements::is_fail_closed(RequirementLevel::Disabled));
}

#[test]
fn config_hash_hex_round_trip() {
    let hash = compile_chain().validated.config_hash;
    let hex = hash.to_hex();
    assert_eq!(hex.len(), 64);
    assert!(hex.chars().all(|c| c.is_ascii_digit() || ('a'..='f').contains(&c)));
    assert_eq!(ConfigHash::from_hex(&hex), Some(hash));
    assert_eq!(ConfigHash::from_hex(&format!("  {hex}\n")), Some(hash));
}

#[test]
fn config_hash_rejects_bad_hex() {
    assert_eq!(ConfigHash::from_hex("abc"), None);
    assert_eq!(ConfigHash::from_hex(&"g".repeat(64)), None);
    assert_eq!(ConfigHash::from_hex(&"A".repeat(64)), None);
}

#[test]
fn config_hash_is_sha256_of_canonical_bytes() {
    let hash = ConfigHash::compute(b"abc");
    assert_eq!(
        hash.to_hex(),
        "ba7816bf8f01cfea414140de5dae2223b00361a396177a9cb410ff61f20015ad"
    );
    assert_eq!(hash.bytes()[0], 0xba);
}

#[test]
fn different_configs_hash_differently() {
    let mut other = chain_config();
    other.name = "other".into();
    let a = compile_chain().validated.config_hash;
    let b = compile_config(other, LOSS_PPM).expect("compile").validated.config_hash;
    assert_ne!(a, b);
}

#[test]
fn artifacts_are_sorted_and_complete() {
    let compiled = compile_chain();
    let artifacts = GeneratedArtifacts::from_compiled(&compiled);
    let paths: Vec<_> = artifacts.files.iter().map(|f| f.path.as_str()).collect();
    let mut sorted = paths.clone();
    sorted.sort();
    assert_eq!(paths, sorted);
    assert_eq!(paths.len(), 17);
    assert!(paths.contains(&"config.sha256"));
    let hash_file = artifacts.files.iter().find(|f| f.path == "config.sha256").expect("hash file");
    assert_eq!(hash_file.contents, format!("{}\n", compiled.validated.config_hash.to_hex()));
}

#[test]
fn ipc_map_artifact_lists_channels() {
    let artifacts = GeneratedArtifacts::from_compiled(&compile_chain());
    let ipc = artifacts.files.iter().find(|f| f.path == "ipc-map.txt").expect("ipc map");
    assert_eq!(
        ipc.contents,
        "# IPC map\n\
         channel=in_to_mid producer=vm0 consumer=vm1 slots=256 slot_size=2048 shared_bytes=524288\n\
         channel=mid_to_out producer=vm1 consumer=vm2 slots=256 slot_size=2048 shared_bytes=524288\n"
    );
}

#[test]
fn memory_map_artifact_lists_partitions_then_channels() {
    let artifacts = GeneratedArtifacts::from_compiled(&compile_chain());
    let mem = artifacts.files.iter().find(|f| f.path == "memory-map.txt").expect("memory map");
    assert_eq!(
        mem.contents,
        "# Memory plan intent\n\
         partition vm0 name=in private_ram_bytes=1073741824\n\
         partition vm1 name=mid private_ram_bytes=1073741824\n\
         partition vm2 name=out private_ram_bytes=1073741824\n\
         ipc in_to_mid producer=vm0 consumer=vm1 shared_bytes=524288\n\
         ipc mid_to_out producer=vm1 consumer=vm2 shared_bytes=524288\n"
    );
}

#[test]
fn partition_lookup_by_name() {
    let validated = validate_config(chain_config(), LOSS_PPM).expect("validate");
    let mid = validated.normalized.partition_by_name("mid").expect("mid");
    assert_eq!(mid.vm_id.raw(), 1);
    assert!(validated.normalized.partition_by_name("edge").is_none());
    assert_eq!(validated.normalized.partitions().len(), 3);
}

fn observed() -> ObservedPlatform {
    qemu_validation_observed().expect("fixture")
}

fn chain_memory_plan() -> MemoryPlan {
    let mut regions = Vec::new();
    for vm in 0..3u32 {
        regions.push(MemoryRegion {
            base: HostPhysAddr::new(0x4000_0000 * (u64::from(vm) + 1)),
            size: 1 << 30,
            purpose: MemoryPurpose::PartitionGuestRam { vm_id: vm },
        });
    }
    for (i, name) in ["in_to_mid", "mid_to_out"].iter().enumerate() {
        regions.push(MemoryRegion {
            base: HostPhysAddr::new(0x1_0000_0000 + 0x10_0000 * i as u64),
            size: 0x10_0000,
            purpose: MemoryPurpose::IpcChannel { name: (*name).into() },
        });
    }
    MemoryPlan { regions }
}

#[test]
fn qemu_fixture_satisfies_chain_requirements() {
    let compiled = compile_chain();
    let validated = validate_platform(&compiled.intent.platform_requirements, &observed())
        .expect("validate platform");
    assert_eq!(validated.config_name, "test");
    assert_eq!(validated.observed.conventional_ram_bytes, 6 << 30);
}

#[test]
fn platform_fails_closed_when_vtd_missing() {
    let compiled = compile_chain();
    let mut observed = observed();
    observed.acpi.dmar = None;
    observed.cpu.vtd = false;
    assert_eq!(
        validate_platform(&compiled.intent.platform_requirements, &observed).err(),
        Some(PlatformValidationError::MissingRequiredFeature { feature: "vtd" })
    );
}

#[test]
fn platform_reports_missing_cores_ram_and_devices() {
    let compiled = compile_chain();
    let req = &compiled.intent.platform_requirements;
    let mut few_cores = observed();
    few_cores.physical_core_count = 2;
    assert_eq!(
        validate_platform(req, &few_cores).err(),
        Some(PlatformValidationError::InsufficientPhysicalCores { required: 3, observed: 2 })
    );
    let mut more_ram = chain_config();
    more_ram.platform.requirements.min_ram_gib = 8;
    let hungry = compile_config(more_ram, LOSS_PPM).expect("compile");
    assert_eq!(
        validate_platform(&hungry.intent.platform_requirements, &observed()).err(),
        Some(PlatformValidationError::InsufficientRam { required: 8 << 30, observed: 6 << 30 })
    );
    let mut no_out_nic = observed();
    no_out_nic.pci_devices.truncate(1);
    assert_eq!(
        validate_platform(req, &no_out_nic).err(),
        Some(PlatformValidationError::MissingPciDevice { bdf: "0000:00:04.0".into() })
    );
}

#[test]
fn preferred_features_do_not_fail_closed() {
    let compiled = compile_chain();
    let mut observed = observed();
    observed.cpu.invariant_tsc = false;
    observed.cpu.vpid = false;
    assert!(validate_platform(&compiled.intent.platform_requirements, &observed).is_ok());
}

#[test]
fn cpu_plan_gives_each_partition_its_own_core() {
    let compiled = compile_chain();
    let topology = topology_from_observed(&observed());
    assert_eq!(topology.physical_core_count(), 4);
    assert!(!topology.smt_enabled());
    let plan = plan_cpu(&compiled.intent, &topology).expect("cpu plan");
    assert_eq!(plan.assignments.len(), 3);
    for (i, a) in plan.assignments.iter().enumerate() {
        assert_eq!(a.vm_id.raw(), i as u32);
        assert_eq!(a.physical_core, PhysicalCoreId::new(i as u32));
        assert_eq!(a.bootstrap_logical_cpu, LogicalCpuId::new(i as u32));
    }
    assert_eq!(plan.assignments[1].name, "mid");
}

#[test]
fn cpu_plan_needs_enough_cores() {
    let compiled = compile_chain();
    let mut observed = observed();
    observed.physical_core_count = 2;
    assert_eq!(
        plan_cpu(&compiled.intent, &topology_from_observed(&observed)).err(),
        Some(CpuTopologyError::InsufficientCores { required: 3, available: 2 })
    );
}

#[test]
fn cpu_plan_rejects_multi_vcpu_partition_under_exclusive_cores() {
    let mut config = chain_config();
    config.partitions[1].vcpus = 2;
    let compiled = compile_config(config, LOSS_PPM).expect("compile");
    assert_eq!(
        plan_cpu(&compiled.intent, &topology_from_observed(&observed())).err(),
        Some(CpuTopologyError::TooManyVcpusPerCore { partition: "mid".into(), requested: 2 })
    );
}

#[test]
fn cpu_plan_rejects_smt_when_policy_disables_it() {
    let mut config = chain_config();
    config.platform.requirements.smt_policy = SmtPolicy::Disabled;
    let compiled = compile_config(config, LOSS_PPM).expect("compile");
    let cores = (0..4u32)
        .map(|i| CpuCore {
            physical_core_id: PhysicalCoreId::new(i),
            apic_id: ApicId::new(2 * i),
            logical_cpus: vec![LogicalCpuId::new(2 * i), LogicalCpuId::new(2 * i + 1)],
        })
        .collect();
    let topology = CpuTopology { cores };
    assert!(topology.smt_enabled());
    assert_eq!(
        plan_cpu(&compiled.intent, &topology).err(),
        Some(CpuTopologyError::SmtPolicyViolation {
            reason: "platform SMT is enabled but policy requires disabled".into()
        })
    );
}

#[test]
fn ept_plan_maps_ram_rings_then_mmio() {
    let compiled = compile_chain();
    let plan = plan_ept(&compiled.intent, &chain_memory_plan()).expect("ept plan");
    assert_eq!(plan.partitions.len(), 3);
    let counts: Vec<_> = plan.partitions.iter().map(|p| p.mappings.len()).collect();
    assert_eq!(counts, vec![3, 3, 3]);
    for partition in &plan.partitions {
        for pair in partition.mappings.windows(2) {
            assert!(pair[0].guest_phys.raw() + pair[0].size <= pair[1].guest_phys.raw());
        }
    }

    let mid = &plan.partitions[1];
    assert_eq!(mid.vm_id.raw(), 1);
    assert_eq!(mid.mappings[0].guest_phys.raw(), 0);
    assert_eq!(mid.mappings[0].host_phys, HostPhysAddr::new(0x8000_0000));
    assert_eq!(mid.mappings[0].size, 1 << 30);
    assert_eq!(mid.mappings[0].permissions, EptPermissions::guest_ram());
    assert_eq!(mid.mappings[1].guest_phys.raw(), 1 << 30);
    assert_eq!(mid.mappings[1].host_phys, HostPhysAddr::new(0x1_0000_0000));
    // The whole ring is mapped: its 40-byte header and 256 slots of 2048 bytes.
    assert_eq!(mid.mappings[1].size, 524288 + 40);
    // The next ring starts after the page-rounded span, still page aligned.
    assert_eq!(mid.mappings[2].guest_phys.raw(), (1 << 30) + 524288 + 4096);
    assert_eq!(mid.mappings[2].guest_phys.raw() % 4096, 0);
    assert_eq!(mid.mappings[2].host_phys, HostPhysAddr::new(0x1_0010_0000));

    let out = &plan.partitions[2];
    let mmio = &out.mappings[2];
    assert_eq!(mmio.guest_phys.raw(), MMIO_GUEST_BASE);
    assert_eq!(mmio.host_phys.raw(), MMIO_HOST_BASE + 2 * MMIO_HOST_STRIDE);
    assert_eq!(mmio.size, MMIO_REGION_SIZE);
    assert_eq!(mmio.permissions, EptPermissions::mmio());
    assert_eq!(mmio.memory_type, EptMemoryType::Uncacheable);
}

#[test]
fn ept_plan_reports_missing_backing() {
    let compiled = compile_chain();
    let mut memory = chain_memory_plan();
    memory.regions.remove(0);
    assert_eq!(
        plan_ept(&compiled.intent, &memory).err(),
        Some(EptPlanError::MissingGuestRam { vm_id: 0 })
    );
    let mut memory = chain_memory_plan();
    memory.regions.pop();
    assert_eq!(
        plan_ept(&compiled.intent, &memory).err(),
        Some(EptPlanError::MissingIpcChannel { vm_id: 1, channel: "mid_to_out".into() })
    );
}

#[test]
fn planned_ram_mapping_installs() {
    let compiled = compile_chain();
    let plan = plan_ept(&compiled.intent, &chain_memory_plan()).expect("ept plan");
    let mut buffer = vec![0u8; 64 * 1024];
    let ram = &plan.partitions[0].mappings[..1];
    let result = install_ept_mappings(&mut buffer, HostPhysAddr::new(0x20_0000), ram).expect("install");
    assert_eq!(result.root_hpa, HostPhysAddr::new(0x20_0000));
    assert_eq!(result.bytes_used, 3 * 4096);
}

#[test]
fn config_error_messages() {
    assert_eq!(
        ConfigError::UnsupportedVersion { found: 2, supported: vec![1] }.message(),
        "unsupported config version 2; supported: [1]"
    );
    assert_eq!(
        ConfigError::UnsupportedVersion { found: 7, supported: vec![1, 2, 30] }.message(),
        "unsupported config version 7; supported: [1, 2, 30]"
    );
    assert_eq!(
        ConfigError::MissingField { path: "partitions" }.message(),
        "missing required field `partitions`"
    );
    assert_eq!(
        invalid("ipc[].slot_count", "must be greater than zero").message(),
        "invalid value at `ipc[].slot_count`: must be greater than zero"
    );
    assert_eq!(
        ConfigError::DuplicateId { namespace: "ipc", name: "a".into() }.message(),
        "duplicate ipc name `a`"
    );
    assert_eq!(
        ConfigError::UnknownReference { kind: "producer", name: "x".into() }.message(),
        "unknown producer `x`"
    );
    assert_eq!(
        ConfigError::DatapathViolation { reason: "r".into() }.message(),
        "datapath violation: r"
    );
    assert_eq!(
        ConfigError::PciOwnershipConflict {
            bdf: "0000:00:03.0".into(),
            first: "a".into(),
            second: "b".into(),
        }
        .message(),
        "PCI device `0000:00:03.0` assigned to both `a` and `b`"
    );
    assert_eq!(
        ConfigError::ResourceBudgetExceeded { kind: "ram", required: 9, available: 4 }.message(),
        "ram budget exceeded: required 9, available 4"
    );
    assert_eq!(ConfigError::YamlParse("bad".into()).message(), "yaml parse error: bad");
    assert_eq!(ConfigError::Io("gone".into()).message(), "io error: gone");
}

#[test]
fn config_hash_debug_text() {
    let hash = ConfigHash::compute(b"abc");
    assert_eq!(
        hash.debug_text(),
        "ConfigHash(ba7816bf8f01cfea414140de5dae2223b00361a396177a9cb410ff61f20015ad)"
    );
}

#[test]
fn platform_and_planning_messages() {
    assert_eq!(PlatformValidationError::ArchMismatch.message(), "architecture mismatch");
    assert_eq!(
        PlatformValidationError::MissingRequiredFeature { feature: "vtd" }.message(),
        "missing required feature `vtd`"
    );
    assert_eq!(
        PlatformValidationError::InsufficientRam { required: 8, observed: 6 }.message(),
        "insufficient RAM: need 8, saw 6"
    );
    assert_eq!(
        PlatformValidationError::MissingPciDevice { bdf: "0000:00:04.0".into() }.message(),
        "missing PCI device `0000:00:04.0`"
    );
    assert_eq!(
        CpuTopologyError::TooManyVcpusPerCore { partition: "mid".into(), requested: 2 }.message(),
        "partition `mid` requests 2 vCPUs under exclusive_core"
    );
    assert_eq!(
        CpuTopologyError::InsufficientCores { required: 3, available: 2 }.message(),
        "insufficient cores: need 3, have 2"
    );
    assert_eq!(
        EptPlanError::MissingGuestRam { vm_id: 2 }.message(),
        "missing guest RAM backing for vm2"
    );
    assert_eq!(EptPlanError::Overflow.message(), "EPT planner overflow");
    assert_eq!(
        CoreError::Validation(PlatformValidationError::MissingPageSize { size: 1024 }).message(),
        "missing guest page size 1024"
    );
    assert_eq!(CoreError::BootInfo("bad magic").message(), "boot info error: bad magic");
    assert_eq!(
        CoreError::Cpu(CpuTopologyError::SmtPolicyViolation { reason: "r".into() }).message(),
        "SMT policy violation: r"
    );
}

#[test]
fn parsed_hash_text_round_trips() {
    let text = "  00ff10a9b2c3d4e5f60718293a4b5c6d7e8f90a1b2c3d4e5f60718293a4b5c6d\n";
    let hash = ConfigHash::from_hex(text).expect("valid hex");
    assert_eq!(hash.to_hex(), text.trim());
}

#[test]
fn compiling_twice_gives_the_same_hash_and_ids() {
    let a = compile_chain();
    let b = compile_chain();
    assert_eq!(a.validated.config_hash, b.validated.config_hash);
    assert_eq!(a.intent.config_hash, b.intent.config_hash);
    let ids_a: Vec<_> = a.intent.partitions.iter().map(|p| (p.vm_id, p.name.clone())).collect();
    let ids_b: Vec<_> = b.intent.partitions.iter().map(|p| (p.vm_id, p.name.clone())).collect();
    assert_eq!(ids_a, ids_b);
    let rings_a: Vec<_> = a.intent.ipc.iter().map(|c| (c.producer, c.consumer, c.shared_bytes)).collect();
    let rings_b: Vec<_> = b.intent.ipc.iter().map(|c| (c.producer, c.consumer, c.shared_bytes)).collect();
    assert_eq!(rings_a, rings_b);
}
