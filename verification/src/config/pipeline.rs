//! Configuration compilation pipeline: normalization, requirement extraction,
//! canonical hashing and the static intent IR.

use vstd::prelude::*;
use vstd::string::*;
use vstd::utf8::encode_utf8;

use crate::config::canonical::{canonical_text, canonicalize_normalized};
use crate::config::error::{error_is, ConfigError};
use crate::config::hash::{sha256, ConfigHash};
use crate::config::intent::{intent_of, StaticIntentIR};
use crate::config::normalize::{
    config_normalized, normalize, normalize_error, partition_normalized, NormalizedConfig,
    NormalizedPartition,
};
use crate::config::raw::{RawConfig, RawPartition};
use crate::config::requirements::{platform_requirements_of, total_vcpus, PlatformRequirements};

verus! {

/// Output of successful configuration validation.
#[derive(Clone, Debug, PartialEq, Eq)]
pub struct ValidatedConfig {
    /// Normalized configuration.
    pub normalized: NormalizedConfig,
    /// Platform requirements contract.
    pub platform_requirements: PlatformRequirements,
    /// Canonical configuration hash.
    pub config_hash: ConfigHash,
}

/// Output of full configuration compilation.
#[derive(Clone, Debug, PartialEq, Eq)]
pub struct CompiledConfig {
    /// Validated configuration layers.
    pub validated: ValidatedConfig,
    /// Static intent IR.
    pub intent: StaticIntentIR,
}

/// Sum of the raw partitions' vCPU counts.
pub open spec fn raw_total_vcpus(ps: Seq<RawPartition>) -> int
    decreases ps.len(),
{
    if ps.len() == 0 {
        0
    } else {
        raw_total_vcpus(ps.drop_last()) + ps.last().vcpus
    }
}

/// The hash of a normalized configuration: SHA-256 of its canonical JSON bytes.
pub open spec fn config_hash_of(c: NormalizedConfig) -> Seq<u8> {
    sha256(encode_utf8(canonical_text(c)))
}

/// `v` is the validated form of `raw` with loss bound `ppm`.
pub open spec fn validated_of(raw: RawConfig, ppm: u32, v: ValidatedConfig) -> bool {
    &&& config_normalized(raw, ppm, v.normalized)
    &&& platform_requirements_of(v.normalized, v.platform_requirements)
    &&& v.config_hash.0@ == config_hash_of(v.normalized)
}

proof fn lemma_total_vcpus(ps: Seq<RawPartition>, out: Seq<NormalizedPartition>, k: int)
    requires
        out.len() == ps.len(),
        forall|i: int| 0 <= i < ps.len() ==> partition_normalized(ps[i], i, #[trigger] out[i]),
        0 <= k <= ps.len(),
    ensures
        total_vcpus(out.take(k)) == raw_total_vcpus(ps.take(k)),
    decreases k,
{
    if k > 0 {
        lemma_total_vcpus(ps, out, k - 1);
        assert(out.take(k).drop_last() =~= out.take(k - 1));
        assert(ps.take(k).drop_last() =~= ps.take(k - 1));
        assert(partition_normalized(ps[k - 1], k - 1, out[k - 1]));
    }
}

fn compute_config_hash(normalized: &NormalizedConfig) -> (r: ConfigHash)
    ensures
        r.0@ == config_hash_of(*normalized),
{
    let canonical = canonicalize_normalized(normalized);
    ConfigHash::compute(canonical.as_str().as_bytes())
}

/// Validates raw configuration through normalization and requirement
/// extraction. `max_loss_ppm` is the outcome of parsing the benchmark's loss
/// ratio into parts per million.
pub fn validate_config(raw: RawConfig, max_loss_ppm: Result<u32, &'static str>) -> (r: Result<
    ValidatedConfig,
    ConfigError,
>)
    requires
        raw_total_vcpus(raw.partitions@) <= u32::MAX,
    ensures
        normalize_error(raw, max_loss_ppm) matches Some(e) ==> r is Err && error_is(r->Err_0, e),
        normalize_error(raw, max_loss_ppm) is None ==> (r matches Ok(v) && validated_of(
            raw,
            max_loss_ppm->Ok_0,
            v,
        )),
{
    let ghost ps = raw.partitions@;
    let normalized = normalize(raw, max_loss_ppm)?;
    proof {
        lemma_total_vcpus(ps, normalized.partitions@, ps.len() as int);
        assert(ps.take(ps.len() as int) =~= ps);
        assert(normalized.partitions@.take(ps.len() as int) =~= normalized.partitions@);
    }
    let platform_requirements = PlatformRequirements::from_normalized(&normalized);
    let config_hash = compute_config_hash(&normalized);
    Ok(ValidatedConfig { normalized, platform_requirements, config_hash })
}

/// Compiles raw configuration into validated layers and the static intent IR.
pub fn compile_config(raw: RawConfig, max_loss_ppm: Result<u32, &'static str>) -> (r: Result<
    CompiledConfig,
    ConfigError,
>)
    requires
        raw_total_vcpus(raw.partitions@) <= u32::MAX,
        raw.partitions@.len() <= u32::MAX,
    ensures
        normalize_error(raw, max_loss_ppm) matches Some(e) ==> r is Err && error_is(r->Err_0, e),
        normalize_error(raw, max_loss_ppm) is None ==> (r matches Ok(c) && validated_of(
            raw,
            max_loss_ppm->Ok_0,
            c.validated,
        ) && intent_of(c.validated.normalized, c.validated.config_hash, c.intent)),
{
    let ghost ps = raw.partitions@;
    let validated = validate_config(raw, max_loss_ppm)?;
    proof {
        let out = validated.normalized.partitions@;
        lemma_total_vcpus(ps, out, ps.len() as int);
        assert(ps.take(ps.len() as int) =~= ps);
        assert(out.take(ps.len() as int) =~= out);
        assert forall|i: int| 0 <= i < out.len() implies (#[trigger] out[i]).vm_id.0 < u32::MAX by {
            assert(partition_normalized(ps[i], i, out[i]));
        }
    }
    let intent = StaticIntentIR::from_normalized(&validated.normalized, validated.config_hash)?;
    Ok(CompiledConfig { validated, intent })
}

} // verus!
