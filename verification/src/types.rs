//! Typed identifiers, addresses and overflow-checked arithmetic helpers.

use vstd::prelude::*;
use vstd::string::*;

verus! {

/// Host physical address.
#[derive(Clone, Copy, Debug, PartialEq, Eq, Hash, Structural)]
pub struct HostPhysAddr(pub u64);

impl HostPhysAddr {
    /// Wraps a raw address.
    pub fn new(raw: u64) -> (r: Self)
        ensures
            r.0 == raw,
    {
        HostPhysAddr(raw)
    }

    /// Returns the raw address.
    pub fn raw(&self) -> (r: u64)
        ensures
            r == self.0,
    {
        self.0
    }
}

/// Guest physical address.
#[derive(Clone, Copy, Debug, PartialEq, Eq, Hash, Structural)]
pub struct GuestPhysAddr(pub u64);

impl GuestPhysAddr {
    /// Wraps a raw address.
    pub fn new(raw: u64) -> (r: Self)
        ensures
            r.0 == raw,
    {
        GuestPhysAddr(raw)
    }

    /// Returns the raw address.
    pub fn raw(&self) -> (r: u64)
        ensures
            r == self.0,
    {
        self.0
    }
}

/// Partition (virtual machine) identifier.
#[derive(Clone, Copy, Debug, PartialEq, Eq, Hash, Structural)]
pub struct VmId(pub u32);

impl VmId {
    /// Wraps a raw identifier.
    pub fn new(raw: u32) -> (r: Self)
        ensures
            r.0 == raw,
    {
        VmId(raw)
    }

    /// Returns the raw identifier.
    pub fn raw(&self) -> (r: u32)
        ensures
            r == self.0,
    {
        self.0
    }
}

/// Virtual CPU identifier.
#[derive(Clone, Copy, Debug, PartialEq, Eq, Hash, Structural)]
pub struct VcpuId(pub u32);

impl VcpuId {
    /// Wraps a raw identifier.
    pub fn new(raw: u32) -> (r: Self)
        ensures
            r.0 == raw,
    {
        VcpuId(raw)
    }

    /// Returns the raw identifier.
    pub fn raw(&self) -> (r: u32)
        ensures
            r == self.0,
    {
        self.0
    }
}

/// Local APIC / x2APIC identifier.
#[derive(Clone, Copy, Debug, PartialEq, Eq, Hash, Structural)]
pub struct ApicId(pub u32);

impl ApicId {
    /// Wraps a raw identifier.
    pub fn new(raw: u32) -> (r: Self)
        ensures
            r.0 == raw,
    {
        ApicId(raw)
    }

    /// Returns the raw identifier.
    pub fn raw(&self) -> (r: u32)
        ensures
            r == self.0,
    {
        self.0
    }
}

/// Logical processor identifier.
#[derive(Clone, Copy, Debug, PartialEq, Eq, Hash, Structural)]
pub struct LogicalCpuId(pub u32);

impl LogicalCpuId {
    /// Wraps a raw identifier.
    pub fn new(raw: u32) -> (r: Self)
        ensures
            r.0 == raw,
    {
        LogicalCpuId(raw)
    }

    /// Returns the raw identifier.
    pub fn raw(&self) -> (r: u32)
        ensures
            r == self.0,
    {
        self.0
    }
}

/// Physical core identifier.
#[derive(Clone, Copy, Debug, PartialEq, Eq, Hash, Structural)]
pub struct PhysicalCoreId(pub u32);

impl PhysicalCoreId {
    /// Wraps a raw identifier.
    pub fn new(raw: u32) -> (r: Self)
        ensures
            r.0 == raw,
    {
        PhysicalCoreId(raw)
    }

    /// Returns the raw identifier.
    pub fn raw(&self) -> (r: u32)
        ensures
            r == self.0,
    {
        self.0
    }
}

/// IOMMU (VT-d) domain identifier.
#[derive(Clone, Copy, Debug, PartialEq, Eq, Hash, Structural)]
pub struct IommuDomainId(pub u16);

impl IommuDomainId {
    /// Wraps a raw identifier.
    pub fn new(raw: u16) -> (r: Self)
        ensures
            r.0 == raw,
    {
        IommuDomainId(raw)
    }

    /// Returns the raw identifier.
    pub fn raw(&self) -> (r: u16)
        ensures
            r == self.0,
    {
        self.0
    }
}

/// PCI segment (domain) number.
#[derive(Clone, Copy, Debug, PartialEq, Eq, Hash, Structural)]
pub struct PciSegment(pub u16);

impl PciSegment {
    /// Wraps a raw segment number.
    pub fn new(raw: u16) -> (r: Self)
        ensures
            r.0 == raw,
    {
        PciSegment(raw)
    }

    /// Returns the raw segment number.
    pub fn raw(&self) -> (r: u16)
        ensures
            r == self.0,
    {
        self.0
    }
}

/// PCI bus number.
#[derive(Clone, Copy, Debug, PartialEq, Eq, Hash, Structural)]
pub struct PciBus(pub u8);

impl PciBus {
    /// Wraps a raw bus number.
    pub fn new(raw: u8) -> (r: Self)
        ensures
            r.0 == raw,
    {
        PciBus(raw)
    }

    /// Returns the raw bus number.
    pub fn raw(&self) -> (r: u8)
        ensures
            r == self.0,
    {
        self.0
    }
}

/// Error returned by the overflow-checked arithmetic helpers.
#[derive(Clone, Copy, Debug, PartialEq, Eq, Structural)]
pub enum ArithmeticError {
    /// The mathematical result does not fit in the target type.
    Overflow,
    /// An alignment argument was zero or not a power of two.
    InvalidAlignment,
}

/// Adds two `u64` values, failing on overflow.
pub fn checked_add_u64(a: u64, b: u64) -> (r: Result<u64, ArithmeticError>)
    ensures
        a + b <= u64::MAX ==> r == Ok::<u64, ArithmeticError>((a + b) as u64),
        a + b > u64::MAX ==> r == Err::<u64, ArithmeticError>(ArithmeticError::Overflow),
{
    if a <= u64::MAX - b {
        Ok(a + b)
    } else {
        Err(ArithmeticError::Overflow)
    }
}

/// Adds two `usize` values, failing on overflow.
pub fn checked_add_usize(a: usize, b: usize) -> (r: Result<usize, ArithmeticError>)
    ensures
        a + b <= usize::MAX ==> r == Ok::<usize, ArithmeticError>((a + b) as usize),
        a + b > usize::MAX ==> r == Err::<usize, ArithmeticError>(ArithmeticError::Overflow),
{
    if a <= usize::MAX - b {
        Ok(a + b)
    } else {
        Err(ArithmeticError::Overflow)
    }
}

/// Multiplies two `usize` values, failing on overflow.
pub fn checked_mul_usize(a: usize, b: usize) -> (r: Result<usize, ArithmeticError>)
    ensures
        a * b <= usize::MAX ==> r == Ok::<usize, ArithmeticError>((a * b) as usize),
        a * b > usize::MAX ==> r == Err::<usize, ArithmeticError>(ArithmeticError::Overflow),
{
    match a.checked_mul(b) {
        Some(v) => Ok(v),
        None => Err(ArithmeticError::Overflow),
    }
}

/// Mathematical overlap of the half-open ranges `[a, a + a_len)` and `[b, b + b_len)`.
pub open spec fn ranges_overlap(a: int, a_len: int, b: int, b_len: int) -> bool {
    a_len > 0 && b_len > 0 && a < b + b_len && b < a + a_len
}

/// Returns true when the half-open ranges `[a, a + a_len)` and `[b, b + b_len)`
/// share at least one address; empty ranges overlap nothing.
pub fn ranges_overlap_u64(a: u64, a_len: u64, b: u64, b_len: u64) -> (r: bool)
    ensures
        r == ranges_overlap(a as int, a_len as int, b as int, b_len as int),
{
    if a_len == 0 || b_len == 0 {
        return false;
    }
    let a_ok = (a as u128) < (b as u128) + (b_len as u128);
    let b_ok = (b as u128) < (a as u128) + (a_len as u128);
    a_ok && b_ok
}

/// Smallest multiple of `align` that is at least `value`.
pub open spec fn align_up_spec(value: int, align: int) -> int {
    if value % align == 0 {
        value
    } else {
        value + (align - value % align)
    }
}

/// Rounds `value` up to a multiple of `align`, failing on overflow or a zero alignment.
pub fn align_up_u64(value: u64, align: u64) -> (r: Result<u64, ArithmeticError>)
    ensures
        align == 0 ==> r == Err::<u64, ArithmeticError>(ArithmeticError::InvalidAlignment),
        align > 0 && align_up_spec(value as int, align as int) <= u64::MAX ==> r == Ok::<
            u64,
            ArithmeticError,
        >(align_up_spec(value as int, align as int) as u64),
        align > 0 && align_up_spec(value as int, align as int) > u64::MAX ==> r == Err::<
            u64,
            ArithmeticError,
        >(ArithmeticError::Overflow),
{
    if align == 0 {
        return Err(ArithmeticError::InvalidAlignment);
    }
    let rem = value % align;
    if rem == 0 {
        Ok(value)
    } else {
        let pad = align - rem;
        checked_add_u64(value, pad)
    }
}

/// Number of bytes in one gibibyte.
pub const GIB: u64 = 1024 * 1024 * 1024;

/// Number of bytes in one mebibyte.
pub const MIB: u64 = 1024 * 1024;

/// Converts gibibytes to bytes, failing on overflow.
pub fn gib_to_bytes(gib: u64) -> (r: Result<u64, ArithmeticError>)
    ensures
        gib * GIB <= u64::MAX ==> r == Ok::<u64, ArithmeticError>((gib * GIB) as u64),
        gib * GIB > u64::MAX ==> r == Err::<u64, ArithmeticError>(ArithmeticError::Overflow),
{
    match gib.checked_mul(GIB) {
        Some(v) => Ok(v),
        None => Err(ArithmeticError::Overflow),
    }
}

/// Converts mebibytes to bytes, failing on overflow.
pub fn mib_to_bytes(mib: u64) -> (r: Result<u64, ArithmeticError>)
    ensures
        mib * MIB <= u64::MAX ==> r == Ok::<u64, ArithmeticError>((mib * MIB) as u64),
        mib * MIB > u64::MAX ==> r == Err::<u64, ArithmeticError>(ArithmeticError::Overflow),
{
    match mib.checked_mul(MIB) {
        Some(v) => Ok(v),
        None => Err(ArithmeticError::Overflow),
    }
}

} // verus!

verus! {

/// PCI bus/device/function address within a segment.
#[derive(Clone, Copy, Debug, PartialEq, Eq, Hash, Structural)]
pub struct PciBdf {
    /// Segment (domain) number.
    pub segment: u16,
    /// Bus number.
    pub bus: u8,
    /// Device number, below 32.
    pub device: u8,
    /// Function number, below 8.
    pub function: u8,
}

/// Reasons a BDF string or component tuple is rejected.
#[derive(Clone, Copy, Debug, PartialEq, Eq, Structural)]
pub enum PciBdfError {
    /// The text is not in `SSSS:BB:DD.F` hexadecimal form.
    Malformed,
    /// The device number is 32 or more.
    DeviceOutOfRange,
    /// The function number is 8 or more.
    FunctionOutOfRange,
}

/// Value of an ASCII hexadecimal digit, or -1 for any other byte.
pub open spec fn hex_digit_value(b: u8) -> int {
    if 0x30 <= b <= 0x39 {
        b - 0x30
    } else if 0x61 <= b <= 0x66 {
        b - 0x61 + 10
    } else if 0x41 <= b <= 0x46 {
        b - 0x41 + 10
    } else {
        -1
    }
}

/// Value of the hexadecimal digits `s[start..start + n)`, read most significant first.
pub open spec fn hex_field(s: Seq<u8>, start: int, n: nat) -> int
    decreases n,
{
    if n == 0 {
        0
    } else {
        hex_field(s, start, (n - 1) as nat) * 16 + hex_digit_value(s[start + n - 1])
    }
}

/// All bytes of `s[start..start + n)` are hexadecimal digits.
pub open spec fn all_hex(s: Seq<u8>, start: int, n: int) -> bool {
    forall|i: int| start <= i < start + n ==> hex_digit_value(#[trigger] s[i]) >= 0
}

/// The text has the `SSSS:BB:DD.F` shape with hexadecimal digits in every field.
pub open spec fn bdf_well_shaped(s: Seq<u8>) -> bool {
    &&& s.len() == 12
    &&& s[4] == 0x3a
    &&& s[7] == 0x3a
    &&& s[10] == 0x2e
    &&& all_hex(s, 0, 4)
    &&& all_hex(s, 5, 2)
    &&& all_hex(s, 8, 2)
    &&& all_hex(s, 11, 1)
}

/// Result of parsing the UTF-8 bytes of a BDF string.
pub open spec fn parse_bdf_spec(s: Seq<u8>) -> Result<PciBdf, PciBdfError> {
    if !bdf_well_shaped(s) {
        Err(PciBdfError::Malformed)
    } else if hex_field(s, 8, 2) >= 32 {
        Err(PciBdfError::DeviceOutOfRange)
    } else if hex_field(s, 11, 1) >= 8 {
        Err(PciBdfError::FunctionOutOfRange)
    } else {
        Ok(
            PciBdf {
                segment: hex_field(s, 0, 4) as u16,
                bus: hex_field(s, 5, 2) as u8,
                device: hex_field(s, 8, 2) as u8,
                function: hex_field(s, 11, 1) as u8,
            },
        )
    }
}

/// Lowercase hexadecimal digit character for a nibble.
pub open spec fn hex_char(n: int) -> char {
    if n < 10 {
        (n + 0x30) as char
    } else {
        (n - 10 + 0x61) as char
    }
}

/// The `n` lowercase hexadecimal digits of `v`, most significant first.
pub open spec fn hex_chars(v: int, n: nat) -> Seq<char>
    decreases n,
{
    if n == 0 {
        Seq::empty()
    } else {
        hex_chars(v / 16, (n - 1) as nat).push(hex_char(v % 16))
    }
}

/// Canonical `ssss:bb:dd.f` text of a BDF.
pub open spec fn bdf_text(b: PciBdf) -> Seq<char> {
    hex_chars(b.segment as int, 4) + seq![':'] + hex_chars(b.bus as int, 2) + seq![':']
        + hex_chars(b.device as int, 2) + seq!['.'] + hex_chars(b.function as int, 1)
}

fn hex_value(b: u8) -> (r: i32)
    ensures
        r == hex_digit_value(b),
{
    if 0x30 <= b && b <= 0x39 {
        (b - 0x30) as i32
    } else if 0x61 <= b && b <= 0x66 {
        (b - 0x61 + 10) as i32
    } else if 0x41 <= b && b <= 0x46 {
        (b - 0x41 + 10) as i32
    } else {
        -1
    }
}

/// Reads `n` hexadecimal digits starting at `start`, or `None` when one is not a digit.
fn read_hex_field(s: &[u8], start: usize, n: usize) -> (r: Option<u32>)
    requires
        start + n <= s@.len(),
        n <= 4,
    ensures
        r is Some <==> all_hex(s@, start as int, n as int),
        r matches Some(v) ==> v == hex_field(s@, start as int, n as nat) && v < pow16(n as nat),
{
    let mut acc: u32 = 0;
    let mut i: usize = 0;
    while i < n
        invariant
            i <= n,
            n <= 4,
            start + n <= s@.len(),
            s@.len() == s.len(),
            all_hex(s@, start as int, i as int),
            acc == hex_field(s@, start as int, i as nat),
            acc < pow16(i as nat),
        decreases n - i,
    {
        let d = hex_value(s[start + i]);
        if d < 0 {
            return None;
        }
        proof {
            lemma_pow16_bound(i as nat);
            assert(acc * 16 + d < pow16((i + 1) as nat)) by (nonlinear_arith)
                requires
                    acc < pow16(i as nat),
                    0 <= d < 16,
                    pow16((i + 1) as nat) == pow16(i as nat) * 16,
            ;
        }
        acc = acc * 16 + d as u32;
        i = i + 1;
        proof {
            assert(hex_field(s@, start as int, i as nat) == hex_field(s@, start as int, (i - 1) as nat)
                * 16 + hex_digit_value(s@[start + i - 1]));
        }
    }
    Some(acc)
}

/// `16^n`.
pub open spec fn pow16(n: nat) -> int
    decreases n,
{
    if n == 0 {
        1
    } else {
        16 * pow16((n - 1) as nat)
    }
}

proof fn lemma_pow16_bound(n: nat)
    requires
        n <= 4,
    ensures
        pow16(n) <= 65536,
        pow16((n + 1) as nat) == pow16(n) * 16,
    decreases n,
{
    reveal_with_fuel(pow16, 5);
}

fn hex_digit_str(n: u8) -> (r: &'static str)
    requires
        n < 16,
    ensures
        r@ == seq![hex_char(n as int)],
{
    proof {
        reveal_strlit("0");
        reveal_strlit("1");
        reveal_strlit("2");
        reveal_strlit("3");
        reveal_strlit("4");
        reveal_strlit("5");
        reveal_strlit("6");
        reveal_strlit("7");
        reveal_strlit("8");
        reveal_strlit("9");
        reveal_strlit("a");
        reveal_strlit("b");
        reveal_strlit("c");
        reveal_strlit("d");
        reveal_strlit("e");
        reveal_strlit("f");
    }
    match n {
        0 => "0",
        1 => "1",
        2 => "2",
        3 => "3",
        4 => "4",
        5 => "5",
        6 => "6",
        7 => "7",
        8 => "8",
        9 => "9",
        10 => "a",
        11 => "b",
        12 => "c",
        13 => "d",
        14 => "e",
        _ => "f",
    }
}

/// Appends the `n` low hexadecimal digits of `v` to `out`.
pub(crate) fn push_hex(out: &mut String, v: u32, n: usize)
    requires
        n <= 8,
    ensures
        final(out)@ == old(out)@ + hex_chars(v as int, n as nat),
    decreases n,
{
    if n == 0 {
        proof {
            assert(old(out)@ + hex_chars(v as int, 0) =~= old(out)@);
        }
        return;
    }
    push_hex(out, v / 16, n - 1);
    let digit = (v % 16) as u8;
    out.append(hex_digit_str(digit));
    proof {
        assert(hex_chars(v as int, n as nat) == hex_chars(v as int / 16, (n - 1) as nat).push(
            hex_char(v as int % 16),
        ));
        assert(final(out)@ =~= old(out)@ + hex_chars(v as int, n as nat));
    }
}

impl PciBdf {
    /// Builds a BDF from its components, rejecting out-of-range device and function numbers.
    pub fn from_components(segment: u16, bus: u8, device: u8, function: u8) -> (r: Result<
        PciBdf,
        PciBdfError,
    >)
        ensures
            device >= 32 ==> r == Err::<PciBdf, PciBdfError>(PciBdfError::DeviceOutOfRange),
            device < 32 && function >= 8 ==> r == Err::<PciBdf, PciBdfError>(
                PciBdfError::FunctionOutOfRange,
            ),
            device < 32 && function < 8 ==> r == Ok::<PciBdf, PciBdfError>(
                PciBdf { segment, bus, device, function },
            ),
    {
        if device >= 32 {
            Err(PciBdfError::DeviceOutOfRange)
        } else if function >= 8 {
            Err(PciBdfError::FunctionOutOfRange)
        } else {
            Ok(PciBdf { segment, bus, device, function })
        }
    }

    /// Parses `SSSS:BB:DD.F` hexadecimal text (either letter case).
    pub fn parse(text: &str) -> (r: Result<PciBdf, PciBdfError>)
        ensures
            r == parse_bdf_spec(text.spec_bytes()),
    {
        let s = text.as_bytes();
        if s.len() != 12 || s[4] != 0x3a || s[7] != 0x3a || s[10] != 0x2e {
            return Err(PciBdfError::Malformed);
        }
        let seg = read_hex_field(s, 0, 4);
        let bus = read_hex_field(s, 5, 2);
        let dev = read_hex_field(s, 8, 2);
        let fun = read_hex_field(s, 11, 1);
        match (seg, bus, dev, fun) {
            (Some(seg), Some(bus), Some(dev), Some(fun)) => {
                proof {
                    reveal_with_fuel(pow16, 5);
                }
                if dev >= 32 {
                    Err(PciBdfError::DeviceOutOfRange)
                } else if fun >= 8 {
                    Err(PciBdfError::FunctionOutOfRange)
                } else {
                    Ok(
                        PciBdf {
                            segment: seg as u16,
                            bus: bus as u8,
                            device: dev as u8,
                            function: fun as u8,
                        },
                    )
                }
            },
            _ => Err(PciBdfError::Malformed),
        }
    }

    /// Canonical lowercase `ssss:bb:dd.f` text.
    pub fn to_text(&self) -> (r: String)
        ensures
            r@ == bdf_text(*self),
    {
        let mut out = String::new();
        push_hex(&mut out, self.segment as u32, 4);
        proof { reveal_strlit(":"); reveal_strlit("."); }
        out.append(":");
        push_hex(&mut out, self.bus as u32, 2);
        out.append(":");
        push_hex(&mut out, self.device as u32, 2);
        out.append(".");
        push_hex(&mut out, self.function as u32, 1);
        proof {
            assert(out@ =~= bdf_text(*self));
        }
        out
    }
}

} // verus!
