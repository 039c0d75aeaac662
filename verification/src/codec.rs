//! Record codec: the byte encoding of every stored record shape.
//!
//! Integers are stored little-endian at fixed widths, a boolean as one byte
//! holding zero or one, the tri-state status as one byte holding its index,
//! and an optional integer as a zero byte or a one byte followed by the
//! integer. A record is the concatenation of its fields in declaration
//! order, and a stored value decodes only if it has exactly that shape;
//! anything else is a decode failure.

use vstd::arithmetic::div_mod::{
    lemma_div_denominator, lemma_div_is_ordered, lemma_fundamental_div_mod, lemma_small_mod,
};
use vstd::prelude::*;

use crate::records::{AssetDetails, AssetDetailsV0, AssetDetailsV1, AssetStatus};

verus! {

/// Encoded length of the two fixed-width record shapes: seven 8-byte
/// integers, three 4-byte counters, and two single bytes.
pub const FIXED_RECORD_LEN: usize = 70;

/// Little-endian value of the four bytes at `off`.
pub open spec fn u32_le_val(b: Seq<u8>, off: int) -> int {
    b[off] + b[off + 1] * 0x100 + b[off + 2] * 0x1_0000 + b[off + 3] * 0x100_0000
}

/// Little-endian value of the eight bytes at `off`.
pub open spec fn u64_le_val(b: Seq<u8>, off: int) -> int {
    b[off] + b[off + 1] * 0x100 + b[off + 2] * 0x1_0000 + b[off + 3] * 0x100_0000
        + b[off + 4] * 0x1_0000_0000 + b[off + 5] * 0x100_0000_0000
        + b[off + 6] * 0x1_0000_0000_0000 + b[off + 7] * 0x100_0000_0000_0000
}

/// The four little-endian bytes of `v`.
pub open spec fn u32_le_bytes(v: u32) -> Seq<u8> {
    seq![
        (v % 0x100) as u8,
        (v / 0x100 % 0x100) as u8,
        (v / 0x1_0000 % 0x100) as u8,
        (v / 0x100_0000 % 0x100) as u8,
    ]
}

/// The eight little-endian bytes of `v`.
pub open spec fn u64_le_bytes(v: u64) -> Seq<u8> {
    seq![
        (v % 0x100) as u8,
        (v / 0x100 % 0x100) as u8,
        (v / 0x1_0000 % 0x100) as u8,
        (v / 0x100_0000 % 0x100) as u8,
        (v / 0x1_0000_0000 % 0x100) as u8,
        (v / 0x100_0000_0000 % 0x100) as u8,
        (v / 0x1_0000_0000_0000 % 0x100) as u8,
        (v / 0x100_0000_0000_0000 % 0x100) as u8,
    ]
}

/// One byte for a boolean: one for true, zero for false.
pub open spec fn bool_byte(v: bool) -> u8 {
    if v { 1 } else { 0 }
}

/// One byte for the status: its variant index.
pub open spec fn status_byte(s: AssetStatus) -> u8 {
    match s {
        AssetStatus::Live => 0,
        AssetStatus::Frozen => 1,
        AssetStatus::Destroying => 2,
    }
}

/// The status a byte stands for, if any.
pub open spec fn byte_status(b: u8) -> Option<AssetStatus> {
    if b == 0 {
        Some(AssetStatus::Live)
    } else if b == 1 {
        Some(AssetStatus::Frozen)
    } else if b == 2 {
        Some(AssetStatus::Destroying)
    } else {
        None
    }
}

/// Bytes of an optional integer: a zero byte, or a one byte and the value.
pub open spec fn opt_u64_bytes(v: Option<u64>) -> Seq<u8> {
    match v {
        Option::None => seq![0u8],
        Option::Some(x) => seq![1u8] + u64_le_bytes(x),
    }
}

/// Encoding of an oldest-shape record: fields in declaration order.
pub open spec fn spec_encode_v0(d: AssetDetailsV0) -> Seq<u8> {
    u64_le_bytes(d.owner) + u64_le_bytes(d.issuer) + u64_le_bytes(d.admin)
        + u64_le_bytes(d.freezer) + u64_le_bytes(d.supply) + u64_le_bytes(d.deposit)
        + u64_le_bytes(d.min_balance) + seq![bool_byte(d.is_sufficient)]
        + u32_le_bytes(d.accounts) + u32_le_bytes(d.sufficients) + u32_le_bytes(d.approvals)
        + seq![bool_byte(d.is_frozen)]
}

/// Encoding of an intermediate-shape record: fields in declaration order.
pub open spec fn spec_encode_v1(d: AssetDetailsV1) -> Seq<u8> {
    u64_le_bytes(d.owner) + u64_le_bytes(d.issuer) + u64_le_bytes(d.admin)
        + u64_le_bytes(d.freezer) + u64_le_bytes(d.supply) + u64_le_bytes(d.deposit)
        + u64_le_bytes(d.min_balance) + seq![bool_byte(d.is_sufficient)]
        + u32_le_bytes(d.accounts) + u32_le_bytes(d.sufficients) + u32_le_bytes(d.approvals)
        + seq![status_byte(d.status)]
}

/// Encoding of a newest-shape record: fields in declaration order.
pub open spec fn spec_encode_v2(d: AssetDetails) -> Seq<u8> {
    opt_u64_bytes(d.owner) + opt_u64_bytes(d.issuer) + opt_u64_bytes(d.admin)
        + opt_u64_bytes(d.freezer) + u64_le_bytes(d.supply) + u64_le_bytes(d.deposit)
        + u64_le_bytes(d.min_balance) + seq![bool_byte(d.is_sufficient)]
        + u32_le_bytes(d.accounts) + u32_le_bytes(d.sufficients) + u32_le_bytes(d.approvals)
        + seq![status_byte(d.status)]
}

/// The oldest-shape record a stored value holds, or nothing when the value
/// does not have exactly that shape.
pub open spec fn spec_decode_v0(b: Seq<u8>) -> Option<AssetDetailsV0> {
    if b.len() == 70 && b[56] <= 1 && b[69] <= 1 {
        Some(
            AssetDetailsV0 {
                owner: u64_le_val(b, 0) as u64,
                issuer: u64_le_val(b, 8) as u64,
                admin: u64_le_val(b, 16) as u64,
                freezer: u64_le_val(b, 24) as u64,
                supply: u64_le_val(b, 32) as u64,
                deposit: u64_le_val(b, 40) as u64,
                min_balance: u64_le_val(b, 48) as u64,
                is_sufficient: b[56] == 1,
                accounts: u32_le_val(b, 57) as u32,
                sufficients: u32_le_val(b, 61) as u32,
                approvals: u32_le_val(b, 65) as u32,
                is_frozen: b[69] == 1,
            },
        )
    } else {
        None
    }
}

/// The intermediate-shape record a stored value holds, or nothing when the
/// value does not have exactly that shape.
pub open spec fn spec_decode_v1(b: Seq<u8>) -> Option<AssetDetailsV1> {
    if b.len() == 70 && b[56] <= 1 && byte_status(b[69]) is Some {
        Some(
            AssetDetailsV1 {
                owner: u64_le_val(b, 0) as u64,
                issuer: u64_le_val(b, 8) as u64,
                admin: u64_le_val(b, 16) as u64,
                freezer: u64_le_val(b, 24) as u64,
                supply: u64_le_val(b, 32) as u64,
                deposit: u64_le_val(b, 40) as u64,
                min_balance: u64_le_val(b, 48) as u64,
                is_sufficient: b[56] == 1,
                accounts: u32_le_val(b, 57) as u32,
                sufficients: u32_le_val(b, 61) as u32,
                approvals: u32_le_val(b, 65) as u32,
                status: byte_status(b[69])->Some_0,
            },
        )
    } else {
        None
    }
}

fn read_u32(b: &Vec<u8>, off: usize) -> (v: u32)
    requires
        off + 4 <= b@.len(),
        b@.len() <= usize::MAX,
    ensures
        v == u32_le_val(b@, off as int),
{
    (b[off] as u32) + (b[off + 1] as u32) * 0x100 + (b[off + 2] as u32) * 0x1_0000
        + (b[off + 3] as u32) * 0x100_0000
}

fn read_u64(b: &Vec<u8>, off: usize) -> (v: u64)
    requires
        off + 8 <= b@.len(),
        b@.len() <= usize::MAX,
    ensures
        v == u64_le_val(b@, off as int),
{
    (b[off] as u64) + (b[off + 1] as u64) * 0x100 + (b[off + 2] as u64) * 0x1_0000
        + (b[off + 3] as u64) * 0x100_0000 + (b[off + 4] as u64) * 0x1_0000_0000
        + (b[off + 5] as u64) * 0x100_0000_0000 + (b[off + 6] as u64) * 0x1_0000_0000_0000
        + (b[off + 7] as u64) * 0x100_0000_0000_0000
}

fn push_u32(out: &mut Vec<u8>, v: u32)
    ensures
        final(out)@ == old(out)@ + u32_le_bytes(v),
{
    out.push((v % 0x100) as u8);
    out.push((v / 0x100 % 0x100) as u8);
    out.push((v / 0x1_0000 % 0x100) as u8);
    out.push((v / 0x100_0000 % 0x100) as u8);
    proof {
        assert(out@ =~= old(out)@ + u32_le_bytes(v));
    }
}

fn push_u64(out: &mut Vec<u8>, v: u64)
    ensures
        final(out)@ == old(out)@ + u64_le_bytes(v),
{
    out.push((v % 0x100) as u8);
    out.push((v / 0x100 % 0x100) as u8);
    out.push((v / 0x1_0000 % 0x100) as u8);
    out.push((v / 0x100_0000 % 0x100) as u8);
    out.push((v / 0x1_0000_0000 % 0x100) as u8);
    out.push((v / 0x100_0000_0000 % 0x100) as u8);
    out.push((v / 0x1_0000_0000_0000 % 0x100) as u8);
    out.push((v / 0x100_0000_0000_0000 % 0x100) as u8);
    proof {
        assert(out@ =~= old(out)@ + u64_le_bytes(v));
    }
}

fn push_opt_u64(out: &mut Vec<u8>, v: Option<u64>)
    ensures
        final(out)@ == old(out)@ + opt_u64_bytes(v),
{
    match v {
        Option::None => {
            out.push(0);
            proof {
                assert(out@ =~= old(out)@ + opt_u64_bytes(v));
            }
        },
        Option::Some(x) => {
            out.push(1);
            push_u64(out, x);
            proof {
                assert(out@ =~= old(out)@ + opt_u64_bytes(v));
            }
        },
    }
}

/// Encodes an oldest-shape record.
pub fn encode_v0(d: &AssetDetailsV0) -> (r: Vec<u8>)
    ensures
        r@ == spec_encode_v0(*d),
{
    let mut out: Vec<u8> = Vec::new();
    push_u64(&mut out, d.owner);
    push_u64(&mut out, d.issuer);
    push_u64(&mut out, d.admin);
    push_u64(&mut out, d.freezer);
    push_u64(&mut out, d.supply);
    push_u64(&mut out, d.deposit);
    push_u64(&mut out, d.min_balance);
    out.push(if d.is_sufficient { 1 } else { 0 });
    push_u32(&mut out, d.accounts);
    push_u32(&mut out, d.sufficients);
    push_u32(&mut out, d.approvals);
    out.push(if d.is_frozen { 1 } else { 0 });
    proof {
        assert(out@ =~= spec_encode_v0(*d));
    }
    out
}

/// Encodes an intermediate-shape record.
pub fn encode_v1(d: &AssetDetailsV1) -> (r: Vec<u8>)
    ensures
        r@ == spec_encode_v1(*d),
{
    let mut out: Vec<u8> = Vec::new();
    push_u64(&mut out, d.owner);
    push_u64(&mut out, d.issuer);
    push_u64(&mut out, d.admin);
    push_u64(&mut out, d.freezer);
    push_u64(&mut out, d.supply);
    push_u64(&mut out, d.deposit);
    push_u64(&mut out, d.min_balance);
    out.push(if d.is_sufficient { 1 } else { 0 });
    push_u32(&mut out, d.accounts);
    push_u32(&mut out, d.sufficients);
    push_u32(&mut out, d.approvals);
    out.push(encode_status(d.status));
    proof {
        assert(out@ =~= spec_encode_v1(*d));
    }
    out
}

/// Encodes a newest-shape record.
pub fn encode_v2(d: &AssetDetails) -> (r: Vec<u8>)
    ensures
        r@ == spec_encode_v2(*d),
{
    let mut out: Vec<u8> = Vec::new();
    push_opt_u64(&mut out, d.owner);
    push_opt_u64(&mut out, d.issuer);
    push_opt_u64(&mut out, d.admin);
    push_opt_u64(&mut out, d.freezer);
    push_u64(&mut out, d.supply);
    push_u64(&mut out, d.deposit);
    push_u64(&mut out, d.min_balance);
    out.push(if d.is_sufficient { 1 } else { 0 });
    push_u32(&mut out, d.accounts);
    push_u32(&mut out, d.sufficients);
    push_u32(&mut out, d.approvals);
    out.push(encode_status(d.status));
    proof {
        assert(out@ =~= spec_encode_v2(*d));
    }
    out
}

/// Encodes a bare 32-bit counter, as the diagnostic snapshot stores it.
pub fn encode_u32(v: u32) -> (r: Vec<u8>)
    ensures
        r@ == u32_le_bytes(v),
{
    let mut out: Vec<u8> = Vec::new();
    push_u32(&mut out, v);
    proof {
        assert(out@ =~= u32_le_bytes(v));
    }
    out
}

/// Decodes a bare 32-bit counter from its four bytes.
pub fn decode_u32(b: &Vec<u8>) -> (v: u32)
    requires
        b@.len() == 4,
    ensures
        v == u32_le_val(b@, 0),
{
    read_u32(b, 0)
}

fn encode_status(s: AssetStatus) -> (b: u8)
    ensures
        b == status_byte(s),
{
    match s {
        AssetStatus::Live => 0,
        AssetStatus::Frozen => 1,
        AssetStatus::Destroying => 2,
    }
}

/// Decodes a stored value as an oldest-shape record.
pub fn decode_v0(b: &Vec<u8>) -> (r: Option<AssetDetailsV0>)
    ensures
        r == spec_decode_v0(b@),
{
    if b.len() != FIXED_RECORD_LEN {
        return None;
    }
    let sufficient_byte = b[56];
    if sufficient_byte > 1 {
        return None;
    }
    let frozen_byte = b[69];
    if frozen_byte > 1 {
        return None;
    }
    Some(
        AssetDetailsV0 {
            owner: read_u64(b, 0),
            issuer: read_u64(b, 8),
            admin: read_u64(b, 16),
            freezer: read_u64(b, 24),
            supply: read_u64(b, 32),
            deposit: read_u64(b, 40),
            min_balance: read_u64(b, 48),
            is_sufficient: sufficient_byte == 1,
            accounts: read_u32(b, 57),
            sufficients: read_u32(b, 61),
            approvals: read_u32(b, 65),
            is_frozen: frozen_byte == 1,
        },
    )
}

/// Decodes a stored value as an intermediate-shape record.
pub fn decode_v1(b: &Vec<u8>) -> (r: Option<AssetDetailsV1>)
    ensures
        r == spec_decode_v1(b@),
{
    if b.len() != FIXED_RECORD_LEN {
        return None;
    }
    let sufficient_byte = b[56];
    if sufficient_byte > 1 {
        return None;
    }
    let status_byte = b[69];
    let status = if status_byte == 0 {
        AssetStatus::Live
    } else if status_byte == 1 {
        AssetStatus::Frozen
    } else if status_byte == 2 {
        AssetStatus::Destroying
    } else {
        return None;
    };
    Some(
        AssetDetailsV1 {
            owner: read_u64(b, 0),
            issuer: read_u64(b, 8),
            admin: read_u64(b, 16),
            freezer: read_u64(b, 24),
            supply: read_u64(b, 32),
            deposit: read_u64(b, 40),
            min_balance: read_u64(b, 48),
            is_sufficient: sufficient_byte == 1,
            accounts: read_u32(b, 57),
            sufficients: read_u32(b, 61),
            approvals: read_u32(b, 65),
            status,
        },
    )
}

proof fn lemma_u32_le_round_trip(v: u32)
    ensures
        u32_le_val(u32_le_bytes(v), 0) == v,
{
    let x = v as int;
    lemma_fundamental_div_mod(x, 0x100);
    lemma_fundamental_div_mod(x / 0x100, 0x100);
    lemma_div_denominator(x, 0x100, 0x100);
    lemma_fundamental_div_mod(x / 0x1_0000, 0x100);
    lemma_div_denominator(x, 0x1_0000, 0x100);
    lemma_div_is_ordered(x, 0xffff_ffff, 0x100_0000);
    lemma_small_mod((x / 0x100_0000) as nat, 0x100);
}

proof fn lemma_u64_le_round_trip(v: u64)
    ensures
        u64_le_val(u64_le_bytes(v), 0) == v,
{
    let x = v as int;
    lemma_fundamental_div_mod(x, 0x100);
    lemma_fundamental_div_mod(x / 0x100, 0x100);
    lemma_div_denominator(x, 0x100, 0x100);
    lemma_fundamental_div_mod(x / 0x1_0000, 0x100);
    lemma_div_denominator(x, 0x1_0000, 0x100);
    lemma_fundamental_div_mod(x / 0x100_0000, 0x100);
    lemma_div_denominator(x, 0x100_0000, 0x100);
    lemma_fundamental_div_mod(x / 0x1_0000_0000, 0x100);
    lemma_div_denominator(x, 0x1_0000_0000, 0x100);
    lemma_fundamental_div_mod(x / 0x100_0000_0000, 0x100);
    lemma_div_denominator(x, 0x100_0000_0000, 0x100);
    lemma_fundamental_div_mod(x / 0x1_0000_0000_0000, 0x100);
    lemma_div_denominator(x, 0x1_0000_0000_0000, 0x100);
    lemma_div_is_ordered(x, 0xffff_ffff_ffff_ffff, 0x100_0000_0000_0000);
    lemma_small_mod((x / 0x100_0000_0000_0000) as nat, 0x100);
}

#[verifier::rlimit(100)]
proof fn lemma_v0_owner_val(d: AssetDetailsV0)
    ensures
        u64_le_val(spec_encode_v0(d), 0) == d.owner,
{
    lemma_u64_le_round_trip(d.owner);
}

#[verifier::rlimit(100)]
proof fn lemma_v0_issuer_val(d: AssetDetailsV0)
    ensures
        u64_le_val(spec_encode_v0(d), 8) == d.issuer,
{
    lemma_u64_le_round_trip(d.issuer);
}

#[verifier::rlimit(100)]
proof fn lemma_v0_admin_val(d: AssetDetailsV0)
    ensures
        u64_le_val(spec_encode_v0(d), 16) == d.admin,
{
    lemma_u64_le_round_trip(d.admin);
}

#[verifier::rlimit(100)]
proof fn lemma_v0_freezer_val(d: AssetDetailsV0)
    ensures
        u64_le_val(spec_encode_v0(d), 24) == d.freezer,
{
    lemma_u64_le_round_trip(d.freezer);
}

#[verifier::rlimit(100)]
proof fn lemma_v0_supply_val(d: AssetDetailsV0)
    ensures
        u64_le_val(spec_encode_v0(d), 32) == d.supply,
{
    lemma_u64_le_round_trip(d.supply);
}

#[verifier::rlimit(100)]
proof fn lemma_v0_deposit_val(d: AssetDetailsV0)
    ensures
        u64_le_val(spec_encode_v0(d), 40) == d.deposit,
{
    lemma_u64_le_round_trip(d.deposit);
}

#[verifier::rlimit(100)]
proof fn lemma_v0_min_balance_val(d: AssetDetailsV0)
    ensures
        u64_le_val(spec_encode_v0(d), 48) == d.min_balance,
{
    lemma_u64_le_round_trip(d.min_balance);
}

#[verifier::rlimit(100)]
proof fn lemma_v0_accounts_val(d: AssetDetailsV0)
    ensures
        u32_le_val(spec_encode_v0(d), 57) == d.accounts,
{
    lemma_u32_le_round_trip(d.accounts);
}

#[verifier::rlimit(100)]
proof fn lemma_v0_sufficients_val(d: AssetDetailsV0)
    ensures
        u32_le_val(spec_encode_v0(d), 61) == d.sufficients,
{
    lemma_u32_le_round_trip(d.sufficients);
}

#[verifier::rlimit(100)]
proof fn lemma_v0_approvals_val(d: AssetDetailsV0)
    ensures
        u32_le_val(spec_encode_v0(d), 65) == d.approvals,
{
    lemma_u32_le_round_trip(d.approvals);
}

#[verifier::rlimit(100)]
proof fn lemma_v0_flag_bytes(d: AssetDetailsV0)
    ensures
        spec_encode_v0(d).len() == 70,
        spec_encode_v0(d)[56] == bool_byte(d.is_sufficient),
        spec_encode_v0(d)[69] == bool_byte(d.is_frozen),
{
}

/// Round trip of the codec on the oldest shape: a record encoded and then
/// decoded comes back unchanged.
#[verifier::rlimit(100)]
pub proof fn lemma_v0_round_trip(d: AssetDetailsV0)
    ensures
        spec_decode_v0(spec_encode_v0(d)) == Some(d),
{
    let b = spec_encode_v0(d);
    lemma_v0_flag_bytes(d);
    lemma_v0_owner_val(d);
    lemma_v0_issuer_val(d);
    lemma_v0_admin_val(d);
    lemma_v0_freezer_val(d);
    lemma_v0_supply_val(d);
    lemma_v0_deposit_val(d);
    lemma_v0_min_balance_val(d);
    lemma_v0_accounts_val(d);
    lemma_v0_sufficients_val(d);
    lemma_v0_approvals_val(d);
    assert(spec_decode_v0(b) == Some(d));
}

#[verifier::rlimit(100)]
proof fn lemma_v1_owner_val(d: AssetDetailsV1)
    ensures
        u64_le_val(spec_encode_v1(d), 0) == d.owner,
{
    lemma_u64_le_round_trip(d.owner);
}

#[verifier::rlimit(100)]
proof fn lemma_v1_issuer_val(d: AssetDetailsV1)
    ensures
        u64_le_val(spec_encode_v1(d), 8) == d.issuer,
{
    lemma_u64_le_round_trip(d.issuer);
}

#[verifier::rlimit(100)]
proof fn lemma_v1_admin_val(d: AssetDetailsV1)
    ensures
        u64_le_val(spec_encode_v1(d), 16) == d.admin,
{
    lemma_u64_le_round_trip(d.admin);
}

#[verifier::rlimit(100)]
proof fn lemma_v1_freezer_val(d: AssetDetailsV1)
    ensures
        u64_le_val(spec_encode_v1(d), 24) == d.freezer,
{
    lemma_u64_le_round_trip(d.freezer);
}

#[verifier::rlimit(100)]
proof fn lemma_v1_supply_val(d: AssetDetailsV1)
    ensures
        u64_le_val(spec_encode_v1(d), 32) == d.supply,
{
    lemma_u64_le_round_trip(d.supply);
}

#[verifier::rlimit(100)]
proof fn lemma_v1_deposit_val(d: AssetDetailsV1)
    ensures
        u64_le_val(spec_encode_v1(d), 40) == d.deposit,
{
    lemma_u64_le_round_trip(d.deposit);
}

#[verifier::rlimit(100)]
proof fn lemma_v1_min_balance_val(d: AssetDetailsV1)
    ensures
        u64_le_val(spec_encode_v1(d), 48) == d.min_balance,
{
    lemma_u64_le_round_trip(d.min_balance);
}

#[verifier::rlimit(100)]
proof fn lemma_v1_accounts_val(d: AssetDetailsV1)
    ensures
        u32_le_val(spec_encode_v1(d), 57) == d.accounts,
{
    lemma_u32_le_round_trip(d.accounts);
}

#[verifier::rlimit(100)]
proof fn lemma_v1_sufficients_val(d: AssetDetailsV1)
    ensures
        u32_le_val(spec_encode_v1(d), 61) == d.sufficients,
{
    lemma_u32_le_round_trip(d.sufficients);
}

#[verifier::rlimit(100)]
proof fn lemma_v1_approvals_val(d: AssetDetailsV1)
    ensures
        u32_le_val(spec_encode_v1(d), 65) == d.approvals,
{
    lemma_u32_le_round_trip(d.approvals);
}

#[verifier::rlimit(100)]
proof fn lemma_v1_flag_bytes(d: AssetDetailsV1)
    ensures
        spec_encode_v1(d).len() == 70,
        spec_encode_v1(d)[56] == bool_byte(d.is_sufficient),
        spec_encode_v1(d)[69] == status_byte(d.status),
{
}

/// Round trip of the codec on the intermediate shape: a record encoded and
/// then decoded comes back unchanged.
#[verifier::rlimit(100)]
pub proof fn lemma_v1_round_trip(d: AssetDetailsV1)
    ensures
        spec_decode_v1(spec_encode_v1(d)) == Some(d),
{
    let b = spec_encode_v1(d);
    lemma_v1_flag_bytes(d);
    lemma_v1_owner_val(d);
    lemma_v1_issuer_val(d);
    lemma_v1_admin_val(d);
    lemma_v1_freezer_val(d);
    lemma_v1_supply_val(d);
    lemma_v1_deposit_val(d);
    lemma_v1_min_balance_val(d);
    lemma_v1_accounts_val(d);
    lemma_v1_sufficients_val(d);
    lemma_v1_approvals_val(d);
    assert(spec_decode_v1(b) == Some(d));
}

} // verus!
