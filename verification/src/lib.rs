//! UPID: a compact, sortable, prefixed 128-bit identifier.
//!
//! A Upid packs a 40-bit timestamp (256 ms resolution), 64 random bits and a
//! 24-bit prefix-plus-version block into one `u128`, together with a
//! bidirectional codec to a 26-symbol base32 text form.
use std::time::SystemTime;
use vstd::prelude::*;

pub mod b32;
pub mod interop;

use crate::b32::{
    enc_idx, is_symbol, prefix_indices, spec_decode, spec_encode, symbol, symbol_index, DecodeError,
};

verus! {

/// The index of the fixed version symbol 'a' in the alphabet.  It sits in
/// the lower half of the alphabet, so embedding it in the four-bit version
/// nibble can never overflow.
pub const VERSION_INDEX: u8 = 6;

/// A caller-supplied prefix normalized to exactly four alphabet characters:
/// truncated to four if longer, right-padded with the alphabet's last
/// symbol 'z' if shorter, and with every character outside the alphabet
/// replaced by 'z'.
pub open spec fn spec_normalize(s: Seq<char>) -> Seq<char> {
    Seq::new(
        4,
        |i: int|
            if i < s.len() {
                if is_symbol(s[i]) {
                    s[i]
                } else {
                    'z'
                }
            } else {
                'z'
            },
    )
}

/// The 24-bit prefix-and-version block of a normalized prefix: the four
/// five-bit symbol indices above the four-bit version nibble.
pub open spec fn spec_prefix_block(p: Seq<char>) -> u32
    recommends
        p.len() == 4,
{
    prefix_indices(
        symbol_index(p[0]),
        symbol_index(p[1]),
        symbol_index(p[2]),
        symbol_index(p[3]),
        VERSION_INDEX,
    )
}

/// The identifier built from a prefix, a millisecond timestamp and a random
/// draw: the timestamp is kept at 256 ms resolution in the top 40 bits, the
/// 64 random bits sit in the middle, and the normalized prefix and the
/// version nibble fill the low 24 bits.
pub open spec fn spec_from_parts(prefix: Seq<char>, milliseconds: u128, random: u64) -> u128 {
    ((((milliseconds >> 8) & 0xFF_FFFF_FFFF) as u128) << 88) | ((random as u128) << 24) | (
    spec_prefix_block(spec_normalize(prefix)) as u128)
}

/// The milliseconds encoded in an identifier's 40-bit timestamp field, with
/// the eight dropped low-order bits restored as zeroes.
pub open spec fn spec_milliseconds(v: u128) -> u64 {
    (((v >> 88) & 0xFF_FFFF_FFFF) * 256) as u64
}

/// Relies on rand::random: draws a fresh, independent 64-bit value from the
/// thread-local generator.  Nothing can be promised of the value drawn.
#[verifier::external_body]
fn random_u64() -> u64 {
    rand::random::<u64>()
}

/// Declares std::time::SystemTime so that it can stand in signatures.  A
/// time value is opaque here: only the trusted clock functions below touch
/// it.
#[verifier::external_type_specification]
#[verifier::external_body]
pub struct ExSystemTime(SystemTime);

/// Relies on std::time::SystemTime::now: the current system time.  Nothing
/// can be promised of the value returned.
#[verifier::external_body]
fn now() -> SystemTime {
    SystemTime::now()
}

/// Relies on SystemTime::duration_since and Duration::as_millis: the
/// milliseconds between the unix epoch and the given time, saturating at
/// zero for times before the epoch.  The result depends on the argument
/// alone, but no more can be said of an opaque time value.
#[verifier::external_body]
fn millis_since_epoch(t: SystemTime) -> u128 {
    t.duration_since(SystemTime::UNIX_EPOCH).unwrap_or(std::time::Duration::ZERO).as_millis()
}

/// Relies on Duration::from_millis and SystemTime's addition: the unix
/// epoch moved forward by the given milliseconds.  The bound keeps the sum
/// far inside the representable range, so the addition cannot panic.
#[verifier::external_body]
fn epoch_plus_millis(ms: u64) -> SystemTime
    requires
        ms < 0x1_0000_0000_0000,
{
    SystemTime::UNIX_EPOCH + std::time::Duration::from_millis(ms)
}

/// A Upid is a unique 128-bit identifier that is sortable and has a useful
/// prefix.
///
/// In the binary, the first 40 bits are a unix timestamp with 256 ms
/// precision, the next 64 are random bits, and the last 24 are the prefix
/// and version identifier.
#[derive(Debug, PartialOrd, Ord, PartialEq, Eq, Hash, Clone, Copy, Structural)]
pub struct Upid(pub u128);

impl Upid {
    /// Creates a Upid from a prefix, a millisecond timestamp and an
    /// explicit random draw.  This is the deterministic core of every
    /// constructor: all 128 bits of the result are pinned by the three
    /// arguments.
    pub fn from_parts(prefix: &str, milliseconds: u128, random: u64) -> (u: Upid)
        ensures
            u.0 == spec_from_parts(prefix@, milliseconds, random),
    {
        let n: usize = prefix.unicode_len();
        let i0 = normalized_index(prefix, n, 0);
        let i1 = normalized_index(prefix, n, 1);
        let i2 = normalized_index(prefix, n, 2);
        let i3 = normalized_index(prefix, n, 3);
        let block: u32 = ((i0 as u32) << 19) | ((i1 as u32) << 14) | ((i2 as u32) << 9) | ((
        i3 as u32) << 4) | (VERSION_INDEX as u32);
        let v: u128 = ((((milliseconds >> 8) & 0xFF_FFFF_FFFF) as u128) << 88) | ((random as u128)
            << 24) | (block as u128);
        Upid(v)
    }

    /// Creates a new Upid with the provided prefix and the current time.
    ///
    /// The prefix should only contain lower-case latin alphabet characters.
    pub fn new(prefix: &str) -> (u: Upid)
        ensures
            exists|ms: u128, rnd: u64| u.0 == spec_from_parts(prefix@, ms, rnd),
    {
        Upid::from_prefix(prefix)
    }

    /// Creates a Upid with the provided prefix and the current time.
    pub fn from_prefix(prefix: &str) -> (u: Upid)
        ensures
            exists|ms: u128, rnd: u64| u.0 == spec_from_parts(prefix@, ms, rnd),
    {
        Upid::from_prefix_and_datetime(prefix, now())
    }

    /// Creates a new Upid with the given prefix and datetime.
    ///
    /// A datetime before the unix epoch is clamped to the epoch, since
    /// earlier times are not valid for a Upid timestamp.
    pub fn from_prefix_and_datetime(prefix: &str, datetime: SystemTime) -> (u: Upid)
        ensures
            exists|ms: u128, rnd: u64| u.0 == spec_from_parts(prefix@, ms, rnd),
    {
        let milliseconds = millis_since_epoch(datetime);
        let u = Upid::from_prefix_and_milliseconds(prefix, milliseconds);
        proof {
            let rnd = choose|rnd: u64| u.0 == spec_from_parts(prefix@, milliseconds, rnd);
            assert(u.0 == spec_from_parts(prefix@, milliseconds, rnd));
        }
        u
    }

    /// Creates a new Upid with the given prefix and timestamp in
    /// milliseconds.  The eight low-order bits of the timestamp are dropped
    /// before embedding: the 256 ms precision loss is intentional.
    pub fn from_prefix_and_milliseconds(prefix: &str, milliseconds: u128) -> (u: Upid)
        ensures
            exists|rnd: u64| u.0 == spec_from_parts(prefix@, milliseconds, rnd),
    {
        let random = random_u64();
        let u = Upid::from_parts(prefix, milliseconds, random);
        proof {
            assert(u.0 == spec_from_parts(prefix@, milliseconds, random));
        }
        u
    }
}

/// The big-endian bytes of a 128-bit value.
pub open spec fn spec_to_bytes(v: u128) -> Seq<u8> {
    Seq::new(16, |i: int| (v >> ((120 - 8 * i) as u128)) as u8)
}

/// The 128-bit value read from sixteen big-endian bytes.
pub open spec fn spec_of_bytes(b: Seq<u8>) -> u128
    recommends
        b.len() == 16,
{
    ((b[0] as u128) << 120) | ((b[1] as u128) << 112) | ((b[2] as u128) << 104) | ((b[3] as u128)
        << 96) | ((b[4] as u128) << 88) | ((b[5] as u128) << 80) | ((b[6] as u128) << 72) | ((
    b[7] as u128) << 64) | ((b[8] as u128) << 56) | ((b[9] as u128) << 48) | ((b[10] as u128)
        << 40) | ((b[11] as u128) << 32) | ((b[12] as u128) << 24) | ((b[13] as u128) << 16) | ((
    b[14] as u128) << 8) | (b[15] as u128)
}

/// The timestamp field restored to milliseconds is the same whether read as
/// a shift or as a multiplication, and always fits in 48 bits.
proof fn lemma_milliseconds_forms(v: u128)
    by (bit_vector)
    ensures
        (((v >> 88) << 8) as u64) == ((((v >> 88) & 0xFF_FFFF_FFFF) * 256) as u64),
        (((v >> 88) << 8) as u64) < 0x1_0000_0000_0000,
{
}

/// The low 24 bits of a value, rebuilt from its three low bytes, present
/// the same four prefix windows as the value itself.
proof fn lemma_low24_windows(v: u128)
    by (bit_vector)
    ensures
        ({
            let p = ((((v >> 16) as u8) as u32) << 16) | ((((v >> 8) as u8) as u32) << 8) | ((
            v as u8) as u32);
            &&& (((p >> 19) & 31) as u8) == (((v >> 19) & 31) as u8)
            &&& (((p >> 14) & 31) as u8) == (((v >> 14) & 31) as u8)
            &&& (((p >> 9) & 31) as u8) == (((v >> 9) & 31) as u8)
            &&& (((p >> 4) & 31) as u8) == (((v >> 4) & 31) as u8)
        }),
{
}

/// A 128-bit value survives the round trip through its sixteen bytes.
proof fn lemma_u128_bytes(v: u128)
    by (bit_vector)
    ensures
        ((((v >> 120) as u8) as u128) << 120) | ((((v >> 112) as u8) as u128) << 112) | ((((v
            >> 104) as u8) as u128) << 104) | ((((v >> 96) as u8) as u128) << 96) | ((((v
            >> 88) as u8) as u128) << 88) | ((((v >> 80) as u8) as u128) << 80) | ((((v
            >> 72) as u8) as u128) << 72) | ((((v >> 64) as u8) as u128) << 64) | ((((v
            >> 56) as u8) as u128) << 56) | ((((v >> 48) as u8) as u128) << 48) | ((((v
            >> 40) as u8) as u128) << 40) | ((((v >> 32) as u8) as u128) << 32) | ((((v
            >> 24) as u8) as u128) << 24) | ((((v >> 16) as u8) as u128) << 16) | ((((v
            >> 8) as u8) as u128) << 8) | ((v as u8) as u128) == v,
{
}

impl Upid {
    /// Creates a Upid from a base32-encoded string.  The result mirrors the
    /// codec's decoding exactly, error for error.
    pub fn from_string(encoded: &str) -> (r: Result<Upid, DecodeError>)
        ensures
            ({
                match spec_decode(encoded@) {
                    Ok(v) => r == Ok::<Upid, DecodeError>(Upid(v)),
                    Err(e) => r == Err::<Upid, DecodeError>(e),
                }
            }),
    {
        match b32::decode(encoded) {
            Ok(int_val) => Ok(Upid(int_val)),
            Err(err) => Err(err),
        }
    }

    /// Creates the base32-encoded string that represents this Upid.
    pub fn to_string(&self) -> (s: String)
        ensures
            s@ == spec_encode(self.0),
            s@.len() == 27,
    {
        b32::encode(self.0)
    }

    /// Gets the prefix of this Upid: the four symbols that open its text
    /// form, re-derived from the stored low bits.
    pub fn prefix(&self) -> (p: String)
        ensures
            p@ == Seq::new(4, |k: int| symbol(enc_idx(self.0, k))),
    {
        let b: [u8; 3] = [(self.0 >> 16) as u8, (self.0 >> 8) as u8, self.0 as u8];
        let (prefix, _version) = b32::encode_prefix(b.as_slice());
        proof {
            lemma_low24_windows(self.0);
            b32::lemma_enc_idx_windows(self.0);
            assert(prefix@ =~= Seq::new(4, |k: int| symbol(enc_idx(self.0, k))));
        }
        prefix
    }

    /// Gets the timestamp section of this Upid, in milliseconds: the 40-bit
    /// field scaled back up by 256.  The eight restored low-order bits are
    /// zero; the precision loss at construction is irreversible.
    pub fn milliseconds(&self) -> (ms: u64)
        ensures
            ms == spec_milliseconds(self.0),
            ms < 0x1_0000_0000_0000,
    {
        proof {
            lemma_milliseconds_forms(self.0);
        }
        ((self.0 >> 88) << 8) as u64
    }

    /// Gets the datetime when this Upid was created, accurate to around
    /// 256 ms.
    pub fn datetime(&self) -> SystemTime {
        let stamp = self.milliseconds();
        epoch_plus_millis(stamp)
    }

    /// Creates a Upid from the provided big-endian byte array.  Every
    /// 128-bit value is a structurally valid identifier, so nothing is
    /// validated.
    pub fn from_bytes(bytes: [u8; 16]) -> (u: Upid)
        ensures
            u.0 == spec_of_bytes(bytes@),
    {
        let v: u128 = ((bytes[0] as u128) << 120) | ((bytes[1] as u128) << 112) | ((
        bytes[2] as u128) << 104) | ((bytes[3] as u128) << 96) | ((bytes[4] as u128) << 88) | ((
        bytes[5] as u128) << 80) | ((bytes[6] as u128) << 72) | ((bytes[7] as u128) << 64) | ((
        bytes[8] as u128) << 56) | ((bytes[9] as u128) << 48) | ((bytes[10] as u128) << 40) | ((
        bytes[11] as u128) << 32) | ((bytes[12] as u128) << 24) | ((bytes[13] as u128) << 16) | ((
        bytes[14] as u128) << 8) | (bytes[15] as u128);
        Upid(v)
    }

    /// Returns the bytes of the Upid in big-endian order.
    pub fn to_bytes(&self) -> (b: [u8; 16])
        ensures
            b@ == spec_to_bytes(self.0),
    {
        let v = self.0;
        let out: [u8; 16] = [
            (v >> 120) as u8,
            (v >> 112) as u8,
            (v >> 104) as u8,
            (v >> 96) as u8,
            (v >> 88) as u8,
            (v >> 80) as u8,
            (v >> 72) as u8,
            (v >> 64) as u8,
            (v >> 56) as u8,
            (v >> 48) as u8,
            (v >> 40) as u8,
            (v >> 32) as u8,
            (v >> 24) as u8,
            (v >> 16) as u8,
            (v >> 8) as u8,
            v as u8,
        ];
        proof {
            assert((v >> 0) == v) by (bit_vector);
            assert forall|i: int| 0 <= i < 16 implies out@[i] == spec_to_bytes(v)[i] by {
                assert(spec_to_bytes(v)[i] == (v >> ((120 - 8 * i) as u128)) as u8);
            }
            assert(out@ =~= spec_to_bytes(self.0));
        }
        out
    }
}

/// Reading a value's big-endian bytes back yields the value: the raw byte
/// conversions are exact inverses.
pub proof fn lemma_of_bytes_of_to_bytes(v: u128)
    ensures
        spec_of_bytes(spec_to_bytes(v)) == v,
{
    let b = spec_to_bytes(v);
    assert((v >> 0) == v) by (bit_vector);
    assert(b[0] == (v >> 120) as u8);
    assert(b[1] == (v >> 112) as u8);
    assert(b[2] == (v >> 104) as u8);
    assert(b[3] == (v >> 96) as u8);
    assert(b[4] == (v >> 88) as u8);
    assert(b[5] == (v >> 80) as u8);
    assert(b[6] == (v >> 72) as u8);
    assert(b[7] == (v >> 64) as u8);
    assert(b[8] == (v >> 56) as u8);
    assert(b[9] == (v >> 48) as u8);
    assert(b[10] == (v >> 40) as u8);
    assert(b[11] == (v >> 32) as u8);
    assert(b[12] == (v >> 24) as u8);
    assert(b[13] == (v >> 16) as u8);
    assert(b[14] == (v >> 8) as u8);
    assert(b[15] == v as u8);
    lemma_u128_bytes(v);
}

/// Each big-endian byte of a value rebuilt from sixteen bytes is the byte
/// it was built from.
proof fn lemma_bytes_of_u128(
    b0: u8,
    b1: u8,
    b2: u8,
    b3: u8,
    b4: u8,
    b5: u8,
    b6: u8,
    b7: u8,
    b8: u8,
    b9: u8,
    b10: u8,
    b11: u8,
    b12: u8,
    b13: u8,
    b14: u8,
    b15: u8,
)
    by (bit_vector)
    ensures
        ({
            let v = ((b0 as u128) << 120) | ((b1 as u128) << 112) | ((b2 as u128) << 104) | ((
            b3 as u128) << 96) | ((b4 as u128) << 88) | ((b5 as u128) << 80) | ((b6 as u128) << 72)
                | ((b7 as u128) << 64) | ((b8 as u128) << 56) | ((b9 as u128) << 48) | ((
            b10 as u128) << 40) | ((b11 as u128) << 32) | ((b12 as u128) << 24) | ((b13 as u128)
                << 16) | ((b14 as u128) << 8) | (b15 as u128);
            &&& (v >> 120) as u8 == b0
            &&& (v >> 112) as u8 == b1
            &&& (v >> 104) as u8 == b2
            &&& (v >> 96) as u8 == b3
            &&& (v >> 88) as u8 == b4
            &&& (v >> 80) as u8 == b5
            &&& (v >> 72) as u8 == b6
            &&& (v >> 64) as u8 == b7
            &&& (v >> 56) as u8 == b8
            &&& (v >> 48) as u8 == b9
            &&& (v >> 40) as u8 == b10
            &&& (v >> 32) as u8 == b11
            &&& (v >> 24) as u8 == b12
            &&& (v >> 16) as u8 == b13
            &&& (v >> 8) as u8 == b14
            &&& v as u8 == b15
        }),
{
}

/// Exporting the value read from sixteen big-endian bytes yields those
/// bytes: the raw byte conversions are exact inverses in this direction
/// too.
pub proof fn lemma_to_bytes_of_of_bytes(b: Seq<u8>)
    requires
        b.len() == 16,
    ensures
        spec_to_bytes(spec_of_bytes(b)) == b,
{
    lemma_bytes_of_u128(
        b[0],
        b[1],
        b[2],
        b[3],
        b[4],
        b[5],
        b[6],
        b[7],
        b[8],
        b[9],
        b[10],
        b[11],
        b[12],
        b[13],
        b[14],
        b[15],
    );
    let v = spec_of_bytes(b);
    assert((v >> 0) == v) by (bit_vector);
    assert forall|i: int| 0 <= i < 16 implies spec_to_bytes(v)[i] == b[i] by {
        assert(spec_to_bytes(v)[i] == (v >> ((120 - 8 * i) as u128)) as u8);
    }
    assert(spec_to_bytes(v) =~= b);
}

/// The fields of a freshly assembled identifier: the timestamp field holds
/// the shifted milliseconds, and the low 24 bits present the same windows
/// as the prefix-and-version block they were built from.
proof fn lemma_from_parts_fields(ms: u128, rnd: u64, p: u32)
    by (bit_vector)
    requires
        p < 0x100_0000,
    ensures
        ({
            let w = ((((ms >> 8) & 0xFF_FFFF_FFFF) as u128) << 88) | ((rnd as u128) << 24) | (
            p as u128);
            &&& (w >> 88) == ((ms >> 8) & 0xFF_FFFF_FFFF)
            &&& (w >> 4) & 0xFFFFF == ((p as u128) >> 4) & 0xFFFFF
            &&& (((w >> 19) & 31) as u8) == (((p >> 19) & 31) as u8)
            &&& (((w >> 14) & 31) as u8) == (((p >> 14) & 31) as u8)
            &&& (((w >> 9) & 31) as u8) == (((p >> 9) & 31) as u8)
            &&& (((w >> 4) & 31) as u8) == (((p >> 4) & 31) as u8)
        }),
{
}

/// The timestamp field of a freshly assembled identifier, restored to
/// milliseconds, sits at most 255 ms below the milliseconds it was built
/// from, when those fit the 48 bits the field can carry.
proof fn lemma_from_parts_milliseconds(ms: u128, rnd: u64, p: u32)
    by (bit_vector)
    requires
        p < 0x100_0000,
        ms < 0x1_0000_0000_0000,
    ensures
        ({
            let w = ((((ms >> 8) & 0xFF_FFFF_FFFF) as u128) << 88) | ((rnd as u128) << 24) | (
            p as u128);
            &&& (((w >> 88) & 0xFF_FFFF_FFFF) * 256) as u64 <= ms
            &&& ms - ((((w >> 88) & 0xFF_FFFF_FFFF) * 256) as u64) < 256
        }),
{
}

/// Two identifiers assembled from the same prefix-and-version block, at
/// millisecond timestamps at least 256 apart, have equal prefix blocks and
/// strictly ordered timestamp fields.
proof fn lemma_from_parts_compare(ms1: u128, ms2: u128, rnd1: u64, rnd2: u64, p: u32)
    by (bit_vector)
    requires
        p < 0x100_0000,
        ms1 + 256 <= ms2,
        ms2 < 0x1_0000_0000_0000,
    ensures
        ({
            let w1 = ((((ms1 >> 8) & 0xFF_FFFF_FFFF) as u128) << 88) | ((rnd1 as u128) << 24) | (
            p as u128);
            let w2 = ((((ms2 >> 8) & 0xFF_FFFF_FFFF) as u128) << 88) | ((rnd2 as u128) << 24) | (
            p as u128);
            &&& (w1 >> 4) & 0xFFFFF == (w2 >> 4) & 0xFFFFF
            &&& (w1 >> 88) < (w2 >> 88)
        }),
{
}

/// The normalized prefix is made of alphabet symbols only, each with an
/// index below 32 that maps back to its character.
proof fn lemma_normalize_valid(prefix: Seq<char>)
    ensures
        forall|i: int|
            0 <= i < 4 ==> is_symbol(#[trigger] spec_normalize(prefix)[i]) && symbol_index(
                spec_normalize(prefix)[i],
            ) < 32 && symbol(symbol_index(spec_normalize(prefix)[i])) == spec_normalize(prefix)[i],
{
    let norm = spec_normalize(prefix);
    assert forall|i: int| 0 <= i < 4 implies is_symbol(#[trigger] norm[i]) && symbol_index(norm[i])
        < 32 && symbol(symbol_index(norm[i])) == norm[i] by {
        assert(is_symbol('z'));
        b32::lemma_symbol_of_index(norm[i]);
    }
}

/// Prefix normalization: the prefix field read back from an identifier
/// built with any prefix, any timestamp and any random draw is exactly the
/// normalized form of that prefix: alphabet characters are preserved
/// verbatim in the first four positions, everything else reads as the
/// padding symbol 'z'.
pub proof fn lemma_prefix_of_from_parts(prefix: Seq<char>, ms: u128, rnd: u64)
    ensures
        Seq::new(4, |k: int| symbol(enc_idx(spec_from_parts(prefix, ms, rnd), k)))
            == spec_normalize(prefix),
{
    let norm = spec_normalize(prefix);
    lemma_normalize_valid(prefix);
    let j0 = symbol_index(norm[0]);
    let j1 = symbol_index(norm[1]);
    let j2 = symbol_index(norm[2]);
    let j3 = symbol_index(norm[3]);
    let p = spec_prefix_block(norm);
    b32::lemma_prefix_indices_bound(j0, j1, j2, j3, VERSION_INDEX);
    b32::lemma_prefix_indices_windows(j0, j1, j2, j3, VERSION_INDEX);
    lemma_from_parts_fields(ms, rnd, p);
    let w = spec_from_parts(prefix, ms, rnd);
    b32::lemma_enc_idx_windows(w);
    assert(Seq::new(4, |k: int| symbol(enc_idx(w, k))) =~= norm);
}

/// Timestamp accuracy: the milliseconds read back from an identifier built
/// from a representable millisecond value differ from that value by less
/// than 256.
pub proof fn lemma_milliseconds_of_from_parts(prefix: Seq<char>, ms: u128, rnd: u64)
    requires
        ms < 0x1_0000_0000_0000,
    ensures
        spec_milliseconds(spec_from_parts(prefix, ms, rnd)) <= ms,
        ms - spec_milliseconds(spec_from_parts(prefix, ms, rnd)) < 256,
{
    let norm = spec_normalize(prefix);
    lemma_normalize_valid(prefix);
    b32::lemma_prefix_indices_bound(
        symbol_index(norm[0]),
        symbol_index(norm[1]),
        symbol_index(norm[2]),
        symbol_index(norm[3]),
        VERSION_INDEX,
    );
    lemma_from_parts_milliseconds(ms, rnd, spec_prefix_block(norm));
}

/// Monotonicity: of two identifiers generated with the same prefix at
/// timestamps at least 256 ms apart, the earlier one's text form compares
/// below the later one's under plain lexicographic order, whatever the two
/// random draws.
pub proof fn lemma_sorted_by_time(prefix: Seq<char>, ms1: u128, ms2: u128, rnd1: u64, rnd2: u64)
    requires
        ms1 + 256 <= ms2,
        ms2 < 0x1_0000_0000_0000,
    ensures
        b32::lex_lt(
            spec_encode(spec_from_parts(prefix, ms1, rnd1)),
            spec_encode(spec_from_parts(prefix, ms2, rnd2)),
        ),
{
    let norm = spec_normalize(prefix);
    lemma_normalize_valid(prefix);
    b32::lemma_prefix_indices_bound(
        symbol_index(norm[0]),
        symbol_index(norm[1]),
        symbol_index(norm[2]),
        symbol_index(norm[3]),
        VERSION_INDEX,
    );
    lemma_from_parts_compare(ms1, ms2, rnd1, rnd2, spec_prefix_block(norm));
    b32::lemma_sortable(spec_from_parts(prefix, ms1, rnd1), spec_from_parts(prefix, ms2, rnd2));
}

impl Default for Upid {
    /// The identifier generated for the empty prefix, at the current time:
    /// its prefix field normalizes to four padding symbols.
    fn default() -> (u: Self)
        ensures
            exists|ms: u128, rnd: u64| u.0 == spec_from_parts(Seq::<char>::empty(), ms, rnd),
    {
        let u = Upid::new("");
        proof {
            let (ms, rnd) = choose|ms: u128, rnd: u64| u.0 == spec_from_parts(""@, ms, rnd);
            reveal_strlit("");
            assert(""@ =~= Seq::<char>::empty());
            assert(u.0 == spec_from_parts(Seq::<char>::empty(), ms, rnd));
        }
        u
    }
}

impl core::str::FromStr for Upid {
    type Err = DecodeError;

    fn from_str(s: &str) -> Result<Self, Self::Err> {
        Upid::from_string(s)
    }
}

impl From<u128> for Upid {
    fn from(value: u128) -> (u: Upid)
        ensures
            u.0 == value,
    {
        Upid(value)
    }
}

impl vstd::std_specs::convert::FromSpecImpl<u128> for Upid {
    open spec fn obeys_from_spec() -> bool {
        true
    }

    open spec fn from_spec(v: u128) -> Upid {
        Upid(v)
    }
}

/// The alphabet index that position i of the normalized prefix carries: the
/// character's own index where the prefix has an alphabet character there,
/// and the padding symbol's index 31 otherwise.
fn normalized_index(prefix: &str, n: usize, i: usize) -> (j: u8)
    requires
        n == prefix@.len(),
        i < 4,
    ensures
        j == symbol_index(spec_normalize(prefix@)[i as int]),
        j < 32,
{
    if i < n {
        let x = b32::index_of(prefix.get_char(i));
        if x == 255 {
            proof {
                assert(spec_normalize(prefix@)[i as int] == 'z');
            }
            31
        } else {
            proof {
                b32::lemma_symbol_of_index(prefix@[i as int]);
            }
            x
        }
    } else {
        31
    }
}

} // verus!
