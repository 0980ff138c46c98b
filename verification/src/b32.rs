//! The base32 codec: lossless conversion between the 128-bit binary form of
//! an identifier and its 26-symbol text form, over a custom 32-symbol
//! alphabet.
use vstd::prelude::*;

verus! {

/// The 32-symbol alphabet in ascending ASCII order: the digits '2' to '7'
/// (indices 0 to 5), then the lower-case letters 'a' to 'z' (indices 6 to
/// 31).  Numerals come first so that encoded strings sort like the integers
/// they encode, and the full latin alphabet is present so that any sensible
/// prefix can be spelled.
pub open spec fn symbol(i: u8) -> char
    recommends
        i < 32,
{
    if i < 6 {
        ((i + 50) as u8) as char
    } else {
        ((i + 91) as u8) as char
    }
}

/// The inverse of [`symbol`]: the alphabet index of a character, or 255 for a
/// character outside the alphabet.
pub open spec fn symbol_index(c: char) -> u8 {
    let n = c as u32;
    if 50 <= n && n <= 55 {
        (n - 50) as u8
    } else if 97 <= n && n <= 122 {
        (n - 91) as u8
    } else {
        255
    }
}

/// Whether a character belongs to the 32-symbol alphabet.
pub open spec fn is_symbol(c: char) -> bool {
    symbol_index(c) != 255
}

/// Looking up the symbol of an index and then its index gives the index back.
pub proof fn lemma_symbol_index_of_symbol(i: u8)
    requires
        i < 32,
    ensures
        symbol_index(symbol(i)) == i,
{
}

/// Looking up the index of an alphabet character and then its symbol gives
/// the character back.
pub proof fn lemma_symbol_of_index(c: char)
    requires
        is_symbol(c),
    ensures
        symbol_index(c) < 32,
        symbol(symbol_index(c)) == c,
{
}

/// The alphabet is ordered: a larger index encodes a character with a larger
/// code point.  This is what makes encoded text sort like the underlying
/// integers.
pub proof fn lemma_symbol_order(i: u8, j: u8)
    requires
        i < j < 32,
    ensures
        (symbol(i) as u32) < (symbol(j) as u32),
{
}

/// An error that can occur when decoding a base32 string.
#[derive(Debug, PartialEq, Eq, Hash, Copy, Clone, Structural)]
pub enum DecodeError {
    /// The length of the string does not match the expected length.
    InvalidLength,
    /// A non-base32 character was found.
    InvalidChar,
    /// Text representation overflows the prefix or randomness chunk.
    Overflow,
}

impl DecodeError {
    /// A short human-readable description of the error.
    pub fn message(&self) -> (m: &'static str)
        ensures
            m@ == match *self {
                DecodeError::InvalidLength => "invalid length"@,
                DecodeError::InvalidChar => "invalid character"@,
                DecodeError::Overflow => "overflow"@,
            },
    {
        match *self {
            DecodeError::InvalidLength => "invalid length",
            DecodeError::InvalidChar => "invalid character",
            DecodeError::Overflow => "overflow",
        }
    }
}

/// The text with every separator underscore removed.
pub open spec fn strip_separators(s: Seq<char>) -> Seq<char>
    decreases s.len(),
{
    if s.len() == 0 {
        Seq::empty()
    } else if s[0] == '_' {
        strip_separators(s.drop_first())
    } else {
        seq![s[0]] + strip_separators(s.drop_first())
    }
}

/// Whether every character of the text belongs to the alphabet.
pub open spec fn all_symbols(s: Seq<char>) -> bool {
    forall|k: int| 0 <= k < s.len() ==> is_symbol(#[trigger] s[k])
}

/// The 128-bit value assembled from the 26 alphabet indices of an encoded
/// text, in string order: four prefix symbols, eight timestamp symbols,
/// thirteen randomness symbols, one version symbol.
///
/// Each symbol carries five bits, except the last randomness symbol and the
/// version symbol, which carry four (their fifth bit is the padding that
/// absorbs the misalignment of 64 random bits against 65 symbol bits and of
/// 24 prefix-and-version bits against 25 symbol bits).
#[verifier::inline]
pub open spec fn assemble_indices(
    p0: u8,
    p1: u8,
    p2: u8,
    p3: u8,
    t0: u8,
    t1: u8,
    t2: u8,
    t3: u8,
    t4: u8,
    t5: u8,
    t6: u8,
    t7: u8,
    r0: u8,
    r1: u8,
    r2: u8,
    r3: u8,
    r4: u8,
    r5: u8,
    r6: u8,
    r7: u8,
    r8: u8,
    r9: u8,
    r10: u8,
    r11: u8,
    r12: u8,
    pv: u8,
) -> u128 {
    ((t0 as u128) << 123) | ((t1 as u128) << 118) | ((t2 as u128) << 113) | ((t3 as u128) << 108)
        | ((t4 as u128) << 103) | ((t5 as u128) << 98) | ((t6 as u128) << 93) | ((t7 as u128)
        << 88) | ((r0 as u128) << 83) | ((r1 as u128) << 78) | ((r2 as u128) << 73) | ((r3 as u128)
        << 68) | ((r4 as u128) << 63) | ((r5 as u128) << 58) | ((r6 as u128) << 53) | ((r7 as u128)
        << 48) | ((r8 as u128) << 43) | ((r9 as u128) << 38) | ((r10 as u128) << 33) | ((
    r11 as u128) << 28) | ((r12 as u128) << 24) | ((p0 as u128) << 19) | ((p1 as u128) << 14) | ((
    p2 as u128) << 9) | ((p3 as u128) << 4) | (pv as u128)
}

/// The value assembled from a stripped 26-symbol text.
pub open spec fn assemble(t: Seq<char>) -> u128
    recommends
        t.len() == 26,
{
    assemble_indices(
        symbol_index(t[0]),
        symbol_index(t[1]),
        symbol_index(t[2]),
        symbol_index(t[3]),
        symbol_index(t[4]),
        symbol_index(t[5]),
        symbol_index(t[6]),
        symbol_index(t[7]),
        symbol_index(t[8]),
        symbol_index(t[9]),
        symbol_index(t[10]),
        symbol_index(t[11]),
        symbol_index(t[12]),
        symbol_index(t[13]),
        symbol_index(t[14]),
        symbol_index(t[15]),
        symbol_index(t[16]),
        symbol_index(t[17]),
        symbol_index(t[18]),
        symbol_index(t[19]),
        symbol_index(t[20]),
        symbol_index(t[21]),
        symbol_index(t[22]),
        symbol_index(t[23]),
        symbol_index(t[24]),
        symbol_index(t[25]),
    )
}

/// What decoding returns for any input text: the separator underscores are
/// stripped; a stripped length other than 26 is an invalid length; a
/// character outside the alphabet is invalid; an upper-half symbol in the
/// version position or the last randomness position overflows its
/// four-bit chunk; otherwise the 128-bit value is reassembled.
pub open spec fn spec_decode(s: Seq<char>) -> Result<u128, DecodeError> {
    let t = strip_separators(s);
    if t.len() != 26 {
        Err(DecodeError::InvalidLength)
    } else if !all_symbols(t) {
        Err(DecodeError::InvalidChar)
    } else if symbol_index(t[25]) >= 16 || symbol_index(t[24]) >= 16 {
        Err(DecodeError::Overflow)
    } else {
        Ok(assemble(t))
    }
}

/// The alphabet index of the k-th encoded symbol of a value, for k in 0..26
/// in string order (separator excluded): symbols 0 to 3 slice the 20 upper
/// prefix bits (bits 23 to 4), symbols 4 to 23 slice the timestamp and
/// randomness bits (bits 127 down to 28) in five-bit windows, symbol 24 is
/// the low four randomness bits, and symbol 25 is the version nibble.
pub open spec fn enc_idx(v: u128, k: int) -> u8
    recommends
        0 <= k < 26,
{
    if 0 <= k < 4 {
        ((v >> ((19 - 5 * k) as u128)) & 31) as u8
    } else if 4 <= k < 24 {
        ((v >> ((143 - 5 * k) as u128)) & 31) as u8
    } else if k == 24 {
        ((v >> 24) & 15) as u8
    } else {
        (v & 15) as u8
    }
}

/// The 26 symbols that encode a value, in string order, separator excluded.
pub open spec fn spec_symbols(v: u128) -> Seq<char> {
    Seq::new(26, |k: int| symbol(enc_idx(v, k)))
}

/// The full 27-character text form of a value: four prefix symbols, the
/// separator underscore, then the remaining 22 symbols.
pub open spec fn spec_encode(v: u128) -> Seq<char> {
    spec_symbols(v).take(4) + seq!['_'] + spec_symbols(v).skip(4)
}

/// Reassembling the 26 five-bit (and four-bit) windows of a value yields the
/// value itself.
proof fn lemma_assemble_of_windows(v: u128)
    by (bit_vector)
    ensures
        assemble_indices(
            ((v >> 19) & 31) as u8,
            ((v >> 14) & 31) as u8,
            ((v >> 9) & 31) as u8,
            ((v >> 4) & 31) as u8,
            ((v >> 123) & 31) as u8,
            ((v >> 118) & 31) as u8,
            ((v >> 113) & 31) as u8,
            ((v >> 108) & 31) as u8,
            ((v >> 103) & 31) as u8,
            ((v >> 98) & 31) as u8,
            ((v >> 93) & 31) as u8,
            ((v >> 88) & 31) as u8,
            ((v >> 83) & 31) as u8,
            ((v >> 78) & 31) as u8,
            ((v >> 73) & 31) as u8,
            ((v >> 68) & 31) as u8,
            ((v >> 63) & 31) as u8,
            ((v >> 58) & 31) as u8,
            ((v >> 53) & 31) as u8,
            ((v >> 48) & 31) as u8,
            ((v >> 43) & 31) as u8,
            ((v >> 38) & 31) as u8,
            ((v >> 33) & 31) as u8,
            ((v >> 28) & 31) as u8,
            ((v >> 24) & 15) as u8,
            (v & 15) as u8,
        ) == v,
{
}

/// Each five-bit (or four-bit) window of an assembled value gives back the
/// index it was assembled from.
proof fn lemma_windows_of_assemble(
    p0: u8,
    p1: u8,
    p2: u8,
    p3: u8,
    t0: u8,
    t1: u8,
    t2: u8,
    t3: u8,
    t4: u8,
    t5: u8,
    t6: u8,
    t7: u8,
    r0: u8,
    r1: u8,
    r2: u8,
    r3: u8,
    r4: u8,
    r5: u8,
    r6: u8,
    r7: u8,
    r8: u8,
    r9: u8,
    r10: u8,
    r11: u8,
    r12: u8,
    pv: u8,
)
    by (bit_vector)
    requires
        p0 < 32,
        p1 < 32,
        p2 < 32,
        p3 < 32,
        t0 < 32,
        t1 < 32,
        t2 < 32,
        t3 < 32,
        t4 < 32,
        t5 < 32,
        t6 < 32,
        t7 < 32,
        r0 < 32,
        r1 < 32,
        r2 < 32,
        r3 < 32,
        r4 < 32,
        r5 < 32,
        r6 < 32,
        r7 < 32,
        r8 < 32,
        r9 < 32,
        r10 < 32,
        r11 < 32,
        r12 < 16,
        pv < 16,
    ensures
        ({
            let v = assemble_indices(
                p0,
                p1,
                p2,
                p3,
                t0,
                t1,
                t2,
                t3,
                t4,
                t5,
                t6,
                t7,
                r0,
                r1,
                r2,
                r3,
                r4,
                r5,
                r6,
                r7,
                r8,
                r9,
                r10,
                r11,
                r12,
                pv,
            );
            &&& ((v >> 19) & 31) as u8 == p0
            &&& ((v >> 14) & 31) as u8 == p1
            &&& ((v >> 9) & 31) as u8 == p2
            &&& ((v >> 4) & 31) as u8 == p3
            &&& ((v >> 123) & 31) as u8 == t0
            &&& ((v >> 118) & 31) as u8 == t1
            &&& ((v >> 113) & 31) as u8 == t2
            &&& ((v >> 108) & 31) as u8 == t3
            &&& ((v >> 103) & 31) as u8 == t4
            &&& ((v >> 98) & 31) as u8 == t5
            &&& ((v >> 93) & 31) as u8 == t6
            &&& ((v >> 88) & 31) as u8 == t7
            &&& ((v >> 83) & 31) as u8 == r0
            &&& ((v >> 78) & 31) as u8 == r1
            &&& ((v >> 73) & 31) as u8 == r2
            &&& ((v >> 68) & 31) as u8 == r3
            &&& ((v >> 63) & 31) as u8 == r4
            &&& ((v >> 58) & 31) as u8 == r5
            &&& ((v >> 53) & 31) as u8 == r6
            &&& ((v >> 48) & 31) as u8 == r7
            &&& ((v >> 43) & 31) as u8 == r8
            &&& ((v >> 38) & 31) as u8 == r9
            &&& ((v >> 33) & 31) as u8 == r10
            &&& ((v >> 28) & 31) as u8 == r11
            &&& ((v >> 24) & 15) as u8 == r12
            &&& (v & 15) as u8 == pv
        }),
{
}

/// The window expressions above are exactly the per-symbol indices of the
/// encoding.
pub proof fn lemma_enc_idx_windows(v: u128)
    ensures
        enc_idx(v, 0) == ((v >> 19) & 31) as u8,
        enc_idx(v, 1) == ((v >> 14) & 31) as u8,
        enc_idx(v, 2) == ((v >> 9) & 31) as u8,
        enc_idx(v, 3) == ((v >> 4) & 31) as u8,
        enc_idx(v, 4) == ((v >> 123) & 31) as u8,
        enc_idx(v, 5) == ((v >> 118) & 31) as u8,
        enc_idx(v, 6) == ((v >> 113) & 31) as u8,
        enc_idx(v, 7) == ((v >> 108) & 31) as u8,
        enc_idx(v, 8) == ((v >> 103) & 31) as u8,
        enc_idx(v, 9) == ((v >> 98) & 31) as u8,
        enc_idx(v, 10) == ((v >> 93) & 31) as u8,
        enc_idx(v, 11) == ((v >> 88) & 31) as u8,
        enc_idx(v, 12) == ((v >> 83) & 31) as u8,
        enc_idx(v, 13) == ((v >> 78) & 31) as u8,
        enc_idx(v, 14) == ((v >> 73) & 31) as u8,
        enc_idx(v, 15) == ((v >> 68) & 31) as u8,
        enc_idx(v, 16) == ((v >> 63) & 31) as u8,
        enc_idx(v, 17) == ((v >> 58) & 31) as u8,
        enc_idx(v, 18) == ((v >> 53) & 31) as u8,
        enc_idx(v, 19) == ((v >> 48) & 31) as u8,
        enc_idx(v, 20) == ((v >> 43) & 31) as u8,
        enc_idx(v, 21) == ((v >> 38) & 31) as u8,
        enc_idx(v, 22) == ((v >> 33) & 31) as u8,
        enc_idx(v, 23) == ((v >> 28) & 31) as u8,
        enc_idx(v, 24) == ((v >> 24) & 15) as u8,
        enc_idx(v, 25) == (v & 15) as u8,
{
}

/// Every per-symbol index is in range for its position: below 32 everywhere,
/// and below 16 in the two four-bit positions.
proof fn lemma_enc_idx_bounds(v: u128)
    ensures
        forall|k: int| 0 <= k < 26 ==> #[trigger] enc_idx(v, k) < 32,
        enc_idx(v, 24) < 16,
        enc_idx(v, 25) < 16,
{
    assert forall|k: int| 0 <= k < 26 implies #[trigger] enc_idx(v, k) < 32 by {
        if 0 <= k < 4 {
            lemma_mask_bounds(v >> ((19 - 5 * k) as u128));
        } else if 4 <= k < 24 {
            lemma_mask_bounds(v >> ((143 - 5 * k) as u128));
        } else if k == 24 {
            lemma_mask_bounds(v >> 24);
        } else {
            lemma_mask_bounds(v);
        }
    }
    lemma_mask_bounds(v >> 24);
    lemma_mask_bounds(v);
}

/// Stripping separators commutes with appending one character: the appended
/// character survives exactly when it is not an underscore.
proof fn lemma_strip_push(s: Seq<char>, c: char)
    ensures
        strip_separators(s.push(c)) == strip_separators(s) + (if c == '_' {
            Seq::<char>::empty()
        } else {
            seq![c]
        }),
    decreases s.len(),
{
    if s.len() == 0 {
        reveal_with_fuel(strip_separators, 3);
        assert(s.push(c)[0] == c);
        assert(s.push(c).drop_first() =~= Seq::<char>::empty());
        if c == '_' {
            assert(strip_separators(s.push(c)) =~= strip_separators(s) + Seq::<char>::empty());
        } else {
            assert(strip_separators(s.push(c)) =~= strip_separators(s) + seq![c]);
        }
    } else {
        assert(s.push(c)[0] == s[0]);
        assert(s.push(c).drop_first() =~= s.drop_first().push(c));
        lemma_strip_push(s.drop_first(), c);
        if s[0] == '_' {
        } else {
            let tail = strip_separators(s.drop_first());
            let added = if c == '_' {
                Seq::<char>::empty()
            } else {
                seq![c]
            };
            assert(strip_separators(s.push(c)) == seq![s[0]] + (tail + added));
            assert(strip_separators(s) == seq![s[0]] + tail);
            assert(seq![s[0]] + (tail + added) =~= (seq![s[0]] + tail) + added);
        }
    }
}

/// Stripping separators distributes over concatenation.
proof fn lemma_strip_concat(a: Seq<char>, b: Seq<char>)
    ensures
        strip_separators(a + b) == strip_separators(a) + strip_separators(b),
    decreases a.len(),
{
    if a.len() == 0 {
        assert(a + b =~= b);
        assert(strip_separators(a) == Seq::<char>::empty());
        assert(strip_separators(a) + strip_separators(b) =~= strip_separators(b));
    } else {
        assert((a + b)[0] == a[0]);
        assert((a + b).drop_first() =~= a.drop_first() + b);
        lemma_strip_concat(a.drop_first(), b);
        if a[0] == '_' {
        } else {
            assert(strip_separators(a + b) == seq![a[0]] + (strip_separators(a.drop_first())
                + strip_separators(b)));
            assert(seq![a[0]] + (strip_separators(a.drop_first()) + strip_separators(b)) =~= (
            seq![a[0]] + strip_separators(a.drop_first())) + strip_separators(b));
        }
    }
}

/// A text without separators is unchanged by stripping.
proof fn lemma_strip_no_separators(s: Seq<char>)
    requires
        forall|k: int| 0 <= k < s.len() ==> #[trigger] s[k] != '_',
    ensures
        strip_separators(s) == s,
    decreases s.len(),
{
    if s.len() == 0 {
        assert(strip_separators(s) =~= s);
    } else {
        lemma_strip_no_separators(s.drop_first());
        assert(seq![s[0]] + s.drop_first() =~= s);
    }
}

/// An alphabet symbol is never the separator underscore.
proof fn lemma_symbol_is_not_separator(c: char)
    requires
        is_symbol(c),
    ensures
        c != '_',
{
}

/// Round trip: decoding the encoding of any 128-bit value gives the value
/// back.
pub proof fn lemma_decode_of_encode(v: u128)
    ensures
        spec_decode(spec_encode(v)) == Ok::<u128, DecodeError>(v),
{
    let syms = spec_symbols(v);
    let a = syms.take(4);
    let b = syms.skip(4);
    lemma_enc_idx_bounds(v);
    assert forall|k: int| 0 <= k < 26 implies is_symbol(#[trigger] syms[k]) && symbol_index(
        syms[k],
    ) == enc_idx(v, k) by {
        lemma_symbol_index_of_symbol(enc_idx(v, k));
    }
    lemma_strip_concat(a + seq!['_'], b);
    lemma_strip_concat(a, seq!['_']);
    lemma_strip_push(Seq::<char>::empty(), '_');
    assert(Seq::<char>::empty().push('_') =~= seq!['_']);
    assert(strip_separators(Seq::<char>::empty()) == Seq::<char>::empty());
    assert forall|k: int| 0 <= k < a.len() implies #[trigger] a[k] != '_' by {
        lemma_symbol_is_not_separator(syms[k]);
    }
    assert forall|k: int| 0 <= k < b.len() implies #[trigger] b[k] != '_' by {
        lemma_symbol_is_not_separator(syms[k + 4]);
    }
    lemma_strip_no_separators(a);
    lemma_strip_no_separators(b);
    let t = strip_separators(spec_encode(v));
    assert(t == (a + Seq::<char>::empty()) + b);
    assert((a + Seq::<char>::empty()) + b =~= syms);
    assert(t.len() == 26);
    assert(all_symbols(t));
    assert(symbol_index(t[25]) < 16);
    assert(symbol_index(t[24]) < 16);
    lemma_enc_idx_windows(v);
    lemma_assemble_of_windows(v);
    assert(assemble(t) == v);
}

/// Whether a text is a canonical encoded form: 27 characters, the separator
/// underscore in fifth position, every other character an alphabet symbol,
/// and the two four-bit positions restricted to the lower half of the
/// alphabet.
pub open spec fn is_canonical(s: Seq<char>) -> bool {
    &&& s.len() == 27
    &&& s[4] == '_'
    &&& (forall|j: int| 0 <= j < 27 && j != 4 ==> is_symbol(#[trigger] s[j]))
    &&& symbol_index(s[25]) < 16
    &&& symbol_index(s[26]) < 16
}

/// Round trip: any canonical text decodes, and encoding the decoded value
/// reproduces the text exactly.
pub proof fn lemma_encode_of_decode(s: Seq<char>)
    requires
        is_canonical(s),
    ensures
        spec_decode(s) is Ok,
        spec_encode(spec_decode(s)->Ok_0) == s,
{
    let a = s.take(4);
    let mid = seq![s[4]];
    let b = s.skip(5);
    assert(s =~= (a + mid) + b);
    lemma_strip_concat(a + mid, b);
    lemma_strip_concat(a, mid);
    lemma_strip_push(Seq::<char>::empty(), '_');
    assert(Seq::<char>::empty().push('_') =~= seq!['_']);
    assert(strip_separators(Seq::<char>::empty()) == Seq::<char>::empty());
    assert(mid =~= seq!['_']);
    assert forall|k: int| 0 <= k < a.len() implies #[trigger] a[k] != '_' by {
        lemma_symbol_is_not_separator(s[k]);
    }
    assert forall|k: int| 0 <= k < b.len() implies #[trigger] b[k] != '_' by {
        lemma_symbol_is_not_separator(s[k + 5]);
    }
    lemma_strip_no_separators(a);
    lemma_strip_no_separators(b);
    let t = strip_separators(s);
    assert(t == (a + Seq::<char>::empty()) + b);
    assert(t =~= a + b);
    assert(t.len() == 26);
    assert forall|k: int| 0 <= k < 26 implies is_symbol(#[trigger] t[k]) && symbol_index(t[k]) < 32
        && symbol(symbol_index(t[k])) == t[k] by {
        if k < 4 {
            assert(t[k] == s[k]);
        } else {
            assert(t[k] == s[k + 1]);
        }
        lemma_symbol_of_index(t[k]);
    }
    assert(all_symbols(t));
    assert(t[24] == s[25] && t[25] == s[26]);
    let v = assemble(t);
    assert(spec_decode(s) == Ok::<u128, DecodeError>(v));
    lemma_windows_of_assemble(
        symbol_index(t[0]),
        symbol_index(t[1]),
        symbol_index(t[2]),
        symbol_index(t[3]),
        symbol_index(t[4]),
        symbol_index(t[5]),
        symbol_index(t[6]),
        symbol_index(t[7]),
        symbol_index(t[8]),
        symbol_index(t[9]),
        symbol_index(t[10]),
        symbol_index(t[11]),
        symbol_index(t[12]),
        symbol_index(t[13]),
        symbol_index(t[14]),
        symbol_index(t[15]),
        symbol_index(t[16]),
        symbol_index(t[17]),
        symbol_index(t[18]),
        symbol_index(t[19]),
        symbol_index(t[20]),
        symbol_index(t[21]),
        symbol_index(t[22]),
        symbol_index(t[23]),
        symbol_index(t[24]),
        symbol_index(t[25]),
    );
    lemma_enc_idx_windows(v);
    assert forall|k: int| 0 <= k < 26 implies #[trigger] enc_idx(v, k) == symbol_index(t[k]) by {
    }
    assert(spec_symbols(v) =~= t);
    assert(spec_encode(v) =~= s);
}

/// Round trip for bare symbol strings: any 26 alphabet symbols respecting
/// the two half-alphabet constraints decode, and encoding the decoded value
/// reproduces the symbols, with the canonical separator inserted after the
/// prefix block.
pub proof fn lemma_encode_of_decode_symbols(t: Seq<char>)
    requires
        t.len() == 26,
        all_symbols(t),
        symbol_index(t[24]) < 16,
        symbol_index(t[25]) < 16,
    ensures
        spec_decode(t) is Ok,
        spec_encode(spec_decode(t)->Ok_0) == t.take(4) + seq!['_'] + t.skip(4),
{
    let s = t.take(4) + seq!['_'] + t.skip(4);
    assert(s[4] == '_');
    assert forall|j: int| 0 <= j < 27 && j != 4 implies is_symbol(#[trigger] s[j]) by {
        if j < 4 {
            assert(s[j] == t[j]);
        } else {
            assert(s[j] == t[j - 1]);
        }
    }
    assert(s[25] == t[24] && s[26] == t[25]);
    lemma_encode_of_decode(s);
    assert forall|k: int| 0 <= k < t.len() implies #[trigger] t[k] != '_' by {
        lemma_symbol_is_not_separator(t[k]);
    }
    lemma_strip_no_separators(t);
    lemma_strip_concat(t.take(4) + seq!['_'], t.skip(4));
    lemma_strip_concat(t.take(4), seq!['_']);
    lemma_strip_push(Seq::<char>::empty(), '_');
    assert(Seq::<char>::empty().push('_') =~= seq!['_']);
    assert(strip_separators(Seq::<char>::empty()) == Seq::<char>::empty());
    assert forall|k: int| 0 <= k < t.take(4).len() implies #[trigger] t.take(4)[k] != '_' by {
        lemma_symbol_is_not_separator(t[k]);
    }
    assert forall|k: int| 0 <= k < t.skip(4).len() implies #[trigger] t.skip(4)[k] != '_' by {
        lemma_symbol_is_not_separator(t[k + 4]);
    }
    lemma_strip_no_separators(t.take(4));
    lemma_strip_no_separators(t.skip(4));
    assert(strip_separators(s) == (t.take(4) + Seq::<char>::empty()) + t.skip(4));
    assert((t.take(4) + Seq::<char>::empty()) + t.skip(4) =~= t);
    assert(spec_decode(t) == spec_decode(s));
}

/// For any input whose symbol count after separator removal is not 26,
/// decoding fails with an invalid length.
pub proof fn lemma_invalid_length(s: Seq<char>)
    requires
        strip_separators(s).len() != 26,
    ensures
        spec_decode(s) == Err::<u128, DecodeError>(DecodeError::InvalidLength),
{
}

/// For any input of the right length with a character outside the alphabet,
/// decoding fails with an invalid character.
pub proof fn lemma_invalid_char(s: Seq<char>)
    requires
        strip_separators(s).len() == 26,
        !all_symbols(strip_separators(s)),
    ensures
        spec_decode(s) == Err::<u128, DecodeError>(DecodeError::InvalidChar),
{
}

/// For any well-formed input whose version symbol or last randomness symbol
/// uses the upper half of the alphabet, decoding fails with an overflow.
pub proof fn lemma_overflow(s: Seq<char>)
    requires
        strip_separators(s).len() == 26,
        all_symbols(strip_separators(s)),
        symbol_index(strip_separators(s)[25]) >= 16 || symbol_index(strip_separators(s)[24])
            >= 16,
    ensures
        spec_decode(s) == Err::<u128, DecodeError>(DecodeError::Overflow),
{
}

/// Plain lexicographic order on text: either the two texts agree up to some
/// position where the first holds a character with a smaller code point, or
/// the first is a proper prefix of the second.
pub open spec fn lex_lt(a: Seq<char>, b: Seq<char>) -> bool {
    ||| (exists|j: int|
        #![trigger a[j], b[j]]
        0 <= j < a.len() && j < b.len() && (forall|i: int| 0 <= i < j ==> a[i] == b[i]) && (
        a[j] as u32) < (b[j] as u32))
    ||| (a.len() < b.len() && a == b.take(a.len() as int))
}

/// The first four prefix symbols depend only on bits 23 to 4, so equal
/// prefix blocks give equal prefix windows.
proof fn lemma_prefix_windows_equal(v1: u128, v2: u128)
    by (bit_vector)
    requires
        (v1 >> 4) & 0xFFFFF == (v2 >> 4) & 0xFFFFF,
    ensures
        ((v1 >> 19) & 31) as u8 == ((v2 >> 19) & 31) as u8,
        ((v1 >> 14) & 31) as u8 == ((v2 >> 14) & 31) as u8,
        ((v1 >> 9) & 31) as u8 == ((v2 >> 9) & 31) as u8,
        ((v1 >> 4) & 31) as u8 == ((v2 >> 4) & 31) as u8,
{
}

/// When one timestamp field is smaller, the eight timestamp windows first
/// differ at a window where the smaller value's window is smaller.
proof fn lemma_time_windows_compare(v1: u128, v2: u128)
    by (bit_vector)
    requires
        (v1 >> 88) < (v2 >> 88),
    ensures
        ({
            ||| ((((v1 >> 123) & 31) as u8) < (((v2 >> 123) & 31) as u8))
            ||| ((((v1 >> 123) & 31) as u8) == (((v2 >> 123) & 31) as u8) && (((v1 >> 118) & 31) as u8) < (((v2 >> 118) & 31) as u8))
            ||| ((((v1 >> 123) & 31) as u8) == (((v2 >> 123) & 31) as u8) && (((v1 >> 118) & 31) as u8) == (((v2 >> 118) & 31) as u8) && (((v1 >> 113) & 31) as u8) < (((v2 >> 113) & 31) as u8))
            ||| ((((v1 >> 123) & 31) as u8) == (((v2 >> 123) & 31) as u8) && (((v1 >> 118) & 31) as u8) == (((v2 >> 118) & 31) as u8) && (((v1 >> 113) & 31) as u8) == (((v2 >> 113) & 31) as u8) && (((v1 >> 108) & 31) as u8) < (((v2 >> 108) & 31) as u8))
            ||| ((((v1 >> 123) & 31) as u8) == (((v2 >> 123) & 31) as u8) && (((v1 >> 118) & 31) as u8) == (((v2 >> 118) & 31) as u8) && (((v1 >> 113) & 31) as u8) == (((v2 >> 113) & 31) as u8) && (((v1 >> 108) & 31) as u8) == (((v2 >> 108) & 31) as u8) && (((v1 >> 103) & 31) as u8) < (((v2 >> 103) & 31) as u8))
            ||| ((((v1 >> 123) & 31) as u8) == (((v2 >> 123) & 31) as u8) && (((v1 >> 118) & 31) as u8) == (((v2 >> 118) & 31) as u8) && (((v1 >> 113) & 31) as u8) == (((v2 >> 113) & 31) as u8) && (((v1 >> 108) & 31) as u8) == (((v2 >> 108) & 31) as u8) && (((v1 >> 103) & 31) as u8) == (((v2 >> 103) & 31) as u8) && (((v1 >> 98) & 31) as u8) < (((v2 >> 98) & 31) as u8))
            ||| ((((v1 >> 123) & 31) as u8) == (((v2 >> 123) & 31) as u8) && (((v1 >> 118) & 31) as u8) == (((v2 >> 118) & 31) as u8) && (((v1 >> 113) & 31) as u8) == (((v2 >> 113) & 31) as u8) && (((v1 >> 108) & 31) as u8) == (((v2 >> 108) & 31) as u8) && (((v1 >> 103) & 31) as u8) == (((v2 >> 103) & 31) as u8) && (((v1 >> 98) & 31) as u8) == (((v2 >> 98) & 31) as u8) && (((v1 >> 93) & 31) as u8) < (((v2 >> 93) & 31) as u8))
            ||| ((((v1 >> 123) & 31) as u8) == (((v2 >> 123) & 31) as u8) && (((v1 >> 118) & 31) as u8) == (((v2 >> 118) & 31) as u8) && (((v1 >> 113) & 31) as u8) == (((v2 >> 113) & 31) as u8) && (((v1 >> 108) & 31) as u8) == (((v2 >> 108) & 31) as u8) && (((v1 >> 103) & 31) as u8) == (((v2 >> 103) & 31) as u8) && (((v1 >> 98) & 31) as u8) == (((v2 >> 98) & 31) as u8) && (((v1 >> 93) & 31) as u8) == (((v2 >> 93) & 31) as u8) && (((v1 >> 88) & 31) as u8) < (((v2 >> 88) & 31) as u8))
        }),
{
}

/// Builds the lexicographic-order witness: with equal prefix windows, equal
/// earlier timestamp windows and a smaller window at position k, the encoded
/// texts compare below at character position 5 + k.
proof fn lemma_lex_witness(v1: u128, v2: u128, k: int)
    requires
        0 <= k < 8,
        forall|i: int| 0 <= i < 4 ==> #[trigger] enc_idx(v1, i) == enc_idx(v2, i),
        forall|m: int| 0 <= m < k ==> #[trigger] enc_idx(v1, 4 + m) == enc_idx(v2, 4 + m),
        enc_idx(v1, 4 + k) < enc_idx(v2, 4 + k),
    ensures
        lex_lt(spec_encode(v1), spec_encode(v2)),
{
    let a = spec_encode(v1);
    let b = spec_encode(v2);
    lemma_enc_idx_bounds(v1);
    lemma_enc_idx_bounds(v2);
    let j = 5 + k;
    assert forall|i: int| 0 <= i < j implies a[i] == b[i] by {
        if i < 4 {
            assert(a[i] == symbol(enc_idx(v1, i)));
            assert(b[i] == symbol(enc_idx(v2, i)));
        } else if i == 4 {
            assert(a[i] == '_' && b[i] == '_');
        } else {
            assert(a[i] == symbol(enc_idx(v1, i - 1)));
            assert(b[i] == symbol(enc_idx(v2, i - 1)));
            let m = i - 5;
            assert(enc_idx(v1, 4 + m) == enc_idx(v2, 4 + m));
            assert(enc_idx(v1, i - 1) == enc_idx(v2, i - 1));
        }
    }
    lemma_symbol_order(enc_idx(v1, 4 + k), enc_idx(v2, 4 + k));
    assert(a[j] == symbol(enc_idx(v1, j - 1)));
    assert(b[j] == symbol(enc_idx(v2, j - 1)));
    assert((a[j] as u32) < (b[j] as u32));
    assert(0 <= j < a.len() && j < b.len());
    assert(lex_lt(a, b));
}

/// Sortability: two values with the same prefix block compare, as encoded
/// text under plain lexicographic order, exactly as their timestamp fields
/// compare.  The randomness and version bits never reverse the order because
/// every timestamp symbol precedes them in the text.
pub proof fn lemma_sortable(v1: u128, v2: u128)
    requires
        (v1 >> 4) & 0xFFFFF == (v2 >> 4) & 0xFFFFF,
        (v1 >> 88) < (v2 >> 88),
    ensures
        lex_lt(spec_encode(v1), spec_encode(v2)),
{
    lemma_enc_idx_windows(v1);
    lemma_enc_idx_windows(v2);
    lemma_prefix_windows_equal(v1, v2);
    lemma_time_windows_compare(v1, v2);
    assert forall|i: int| 0 <= i < 4 implies #[trigger] enc_idx(v1, i) == enc_idx(v2, i) by {
        assert(enc_idx(v1, 0) == enc_idx(v2, 0));
        assert(enc_idx(v1, 1) == enc_idx(v2, 1));
        assert(enc_idx(v1, 2) == enc_idx(v2, 2));
        assert(enc_idx(v1, 3) == enc_idx(v2, 3));
    }
    if enc_idx(v1, 4) != enc_idx(v2, 4) {
        lemma_lex_witness(v1, v2, 0);
    } else if enc_idx(v1, 5) != enc_idx(v2, 5) {
        lemma_lex_witness(v1, v2, 1);
    } else if enc_idx(v1, 6) != enc_idx(v2, 6) {
        lemma_lex_witness(v1, v2, 2);
    } else if enc_idx(v1, 7) != enc_idx(v2, 7) {
        lemma_lex_witness(v1, v2, 3);
    } else if enc_idx(v1, 8) != enc_idx(v2, 8) {
        lemma_lex_witness(v1, v2, 4);
    } else if enc_idx(v1, 9) != enc_idx(v2, 9) {
        lemma_lex_witness(v1, v2, 5);
    } else if enc_idx(v1, 10) != enc_idx(v2, 10) {
        lemma_lex_witness(v1, v2, 6);
    } else {
        lemma_lex_witness(v1, v2, 7);
    }
}

/// Decodes an encoded string to its 128-bit binary value.
///
/// Decoding is fallible: separator underscores are removed, the remaining
/// text must be exactly 26 symbols, every symbol must belong to the
/// alphabet, and the two four-bit symbols must not use the upper half of the
/// alphabet.
pub fn decode(encoded: &str) -> (r: Result<u128, DecodeError>)
    ensures
        r == spec_decode(encoded@),
{
    let ghost s = encoded@;
    let n: usize = encoded.unicode_len();
    let mut syms: Vec<char> = Vec::new();
    let mut i: usize = 0;
    while i < n
        invariant
            i <= n,
            n == s.len(),
            s == encoded@,
            syms@ == strip_separators(s.take(i as int)),
        decreases n - i,
    {
        let c = encoded.get_char(i);
        proof {
            assert(s.take(i + 1) =~= s.take(i as int).push(s[i as int]));
            lemma_strip_push(s.take(i as int), s[i as int]);
        }
        if c != '_' {
            syms.push(c);
        } else {
            proof {
                assert(syms@ =~= syms@ + Seq::<char>::empty());
            }
        }
        i += 1;
    }
    proof {
        assert(s.take(n as int) =~= s);
    }
    let ghost t = strip_separators(s);
    if syms.len() != 26 {
        return Err(DecodeError::InvalidLength);
    }
    let mut idx: Vec<u8> = Vec::new();
    let mut k: usize = 0;
    while k < 26
        invariant
            k <= 26,
            syms@ == t,
            t.len() == 26,
            t == strip_separators(encoded@),
            idx@.len() == k,
            forall|j: int| 0 <= j < k ==> (#[trigger] idx@[j]) == symbol_index(t[j]) && idx@[j]
                != 255,
        decreases 26 - k,
    {
        let x = index_of(syms[k]);
        if x == 255 {
            proof {
                assert(!is_symbol(t[k as int]));
            }
            return Err(DecodeError::InvalidChar);
        }
        idx.push(x);
        k += 1;
    }
    proof {
        assert forall|j: int| 0 <= j < t.len() implies is_symbol(#[trigger] t[j]) by {
            assert(idx@[j] == symbol_index(t[j]));
        }
        assert(all_symbols(t));
    }
    if idx[25] >= 16 {
        return Err(DecodeError::Overflow);
    }
    if idx[24] >= 16 {
        return Err(DecodeError::Overflow);
    }
    let v: u128 = ((idx[4] as u128) << 123) | ((idx[5] as u128) << 118) | ((idx[6] as u128) << 113)
        | ((idx[7] as u128) << 108) | ((idx[8] as u128) << 103) | ((idx[9] as u128) << 98) | ((
    idx[10] as u128) << 93) | ((idx[11] as u128) << 88) | ((idx[12] as u128) << 83) | ((
    idx[13] as u128) << 78) | ((idx[14] as u128) << 73) | ((idx[15] as u128) << 68) | ((
    idx[16] as u128) << 63) | ((idx[17] as u128) << 58) | ((idx[18] as u128) << 53) | ((
    idx[19] as u128) << 48) | ((idx[20] as u128) << 43) | ((idx[21] as u128) << 38) | ((
    idx[22] as u128) << 33) | ((idx[23] as u128) << 28) | ((idx[24] as u128) << 24) | ((
    idx[0] as u128) << 19) | ((idx[1] as u128) << 14) | ((idx[2] as u128) << 9) | ((idx[3] as u128)
        << 4) | (idx[25] as u128);
    proof {
        assert(v == assemble(t));
    }
    Ok(v)
}

/// A value masked to its low five bits is an alphabet index; masked to its
/// low four bits it is a lower-half alphabet index.
proof fn lemma_mask_bounds(x: u128)
    by (bit_vector)
    ensures
        x & 31 < 32,
        x & 15 < 16,
{
}

/// Relies on String::push: appends the given character to the end of the
/// string.
#[verifier::external_body]
fn push_char(s: &mut String, c: char)
    ensures
        final(s)@ == old(s)@.push(c),
{
    s.push(c);
}

/// The symbol for the low five bits of a value.
fn sym5(v: u128) -> (c: char)
    ensures
        c == symbol((v & 31) as u8),
{
    proof {
        lemma_mask_bounds(v);
    }
    symbol_of((v & 31) as u8)
}

/// The symbol for the low four bits of a value.
fn sym4(v: u128) -> (c: char)
    ensures
        c == symbol((v & 15) as u8),
{
    proof {
        lemma_mask_bounds(v);
    }
    symbol_of((v & 15) as u8)
}

/// Encodes a 128-bit binary value to its 27-character text form: four
/// prefix symbols, the separator underscore, eight timestamp symbols,
/// thirteen randomness symbols and one version symbol.  Total: every value
/// encodes.
pub fn encode(binary: u128) -> (s: String)
    ensures
        s@ == spec_encode(binary),
        s@.len() == 27,
{
    let mut out = String::new();
    push_char(&mut out, sym5(binary >> 19));
    push_char(&mut out, sym5(binary >> 14));
    push_char(&mut out, sym5(binary >> 9));
    push_char(&mut out, sym5(binary >> 4));
    push_char(&mut out, '_');
    push_char(&mut out, sym5(binary >> 123));
    push_char(&mut out, sym5(binary >> 118));
    push_char(&mut out, sym5(binary >> 113));
    push_char(&mut out, sym5(binary >> 108));
    push_char(&mut out, sym5(binary >> 103));
    push_char(&mut out, sym5(binary >> 98));
    push_char(&mut out, sym5(binary >> 93));
    push_char(&mut out, sym5(binary >> 88));
    push_char(&mut out, sym5(binary >> 83));
    push_char(&mut out, sym5(binary >> 78));
    push_char(&mut out, sym5(binary >> 73));
    push_char(&mut out, sym5(binary >> 68));
    push_char(&mut out, sym5(binary >> 63));
    push_char(&mut out, sym5(binary >> 58));
    push_char(&mut out, sym5(binary >> 53));
    push_char(&mut out, sym5(binary >> 48));
    push_char(&mut out, sym5(binary >> 43));
    push_char(&mut out, sym5(binary >> 38));
    push_char(&mut out, sym5(binary >> 33));
    push_char(&mut out, sym5(binary >> 28));
    push_char(&mut out, sym4(binary >> 24));
    push_char(&mut out, sym4(binary));
    proof {
        assert(out@ =~= spec_encode(binary));
    }
    out
}

/// The symbol at an alphabet index.
pub fn symbol_of(i: u8) -> (c: char)
    requires
        i < 32,
    ensures
        c == symbol(i),
{
    if i < 6 {
        (i + 50) as char
    } else {
        (i + 91) as char
    }
}

/// The alphabet index of a character, or 255 for a character outside the
/// alphabet.
pub fn index_of(c: char) -> (i: u8)
    ensures
        i == symbol_index(c),
{
    let n = c as u32;
    if 50 <= n && n <= 55 {
        (n - 50) as u8
    } else if 97 <= n && n <= 122 {
        (n - 91) as u8
    } else {
        255
    }
}

/// The alphabet index of an ASCII byte, or 255 for a byte outside the
/// alphabet.
pub open spec fn byte_symbol_index(b: u8) -> u8 {
    symbol_index(b as char)
}

/// The 40-bit timestamp block read from its first five bytes, big-endian.
pub open spec fn time_value(b: Seq<u8>) -> u64
    recommends
        b.len() >= 5,
{
    ((b[0] as u64) << 32) | ((b[1] as u64) << 24) | ((b[2] as u64) << 16) | ((b[3] as u64) << 8) | (
    b[4] as u64)
}

/// The 64-bit randomness block read from its first eight bytes, big-endian.
pub open spec fn rando_value(b: Seq<u8>) -> u64
    recommends
        b.len() >= 8,
{
    ((b[0] as u64) << 56) | ((b[1] as u64) << 48) | ((b[2] as u64) << 40) | ((b[3] as u64) << 32)
        | ((b[4] as u64) << 24) | ((b[5] as u64) << 16) | ((b[6] as u64) << 8) | (b[7] as u64)
}

/// The 24-bit prefix-and-version block read from its first three bytes,
/// big-endian.
pub open spec fn prefix_value(b: Seq<u8>) -> u32
    recommends
        b.len() >= 3,
{
    ((b[0] as u32) << 16) | ((b[1] as u32) << 8) | (b[2] as u32)
}

/// The 40-bit timestamp block carried by eight five-bit symbol indices.
#[verifier::inline]
pub open spec fn time_indices(
    j0: u8,
    j1: u8,
    j2: u8,
    j3: u8,
    j4: u8,
    j5: u8,
    j6: u8,
    j7: u8,
) -> u64 {
    ((j0 as u64) << 35) | ((j1 as u64) << 30) | ((j2 as u64) << 25) | ((j3 as u64) << 20) | ((
    j4 as u64) << 15) | ((j5 as u64) << 10) | ((j6 as u64) << 5) | (j7 as u64)
}

/// The 64-bit randomness block carried by twelve five-bit symbol indices and
/// one four-bit index.
#[verifier::inline]
pub open spec fn rando_indices(
    j0: u8,
    j1: u8,
    j2: u8,
    j3: u8,
    j4: u8,
    j5: u8,
    j6: u8,
    j7: u8,
    j8: u8,
    j9: u8,
    j10: u8,
    j11: u8,
    j12: u8,
) -> u64 {
    ((j0 as u64) << 59) | ((j1 as u64) << 54) | ((j2 as u64) << 49) | ((j3 as u64) << 44) | ((
    j4 as u64) << 39) | ((j5 as u64) << 34) | ((j6 as u64) << 29) | ((j7 as u64) << 24) | ((
    j8 as u64) << 19) | ((j9 as u64) << 14) | ((j10 as u64) << 9) | ((j11 as u64) << 4) | (
    j12 as u64)
}

/// The 24-bit prefix-and-version block carried by four five-bit symbol
/// indices and one four-bit index.
#[verifier::inline]
pub open spec fn prefix_indices(j0: u8, j1: u8, j2: u8, j3: u8, j4: u8) -> u32 {
    ((j0 as u32) << 19) | ((j1 as u32) << 14) | ((j2 as u32) << 9) | ((j3 as u32) << 4) | (
    j4 as u32)
}

/// The eight symbols that encode a timestamp block.
pub open spec fn spec_time_chars(b: Seq<u8>) -> Seq<char>
    recommends
        b.len() >= 5,
{
    Seq::new(8, |i: int| symbol(((time_value(b) >> ((35 - 5 * i) as u64)) & 31) as u8))
}

/// The thirteen symbols that encode a randomness block.
pub open spec fn spec_rando_chars(b: Seq<u8>) -> Seq<char>
    recommends
        b.len() >= 8,
{
    Seq::new(
        13,
        |i: int|
            if i < 12 {
                symbol(((rando_value(b) >> ((59 - 5 * i) as u64)) & 31) as u8)
            } else {
                symbol((rando_value(b) & 15) as u8)
            },
    )
}

/// The four prefix symbols that encode a prefix-and-version block.
pub open spec fn spec_prefix_chars(b: Seq<u8>) -> Seq<char>
    recommends
        b.len() >= 3,
{
    Seq::new(4, |i: int| symbol(((prefix_value(b) >> ((19 - 5 * i) as u32)) & 31) as u8))
}

/// The version symbol of a prefix-and-version block: its low nibble.
pub open spec fn spec_version_char(b: Seq<u8>) -> char
    recommends
        b.len() >= 3,
{
    symbol((prefix_value(b) & 15) as u8)
}

/// A value masked to its low five or four bits is in range, on 64 bits.
proof fn lemma_mask_bounds_u64(x: u64)
    by (bit_vector)
    ensures
        x & 31 < 32,
        x & 15 < 16,
{
}

/// A value masked to its low five bits is in range, on 32 bits.
proof fn lemma_mask_bounds_u32(x: u32)
    by (bit_vector)
    ensures
        x & 31 < 32,
        x & 15 < 16,
{
}

/// The symbol for the low five bits of a 64-bit block.
fn sym5_u64(v: u64) -> (c: char)
    ensures
        c == symbol((v & 31) as u8),
{
    proof {
        lemma_mask_bounds_u64(v);
    }
    symbol_of((v & 31) as u8)
}

/// The symbol for the low five bits of a 32-bit block.
fn sym5_u32(v: u32) -> (c: char)
    ensures
        c == symbol((v & 31) as u8),
{
    proof {
        lemma_mask_bounds_u32(v);
    }
    symbol_of((v & 31) as u8)
}

/// Encodes the time portion of binary data to a base32 string.
///
/// Unlike the prefix, this has a 1:1 bit mapping: 40 bits to eight five-bit
/// symbols, no padding.  Only the first five bytes are read.
pub fn encode_time(binary: &[u8]) -> (s: String)
    requires
        binary@.len() >= 5,
    ensures
        s@ == spec_time_chars(binary@),
        s@.len() == 8,
{
    let t: u64 = ((binary[0] as u64) << 32) | ((binary[1] as u64) << 24) | ((binary[2] as u64)
        << 16) | ((binary[3] as u64) << 8) | (binary[4] as u64);
    let mut out = String::new();
    push_char(&mut out, sym5_u64(t >> 35));
    push_char(&mut out, sym5_u64(t >> 30));
    push_char(&mut out, sym5_u64(t >> 25));
    push_char(&mut out, sym5_u64(t >> 20));
    push_char(&mut out, sym5_u64(t >> 15));
    push_char(&mut out, sym5_u64(t >> 10));
    push_char(&mut out, sym5_u64(t >> 5));
    push_char(&mut out, sym5_u64(t));
    proof {
        assert(t == time_value(binary@));
        assert((t >> 0) == t) by (bit_vector);
        assert(out@ =~= spec_time_chars(binary@));
    }
    out
}

/// Encodes the randomness portion of binary data to a base32 string.
///
/// This goes from 64 bits to 65 symbol bits (thirteen five-bit symbols), so
/// a zero bit is implicitly padded above the last symbol's four bits.  Only
/// the first eight bytes are read.
pub fn encode_rando(binary: &[u8]) -> (s: String)
    requires
        binary@.len() >= 8,
    ensures
        s@ == spec_rando_chars(binary@),
        s@.len() == 13,
{
    let r: u64 = ((binary[0] as u64) << 56) | ((binary[1] as u64) << 48) | ((binary[2] as u64)
        << 40) | ((binary[3] as u64) << 32) | ((binary[4] as u64) << 24) | ((binary[5] as u64)
        << 16) | ((binary[6] as u64) << 8) | (binary[7] as u64);
    let mut out = String::new();
    push_char(&mut out, sym5_u64(r >> 59));
    push_char(&mut out, sym5_u64(r >> 54));
    push_char(&mut out, sym5_u64(r >> 49));
    push_char(&mut out, sym5_u64(r >> 44));
    push_char(&mut out, sym5_u64(r >> 39));
    push_char(&mut out, sym5_u64(r >> 34));
    push_char(&mut out, sym5_u64(r >> 29));
    push_char(&mut out, sym5_u64(r >> 24));
    push_char(&mut out, sym5_u64(r >> 19));
    push_char(&mut out, sym5_u64(r >> 14));
    push_char(&mut out, sym5_u64(r >> 9));
    push_char(&mut out, sym5_u64(r >> 4));
    proof {
        lemma_mask_bounds_u64(r);
    }
    push_char(&mut out, symbol_of((r & 15) as u8));
    proof {
        assert(r == rando_value(binary@));
        assert(out@ =~= spec_rando_chars(binary@));
    }
    out
}

/// Encodes the prefix portion of binary data to the prefix and version
/// strings.
///
/// This goes from 24 bits to 25 symbol bits (five five-bit symbols), so a
/// zero bit is implicitly padded above the version symbol's four bits.  Only
/// the first three bytes are read.
pub fn encode_prefix(binary: &[u8]) -> (out: (String, String))
    requires
        binary@.len() >= 3,
    ensures
        out.0@ == spec_prefix_chars(binary@),
        out.0@.len() == 4,
        out.1@ == seq![spec_version_char(binary@)],
{
    let p: u32 = ((binary[0] as u32) << 16) | ((binary[1] as u32) << 8) | (binary[2] as u32);
    let mut prefix = String::new();
    push_char(&mut prefix, sym5_u32(p >> 19));
    push_char(&mut prefix, sym5_u32(p >> 14));
    push_char(&mut prefix, sym5_u32(p >> 9));
    push_char(&mut prefix, sym5_u32(p >> 4));
    let mut version = String::new();
    proof {
        lemma_mask_bounds_u32(p);
    }
    push_char(&mut version, symbol_of((p & 15) as u8));
    proof {
        assert(p == prefix_value(binary@));
        assert(prefix@ =~= spec_prefix_chars(binary@));
        assert(version@ =~= seq![spec_version_char(binary@)]);
    }
    (prefix, version)
}

/// A 40-bit value survives the round trip through its five bytes.
proof fn lemma_u40_bytes(t: u64)
    by (bit_vector)
    requires
        t < 0x100_0000_0000,
    ensures
        ((((t >> 32) as u8) as u64) << 32) | ((((t >> 24) as u8) as u64) << 24) | ((((t
            >> 16) as u8) as u64) << 16) | ((((t >> 8) as u8) as u64) << 8) | ((t as u8) as u64)
            == t,
{
}

/// A 64-bit value survives the round trip through its eight bytes.
proof fn lemma_u64_bytes(r: u64)
    by (bit_vector)
    ensures
        ((((r >> 56) as u8) as u64) << 56) | ((((r >> 48) as u8) as u64) << 48) | ((((r
            >> 40) as u8) as u64) << 40) | ((((r >> 32) as u8) as u64) << 32) | ((((r
            >> 24) as u8) as u64) << 24) | ((((r >> 16) as u8) as u64) << 16) | ((((r
            >> 8) as u8) as u64) << 8) | ((r as u8) as u64) == r,
{
}

/// A 24-bit value survives the round trip through its three bytes.
proof fn lemma_u24_bytes(p: u32)
    by (bit_vector)
    requires
        p < 0x100_0000,
    ensures
        ((((p >> 16) as u8) as u32) << 16) | ((((p >> 8) as u8) as u32) << 8) | ((p as u8) as u32)
            == p,
{
}

/// Eight five-bit indices assemble to a 40-bit value.
proof fn lemma_time_indices_bound(j0: u8, j1: u8, j2: u8, j3: u8, j4: u8, j5: u8, j6: u8, j7: u8)
    by (bit_vector)
    requires
        j0 < 32,
        j1 < 32,
        j2 < 32,
        j3 < 32,
        j4 < 32,
        j5 < 32,
        j6 < 32,
        j7 < 32,
    ensures
        time_indices(j0, j1, j2, j3, j4, j5, j6, j7) < 0x100_0000_0000,
{
}

/// Five five-bit indices assemble to a 24-bit value.
pub proof fn lemma_prefix_indices_bound(j0: u8, j1: u8, j2: u8, j3: u8, j4: u8)
    by (bit_vector)
    requires
        j0 < 32,
        j1 < 32,
        j2 < 32,
        j3 < 32,
        j4 < 32,
    ensures
        prefix_indices(j0, j1, j2, j3, j4) < 0x100_0000,
{
}

/// Each window of a prefix-and-version block gives back the index it was
/// assembled from.
pub proof fn lemma_prefix_indices_windows(j0: u8, j1: u8, j2: u8, j3: u8, j4: u8)
    by (bit_vector)
    requires
        j0 < 32,
        j1 < 32,
        j2 < 32,
        j3 < 32,
        j4 < 16,
    ensures
        ((prefix_indices(j0, j1, j2, j3, j4) >> 19) & 31) as u8 == j0,
        ((prefix_indices(j0, j1, j2, j3, j4) >> 14) & 31) as u8 == j1,
        ((prefix_indices(j0, j1, j2, j3, j4) >> 9) & 31) as u8 == j2,
        ((prefix_indices(j0, j1, j2, j3, j4) >> 4) & 31) as u8 == j3,
        (prefix_indices(j0, j1, j2, j3, j4) & 15) as u8 == j4,
{
}

/// Decodes eight timestamp symbol bytes into the five timestamp bytes.
///
/// This cannot fail (the 40 bits map 1:1) but returns a result to be
/// consistent with its peers.  Only the first eight bytes are read.
pub fn decode_time(encoded: &[u8]) -> (r: Result<[u8; 5], DecodeError>)
    requires
        encoded@.len() >= 8,
        forall|k: int| 0 <= k < 8 ==> is_symbol(((#[trigger] encoded@[k]) as char)),
    ensures
        r is Ok,
        time_value(r->Ok_0@) == time_indices(
            byte_symbol_index(encoded@[0]),
            byte_symbol_index(encoded@[1]),
            byte_symbol_index(encoded@[2]),
            byte_symbol_index(encoded@[3]),
            byte_symbol_index(encoded@[4]),
            byte_symbol_index(encoded@[5]),
            byte_symbol_index(encoded@[6]),
            byte_symbol_index(encoded@[7]),
        ),
{
    let j0 = index_of(encoded[0] as char);
    let j1 = index_of(encoded[1] as char);
    let j2 = index_of(encoded[2] as char);
    let j3 = index_of(encoded[3] as char);
    let j4 = index_of(encoded[4] as char);
    let j5 = index_of(encoded[5] as char);
    let j6 = index_of(encoded[6] as char);
    let j7 = index_of(encoded[7] as char);
    proof {
        lemma_symbol_of_index(encoded@[0] as char);
        lemma_symbol_of_index(encoded@[1] as char);
        lemma_symbol_of_index(encoded@[2] as char);
        lemma_symbol_of_index(encoded@[3] as char);
        lemma_symbol_of_index(encoded@[4] as char);
        lemma_symbol_of_index(encoded@[5] as char);
        lemma_symbol_of_index(encoded@[6] as char);
        lemma_symbol_of_index(encoded@[7] as char);
    }
    let t: u64 = ((j0 as u64) << 35) | ((j1 as u64) << 30) | ((j2 as u64) << 25) | ((j3 as u64)
        << 20) | ((j4 as u64) << 15) | ((j5 as u64) << 10) | ((j6 as u64) << 5) | (j7 as u64);
    let out: [u8; 5] = [(t >> 32) as u8, (t >> 24) as u8, (t >> 16) as u8, (t >> 8) as u8, t as u8];
    proof {
        lemma_time_indices_bound(j0, j1, j2, j3, j4, j5, j6, j7);
        lemma_u40_bytes(t);
    }
    Ok(out)
}

/// Decodes thirteen randomness symbol bytes into the eight randomness bytes.
///
/// This goes from 65 symbol bits back to 64, so the last symbol may only use
/// the lower half of the alphabet; an upper-half symbol there overflows.
/// Only the first thirteen bytes are read.
pub fn decode_rando(encoded: &[u8]) -> (r: Result<[u8; 8], DecodeError>)
    requires
        encoded@.len() >= 13,
        forall|k: int| 0 <= k < 13 ==> is_symbol(((#[trigger] encoded@[k]) as char)),
    ensures
        r is Err <==> byte_symbol_index(encoded@[12]) >= 16,
        r is Err ==> r == Err::<[u8; 8], DecodeError>(DecodeError::Overflow),
        r is Ok ==> rando_value(r->Ok_0@) == rando_indices(
            byte_symbol_index(encoded@[0]),
            byte_symbol_index(encoded@[1]),
            byte_symbol_index(encoded@[2]),
            byte_symbol_index(encoded@[3]),
            byte_symbol_index(encoded@[4]),
            byte_symbol_index(encoded@[5]),
            byte_symbol_index(encoded@[6]),
            byte_symbol_index(encoded@[7]),
            byte_symbol_index(encoded@[8]),
            byte_symbol_index(encoded@[9]),
            byte_symbol_index(encoded@[10]),
            byte_symbol_index(encoded@[11]),
            byte_symbol_index(encoded@[12]),
        ),
{
    let j12 = index_of(encoded[12] as char);
    if j12 > 15 {
        return Err(DecodeError::Overflow);
    }
    let j0 = index_of(encoded[0] as char);
    let j1 = index_of(encoded[1] as char);
    let j2 = index_of(encoded[2] as char);
    let j3 = index_of(encoded[3] as char);
    let j4 = index_of(encoded[4] as char);
    let j5 = index_of(encoded[5] as char);
    let j6 = index_of(encoded[6] as char);
    let j7 = index_of(encoded[7] as char);
    let j8 = index_of(encoded[8] as char);
    let j9 = index_of(encoded[9] as char);
    let j10 = index_of(encoded[10] as char);
    let j11 = index_of(encoded[11] as char);
    let r: u64 = ((j0 as u64) << 59) | ((j1 as u64) << 54) | ((j2 as u64) << 49) | ((j3 as u64)
        << 44) | ((j4 as u64) << 39) | ((j5 as u64) << 34) | ((j6 as u64) << 29) | ((j7 as u64)
        << 24) | ((j8 as u64) << 19) | ((j9 as u64) << 14) | ((j10 as u64) << 9) | ((j11 as u64)
        << 4) | (j12 as u64);
    let out: [u8; 8] = [
        (r >> 56) as u8,
        (r >> 48) as u8,
        (r >> 40) as u8,
        (r >> 32) as u8,
        (r >> 24) as u8,
        (r >> 16) as u8,
        (r >> 8) as u8,
        r as u8,
    ];
    proof {
        lemma_u64_bytes(r);
    }
    Ok(out)
}

/// Decodes the four prefix symbol bytes and the version symbol byte into the
/// three prefix-and-version bytes.
///
/// This goes from 25 symbol bits back to 24, so the version symbol may only
/// use the lower half of the alphabet; an upper-half symbol there overflows.
/// Only the first five bytes are read.
pub fn decode_prefix(encoded: &[u8]) -> (r: Result<[u8; 3], DecodeError>)
    requires
        encoded@.len() >= 5,
        forall|k: int| 0 <= k < 5 ==> is_symbol(((#[trigger] encoded@[k]) as char)),
    ensures
        r is Err <==> byte_symbol_index(encoded@[4]) >= 16,
        r is Err ==> r == Err::<[u8; 3], DecodeError>(DecodeError::Overflow),
        r is Ok ==> prefix_value(r->Ok_0@) == prefix_indices(
            byte_symbol_index(encoded@[0]),
            byte_symbol_index(encoded@[1]),
            byte_symbol_index(encoded@[2]),
            byte_symbol_index(encoded@[3]),
            byte_symbol_index(encoded@[4]),
        ),
{
    let j4 = index_of(encoded[4] as char);
    if j4 > 15 {
        return Err(DecodeError::Overflow);
    }
    let j0 = index_of(encoded[0] as char);
    let j1 = index_of(encoded[1] as char);
    let j2 = index_of(encoded[2] as char);
    let j3 = index_of(encoded[3] as char);
    proof {
        lemma_symbol_of_index(encoded@[0] as char);
        lemma_symbol_of_index(encoded@[1] as char);
        lemma_symbol_of_index(encoded@[2] as char);
        lemma_symbol_of_index(encoded@[3] as char);
        lemma_symbol_of_index(encoded@[4] as char);
    }
    let p: u32 = ((j0 as u32) << 19) | ((j1 as u32) << 14) | ((j2 as u32) << 9) | ((j3 as u32)
        << 4) | (j4 as u32);
    let out: [u8; 3] = [(p >> 16) as u8, (p >> 8) as u8, p as u8];
    proof {
        lemma_prefix_indices_bound(j0, j1, j2, j3, j4);
        lemma_u24_bytes(p);
    }
    Ok(out)
}

} // verus!
