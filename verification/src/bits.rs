//! A bit cursor over byte buffers: reading and writing single bits of a byte
//! sequence, most-significant-bit first.
//!
//! The bit-aligned packer copies bit ranges that straddle byte boundaries;
//! everything it does is expressed with [`bit_at`] and proved from the
//! contracts of [`read_bit`] and [`set_bit`].

use vstd::prelude::*;

verus! {

/// Bit `i` of the byte sequence `s`, counting bits most-significant first
/// within each byte: bit 0 is the top bit of `s[0]`, bit 8 the top bit of
/// `s[1]`, and so on.
pub open spec fn bit_at(s: Seq<u8>, i: int) -> bool {
    ((s[i / 8] >> ((7 - (i % 8)) as u8)) & 1) == 1
}

/// Bit `s` (counted from the least significant end) of `x | (1 << s)` is set,
/// and every other bit keeps its value.
proof fn lemma_or_bit(x: u8, s: u8, t: u8)
    by (bit_vector)
    requires
        s < 8,
        t < 8,
    ensures
        (((x | (1u8 << s)) >> s) & 1) == 1,
        s != t ==> (((x | (1u8 << s)) >> t) & 1) == ((x >> t) & 1),
{
}

/// Bit `s` of `x & !(1 << s)` is clear, and every other bit keeps its value.
proof fn lemma_and_not_bit(x: u8, s: u8, t: u8)
    by (bit_vector)
    requires
        s < 8,
        t < 8,
    ensures
        (((x & !(1u8 << s)) >> s) & 1) == 0,
        s != t ==> (((x & !(1u8 << s)) >> t) & 1) == ((x >> t) & 1),
{
}

/// Two bytes that agree on all eight bits are equal.
proof fn lemma_u8_eq_from_bits(x: u8, y: u8)
    by (bit_vector)
    requires
        (((x >> 0u8) & 1) == 1) == (((y >> 0u8) & 1) == 1),
        (((x >> 1u8) & 1) == 1) == (((y >> 1u8) & 1) == 1),
        (((x >> 2u8) & 1) == 1) == (((y >> 2u8) & 1) == 1),
        (((x >> 3u8) & 1) == 1) == (((y >> 3u8) & 1) == 1),
        (((x >> 4u8) & 1) == 1) == (((y >> 4u8) & 1) == 1),
        (((x >> 5u8) & 1) == 1) == (((y >> 5u8) & 1) == 1),
        (((x >> 6u8) & 1) == 1) == (((y >> 6u8) & 1) == 1),
        (((x >> 7u8) & 1) == 1) == (((y >> 7u8) & 1) == 1),
    ensures
        x == y,
{
}

/// Byte sequences of equal length that agree on every bit are equal.
pub proof fn lemma_bytes_eq_from_bits(a: Seq<u8>, b: Seq<u8>)
    requires
        a.len() == b.len(),
        forall|j: int| 0 <= j < a.len() * 8 ==> bit_at(a, j) == bit_at(b, j),
    ensures
        a == b,
{
    assert forall|i: int| 0 <= i < a.len() implies a[i] == b[i] by {
        assert(bit_at(a, 8 * i + 0) == bit_at(b, 8 * i + 0));
        assert(bit_at(a, 8 * i + 1) == bit_at(b, 8 * i + 1));
        assert(bit_at(a, 8 * i + 2) == bit_at(b, 8 * i + 2));
        assert(bit_at(a, 8 * i + 3) == bit_at(b, 8 * i + 3));
        assert(bit_at(a, 8 * i + 4) == bit_at(b, 8 * i + 4));
        assert(bit_at(a, 8 * i + 5) == bit_at(b, 8 * i + 5));
        assert(bit_at(a, 8 * i + 6) == bit_at(b, 8 * i + 6));
        assert(bit_at(a, 8 * i + 7) == bit_at(b, 8 * i + 7));
        assert((8 * i + 0) / 8 == i && (8 * i + 0) % 8 == 0);
        assert((8 * i + 1) / 8 == i && (8 * i + 1) % 8 == 1);
        assert((8 * i + 2) / 8 == i && (8 * i + 2) % 8 == 2);
        assert((8 * i + 3) / 8 == i && (8 * i + 3) % 8 == 3);
        assert((8 * i + 4) / 8 == i && (8 * i + 4) % 8 == 4);
        assert((8 * i + 5) / 8 == i && (8 * i + 5) % 8 == 5);
        assert((8 * i + 6) / 8 == i && (8 * i + 6) % 8 == 6);
        assert((8 * i + 7) / 8 == i && (8 * i + 7) % 8 == 7);
        lemma_u8_eq_from_bits(a[i], b[i]);
    }
    assert(a =~= b);
}

/// Reads bit `i` of `s`, most-significant-bit first.
pub fn read_bit(s: &[u8], i: usize) -> (b: bool)
    requires
        i < s@.len() * 8,
    ensures
        b == bit_at(s@, i as int),
{
    let byte: u8 = s[i / 8];
    let sh: u8 = 7 - ((i % 8) as u8);
    ((byte >> sh) & 1) == 1
}

/// Sets bit `i` of `v` to `b`, leaving every other bit and the length
/// unchanged.
pub fn set_bit(v: &mut Vec<u8>, i: usize, b: bool)
    requires
        i < old(v)@.len() * 8,
    ensures
        final(v)@.len() == old(v)@.len(),
        bit_at(final(v)@, i as int) == b,
        forall|j: int| 0 <= j < old(v)@.len() * 8 && j != i ==> bit_at(final(v)@, j) == bit_at(
            old(v)@,
            j,
        ),
{
    let byte: u8 = v[i / 8];
    let sh: u8 = 7 - ((i % 8) as u8);
    let nb: u8 = if b {
        byte | (1u8 << sh)
    } else {
        byte & !(1u8 << sh)
    };
    let ghost old_view = v@;
    v[i / 8] = nb;
    proof {
        assert forall|j: int| 0 <= j < old_view.len() * 8 && j != i implies bit_at(v@, j) == bit_at(
            old_view,
            j,
        ) by {
            if j / 8 == i as int / 8 {
                assert(j % 8 != i as int % 8);
                let tj: u8 = (7 - (j % 8)) as u8;
                if b {
                    lemma_or_bit(byte, sh, tj);
                } else {
                    lemma_and_not_bit(byte, sh, tj);
                }
            }
        }
        let tj: u8 = (7 - (i as int % 8)) as u8;
        if b {
            lemma_or_bit(byte, sh, tj);
        } else {
            lemma_and_not_bit(byte, sh, tj);
        }
    }
}

/// The byte whose bits, most significant first, are `b0` through `b7`.
pub open spec fn byte_of_bits(
    b0: bool,
    b1: bool,
    b2: bool,
    b3: bool,
    b4: bool,
    b5: bool,
    b6: bool,
    b7: bool,
) -> u8 {
    (if b0 {
        0x80u8
    } else {
        0u8
    }) | (if b1 {
        0x40u8
    } else {
        0u8
    }) | (if b2 {
        0x20u8
    } else {
        0u8
    }) | (if b3 {
        0x10u8
    } else {
        0u8
    }) | (if b4 {
        0x08u8
    } else {
        0u8
    }) | (if b5 {
        0x04u8
    } else {
        0u8
    }) | (if b6 {
        0x02u8
    } else {
        0u8
    }) | (if b7 {
        0x01u8
    } else {
        0u8
    })
}

/// Extracting any bit of [`byte_of_bits`] gives back the bit it was built
/// from.
proof fn lemma_byte_of_bits_extract(
    b0: bool,
    b1: bool,
    b2: bool,
    b3: bool,
    b4: bool,
    b5: bool,
    b6: bool,
    b7: bool,
)
    by (bit_vector)
    ensures
        ((((byte_of_bits(b0, b1, b2, b3, b4, b5, b6, b7)) >> 7u8) & 1) == 1) == b0,
        ((((byte_of_bits(b0, b1, b2, b3, b4, b5, b6, b7)) >> 6u8) & 1) == 1) == b1,
        ((((byte_of_bits(b0, b1, b2, b3, b4, b5, b6, b7)) >> 5u8) & 1) == 1) == b2,
        ((((byte_of_bits(b0, b1, b2, b3, b4, b5, b6, b7)) >> 4u8) & 1) == 1) == b3,
        ((((byte_of_bits(b0, b1, b2, b3, b4, b5, b6, b7)) >> 3u8) & 1) == 1) == b4,
        ((((byte_of_bits(b0, b1, b2, b3, b4, b5, b6, b7)) >> 2u8) & 1) == 1) == b5,
        ((((byte_of_bits(b0, b1, b2, b3, b4, b5, b6, b7)) >> 1u8) & 1) == 1) == b6,
        ((((byte_of_bits(b0, b1, b2, b3, b4, b5, b6, b7)) >> 0u8) & 1) == 1) == b7,
{
}

/// The byte sequence of length `n` whose bit `j` is `f(j)`,
/// most-significant-bit first within each byte.
pub open spec fn bytes_of_bits(f: spec_fn(int) -> bool, n: int) -> Seq<u8> {
    Seq::new(
        n as nat,
        |i: int|
            byte_of_bits(
                f(8 * i),
                f(8 * i + 1),
                f(8 * i + 2),
                f(8 * i + 3),
                f(8 * i + 4),
                f(8 * i + 5),
                f(8 * i + 6),
                f(8 * i + 7),
            ),
    )
}

/// Bit `j` of [`bytes_of_bits`] is `f(j)`.
pub proof fn lemma_bytes_of_bits_bit_at(f: spec_fn(int) -> bool, n: int, j: int)
    requires
        0 <= j < n * 8,
    ensures
        bit_at(bytes_of_bits(f, n), j) == f(j),
{
    let i = j / 8;
    let t = j % 8;
    vstd::arithmetic::div_mod::lemma_fundamental_div_mod(j, 8);
    assert(0 <= i < n);
    lemma_byte_of_bits_extract(
        f(8 * i),
        f(8 * i + 1),
        f(8 * i + 2),
        f(8 * i + 3),
        f(8 * i + 4),
        f(8 * i + 5),
        f(8 * i + 6),
        f(8 * i + 7),
    );
    if t == 0 {
        assert(bit_at(bytes_of_bits(f, n), j) == f(j));
    } else if t == 1 {
        assert(bit_at(bytes_of_bits(f, n), j) == f(j));
    } else if t == 2 {
        assert(bit_at(bytes_of_bits(f, n), j) == f(j));
    } else if t == 3 {
        assert(bit_at(bytes_of_bits(f, n), j) == f(j));
    } else if t == 4 {
        assert(bit_at(bytes_of_bits(f, n), j) == f(j));
    } else if t == 5 {
        assert(bit_at(bytes_of_bits(f, n), j) == f(j));
    } else if t == 6 {
        assert(bit_at(bytes_of_bits(f, n), j) == f(j));
    } else {
        assert(bit_at(bytes_of_bits(f, n), j) == f(j));
    }
}

/// A vector of `n` zero bytes.
pub fn zeros_vec(n: usize) -> (r: Vec<u8>)
    ensures
        r@.len() == n,
        forall|i: int| 0 <= i < n ==> r@[i] == 0u8,
{
    let mut v: Vec<u8> = Vec::new();
    let mut k: usize = 0;
    while k < n
        invariant
            k <= n,
            v@.len() == k,
            forall|i: int| 0 <= i < k ==> v@[i] == 0u8,
        decreases n - k,
    {
        v.push(0u8);
        k = k + 1;
    }
    v
}

/// Every bit of a zero-filled byte sequence is clear.
pub proof fn lemma_zero_bytes_zero_bits(s: Seq<u8>)
    requires
        forall|i: int| 0 <= i < s.len() ==> s[i] == 0u8,
    ensures
        forall|j: int| 0 <= j < s.len() * 8 ==> !bit_at(s, j),
{
    assert forall|j: int| 0 <= j < s.len() * 8 implies !bit_at(s, j) by {
        assert(0 <= j / 8 < s.len());
        assert(s[j / 8] == 0u8);
        let t: u8 = (7 - (j % 8)) as u8;
        assert(((0u8 >> t) & 1) == 0) by (bit_vector);
    }
}

} // verus!
