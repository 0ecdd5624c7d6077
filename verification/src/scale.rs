//! The SCALE codec at the points where the library meets it.
use vstd::prelude::*;

verus! {

/// `256` to the power `n`.
pub open spec fn byte_radix(n: nat) -> nat
    decreases n,
{
    if n == 0 {
        1
    } else {
        256 * byte_radix((n - 1) as nat)
    }
}

/// The number whose little-endian bytes are `bytes`.
pub open spec fn le_value(bytes: Seq<u8>) -> nat
    decreases bytes.len(),
{
    if bytes.len() == 0 {
        0
    } else {
        bytes[0] as nat + 256 * le_value(bytes.drop_first())
    }
}

/// The `n` lowest little-endian bytes of `v`.
pub open spec fn le_bytes(v: nat, n: nat) -> Seq<u8>
    decreases n,
{
    if n == 0 {
        Seq::empty()
    } else {
        seq![(v % 256) as u8] + le_bytes(v / 256, (n - 1) as nat)
    }
}

/// The SCALE compact encoding of a number below `2^32`: one byte for a number
/// below `2^6`, two for one below `2^14`, four for one below `2^30`, each
/// little-endian and shifted left by two with the mode in the two low bits;
/// otherwise the byte `3` followed by the four little-endian bytes of the number.
pub open spec fn compact_u32(n: nat) -> Seq<u8> {
    if n < 0x40 {
        seq![(n * 4) as u8]
    } else if n < 0x4000 {
        le_bytes(n * 4 + 1, 2)
    } else if n < 0x4000_0000 {
        le_bytes(n * 4 + 2, 4)
    } else {
        seq![3u8] + le_bytes(n, 4)
    }
}

/// The SCALE encoding of a byte sequence: its compact length, then the bytes.
pub open spec fn scale_bytes(bytes: Seq<u8>) -> Seq<u8> {
    compact_u32(bytes.len()) + bytes
}

/// The encodings of the byte sequences in `items`, one after the other.
pub open spec fn scale_bytes_items(items: Seq<Seq<u8>>) -> Seq<u8>
    decreases items.len(),
{
    if items.len() == 0 {
        Seq::empty()
    } else {
        scale_bytes_items(items.drop_last()) + scale_bytes(items.last())
    }
}

/// The SCALE encoding of the arguments `(id, header)` of a client update:
/// the four little-endian bytes of `id`, then the encoded header.
pub open spec fn scale_encode_client_update(id: u32, header: Seq<u8>) -> Seq<u8> {
    le_bytes(id as nat, 4) + scale_bytes(header)
}

/// The SCALE encoding of the arguments `(packet, proof, proof_height)` of a
/// packet delivery: the encoded packet, the compact number of proof items and
/// each item encoded, then the four little-endian bytes of the height.
pub open spec fn scale_encode_packet_delivery(
    packet: Seq<u8>,
    proof: Seq<Seq<u8>>,
    proof_height: u32,
) -> Seq<u8> {
    scale_bytes(packet) + compact_u32(proof.len()) + scale_bytes_items(proof) + le_bytes(proof_height as nat, 4)
}

/// Whether `header` holds, after its 32-byte parent hash, the compact encoding of `n`.
pub open spec fn header_encodes_number(header: Seq<u8>, n: u32) -> bool {
    let c = compact_u32(n as nat);
    header.len() >= 32 + c.len() && header.subrange(32, 32 + c.len() as int) == c
}

/// The number that a block header carries after its parent hash, if any
/// (there is at most one, see `lemma_header_number_unique`).
pub open spec fn header_number_of(header: Seq<u8>) -> Option<u32> {
    if exists|n: u32| header_encodes_number(header, n) {
        Some(choose|n: u32| header_encodes_number(header, n))
    } else {
        None
    }
}

/// The low two bits of the first byte of a compact encoding tell how long it is.
proof fn lemma_compact_mode(n: u32)
    ensures
        compact_u32(n as nat).len() >= 1,
        compact_u32(n as nat)[0] % 4 == (if n < 0x40 {
            0u8
        } else if n < 0x4000 {
            1u8
        } else if n < 0x4000_0000 {
            2u8
        } else {
            3u8
        }),
{
    let m = n as nat;
    if n < 0x40 {
    } else if n < 0x4000 {
        lemma_le_bytes_len(m * 4 + 1, 2);
        assert(le_bytes(m * 4 + 1, 2)[0] == ((m * 4 + 1) % 256) as u8);
    } else if n < 0x4000_0000 {
        lemma_le_bytes_len(m * 4 + 2, 4);
        assert(le_bytes(m * 4 + 2, 4)[0] == ((m * 4 + 2) % 256) as u8);
    } else {
        lemma_le_bytes_len(m, 4);
    }
}

/// A header carries at most one number.
pub proof fn lemma_header_number_unique(header: Seq<u8>, a: u32, b: u32)
    requires
        header_encodes_number(header, a),
        header_encodes_number(header, b),
    ensures
        a == b,
{
    let ca = compact_u32(a as nat);
    let cb = compact_u32(b as nat);
    lemma_compact_mode(a);
    lemma_compact_mode(b);
    assert(ca[0] == header[32]);
    assert(cb[0] == header[32]);
    let x = a as nat;
    let y = b as nat;
    reveal_with_fuel(byte_radix, 5);
    assert(byte_radix(2) == 0x1_0000);
    assert(byte_radix(4) == 0x1_0000_0000);
    if a < 0x40 {
        assert(b < 0x40);
        assert(ca[0] == (x * 4) as u8);
        assert(cb[0] == (y * 4) as u8);
    } else if a < 0x4000 {
        assert(0x40 <= b < 0x4000);
        lemma_le_bytes_len(x * 4 + 1, 2);
        lemma_le_bytes_len(y * 4 + 1, 2);
        assert(ca =~= cb);
        lemma_le_roundtrip(x * 4 + 1, 2);
        lemma_le_roundtrip(y * 4 + 1, 2);
        vstd::arithmetic::div_mod::lemma_small_mod(x * 4 + 1, byte_radix(2));
        vstd::arithmetic::div_mod::lemma_small_mod(y * 4 + 1, byte_radix(2));
    } else if a < 0x4000_0000 {
        assert(0x4000 <= b < 0x4000_0000);
        lemma_le_bytes_len(x * 4 + 2, 4);
        lemma_le_bytes_len(y * 4 + 2, 4);
        assert(ca =~= cb);
        lemma_le_roundtrip(x * 4 + 2, 4);
        lemma_le_roundtrip(y * 4 + 2, 4);
        vstd::arithmetic::div_mod::lemma_small_mod(x * 4 + 2, byte_radix(4));
        vstd::arithmetic::div_mod::lemma_small_mod(y * 4 + 2, byte_radix(4));
    } else {
        assert(b >= 0x4000_0000);
        lemma_le_bytes_len(x, 4);
        lemma_le_bytes_len(y, 4);
        assert(ca =~= cb);
        assert(ca.drop_first() =~= le_bytes(x, 4));
        assert(cb.drop_first() =~= le_bytes(y, 4));
        lemma_le_roundtrip(x, 4);
        lemma_le_roundtrip(y, 4);
        vstd::arithmetic::div_mod::lemma_small_mod(x, byte_radix(4));
        vstd::arithmetic::div_mod::lemma_small_mod(y, byte_radix(4));
    }
}

/// Calls `<([u8; 32], Compact<u32>) as parity_scale_codec::Decode>::decode` on
/// `header`: the parent hash and the number that open a block header, the rest
/// left unread. The codec accepts only the shortest compact encoding of a
/// number, so it succeeds exactly where some number is encoded there, and
/// then gives that number.
#[verifier::external_body]
pub(crate) fn decode_header_number(header: &[u8]) -> (r: Option<u32>)
    ensures
        r matches Some(n) ==> header_encodes_number(header@, n),
        r is None ==> forall|n: u32| !header_encodes_number(header@, n),
{
    <([u8; 32], parity_scale_codec::Compact<u32>) as parity_scale_codec::Decode>::decode(&mut &header[..]).ok().map(
        |(_, number)| number.0,
    )
}

/// Calls `<u128 as parity_scale_codec::Decode>::decode` on `bytes`. The codec
/// reads a `u128` as its sixteen little-endian bytes: it fails when fewer than
/// sixteen bytes are there and leaves the bytes after the sixteenth unread.
#[verifier::external_body]
pub(crate) fn decode_u128(bytes: &[u8]) -> (r: Option<u128>)
    ensures
        bytes@.len() < 16 ==> r is None,
        bytes@.len() >= 16 ==> r == Some(le_value(bytes@.take(16)) as u128),
{
    <u128 as parity_scale_codec::Decode>::decode(&mut &bytes[..]).ok()
}

/// Calls `<u128 as parity_scale_codec::Encode>::encode`, which writes the
/// sixteen little-endian bytes of the number.
#[verifier::external_body]
pub(crate) fn encode_u128(v: u128) -> (r: Vec<u8>)
    ensures
        r@ == le_bytes(v as nat, 16),
{
    parity_scale_codec::Encode::encode(&v)
}

/// Calls `parity_scale_codec::Encode::encode` on the tuple `(id, header)`,
/// which encodes the items one after the other. The codec panics on a
/// sequence of more than `u32::MAX` items, which `requires` leaves out.
#[verifier::external_body]
pub(crate) fn encode_client_update(id: u32, header: &Vec<u8>) -> (r: Vec<u8>)
    requires
        header@.len() <= u32::MAX,
    ensures
        r@ == scale_encode_client_update(id, header@),
{
    parity_scale_codec::Encode::encode(&(id, header))
}

/// Calls `parity_scale_codec::Encode::encode` on the tuple
/// `(packet, proof, proof_height)`, which encodes the items one after the
/// other. The codec panics on a sequence of more than `u32::MAX` items, which
/// `requires` leaves out.
#[verifier::external_body]
pub(crate) fn encode_packet_delivery(packet: &Vec<u8>, proof: &Vec<Vec<u8>>, proof_height: u32) -> (r:
    Vec<u8>)
    requires
        packet@.len() <= u32::MAX,
        proof@.len() <= u32::MAX,
        forall|i: int| 0 <= i < proof@.len() ==> (#[trigger] proof@[i])@.len() <= u32::MAX,
    ensures
        r@ == scale_encode_packet_delivery(packet@, proof.deep_view(), proof_height),
{
    parity_scale_codec::Encode::encode(&(packet, proof, proof_height))
}

/// Reading back the little-endian bytes of a number gives the number modulo
/// the radix of that many bytes.
pub proof fn lemma_le_roundtrip(v: nat, n: nat)
    ensures
        le_value(le_bytes(v, n)) == v % byte_radix(n),
    decreases n,
{
    if n == 0 {
        assert(le_bytes(v, n) =~= Seq::<u8>::empty());
    } else {
        let rest = le_bytes(v / 256, (n - 1) as nat);
        let s = le_bytes(v, n);
        assert(s.drop_first() =~= rest);
        lemma_le_roundtrip(v / 256, (n - 1) as nat);
        lemma_radix_positive((n - 1) as nat);
        vstd::arithmetic::div_mod::lemma_mod_breakdown(v as int, 256, byte_radix((n - 1) as nat) as int);
    }
}

proof fn lemma_radix_positive(n: nat)
    ensures
        byte_radix(n) > 0,
    decreases n,
{
    if n > 0 {
        lemma_radix_positive((n - 1) as nat);
    }
}

/// The sixteen bytes that encode a `u128` decode to that number.
pub proof fn lemma_u128_roundtrip(v: u128)
    ensures
        le_value(le_bytes(v as nat, 16)) == v,
        le_bytes(v as nat, 16).len() == 16,
{
    lemma_le_roundtrip(v as nat, 16);
    lemma_le_bytes_len(v as nat, 16);
    reveal_with_fuel(byte_radix, 17);
    assert(byte_radix(16) == 0x1_0000_0000_0000_0000_0000_0000_0000_0000);
    vstd::arithmetic::div_mod::lemma_small_mod(v as nat, byte_radix(16));
}

pub proof fn lemma_le_bytes_len(v: nat, n: nat)
    ensures
        le_bytes(v, n).len() == n,
    decreases n,
{
    if n > 0 {
        lemma_le_bytes_len(v / 256, (n - 1) as nat);
    }
}

/// A number read from `n` little-endian bytes is below the radix of `n` bytes.
pub proof fn lemma_le_value_bound(bytes: Seq<u8>)
    ensures
        le_value(bytes) < byte_radix(bytes.len()),
    decreases bytes.len(),
{
    if bytes.len() > 0 {
        lemma_le_value_bound(bytes.drop_first());
    }
}

/// Sixteen little-endian bytes always hold a `u128`.
pub proof fn lemma_le_value_u128(bytes: Seq<u8>)
    requires
        bytes.len() == 16,
    ensures
        le_value(bytes) <= u128::MAX,
{
    lemma_le_value_bound(bytes);
    reveal_with_fuel(byte_radix, 17);
    assert(byte_radix(16) == 0x1_0000_0000_0000_0000_0000_0000_0000_0000);
}

} // verus!
