use vstd::prelude::*;

verus! {

/// The packed 24-bit key of one byte triplet `(b0, b1, b2)`: the third byte is
/// the most significant, the first byte the least significant.
///
/// This byte-order convention is fixed once for the whole crate; packing here
/// and the field decoding in `project_inputs` both follow it. Deduplication
/// and ordering only need the convention to be applied consistently.
pub open spec fn pack_key(b0: u8, b1: u8, b2: u8) -> u32 {
    ((b2 as int) * 0x1_0000 + (b1 as int) * 0x100 + (b0 as int)) as u32
}

/// The keys of all full triplets of `bytes`, in file order. Trailing bytes
/// that cannot form a full 3-byte group are ignored; every full triplet is
/// packed, including the last one.
pub open spec fn packed_keys(bytes: Seq<u8>) -> Seq<u32> {
    Seq::new((bytes.len() / 3) as nat, |i: int| pack_key(bytes[3 * i], bytes[3 * i + 1], bytes[3 * i + 2]))
}

/// Every packed key fits in 24 bits.
pub proof fn lemma_pack_key_bound(b0: u8, b1: u8, b2: u8)
    ensures
        pack_key(b0, b1, b2) <= 0xFF_FFFF,
{
}

/// Groups `bytes` into consecutive non-overlapping 3-byte triplets and packs
/// each into its 24-bit key, in file order. Trailing bytes that cannot form a
/// full group are dropped silently.
pub fn pack_triplets(bytes: &Vec<u8>) -> (keys: Vec<u32>)
    ensures
        keys@ == packed_keys(bytes@),
        keys@.len() == bytes@.len() / 3,
{
    let len: usize = bytes.len();
    let n: usize = len / 3;
    let mut keys: Vec<u32> = Vec::new();
    for i in 0..n
        invariant
            len == bytes@.len(),
            n == bytes@.len() / 3,
            keys@.len() == i,
            forall|k: int| 0 <= k < i ==> keys@[k] == packed_keys(bytes@)[k],
    {
        proof {
            vstd::arithmetic::div_mod::lemma_fundamental_div_mod(bytes@.len() as int, 3);
            vstd::arithmetic::div_mod::lemma_mod_bound(bytes@.len() as int, 3);
            assert(3 * i + 2 < bytes@.len());
        }
        let b0 = bytes[3 * i];
        let b1 = bytes[3 * i + 1];
        let b2 = bytes[3 * i + 2];
        let key: u32 = (b2 as u32) * 0x1_0000 + (b1 as u32) * 0x100 + (b0 as u32);
        keys.push(key);
    }
    proof {
        assert(keys@ =~= packed_keys(bytes@));
    }
    keys
}

/// The most significant decoded field of a key: the projector's longitude
/// fraction numerator, `x` in the projection formula.
pub open spec fn key_x(key: u32) -> u8 {
    (((key as int) / 0x1_0000) % 0x100) as u8
}

/// The middle decoded field of a key: the second angle fraction numerator,
/// `y` in the projection formula.
pub open spec fn key_y(key: u32) -> u8 {
    (((key as int) / 0x100) % 0x100) as u8
}

/// The least significant decoded field of a key: the radius fraction
/// numerator, `z` in the projection formula.
pub open spec fn key_z(key: u32) -> u8 {
    ((key as int) % 0x100) as u8
}

/// Decodes the three 8-bit projection fields `(x, y, z)` from a packed key.
///
/// The spherical projection normalizes each field to `[0, 1]` by dividing by
/// 255, scales `x` and `y` to angles in `[0, 2*pi)` and uses `z` as the radius
/// fraction:
/// ```text
/// rotX = (x / 255) * 2*pi ; rotY = (y / 255) * 2*pi ; radius = z / 255
/// posX = radius * sin(rotX) * cos(rotY)
/// posY = radius * sin(rotX) * sin(rotY)
/// posZ = radius * cos(rotX)
/// ```
/// The trigonometric evaluation is floating point and happens in the renderer
/// boundary; this function pins down the integer inputs, which determine the
/// position completely. The formula is deliberately not a physically accurate
/// spherical conversion (the radius comes from a single byte): it favors
/// visual distribution, and must be kept exactly as stated.
pub fn project_inputs(key: u32) -> (r: (u8, u8, u8))
    ensures
        r.0 == key_x(key),
        r.1 == key_y(key),
        r.2 == key_z(key),
{
    let x = ((key / 0x1_0000) % 0x100) as u8;
    let y = ((key / 0x100) % 0x100) as u8;
    let z = (key % 0x100) as u8;
    (x, y, z)
}

/// Round trip: decoding the key packed from `(b0, b1, b2)` recovers the three
/// bytes, `b2` as the `x` field, `b1` as `y`, `b0` as `z`.
pub proof fn lemma_pack_then_decode(b0: u8, b1: u8, b2: u8)
    ensures
        key_x(pack_key(b0, b1, b2)) == b2,
        key_y(pack_key(b0, b1, b2)) == b1,
        key_z(pack_key(b0, b1, b2)) == b0,
{
    let k = (b2 as int) * 0x1_0000 + (b1 as int) * 0x100 + (b0 as int);
    assert(k == (b2 as int) * 0x1_0000 + ((b1 as int) * 0x100 + (b0 as int)));
    vstd::arithmetic::div_mod::lemma_fundamental_div_mod_converse(
        k,
        0x1_0000,
        b2 as int,
        (b1 as int) * 0x100 + (b0 as int),
    );
    assert(k / 0x1_0000 == b2 as int);
    assert((b2 as int) * 0x1_0000 + (b1 as int) * 0x100 + (b0 as int) == ((b2 as int) * 0x100 + (
    b1 as int)) * 0x100 + (b0 as int)) by (nonlinear_arith);
    vstd::arithmetic::div_mod::lemma_fundamental_div_mod_converse(
        k,
        0x100,
        (b2 as int) * 0x100 + (b1 as int),
        b0 as int,
    );
    assert(k / 0x100 == (b2 as int) * 0x100 + (b1 as int));
    assert(k % 0x100 == b0 as int);
    vstd::arithmetic::div_mod::lemma_fundamental_div_mod_converse(
        (b2 as int) * 0x100 + (b1 as int),
        0x100,
        b2 as int,
        b1 as int,
    );
    assert((k / 0x100) % 0x100 == b1 as int);
}

/// The decoded projection fields are a pure function of the key: equal keys
/// give equal fields, independently of where in the pipeline the key appears.
pub proof fn lemma_project_inputs_pure(k1: u32, k2: u32)
    requires
        k1 == k2,
    ensures
        key_x(k1) == key_x(k2),
        key_y(k1) == key_y(k2),
        key_z(k1) == key_z(k2),
{
}

} // verus!
