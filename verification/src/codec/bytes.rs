use vstd::prelude::*;

verus! {

/// The number that the bytes of `s` spell in little-endian order.
pub open spec fn le_value(s: Seq<u8>) -> nat
    decreases s.len(),
{
    if s.len() == 0 {
        0
    } else {
        s[0] as nat + 256 * le_value(s.drop_first())
    }
}

/// The `n` low bytes of `x`, least significant first.
pub open spec fn le_bytes(x: nat, n: nat) -> Seq<u8>
    decreases n,
{
    if n == 0 {
        Seq::empty()
    } else {
        seq![(x % 256) as u8] + le_bytes(x / 256, (n - 1) as nat)
    }
}

/// Reads four bytes as a little-endian `u32`.
pub fn u32_from_le(b: &[u8]) -> (x: u32)
    requires
        b@.len() == 4,
    ensures
        x == le_value(b@),
{
    proof {
        reveal_with_fuel(le_value, 5);
        assert(b@.drop_first().drop_first().drop_first().drop_first() =~= Seq::<u8>::empty());
    }
    b[0] as u32 + 256 * (b[1] as u32) + 65536 * (b[2] as u32) + 16777216 * (b[3] as u32)
}

/// The four little-endian bytes of `x`.
pub fn u32_to_le(x: u32) -> (b: Vec<u8>)
    ensures
        b@ == le_bytes(x as nat, 4),
        le_value(b@) == x,
{
    let b0 = (x % 256) as u8;
    let b1 = ((x / 256) % 256) as u8;
    let b2 = ((x / 65536) % 256) as u8;
    let b3 = (x / 16777216) as u8;
    let mut b = Vec::new();
    b.push(b0);
    b.push(b1);
    b.push(b2);
    b.push(b3);
    proof {
        reveal_with_fuel(le_bytes, 5);
        reveal_with_fuel(le_value, 5);
        assert(x / 256 / 256 == x / 65536);
        assert(x / 65536 / 256 == x / 16777216);
        assert(x / 16777216 < 256);
        assert(b@ =~= le_bytes(x as nat, 4));
        assert(b@.drop_first().drop_first().drop_first().drop_first() =~= Seq::<u8>::empty());
    }
    b
}

/// The eight little-endian bytes of `x`.
pub fn u64_to_le(x: u64) -> (b: Vec<u8>)
    ensures
        b@ == le_bytes(x as nat, 8),
{
    let mut b = Vec::new();
    let mut rest = x;
    let mut i: usize = 0;
    while i < 8
        invariant
            i <= 8,
            b@ + le_bytes(rest as nat, (8 - i) as nat) == le_bytes(x as nat, 8),
        decreases 8 - i,
    {
        let ghost before = b@;
        b.push((rest % 256) as u8);
        assert(le_bytes(rest as nat, (8 - i) as nat) == seq![(rest % 256) as u8] + le_bytes(
            (rest / 256) as nat,
            (8 - i - 1) as nat,
        ));
        assert(b@ + le_bytes((rest / 256) as nat, (8 - i - 1) as nat) =~= before + le_bytes(
            rest as nat,
            (8 - i) as nat,
        ));
        rest = rest / 256;
        i = i + 1;
    }
    assert(le_bytes(rest as nat, 0) =~= Seq::<u8>::empty());
    assert(b@ =~= le_bytes(x as nat, 8));
    b
}

/// The offset that a six-byte message id stands for: the id as the six high
/// bytes of a little-endian `u64` whose two low bytes are zero.
pub open spec fn id_offset(id: Seq<u8>) -> nat {
    65536 * le_value(id)
}

/// Places the six id bytes in bytes 2..8 of a little-endian `u64`.
pub fn offset_from_id(id: &[u8]) -> (offset: u64)
    requires
        id@.len() == 6,
    ensures
        offset == id_offset(id@),
{
    proof {
        reveal_with_fuel(le_value, 7);
        assert(id@.drop_first().drop_first().drop_first().drop_first().drop_first().drop_first()
            =~= Seq::<u8>::empty());
    }
    let low = id[0] as u64 + 256 * (id[1] as u64) + 65536 * (id[2] as u64) + 16777216 * (
    id[3] as u64);
    let high = id[4] as u64 + 256 * (id[5] as u64);
    65536 * (low + 4294967296 * high)
}

/// Byte strings of one length that spell the same little-endian number are
/// the same.
pub proof fn lemma_le_value_injective(a: Seq<u8>, b: Seq<u8>)
    requires
        a.len() == b.len(),
        le_value(a) == le_value(b),
    ensures
        a == b,
    decreases a.len(),
{
    if a.len() > 0 {
        let ra = le_value(a.drop_first());
        let rb = le_value(b.drop_first());
        assert(a[0] as nat == b[0] as nat && ra == rb) by (nonlinear_arith)
            requires
                a[0] as nat + 256 * ra == b[0] as nat + 256 * rb,
                a[0] < 256,
                b[0] < 256,
        ;
        lemma_le_value_injective(a.drop_first(), b.drop_first());
        assert(a =~= seq![a[0]] + a.drop_first());
        assert(b =~= seq![b[0]] + b.drop_first());
    }
}

/// Distinct message ids are stored under distinct offsets, so a message never
/// takes the place of one with another id.
pub proof fn law_distinct_ids_distinct_offsets(a: Seq<u8>, b: Seq<u8>)
    requires
        a.len() == b.len(),
        a != b,
    ensures
        id_offset(a) != id_offset(b),
{
    if id_offset(a) == id_offset(b) {
        lemma_le_value_injective(a, b);
    }
}

/// The bytes that `le_bytes` gives spell `x` cut to `n` bytes.
pub proof fn lemma_le_value_of_le_bytes(x: nat, n: nat)
    ensures
        le_value(le_bytes(x, n)) == x % (vstd::arithmetic::power::pow(256, n) as nat),
    decreases n,
{
    vstd::arithmetic::power::lemma_pow_positive(256, n);
    if n == 0 {
        assert(vstd::arithmetic::power::pow(256, 0) == 1) by {
            reveal_with_fuel(vstd::arithmetic::power::pow, 1);
        }
    } else {
        let m = (n - 1) as nat;
        vstd::arithmetic::power::lemma_pow_positive(256, m);
        lemma_le_value_of_le_bytes(x / 256, m);
        let b = le_bytes(x, n);
        assert(b.drop_first() =~= le_bytes(x / 256, m));
        assert(vstd::arithmetic::power::pow(256, n) == 256 * vstd::arithmetic::power::pow(256, m)) by {
            reveal(vstd::arithmetic::power::pow);
        }
        vstd::arithmetic::div_mod::lemma_breakdown(x as int, 256, vstd::arithmetic::power::pow(256, m));
    }
}

} // verus!
