use vstd::prelude::*;

verus! {

/// Big-endian encoding of a 16-bit value.
pub open spec fn be16(x: u16) -> Seq<u8> {
    seq![(x >> 8u16) as u8, (x & 0xffu16) as u8]
}

/// Big-endian encoding of a 32-bit value.
pub open spec fn be32(x: u32) -> Seq<u8> {
    seq![
        (x >> 24u32) as u8,
        ((x >> 16u32) & 0xffu32) as u8,
        ((x >> 8u32) & 0xffu32) as u8,
        (x & 0xffu32) as u8,
    ]
}

/// Big-endian encoding of a 64-bit value.
pub open spec fn be64(x: u64) -> Seq<u8> {
    seq![
        (x >> 56u64) as u8,
        ((x >> 48u64) & 0xffu64) as u8,
        ((x >> 40u64) & 0xffu64) as u8,
        ((x >> 32u64) & 0xffu64) as u8,
        ((x >> 24u64) & 0xffu64) as u8,
        ((x >> 16u64) & 0xffu64) as u8,
        ((x >> 8u64) & 0xffu64) as u8,
        (x & 0xffu64) as u8,
    ]
}

/// The 16-bit value of two big-endian bytes.
pub open spec fn from_be16(b0: u8, b1: u8) -> u16 {
    ((b0 as u16) << 8u16) | (b1 as u16)
}

/// The 32-bit value of four big-endian bytes.
pub open spec fn from_be32(b0: u8, b1: u8, b2: u8, b3: u8) -> u32 {
    ((b0 as u32) << 24u32) | ((b1 as u32) << 16u32) | ((b2 as u32) << 8u32) | (b3 as u32)
}

/// The 64-bit value of eight big-endian bytes.
pub open spec fn from_be64(s: Seq<u8>) -> u64
    recommends
        s.len() >= 8,
{
    ((s[0] as u64) << 56u64) | ((s[1] as u64) << 48u64) | ((s[2] as u64) << 40u64) | ((s[3] as u64)
        << 32u64) | ((s[4] as u64) << 24u64) | ((s[5] as u64) << 16u64) | ((s[6] as u64) << 8u64)
        | (s[7] as u64)
}

/// The 16-bit value at byte offset `at`.
pub open spec fn be16_at(s: Seq<u8>, at: int) -> u16 {
    from_be16(s[at], s[at + 1])
}

/// The 32-bit value at byte offset `at`.
pub open spec fn be32_at(s: Seq<u8>, at: int) -> u32 {
    from_be32(s[at], s[at + 1], s[at + 2], s[at + 3])
}

/// The 64-bit value at byte offset `at`.
pub open spec fn be64_at(s: Seq<u8>, at: int) -> u64 {
    from_be64(s.subrange(at, at + 8))
}

/// Decoding a big-endian 16-bit encoding gives the value back.
pub proof fn lemma_be16_roundtrip(x: u16)
    ensures
        from_be16(be16(x)[0], be16(x)[1]) == x,
{
    assert((((x >> 8u16) as u8) as u16) << 8u16 | (((x & 0xffu16) as u8) as u16) == x)
        by (bit_vector);
}

/// Decoding a big-endian 32-bit encoding gives the value back.
pub proof fn lemma_be32_roundtrip(x: u32)
    ensures
        from_be32(be32(x)[0], be32(x)[1], be32(x)[2], be32(x)[3]) == x,
{
    assert(((((x >> 24u32) as u8) as u32) << 24u32) | (((((x >> 16u32) & 0xffu32) as u8) as u32)
        << 16u32) | (((((x >> 8u32) & 0xffu32) as u8) as u32) << 8u32) | (((x & 0xffu32) as u8)
        as u32) == x) by (bit_vector);
}

/// Decoding a big-endian 64-bit encoding gives the value back.
pub proof fn lemma_be64_roundtrip(x: u64)
    ensures
        from_be64(be64(x)) == x,
{
    let b = be64(x);
    assert(((((x >> 56u64) as u8) as u64) << 56u64) | (((((x >> 48u64) & 0xffu64) as u8) as u64)
        << 48u64) | (((((x >> 40u64) & 0xffu64) as u8) as u64) << 40u64) | (((((x >> 32u64)
        & 0xffu64) as u8) as u64) << 32u64) | (((((x >> 24u64) & 0xffu64) as u8) as u64) << 24u64)
        | (((((x >> 16u64) & 0xffu64) as u8) as u64) << 16u64) | (((((x >> 8u64) & 0xffu64) as u8)
        as u64) << 8u64) | (((x & 0xffu64) as u8) as u64) == x) by (bit_vector);
}

/// Appends the big-endian encoding of a 16-bit value.
pub fn push_be16(v: &mut Vec<u8>, x: u16)
    ensures
        final(v)@ == old(v)@ + be16(x),
{
    v.push((x >> 8u16) as u8);
    v.push((x & 0xffu16) as u8);
}

/// Appends the big-endian encoding of a 32-bit value.
pub fn push_be32(v: &mut Vec<u8>, x: u32)
    ensures
        final(v)@ == old(v)@ + be32(x),
{
    v.push((x >> 24u32) as u8);
    v.push(((x >> 16u32) & 0xffu32) as u8);
    v.push(((x >> 8u32) & 0xffu32) as u8);
    v.push((x & 0xffu32) as u8);
}

/// Appends the big-endian encoding of a 64-bit value.
pub fn push_be64(v: &mut Vec<u8>, x: u64)
    ensures
        final(v)@ == old(v)@ + be64(x),
{
    v.push((x >> 56u64) as u8);
    v.push(((x >> 48u64) & 0xffu64) as u8);
    v.push(((x >> 40u64) & 0xffu64) as u8);
    v.push(((x >> 32u64) & 0xffu64) as u8);
    v.push(((x >> 24u64) & 0xffu64) as u8);
    v.push(((x >> 16u64) & 0xffu64) as u8);
    v.push(((x >> 8u64) & 0xffu64) as u8);
    v.push((x & 0xffu64) as u8);
}

/// Appends every byte of a slice.
pub fn push_bytes(v: &mut Vec<u8>, s: &[u8])
    ensures
        final(v)@ == old(v)@ + s@,
{
    let mut i: usize = 0;
    while i < s.len()
        invariant
            i <= s@.len(),
            v@ == old(v)@ + s@.subrange(0, i as int),
        decreases s@.len() - i,
    {
        v.push(s[i]);
        i = i + 1;
        assert(s@.subrange(0, i as int) == s@.subrange(0, i - 1) + seq![s@[i - 1]]);
    }
    assert(s@.subrange(0, s@.len() as int) == s@);
}

/// Reads the big-endian 16-bit value at `at`.
pub fn read_be16(s: &[u8], at: usize) -> (r: u16)
    requires
        at + 2 <= s@.len(),
    ensures
        r == be16_at(s@, at as int),
{
    ((s[at] as u16) << 8u16) | (s[at + 1] as u16)
}

/// Reads the big-endian 32-bit value at `at`.
pub fn read_be32(s: &[u8], at: usize) -> (r: u32)
    requires
        at + 4 <= s@.len(),
    ensures
        r == be32_at(s@, at as int),
{
    ((s[at] as u32) << 24u32) | ((s[at + 1] as u32) << 16u32) | ((s[at + 2] as u32) << 8u32) | (s[at
        + 3] as u32)
}

/// Reads the big-endian 64-bit value at `at`.
pub fn read_be64(s: &[u8], at: usize) -> (r: u64)
    requires
        at + 8 <= s@.len(),
    ensures
        r == be64_at(s@, at as int),
{
    ((s[at] as u64) << 56u64) | ((s[at + 1] as u64) << 48u64) | ((s[at + 2] as u64) << 40u64) | ((s[at
        + 3] as u64) << 32u64) | ((s[at + 4] as u64) << 24u64) | ((s[at + 5] as u64) << 16u64) | ((s[at
        + 6] as u64) << 8u64) | (s[at + 7] as u64)
}

/// The 32-bit value of the four little-endian bytes at `at`.
pub open spec fn le32_at(s: Seq<u8>, at: int) -> u32 {
    ((s[at + 3] as u32) << 24u32) | ((s[at + 2] as u32) << 16u32) | ((s[at + 1] as u32) << 8u32)
        | (s[at] as u32)
}

/// The 64-bit value of the eight little-endian bytes at `at`.
pub open spec fn le64_at(s: Seq<u8>, at: int) -> u64 {
    ((s[at + 7] as u64) << 56u64) | ((s[at + 6] as u64) << 48u64) | ((s[at + 5] as u64) << 40u64)
        | ((s[at + 4] as u64) << 32u64) | ((s[at + 3] as u64) << 24u64) | ((s[at + 2] as u64)
        << 16u64) | ((s[at + 1] as u64) << 8u64) | (s[at] as u64)
}

/// Reads the little-endian 32-bit value at `at`.
pub fn read_le32(s: &[u8], at: usize) -> (r: u32)
    requires
        at + 4 <= s@.len(),
    ensures
        r == le32_at(s@, at as int),
{
    let b0 = s[at];
    ((s[at + 3] as u32) << 24u32) | ((s[at + 2] as u32) << 16u32) | ((s[at + 1] as u32) << 8u32)
        | (b0 as u32)
}

/// Reads the little-endian 64-bit value at `at`.
pub fn read_le64(s: &[u8], at: usize) -> (r: u64)
    requires
        at + 8 <= s@.len(),
    ensures
        r == le64_at(s@, at as int),
{
    let b0 = s[at];
    ((s[at + 7] as u64) << 56u64) | ((s[at + 6] as u64) << 48u64) | ((s[at + 5] as u64) << 40u64)
        | ((s[at + 4] as u64) << 32u64) | ((s[at + 3] as u64) << 24u64) | ((s[at + 2] as u64)
        << 16u64) | ((s[at + 1] as u64) << 8u64) | (b0 as u64)
}

/// True when the two byte slices hold the same bytes.
pub fn bytes_equal(a: &[u8], b: &[u8]) -> (r: bool)
    ensures
        r == (a@ == b@),
{
    if a.len() != b.len() {
        return false;
    }
    let mut i: usize = 0;
    while i < a.len()
        invariant
            a@.len() == b@.len(),
            i <= a@.len(),
            forall|j: int| 0 <= j < i ==> a@[j] == b@[j],
        decreases a@.len() - i,
    {
        if a[i] != b[i] {
            return false;
        }
        i = i + 1;
    }
    assert(a@ =~= b@);
    true
}

/// A copy of bytes `start..end` of a slice.
pub fn copy_range(s: &[u8], start: usize, end: usize) -> (r: Vec<u8>)
    requires
        start <= end <= s@.len(),
    ensures
        r@ == s@.subrange(start as int, end as int),
{
    let mut r: Vec<u8> = Vec::new();
    let mut i: usize = start;
    while i < end
        invariant
            start <= i <= end <= s@.len(),
            r@ == s@.subrange(start as int, i as int),
        decreases end - i,
    {
        r.push(s[i]);
        i = i + 1;
        assert(s@.subrange(start as int, i as int) =~= s@.subrange(start as int, i - 1) + seq![
            s@[i - 1],
        ]);
    }
    r
}


/// A copy of characters `start..end` of a slice.
pub fn copy_chars(s: &[char], start: usize, end: usize) -> (r: Vec<char>)
    requires
        start <= end <= s@.len(),
    ensures
        r@ == s@.subrange(start as int, end as int),
{
    let mut r: Vec<char> = Vec::new();
    let mut i: usize = start;
    while i < end
        invariant
            start <= i <= end <= s@.len(),
            r@ == s@.subrange(start as int, i as int),
        decreases end - i,
    {
        r.push(s[i]);
        i = i + 1;
        assert(s@.subrange(start as int, i as int) =~= s@.subrange(start as int, i - 1) + seq![
            s@[i - 1],
        ]);
    }
    r
}

} // verus!
