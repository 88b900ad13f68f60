//! Little-endian integers and byte ranges.
use vstd::prelude::*;

verus! {

/// The 16-bit little-endian integer that starts at `at`.
pub open spec fn u16_le(s: Seq<u8>, at: int) -> int {
    s[at] + 256 * s[at + 1]
}

/// The 32-bit little-endian integer that starts at `at`.
pub open spec fn u32_le(s: Seq<u8>, at: int) -> int {
    s[at] + 256 * s[at + 1] + 65536 * s[at + 2] + 16777216 * s[at + 3]
}

/// The two bytes of `v`, least significant first.
pub open spec fn u16_bytes(v: u16) -> Seq<u8> {
    seq![(v % 256) as u8, (v / 256) as u8]
}

/// The four bytes of `v`, least significant first.
pub open spec fn u32_bytes(v: u32) -> Seq<u8> {
    seq![
        (v % 256) as u8,
        ((v / 256) % 256) as u8,
        ((v / 65536) % 256) as u8,
        (v / 16777216) as u8,
    ]
}

/// `n` zero bytes.
pub open spec fn zeros(n: nat) -> Seq<u8> {
    Seq::new(n, |i: int| 0u8)
}

/// What a buffer of `len` zero bytes holds after `data` was read into it:
/// a short read leaves zeros behind, and nothing is read past the end.
pub open spec fn filled(len: nat, data: Seq<u8>) -> Seq<u8> {
    Seq::new(len, |i: int| if i < data.len() { data[i] } else { 0u8 })
}

/// The part of `data` that a buffer of `len` bytes receives.
pub open spec fn received(len: nat, data: Seq<u8>) -> Seq<u8> {
    if data.len() <= len { data } else { data.take(len as int) }
}

/// Reading back an encoded 32-bit integer gives the integer.
pub proof fn law_u32_round_trip(v: u32)
    ensures
        u32_le(u32_bytes(v), 0) == v,
{
    let b = u32_bytes(v);
    assert(b[0] == v % 256 && b[1] == (v / 256) % 256 && b[2] == (v / 65536) % 256 && b[3] == v
        / 16777216);
}

/// Where the bytes of `v` stand at `at`, reading there gives `v`.
pub proof fn lemma_u32_inside(s: Seq<u8>, at: int, v: u32)
    requires
        0 <= at,
        at + 4 <= s.len(),
        s.subrange(at, at + 4) == u32_bytes(v),
    ensures
        u32_le(s, at) == v,
{
    law_u32_round_trip(v);
    let b = s.subrange(at, at + 4);
    assert(b[0] == s[at] && b[1] == s[at + 1] && b[2] == s[at + 2] && b[3] == s[at + 3]);
}

/// Reading back an encoded 16-bit integer gives the integer.
pub proof fn law_u16_round_trip(v: u16)
    ensures
        u16_le(u16_bytes(v), 0) == v,
{
    let b = u16_bytes(v);
    assert(b[0] == v % 256 && b[1] == v / 256);
}

proof fn lemma_bytes_of_sum(a: int, b: int, c: int, d: int)
    requires
        0 <= a < 256,
        0 <= b < 256,
        0 <= c < 256,
        0 <= d < 256,
    ensures
        ({
            let v = a + 256 * b + 65536 * c + 16777216 * d;
            v % 256 == a && (v / 256) % 256 == b && (v / 65536) % 256 == c && v / 16777216 == d
        }),
{
    let v = a + 256 * b + 65536 * c + 16777216 * d;
    let w = b + 256 * c + 65536 * d;
    let x = c + 256 * d;
    assert(v == a + 256 * w);
    assert(v / 256 == w && v % 256 == a);
    assert(v == (a + 256 * b) + 65536 * x);
    assert(v / 65536 == x);
    assert(v == (a + 256 * b + 65536 * c) + 16777216 * d);
    assert(w == b + 256 * x);
}

/// Encoding the 32-bit integer found at `at` gives the four bytes found there.
pub proof fn law_u32_bytes_of_read(s: Seq<u8>, at: int)
    requires
        0 <= at,
        at + 4 <= s.len(),
    ensures
        0 <= u32_le(s, at) <= u32::MAX,
        u32_bytes(u32_le(s, at) as u32) == s.subrange(at, at + 4),
{
    let (a, b, c, d) = (s[at] as int, s[at + 1] as int, s[at + 2] as int, s[at + 3] as int);
    let v = u32_le(s, at) as u32;
    lemma_bytes_of_sum(a, b, c, d);
    assert(v == a + 256 * b + 65536 * c + 16777216 * d);
    assert(u32_bytes(v) =~= s.subrange(at, at + 4));
}

/// Reads the 16-bit little-endian integer at `at`.
pub fn u16_at(data: &[u8], at: usize) -> (v: u16)
    requires
        at + 2 <= data@.len(),
    ensures
        v == u16_le(data@, at as int),
{
    data[at] as u16 + 256 * (data[at + 1] as u16)
}

/// Reads the 32-bit little-endian integer at `at`.
pub fn u32_at(data: &[u8], at: usize) -> (v: u32)
    requires
        at + 4 <= data@.len(),
    ensures
        v == u32_le(data@, at as int),
{
    data[at] as u32 + 256 * (data[at + 1] as u32) + 65536 * (data[at + 2] as u32) + 16777216 * (
    data[at + 3] as u32)
}

/// Appends the two bytes of `v`.
pub fn push_u16(out: &mut Vec<u8>, v: u16)
    ensures
        final(out)@ == old(out)@ + u16_bytes(v),
{
    out.push((v % 256) as u8);
    out.push((v / 256) as u8);
    assert(out@ =~= old(out)@ + u16_bytes(v));
}

/// Appends the four bytes of `v`.
pub fn push_u32(out: &mut Vec<u8>, v: u32)
    ensures
        final(out)@ == old(out)@ + u32_bytes(v),
{
    out.push((v % 256) as u8);
    out.push(((v / 256) % 256) as u8);
    out.push(((v / 65536) % 256) as u8);
    out.push((v / 16777216) as u8);
    assert(out@ =~= old(out)@ + u32_bytes(v));
}

/// Appends `n` zero bytes.
pub fn push_zeros(out: &mut Vec<u8>, n: usize)
    ensures
        final(out)@ == old(out)@ + zeros(n as nat),
{
    let mut i: usize = 0;
    while i < n
        invariant
            i <= n,
            out@ == old(out)@ + zeros(i as nat),
        decreases n - i,
    {
        out.push(0);
        i = i + 1;
        assert(out@ =~= old(out)@ + zeros(i as nat));
    }
    assert(old(out)@ + zeros(0) =~= old(out)@);
}

/// Appends `data[from..to]`.
pub fn push_range(out: &mut Vec<u8>, data: &[u8], from: usize, to: usize)
    requires
        from <= to <= data@.len(),
    ensures
        final(out)@ == old(out)@ + data@.subrange(from as int, to as int),
{
    let mut i: usize = from;
    assert(out@ =~= old(out)@ + data@.subrange(from as int, from as int));
    while i < to
        invariant
            from <= i <= to <= data@.len(),
            out@ == old(out)@ + data@.subrange(from as int, i as int),
        decreases to - i,
    {
        out.push(data[i]);
        i = i + 1;
        assert(out@ =~= old(out)@ + data@.subrange(from as int, i as int));
    }
}

/// Copies `data[from..to]`.
pub fn copy_range(data: &[u8], from: usize, to: usize) -> (out: Vec<u8>)
    requires
        from <= to <= data@.len(),
    ensures
        out@ == data@.subrange(from as int, to as int),
{
    let mut out: Vec<u8> = Vec::new();
    push_range(&mut out, data, from, to);
    assert(out@ =~= data@.subrange(from as int, to as int));
    out
}

/// Copies all of `data`.
pub fn copy_bytes(data: &[u8]) -> (out: Vec<u8>)
    ensures
        out@ == data@,
{
    let out: Vec<u8> = copy_range(data, 0, data.len());
    assert(out@ =~= data@);
    out
}

/// The contents of a zeroed buffer of `len` bytes after `data` was read into it.
pub fn fill(len: usize, data: &[u8]) -> (out: Vec<u8>)
    ensures
        out@ == filled(len as nat, data@),
{
    let mut out: Vec<u8> = Vec::new();
    let n: usize = if data.len() < len { data.len() } else { len };
    push_range(&mut out, data, 0, n);
    push_zeros(&mut out, len - n);
    assert(out@ =~= filled(len as nat, data@));
    out
}

/// The bytes of `data` that a buffer of `len` bytes receives.
pub fn receive(len: usize, data: &[u8]) -> (out: Vec<u8>)
    ensures
        out@ == received(len as nat, data@),
{
    let n: usize = if data.len() < len { data.len() } else { len };
    let out: Vec<u8> = copy_range(data, 0, n);
    assert(out@ =~= received(len as nat, data@));
    out
}

/// Integers are read least significant byte first.
pub proof fn law_integers_as_read(s: Seq<u8>, at: int)
    ensures
        u16_le(s, at) == s[at] + s[at + 1] * 0x100,
        u32_le(s, at) == s[at] + s[at + 1] * 0x100 + s[at + 2] * 0x10000 + s[at + 3] * 0x1000000,
{
}

/// Integers are written least significant byte first.
pub proof fn law_integers_as_written(v: u16, w: u32)
    ensures
        ({
            let (b, c) = (u16_bytes(v), u32_bytes(w));
            &&& b.len() == 2 && b[0] + b[1] * 0x100 == v
            &&& c.len() == 4 && c[0] + c[1] * 0x100 + c[2] * 0x10000 + c[3] * 0x1000000 == w
        }),
{
    law_u16_round_trip(v);
    law_u32_round_trip(w);
}

/// A read into a buffer of `len` bytes puts every byte of the data where it came
/// in the data, as far as the buffer reaches; the rest of the buffer stays zero,
/// and what was received ends where data or buffer end.
pub proof fn law_read_into_buffer(len: nat, data: Seq<u8>, i: int)
    requires
        0 <= i,
    ensures
        filled(len, data).len() == len,
        i < len && i < data.len() ==> filled(len, data)[i] == data[i],
        data.len() <= i < len ==> filled(len, data)[i] == 0,
        received(len, data).len() <= len,
        received(len, data).len() == len || received(len, data).len() == data.len(),
        data.len() <= len ==> received(len, data).len() == data.len(),
        i < len && i < data.len() ==> received(len, data)[i] == data[i],
        zeros(len).len() == len,
        i < len ==> zeros(len)[i] == 0,
{
}

} // verus!
