//! Fixed-width integers in byte sequences, and a cursor that reads them.
use vstd::prelude::*;

verus! {

/// Little-endian value of two bytes.
pub open spec fn le_u16(b: Seq<u8>) -> int {
    b[0] + 256 * b[1]
}

/// Little-endian value of four bytes.
pub open spec fn le_u32(b: Seq<u8>) -> int {
    b[0] + 256 * b[1] + 65536 * b[2] + 16777216 * b[3]
}

/// Big-endian value of two bytes.
pub open spec fn be_u16(b: Seq<u8>) -> int {
    256 * b[0] + b[1]
}

/// Big-endian value of four bytes.
pub open spec fn be_u32(b: Seq<u8>) -> int {
    16777216 * b[0] + 65536 * b[1] + 256 * b[2] + b[3]
}

/// Big-endian value of any number of bytes.
pub open spec fn be_value(b: Seq<u8>) -> int
    decreases b.len(),
{
    if b.len() == 0 {
        0
    } else {
        256 * be_value(b.drop_last()) + b.last()
    }
}

/// The `n` big-endian bytes of `v` in `0..256^n`.
pub open spec fn be_bytes(v: int, n: nat) -> Seq<u8>
    decreases n,
{
    if n == 0 {
        seq![]
    } else {
        be_bytes(v / 256, (n - 1) as nat).push((v % 256) as u8)
    }
}

/// Whether the four bytes `a` are `b0 b1 b2 b3`.
pub fn id_is(a: &[u8; 4], b0: u8, b1: u8, b2: u8, b3: u8) -> (r: bool)
    ensures
        r == (a@ == seq![b0, b1, b2, b3]),
{
    let r = a[0] == b0 && a[1] == b1 && a[2] == b2 && a[3] == b3;
    if r {
        assert(a@ =~= seq![b0, b1, b2, b3]);
    }
    r
}

/// The two's complement reading of a 16-bit pattern.
pub open spec fn signed16(v: int) -> int {
    if v >= 32768 {
        v - 65536
    } else {
        v
    }
}

/// The two's complement reading of a 32-bit pattern.
pub open spec fn signed32(v: int) -> int {
    if v >= 0x8000_0000 {
        v - 0x1_0000_0000
    } else {
        v
    }
}

/// The 16-bit pattern of a signed value.
pub open spec fn bits16(v: int) -> int {
    if v < 0 {
        v + 65536
    } else {
        v
    }
}

/// The 32-bit pattern of a signed value.
pub open spec fn bits32(v: int) -> int {
    if v < 0 {
        v + 0x1_0000_0000
    } else {
        v
    }
}

/// The two big-endian bytes of `v` in `0..2^16`.
pub open spec fn be_bytes16(v: int) -> Seq<u8> {
    seq![(v / 256) as u8, (v % 256) as u8]
}

/// The four big-endian bytes of `v` in `0..2^32`.
pub open spec fn be_bytes32(v: int) -> Seq<u8> {
    seq![(v / 16777216) as u8, ((v / 65536) % 256) as u8, ((v / 256) % 256) as u8, (v % 256) as u8]
}

pub fn push_be_u16(out: &mut Vec<u8>, v: u16)
    ensures
        final(out)@ == old(out)@ + be_bytes16(v as int),
{
    out.push((v / 256) as u8);
    out.push((v % 256) as u8);
    assert(final(out)@ =~= old(out)@ + be_bytes16(v as int));
}

pub fn push_be_u32(out: &mut Vec<u8>, v: u32)
    ensures
        final(out)@ == old(out)@ + be_bytes32(v as int),
{
    out.push((v / 16777216) as u8);
    out.push(((v / 65536) % 256) as u8);
    out.push(((v / 256) % 256) as u8);
    out.push((v % 256) as u8);
    assert(final(out)@ =~= old(out)@ + be_bytes32(v as int));
}

pub fn push_be_i16(out: &mut Vec<u8>, v: i16)
    ensures
        final(out)@ == old(out)@ + be_bytes16(bits16(v as int)),
{
    let bits: u16 = if v < 0 {
        (v as i32 + 65536) as u16
    } else {
        v as u16
    };
    push_be_u16(out, bits);
}

pub fn push_be_i32(out: &mut Vec<u8>, v: i32)
    ensures
        final(out)@ == old(out)@ + be_bytes32(bits32(v as int)),
{
    let bits: u32 = if v < 0 {
        (v as i64 + 0x1_0000_0000) as u32
    } else {
        v as u32
    };
    push_be_u32(out, bits);
}

pub fn le_i16_from(lo: u8, hi: u8) -> (r: i16)
    ensures
        r as int == signed16(lo + 256 * hi),
{
    let v: i32 = lo as i32 + 256 * hi as i32;
    if v >= 32768 {
        (v - 65536) as i16
    } else {
        v as i16
    }
}

/// Appends the bytes of `b`.
pub fn push_all(out: &mut Vec<u8>, b: &[u8])
    ensures
        final(out)@ == old(out)@ + b@,
{
    let mut i: usize = 0;
    while i < b.len()
        invariant
            i <= b@.len(),
            out@ == old(out)@ + b@.take(i as int),
        decreases b@.len() - i,
    {
        out.push(b[i]);
        proof {
            assert(b@.take(i + 1) =~= b@.take(i as int).push(b@[i as int]));
        }
        i += 1;
    }
    assert(b@.take(i as int) =~= b@);
}

/// A read position in a sequence of bytes.
pub struct ByteReader {
    pub data: Vec<u8>,
    pub pos: usize,
}

impl ByteReader {
    /// The bytes not yet read.
    pub open spec fn rest(&self) -> Seq<u8> {
        if self.pos <= self.data@.len() {
            self.data@.skip(self.pos as int)
        } else {
            seq![]
        }
    }

    pub fn new(bytes: &[u8]) -> (r: ByteReader)
        ensures
            r.rest() == bytes@,
    {
        let mut data: Vec<u8> = Vec::new();
        push_all(&mut data, bytes);
        let r = ByteReader { data, pos: 0 };
        assert(r.data@.skip(0) =~= r.data@);
        r
    }

    /// The next `n` bytes, or `None` where fewer are left.
    pub fn read_bytes(&mut self, n: usize) -> (r: Option<Vec<u8>>)
        ensures
            old(self).rest().len() < n ==> r is None,
            old(self).rest().len() >= n ==> r is Some && r->0@ == old(self).rest().take(n as int)
                && final(self).rest() == old(self).rest().skip(n as int),
    {
        if n == 0 {
            assert(old(self).rest().skip(0) =~= old(self).rest());
            assert(old(self).rest().take(0) =~= Seq::<u8>::empty());
            return Some(Vec::new());
        }
        if self.pos > self.data.len() || self.data.len() - self.pos < n {
            return None;
        }
        let start = self.pos;
        let len = self.data.len();
        let mut v: Vec<u8> = Vec::new();
        let mut i: usize = 0;
        while i < n
            invariant
                i <= n,
                start + n <= len,
                len == self.data@.len(),
                self.data == old(self).data,
                v@ == self.data@.subrange(start as int, start + i),
            decreases n - i,
        {
            v.push(self.data[start + i]);
            proof {
                assert(v@ =~= self.data@.subrange(start as int, start + i + 1));
            }
            i += 1;
        }
        self.pos = start + n;
        assert(v@ =~= old(self).rest().take(n as int));
        assert(self.rest() =~= old(self).rest().skip(n as int));
        Some(v)
    }

    /// Appends all bytes not yet read to `out`.
    pub fn read_to_end(&mut self, out: &mut Vec<u8>)
        ensures
            final(out)@ == old(out)@ + old(self).rest(),
            final(self).rest().len() == 0,
    {
        let len = self.data.len();
        let start = self.pos;
        if start < len {
            let mut i: usize = start;
            while i < len
                invariant
                    start <= i <= len,
                    len == self.data@.len(),
                    self.data == old(self).data,
                    out@ == old(out)@ + self.data@.subrange(start as int, i as int),
                decreases len - i,
            {
                out.push(self.data[i]);
                proof {
                    assert(self.data@.subrange(start as int, i + 1) =~= self.data@.subrange(
                        start as int,
                        i as int,
                    ).push(self.data@[i as int]));
                }
                i += 1;
            }
            assert(self.data@.subrange(start as int, len as int) =~= old(self).rest());
        } else {
            assert(old(self).rest() =~= Seq::<u8>::empty());
            assert(old(out)@ + old(self).rest() =~= old(out)@);
        }
        self.pos = len;
        assert(self.rest().len() == 0);
    }

    /// The next four bytes, or `None` where fewer are left.
    pub fn read_id(&mut self) -> (r: Option<[u8; 4]>)
        ensures
            old(self).rest().len() < 4 ==> r is None,
            old(self).rest().len() >= 4 ==> r is Some && r->0@ == old(self).rest().take(4)
                && final(self).rest() == old(self).rest().skip(4),
    {
        match self.read_bytes(4) {
            None => None,
            Some(v) => {
                let a: [u8; 4] = [v[0], v[1], v[2], v[3]];
                assert(a@ =~= v@);
                Some(a)
            },
        }
    }

    /// The next two bytes as a little-endian `u16`.
    pub fn read_u16_le(&mut self) -> (r: Option<u16>)
        ensures
            old(self).rest().len() < 2 ==> r is None,
            old(self).rest().len() >= 2 ==> r is Some && r->0 == le_u16(old(self).rest())
                && final(self).rest() == old(self).rest().skip(2),
    {
        let b = self.read_bytes(2)?;
        Some(b[0] as u16 + 256 * b[1] as u16)
    }

    /// The next four bytes as a little-endian `u32`.
    pub fn read_u32_le(&mut self) -> (r: Option<u32>)
        ensures
            old(self).rest().len() < 4 ==> r is None,
            old(self).rest().len() >= 4 ==> r is Some && r->0 == le_u32(old(self).rest())
                && final(self).rest() == old(self).rest().skip(4),
    {
        let b = self.read_bytes(4)?;
        Some(b[0] as u32 + 256 * b[1] as u32 + 65536 * b[2] as u32 + 16777216 * b[3] as u32)
    }

    /// The next four bytes as a big-endian `u32`.
    pub fn read_u32_be(&mut self) -> (r: Option<u32>)
        ensures
            old(self).rest().len() < 4 ==> r is None,
            old(self).rest().len() >= 4 ==> r is Some && r->0 == be_u32(old(self).rest())
                && final(self).rest() == old(self).rest().skip(4),
    {
        let b = self.read_bytes(4)?;
        Some(16777216 * b[0] as u32 + 65536 * b[1] as u32 + 256 * b[2] as u32 + b[3] as u32)
    }

    /// The next two bytes as a big-endian `i16`.
    pub fn read_i16_be(&mut self) -> (r: Option<i16>)
        ensures
            old(self).rest().len() < 2 ==> r is None,
            old(self).rest().len() >= 2 ==> r is Some && r->0 == signed16(be_u16(old(self).rest()))
                && final(self).rest() == old(self).rest().skip(2),
    {
        let b = self.read_bytes(2)?;
        let v: i32 = 256 * b[0] as i32 + b[1] as i32;
        Some(
            if v >= 32768 {
                (v - 65536) as i16
            } else {
                v as i16
            },
        )
    }

    /// The next four bytes as a big-endian `i32`.
    pub fn read_i32_be(&mut self) -> (r: Option<i32>)
        ensures
            old(self).rest().len() < 4 ==> r is None,
            old(self).rest().len() >= 4 ==> r is Some && r->0 == signed32(be_u32(old(self).rest()))
                && final(self).rest() == old(self).rest().skip(4),
    {
        let b = self.read_bytes(4)?;
        let v: i64 = 16777216 * b[0] as i64 + 65536 * b[1] as i64 + 256 * b[2] as i64 + b[3] as i64;
        Some(
            if v >= 0x8000_0000 {
                (v - 0x1_0000_0000) as i32
            } else {
                v as i32
            },
        )
    }
}

} // verus!
