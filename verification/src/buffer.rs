//! A byte buffer with a position, from which packets are read and into which
//! they are written.

use vstd::prelude::*;

use crate::error::{CCProxyError, CCProxyResult};

verus! {

/// `data` with `bytes` written over it from `pos` on; it grows where `bytes`
/// reaches past its end.
pub open spec fn overwrite(data: Seq<u8>, pos: nat, bytes: Seq<u8>) -> Seq<u8>
    recommends
        pos <= data.len(),
{
    if pos + bytes.len() <= data.len() {
        data.take(pos as int) + bytes + data.skip((pos + bytes.len()) as int)
    } else {
        data.take(pos as int) + bytes
    }
}

/// Writing `a` and then `b` behind it is writing `a + b`.
pub proof fn lemma_overwrite_concat(data: Seq<u8>, pos: nat, a: Seq<u8>, b: Seq<u8>)
    requires
        pos <= data.len(),
    ensures
        overwrite(overwrite(data, pos, a), pos + a.len(), b) == overwrite(data, pos, a + b),
{
    assert(overwrite(overwrite(data, pos, a), pos + a.len(), b) =~= overwrite(data, pos, a + b));
}

/// Writing nothing changes nothing.
pub proof fn lemma_overwrite_empty(data: Seq<u8>, pos: nat)
    requires
        pos <= data.len(),
    ensures
        overwrite(data, pos, Seq::<u8>::empty()) == data,
{
    assert(overwrite(data, pos, Seq::<u8>::empty()) =~= data);
}

/// The number written by two bytes, the more significant one first.
pub open spec fn be_u16(b: Seq<u8>) -> u16 {
    (b[0] * 256 + b[1]) as u16
}

/// The number written by two bytes, the less significant one first.
pub open spec fn le_u16(b: Seq<u8>) -> u16 {
    (b[0] + b[1] * 256) as u16
}

/// The number written by four bytes, the most significant one first.
pub open spec fn be_u32(b: Seq<u8>) -> u32 {
    (b[0] * 0x100_0000 + b[1] * 0x1_0000 + b[2] * 0x100 + b[3]) as u32
}

/// The two's complement number written by four bytes, the most significant one first.
pub open spec fn be_i32(b: Seq<u8>) -> i32 {
    let n: int = be_u32(b) as int;
    if n < 0x8000_0000 {
        n as i32
    } else {
        (n - 0x1_0000_0000) as i32
    }
}

/// `n` as two bytes, the more significant one first.
pub open spec fn be_u16_bytes(n: u16) -> Seq<u8> {
    seq![(n as int / 256) as u8, (n as int % 256) as u8]
}

/// `n` as two bytes, the less significant one first.
pub open spec fn le_u16_bytes(n: u16) -> Seq<u8> {
    seq![(n as int % 256) as u8, (n as int / 256) as u8]
}

/// `n` as four bytes, the most significant one first.
pub open spec fn be_u32_bytes(n: u32) -> Seq<u8> {
    seq![
        (n as int / 0x100_0000) as u8,
        (n as int / 0x1_0000 % 256) as u8,
        (n as int / 0x100 % 256) as u8,
        (n as int % 256) as u8,
    ]
}

/// `n` in two's complement as four bytes, the most significant one first.
pub open spec fn be_i32_bytes(n: i32) -> Seq<u8> {
    if n >= 0 {
        be_u32_bytes(n as u32)
    } else {
        be_u32_bytes((n + 0x1_0000_0000) as u32)
    }
}

/// Reading a big-endian 16-bit number gives back what was written.
pub proof fn lemma_be_u16_round_trip(n: u16)
    ensures
        be_u16(be_u16_bytes(n)) == n,
        be_u16_bytes(n).len() == 2,
{
}

/// Reading a little-endian 16-bit number gives back what was written.
pub proof fn lemma_le_u16_round_trip(n: u16)
    ensures
        le_u16(le_u16_bytes(n)) == n,
        le_u16_bytes(n).len() == 2,
{
}

/// Reading a big-endian 32-bit number gives back what was written.
pub proof fn lemma_be_u32_round_trip(n: u32)
    ensures
        be_u32(be_u32_bytes(n)) == n,
        be_u32_bytes(n).len() == 4,
{
}

/// Reading a big-endian signed number gives back what was written.
pub proof fn lemma_be_i32_round_trip(n: i32)
    ensures
        be_i32(be_i32_bytes(n)) == n,
        be_i32_bytes(n).len() == 4,
{
    if n >= 0 {
        lemma_be_u32_round_trip(n as u32);
    } else {
        lemma_be_u32_round_trip((n + 0x1_0000_0000) as u32);
    }
}

/// The outcome of reading the first `n` bytes of `rest`, and what is left. A
/// read past the end fails and uses up what there was.
pub open spec fn take_bytes(rest: Seq<u8>, n: nat) -> (CCProxyResult<Seq<u8>>, Seq<u8>) {
    if n <= rest.len() {
        (Ok(rest.take(n as int)), rest.skip(n as int))
    } else {
        (Err(CCProxyError::UnexpectedEof), Seq::empty())
    }
}

/// The outcome of reading a byte, and what is left.
pub open spec fn take_u8(rest: Seq<u8>) -> (CCProxyResult<u8>, Seq<u8>) {
    match take_bytes(rest, 1) {
        (Ok(b), left) => (Ok(b[0]), left),
        (Err(e), left) => (Err(e), left),
    }
}

/// The outcome of reading a big-endian 16-bit number, and what is left.
pub open spec fn take_u16(rest: Seq<u8>) -> (CCProxyResult<u16>, Seq<u8>) {
    match take_bytes(rest, 2) {
        (Ok(b), left) => (Ok(be_u16(b)), left),
        (Err(e), left) => (Err(e), left),
    }
}

/// The outcome of reading a little-endian 16-bit number, and what is left.
pub open spec fn take_u16_le(rest: Seq<u8>) -> (CCProxyResult<u16>, Seq<u8>) {
    match take_bytes(rest, 2) {
        (Ok(b), left) => (Ok(le_u16(b)), left),
        (Err(e), left) => (Err(e), left),
    }
}

/// The outcome of reading a big-endian 32-bit number, and what is left.
pub open spec fn take_u32(rest: Seq<u8>) -> (CCProxyResult<u32>, Seq<u8>) {
    match take_bytes(rest, 4) {
        (Ok(b), left) => (Ok(be_u32(b)), left),
        (Err(e), left) => (Err(e), left),
    }
}

/// The outcome of reading a big-endian signed number, and what is left.
pub open spec fn take_i32(rest: Seq<u8>) -> (CCProxyResult<i32>, Seq<u8>) {
    match take_bytes(rest, 4) {
        (Ok(b), left) => (Ok(be_i32(b)), left),
        (Err(e), left) => (Err(e), left),
    }
}

/// The first index at which `s` holds `b`, or its length.
pub open spec fn first_index(s: Seq<u8>, b: u8) -> int
    decreases s.len(),
{
    if s.len() == 0 || s[0] == b {
        0
    } else {
        1 + first_index(s.drop_first(), b)
    }
}

/// `first_index` is within the bytes or at their end; it is the first occurrence.
pub proof fn lemma_first_index(s: Seq<u8>, b: u8)
    ensures
        0 <= first_index(s, b) <= s.len(),
        first_index(s, b) < s.len() ==> s[first_index(s, b)] == b,
        forall|i: int| 0 <= i < first_index(s, b) ==> s[i] != b,
    decreases s.len(),
{
    if s.len() != 0 && s[0] != b {
        let tail = s.drop_first();
        lemma_first_index(tail, b);
        assert forall|i: int| 0 <= i < first_index(s, b) implies s[i] != b by {
            if i > 0 {
                assert(s[i] == tail[i - 1]);
            }
        }
    }
}

/// An index with `b` and none before it is `first_index`.
pub proof fn lemma_first_index_unique(s: Seq<u8>, b: u8, n: int)
    requires
        0 <= n <= s.len(),
        n < s.len() ==> s[n] == b,
        forall|i: int| 0 <= i < n ==> s[i] != b,
    ensures
        first_index(s, b) == n,
{
    lemma_first_index(s, b);
}

/// Bytes with a position between zero and their number.
#[derive(Debug)]
pub struct PacketBuffer {
    data: Vec<u8>,
    pos: usize,
}

impl PacketBuffer {
    #[verifier::type_invariant]
    spec fn position_in_data(self) -> bool {
        self.pos <= self.data@.len()
    }

    /// All bytes of the buffer.
    pub closed spec fn data(self) -> Seq<u8> {
        self.data@
    }

    /// The number of bytes before the position.
    pub closed spec fn position(self) -> nat {
        if self.pos <= self.data@.len() {
            self.pos as nat
        } else {
            self.data@.len()
        }
    }

    /// The position is within the bytes or at their end.
    pub proof fn lemma_position(self)
        ensures
            self.position() <= self.data().len(),
    {
    }

    /// The bytes from the position on.
    pub open spec fn rest(self) -> Seq<u8> {
        self.data().skip(self.position() as int)
    }

    /// A buffer that holds `data`, positioned at its start.
    pub fn new(data: Vec<u8>) -> (buf: Self)
        ensures
            buf.data() == data@,
            buf.position() == 0,
            buf.rest() == data@,
    {
        let buf = PacketBuffer { data, pos: 0 };
        assert(buf.data@.skip(0) =~= data@);
        buf
    }

    /// The bytes of the buffer.
    pub fn into_inner(self) -> (data: Vec<u8>)
        ensures
            data@ == self.data(),
    {
        self.data
    }

    /// Takes the next `n` bytes.
    pub fn read_exact(&mut self, n: usize) -> (res: CCProxyResult<Vec<u8>>)
        ensures
            final(self).data() == old(self).data(),
            final(self).rest() == take_bytes(old(self).rest(), n as nat).1,
            match res {
                Ok(bytes) => take_bytes(old(self).rest(), n as nat).0 == Ok::<_, CCProxyError>(bytes@),
                Err(e) => take_bytes(old(self).rest(), n as nat).0 == Err::<Seq<u8>, _>(e),
            },
    {
        proof {
            use_type_invariant(&*self);
        }
        let len: usize = self.data.len();
        if n > len - self.pos {
            self.pos = len;
            assert(self.rest() =~= Seq::<u8>::empty());
            return Err(CCProxyError::UnexpectedEof);
        }
        let start: usize = self.pos;
        let mut bytes: Vec<u8> = Vec::new();
        let mut i: usize = 0;
        while i < n
            invariant
                i <= n,
                start + n <= len == self.data@.len(),
                self.data@ == old(self).data@,
                self.pos == start,
                bytes@ == self.data@.subrange(start as int, start + i),
            decreases n - i,
        {
            bytes.push(self.data[start + i]);
            i = i + 1;
        }
        self.pos = start + n;
        assert(bytes@ =~= old(self).rest().take(n as int));
        assert(self.rest() =~= old(self).rest().skip(n as int));
        Ok(bytes)
    }

    /// Reads a byte.
    pub fn read_u8(&mut self) -> (res: CCProxyResult<u8>)
        ensures
            final(self).data() == old(self).data(),
            (res, final(self).rest()) == take_u8(old(self).rest()),
    {
        match self.read_exact(1) {
            Ok(b) => Ok(b[0]),
            Err(e) => Err(e),
        }
    }

    /// Reads a big-endian 16-bit number.
    pub fn read_u16(&mut self) -> (res: CCProxyResult<u16>)
        ensures
            final(self).data() == old(self).data(),
            (res, final(self).rest()) == take_u16(old(self).rest()),
    {
        match self.read_exact(2) {
            Ok(b) => Ok(b[0] as u16 * 256 + b[1] as u16),
            Err(e) => Err(e),
        }
    }

    /// Reads a little-endian 16-bit number.
    pub fn read_u16_le(&mut self) -> (res: CCProxyResult<u16>)
        ensures
            final(self).data() == old(self).data(),
            (res, final(self).rest()) == take_u16_le(old(self).rest()),
    {
        match self.read_exact(2) {
            Ok(b) => Ok(b[0] as u16 + b[1] as u16 * 256),
            Err(e) => Err(e),
        }
    }

    /// Reads a big-endian 32-bit number.
    pub fn read_u32(&mut self) -> (res: CCProxyResult<u32>)
        ensures
            final(self).data() == old(self).data(),
            (res, final(self).rest()) == take_u32(old(self).rest()),
    {
        match self.read_exact(4) {
            Ok(b) => Ok(
                b[0] as u32 * 0x100_0000 + b[1] as u32 * 0x1_0000 + b[2] as u32 * 0x100
                    + b[3] as u32,
            ),
            Err(e) => Err(e),
        }
    }

    /// Reads a big-endian signed 32-bit number.
    pub fn read_i32(&mut self) -> (res: CCProxyResult<i32>)
        ensures
            final(self).data() == old(self).data(),
            (res, final(self).rest()) == take_i32(old(self).rest()),
    {
        match self.read_u32() {
            Ok(n) => if n < 0x8000_0000 {
                Ok(n as i32)
            } else {
                Ok((n as i64 - 0x1_0000_0000) as i32)
            },
            Err(e) => Err(e),
        }
    }

    /// Takes the bytes up to and including the next zero byte, or all that are
    /// left where there is none.
    pub fn read_until_nul(&mut self) -> (bytes: Vec<u8>)
        ensures
            final(self).data() == old(self).data(),
            first_index(old(self).rest(), 0) < old(self).rest().len() ==> {
                &&& bytes@ == old(self).rest().take(first_index(old(self).rest(), 0) + 1)
                &&& final(self).rest() == old(self).rest().skip(first_index(old(self).rest(), 0) + 1)
            },
            first_index(old(self).rest(), 0) == old(self).rest().len() ==> {
                &&& bytes@ == old(self).rest()
                &&& final(self).rest() == Seq::<u8>::empty()
            },
    {
        proof {
            use_type_invariant(&*self);
        }
        let len: usize = self.data.len();
        let start: usize = self.pos;
        let mut bytes: Vec<u8> = Vec::new();
        while self.pos < len
            invariant
                len == self.data@.len(),
                self.data@ == old(self).data@,
                start == old(self).pos,
                start <= self.pos <= len,
                bytes@ == self.data@.subrange(start as int, self.pos as int),
                forall|i: int| start <= i < self.pos ==> self.data@[i] != 0,
            decreases len - self.pos,
        {
            let b: u8 = self.data[self.pos];
            bytes.push(b);
            self.pos = self.pos + 1;
            if b == 0 {
                proof {
                    let rest = old(self).rest();
                    let n = self.pos - 1 - start;
                    assert(rest[n] == 0);
                    assert forall|i: int| 0 <= i < n implies rest[i] != 0 by {
                        assert(rest[i] == self.data@[start + i]);
                    }
                    lemma_first_index_unique(rest, 0, n);
                    assert(bytes@ =~= rest.take(n + 1));
                    assert(self.rest() =~= rest.skip(n + 1));
                }
                return bytes;
            }
        }
        proof {
            let rest = old(self).rest();
            assert forall|i: int| 0 <= i < rest.len() implies rest[i] != 0 by {
                assert(rest[i] == self.data@[start + i]);
            }
            lemma_first_index_unique(rest, 0, rest.len() as int);
            assert(bytes@ =~= rest);
            assert(self.rest() =~= Seq::<u8>::empty());
        }
        bytes
    }

    /// Writes `bytes` at the position and moves behind them.
    pub fn write_all(&mut self, bytes: &[u8])
        ensures
            final(self).data() == overwrite(old(self).data(), old(self).position(), bytes@),
            final(self).position() == old(self).position() + bytes@.len(),
    {
        proof {
            use_type_invariant(&*self);
        }
        let start: usize = self.pos;
        self.pos = 0;
        let mut data: Vec<u8> = Vec::new();
        std::mem::swap(&mut data, &mut self.data);
        let ghost before = data@;
        let mut pos: usize = start;
        let mut i: usize = 0;
        assert(overwrite(before, start as nat, bytes@.take(0)) =~= before);
        while i < bytes.len()
            invariant
                i <= bytes@.len(),
                start <= before.len(),
                pos == start + i,
                pos <= data@.len(),
                data@ == overwrite(before, start as nat, bytes@.take(i as int)),
            decreases bytes@.len() - i,
        {
            if pos < data.len() {
                data.set(pos, bytes[i]);
                pos = pos + 1;
            } else {
                data.push(bytes[i]);
                pos = data.len();
            }
            i = i + 1;
            assert(data@ =~= overwrite(before, start as nat, bytes@.take(i as int)));
        }
        assert(bytes@.take(bytes@.len() as int) =~= bytes@);
        self.data = data;
        self.pos = pos;
    }

    /// Writes a byte.
    pub fn write_u8(&mut self, n: u8)
        ensures
            final(self).data() == overwrite(old(self).data(), old(self).position(), seq![n]),
            final(self).position() == old(self).position() + 1,
    {
        let bytes: [u8; 1] = [n];
        assert(bytes@ =~= seq![n]);
        self.write_all(&bytes);
    }

    /// Writes a big-endian 16-bit number.
    pub fn write_u16(&mut self, n: u16)
        ensures
            final(self).data() == overwrite(
                old(self).data(),
                old(self).position(),
                be_u16_bytes(n),
            ),
            final(self).position() == old(self).position() + 2,
    {
        let bytes: [u8; 2] = [(n / 256) as u8, (n % 256) as u8];
        assert(bytes@ =~= be_u16_bytes(n));
        self.write_all(&bytes);
    }

    /// Writes a big-endian 32-bit number.
    pub fn write_u32(&mut self, n: u32)
        ensures
            final(self).data() == overwrite(
                old(self).data(),
                old(self).position(),
                be_u32_bytes(n),
            ),
            final(self).position() == old(self).position() + 4,
    {
        let bytes: [u8; 4] = [
            (n / 0x100_0000) as u8,
            (n / 0x1_0000 % 256) as u8,
            (n / 0x100 % 256) as u8,
            (n % 256) as u8,
        ];
        assert(bytes@ =~= be_u32_bytes(n));
        self.write_all(&bytes);
    }

    /// Writes a big-endian signed 32-bit number.
    pub fn write_i32(&mut self, n: i32)
        ensures
            final(self).data() == overwrite(
                old(self).data(),
                old(self).position(),
                be_i32_bytes(n),
            ),
            final(self).position() == old(self).position() + 4,
    {
        if n >= 0 {
            self.write_u32(n as u32);
        } else {
            self.write_u32((n as i64 + 0x1_0000_0000) as u32);
        }
    }
}

} // verus!
