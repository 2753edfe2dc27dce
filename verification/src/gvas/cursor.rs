//! A bounds-checked little-endian byte reader.

use vstd::prelude::*;
use vstd::utf8::{decode_utf8, valid_utf8};

use crate::bytes::{le_u16, le_u32, le_u64, signed32, signed64, u16_le, u32_le, u64_le, i32_from_bits, i64_from_bits};
use crate::gvas::{GvasError, GvasErrorV};

verus! {

/// What a [`Cursor`] holds: the slice it reads and its position in it.
pub struct CursorView {
    pub data: Seq<u8>,
    pub pos: nat,
}

/// A bounds-checked little-endian byte reader.
///
/// Every read is checked against the slice it was built from, so a bounded
/// [`Cursor::sub_cursor`] is a hard ceiling on what a nested structure can
/// consume.
#[derive(Debug, Clone, Copy)]
pub struct Cursor<'a> {
    data: &'a [u8],
    pos: usize,
}

impl<'a> View for Cursor<'a> {
    type V = CursorView;

    closed spec fn view(&self) -> CursorView {
        CursorView { data: self.data@, pos: self.pos as nat }
    }
}

/// Whether `n` more bytes are available at the cursor.
pub open spec fn fits(c: CursorView, n: int) -> bool {
    c.pos + n <= c.data.len()
}

/// The `n` bytes at the cursor.
pub open spec fn window(c: CursorView, n: int) -> Seq<u8> {
    c.data.subrange(c.pos as int, c.pos + n)
}

/// `after` is `before` moved forward by `n` bytes over the same slice.
pub open spec fn advanced(before: CursorView, after: CursorView, n: int) -> bool {
    after.data == before.data && after.pos == before.pos + n
}

/// The bytes `[pos, pos + n)` of `data` with the position after them, or the
/// error a read of them reports.
pub open spec fn bytes_at(data: Seq<u8>, pos: int, n: int) -> Result<(Seq<u8>, int), GvasErrorV> {
    if pos + n > data.len() {
        Err(eof_at(data, pos, n))
    } else {
        Ok((data.subrange(pos, pos + n), pos + n))
    }
}

pub open spec fn u8_at(data: Seq<u8>, pos: int) -> Result<(u8, int), GvasErrorV> {
    match bytes_at(data, pos, 1) {
        Ok((b, p)) => Ok((b[0], p)),
        Err(e) => Err(e),
    }
}

pub open spec fn bool_at(data: Seq<u8>, pos: int) -> Result<(bool, int), GvasErrorV> {
    match bytes_at(data, pos, 1) {
        Ok((b, p)) => Ok((b[0] != 0, p)),
        Err(e) => Err(e),
    }
}

pub open spec fn u16_at(data: Seq<u8>, pos: int) -> Result<(u16, int), GvasErrorV> {
    match bytes_at(data, pos, 2) {
        Ok((b, p)) => Ok((le_u16(b) as u16, p)),
        Err(e) => Err(e),
    }
}

pub open spec fn u32_at(data: Seq<u8>, pos: int) -> Result<(u32, int), GvasErrorV> {
    match bytes_at(data, pos, 4) {
        Ok((b, p)) => Ok((le_u32(b) as u32, p)),
        Err(e) => Err(e),
    }
}

pub open spec fn i32_at(data: Seq<u8>, pos: int) -> Result<(i32, int), GvasErrorV> {
    match bytes_at(data, pos, 4) {
        Ok((b, p)) => Ok((signed32(le_u32(b)) as i32, p)),
        Err(e) => Err(e),
    }
}

pub open spec fn u64_at(data: Seq<u8>, pos: int) -> Result<(u64, int), GvasErrorV> {
    match bytes_at(data, pos, 8) {
        Ok((b, p)) => Ok((le_u64(b) as u64, p)),
        Err(e) => Err(e),
    }
}

pub open spec fn i64_at(data: Seq<u8>, pos: int) -> Result<(i64, int), GvasErrorV> {
    match bytes_at(data, pos, 8) {
        Ok((b, p)) => Ok((signed64(le_u64(b)) as i64, p)),
        Err(e) => Err(e),
    }
}

/// A cursor read: on success the value is the spec reader's and the cursor
/// sits where it says; on failure the error is the spec reader's and nothing
/// moved.
pub open spec fn stepped<T>(
    before: CursorView,
    after: CursorView,
    expected: Result<(T, int), GvasErrorV>,
    r: Result<T, GvasError>,
) -> bool {
    match expected {
        Ok((v, p)) => r == Ok::<T, GvasError>(v) && after.data == before.data && after.pos == p,
        Err(e) => r matches Err(x) && x@ == e && after == before,
    }
}

/// The error a read of `needed` bytes at `pos` reports when it runs short.
pub open spec fn eof_at(data: Seq<u8>, pos: int, needed: int) -> GvasErrorV {
    GvasErrorV::UnexpectedEof {
        offset: pos as usize,
        needed: needed as usize,
        available: (data.len() - pos) as usize,
    }
}

/// The `FString` at `pos`, as characters, with the position after it; or the
/// error reading it reports.
pub open spec fn fstring_at(data: Seq<u8>, pos: int) -> Result<(Seq<char>, int), GvasErrorV> {
    if pos + 4 > data.len() {
        Err(eof_at(data, pos, 4))
    } else {
        let n = signed32(le_u32(data.subrange(pos, pos + 4)));
        let p = pos + 4;
        if n == 0 {
            Ok((Seq::empty(), p))
        } else if n > 0 {
            if p + n > data.len() {
                Err(eof_at(data, p, n))
            } else {
                Ok((crate::text::utf8_lossy(data.subrange(p, p + n - 1)), p + n))
            }
        } else if n == -0x8000_0000 {
            Err(GvasErrorV::InvalidStringLength(n as i32))
        } else if p + 2 * (-n) > data.len() {
            Err(eof_at(data, p, 2 * (-n)))
        } else {
            Ok((crate::text::utf16_lossy(utf16_units(data.subrange(p, p + 2 * (-n) - 2))), p + 2 * (-n)))
        }
    }
}

/// The bytes of the UTF-8 `FString` at `pos`, its NUL dropped, when its
/// length is positive and within bounds.
pub open spec fn fstring_utf8_bytes_at(data: Seq<u8>, pos: int) -> Option<Seq<u8>> {
    if pos + 4 > data.len() {
        None
    } else {
        let n = signed32(le_u32(data.subrange(pos, pos + 4)));
        let p = pos + 4;
        if n > 0 && p + n <= data.len() {
            Some(data.subrange(p, p + n - 1))
        } else {
            None
        }
    }
}

/// The content bytes of the UTF-16 `FString` at `pos`, its NUL unit
/// dropped, when its length is negative and within bounds.
pub open spec fn fstring_utf16_bytes_at(data: Seq<u8>, pos: int) -> Option<Seq<u8>> {
    if pos + 4 > data.len() {
        None
    } else {
        let n = signed32(le_u32(data.subrange(pos, pos + 4)));
        let p = pos + 4;
        if n < 0 && n != -0x8000_0000 && p + 2 * (-n) <= data.len() {
            Some(data.subrange(p, p + 2 * (-n) - 2))
        } else {
            None
        }
    }
}

/// The little-endian code unit at unit index `i` of `b`: low byte first.
pub open spec fn unit_le(b: Seq<u8>, i: int) -> int {
    b[2 * i] as int + 256 * (b[2 * i + 1] as int)
}

/// UTF-16 strings are little-endian: code unit `i` is the byte pair at
/// `2 * i`, low byte first, and a trailing odd byte makes no unit.
pub proof fn lemma_utf16_units_little_endian(b: Seq<u8>)
    ensures
        utf16_units(b).len() == b.len() / 2,
        forall|i: int|
            0 <= i < b.len() / 2 ==> #[trigger] utf16_units(b)[i] as int == b[2 * i] as int + 256 * b[2 * i + 1] as int,
{
    assert forall|i: int| 0 <= i < b.len() / 2 implies #[trigger] utf16_units(b)[i] as int == b[2 * i] as int
        + 256 * b[2 * i + 1] as int by {
        let pair = b.subrange(2 * i, 2 * i + 2);
        assert(pair[0] == b[2 * i] && pair[1] == b[2 * i + 1]);
        assert(0 <= pair[0] + 256 * pair[1] <= 0xFFFF);
    }
}

/// Pair up little-endian bytes into UTF-16 code units.
pub open spec fn utf16_units(b: Seq<u8>) -> Seq<u16> {
    Seq::new(b.len() / 2, |i: int| le_u16(b.subrange(2 * i, 2 * i + 2)) as u16)
}

impl<'a> Cursor<'a> {
    #[verifier::type_invariant]
    spec fn inv(&self) -> bool {
        self.pos <= self.data@.len()
    }

    pub fn new(data: &'a [u8]) -> (c: Self)
        ensures
            c@.data == data@,
            c@.pos == 0,
    {
        Cursor { data, pos: 0 }
    }

    /// The read position.
    pub fn pos(&self) -> (p: usize)
        ensures
            p == self@.pos as int,
            p <= self@.data.len(),
    {
        proof {
            use_type_invariant(self);
        }
        self.pos
    }

    /// The length of the slice this cursor reads.
    pub fn len(&self) -> (n: usize)
        ensures
            n == self@.data.len(),
    {
        self.data.len()
    }

    pub fn is_empty(&self) -> (b: bool)
        ensures
            b == (self@.data.len() == 0),
    {
        self.data.len() == 0
    }

    /// Jump to an absolute position within this cursor's slice.
    pub fn set_pos(&mut self, pos: usize) -> (r: Result<(), GvasError>)
        ensures
            old(self)@.data == final(self)@.data,
            pos <= old(self)@.data.len() ==> r is Ok && final(self)@.pos == pos,
            pos > old(self)@.data.len() ==> final(self)@ == old(self)@,
            pos > old(self)@.data.len() ==> (r matches Err(x) && x@ == eof_at(
                old(self)@.data,
                old(self)@.pos as int,
                pos - old(self)@.pos as int,
            )),
    {
        proof {
            use_type_invariant(&*self);
        }
        if pos > self.data.len() {
            return Err(
                GvasError::UnexpectedEof {
                    offset: self.pos,
                    needed: pos - self.pos,
                    available: self.data.len() - self.pos,
                },
            );
        }
        self.pos = pos;
        Ok(())
    }

    /// An independent cursor over the next `len` bytes, without advancing
    /// `self`.
    pub fn sub_cursor(&self, len: usize) -> (r: Result<Cursor<'a>, GvasError>)
        ensures
            match r {
                Ok(c) => self@.pos + len <= self@.data.len() && c@.pos == 0 && c@.data
                    == self@.data.subrange(self@.pos as int, self@.pos + len),
                Err(e) => self@.pos + len > self@.data.len() && e@ == eof_at(
                    self@.data,
                    self@.pos as int,
                    len as int,
                ),
            },
    {
        proof {
            use_type_invariant(self);
        }
        if len > self.data.len() - self.pos {
            return Err(
                GvasError::UnexpectedEof {
                    offset: self.pos,
                    needed: len,
                    available: self.data.len() - self.pos,
                },
            );
        }
        let end = self.pos + len;
        Ok(Cursor { data: &self.data[self.pos..end], pos: 0 })
    }

    /// This cursor's whole slice, ignoring the position.
    pub fn all(&self) -> (s: &'a [u8])
        ensures
            s@ == self@.data,
    {
        self.data
    }

    fn take(&mut self, n: usize) -> (r: Result<&'a [u8], GvasError>)
        ensures
            match r {
                Ok(s) => fits(old(self)@, n as int) && s@ == window(old(self)@, n as int) && s@.len()
                    == n && advanced(
                    old(self)@,
                    final(self)@,
                    n as int,
                ),
                Err(e) => !fits(old(self)@, n as int) && e@ == eof_at(
                    old(self)@.data,
                    old(self)@.pos as int,
                    n as int,
                ) && final(self)@ == old(self)@,
            },
    {
        proof {
            use_type_invariant(&*self);
        }
        if n > self.data.len() - self.pos {
            return Err(
                GvasError::UnexpectedEof {
                    offset: self.pos,
                    needed: n,
                    available: self.data.len() - self.pos,
                },
            );
        }
        let end = self.pos + n;
        let slice = &self.data[self.pos..end];
        self.pos = end;
        Ok(slice)
    }

    /// The next `n` bytes.
    pub fn bytes(&mut self, n: usize) -> (r: Result<&'a [u8], GvasError>)
        ensures
            match r {
                Ok(s) => fits(old(self)@, n as int) && s@ == window(old(self)@, n as int) && s@.len()
                    == n && advanced(
                    old(self)@,
                    final(self)@,
                    n as int,
                ),
                Err(e) => !fits(old(self)@, n as int) && e@ == eof_at(
                    old(self)@.data,
                    old(self)@.pos as int,
                    n as int,
                ) && final(self)@ == old(self)@,
            },
    {
        self.take(n)
    }

    pub fn u8(&mut self) -> (r: Result<u8, GvasError>)
        ensures
            stepped(old(self)@, final(self)@, u8_at(old(self)@.data, old(self)@.pos as int), r),
    {
        let b = self.take(1)?;
        Ok(b[0])
    }

    /// A byte read as a flag: anything but zero is `true`.
    pub fn bool(&mut self) -> (r: Result<bool, GvasError>)
        ensures
            stepped(old(self)@, final(self)@, bool_at(old(self)@.data, old(self)@.pos as int), r),
    {
        let b = self.u8()?;
        Ok(b != 0)
    }

    pub fn u16(&mut self) -> (r: Result<u16, GvasError>)
        ensures
            stepped(old(self)@, final(self)@, u16_at(old(self)@.data, old(self)@.pos as int), r),
    {
        let b = self.take(2)?;
        Ok(u16_le(b))
    }

    pub fn u32(&mut self) -> (r: Result<u32, GvasError>)
        ensures
            stepped(old(self)@, final(self)@, u32_at(old(self)@.data, old(self)@.pos as int), r),
    {
        let b = self.take(4)?;
        Ok(u32_le(b))
    }

    pub fn i32(&mut self) -> (r: Result<i32, GvasError>)
        ensures
            stepped(old(self)@, final(self)@, i32_at(old(self)@.data, old(self)@.pos as int), r),
    {
        let v = self.u32()?;
        Ok(i32_from_bits(v))
    }

    pub fn u64(&mut self) -> (r: Result<u64, GvasError>)
        ensures
            stepped(old(self)@, final(self)@, u64_at(old(self)@.data, old(self)@.pos as int), r),
    {
        let b = self.take(8)?;
        Ok(u64_le(b))
    }

    pub fn i64(&mut self) -> (r: Result<i64, GvasError>)
        ensures
            stepped(old(self)@, final(self)@, i64_at(old(self)@.data, old(self)@.pos as int), r),
    {
        let v = self.u64()?;
        Ok(i64_from_bits(v))
    }

    /// A 16-byte GUID, as stored.
    pub fn guid(&mut self) -> (r: Result<[u8; 16], GvasError>)
        ensures
            match r {
                Ok(g) => fits(old(self)@, 16) && g@ == window(old(self)@, 16) && advanced(
                    old(self)@,
                    final(self)@,
                    16,
                ),
                Err(e) => !fits(old(self)@, 16) && e@ == eof_at(old(self)@.data, old(self)@.pos as int, 16)
                    && final(self)@ == old(self)@,
            },
    {
        let b = self.take(16)?;
        let g = [
            b[0],
            b[1],
            b[2],
            b[3],
            b[4],
            b[5],
            b[6],
            b[7],
            b[8],
            b[9],
            b[10],
            b[11],
            b[12],
            b[13],
            b[14],
            b[15],
        ];
        assert(g@ =~= b@);
        Ok(g)
    }

    /// An Unreal `FString`: an `i32` length prefix, positive for a UTF-8 byte
    /// string (the length counts the trailing NUL), negative for UTF-16LE in
    /// code units (also NUL-terminated), zero for empty.
    pub fn fstring(&mut self) -> (r: Result<String, GvasError>)
        ensures
            final(self)@.data == old(self)@.data,
            match fstring_at(old(self)@.data, old(self)@.pos as int) {
                Ok((s, p)) => r matches Ok(v) && v@ == s && final(self)@.pos == p,
                Err(e) => r matches Err(x) && x@ == e,
            },
            fstring_utf8_bytes_at(old(self)@.data, old(self)@.pos as int) matches Some(b) ==> valid_utf8(b) ==> (
            r matches Ok(x) && x@ == decode_utf8(b)),
            fstring_utf16_bytes_at(old(self)@.data, old(self)@.pos as int) matches Some(b) ==> (forall|i: int|
                0 <= i < b.len() / 2 ==> #[trigger] unit_le(b, i) < 0xD800) ==> (r matches Ok(x) && x@.len() == b.len()
                / 2 && forall|i: int| 0 <= i < b.len() / 2 ==> (#[trigger] x@[i]) as int == unit_le(b, i)),
    {
        proof {
            use_type_invariant(&*self);
        }
        let ghost start = self@;
        let n = self.i32()?;
        proof {
            assert(window(start, 4) =~= start.data.subrange(start.pos as int, start.pos as int + 4));
        }
        if n == 0 {
            return Ok(String::new());
        }
        if n > 0 {
            let len = n as usize;
            let b = self.take(len)?;
            let content = &b[0..b.len() - 1];
            proof {
                assert(content@ =~= start.data.subrange(start.pos as int + 4, start.pos as int + 4 + n - 1));
            }
            return Ok(crate::text::from_utf8_lossy(content));
        }
        if n == i32::MIN {
            return Err(GvasError::InvalidStringLength(n));
        }
        let units = (-n) as u64;
        let needed: u64 = units * 2;
        proof {
            use_type_invariant(&*self);
        }
        let avail = (self.data.len() - self.pos) as u64;
        if needed > avail {
            return Err(
                GvasError::UnexpectedEof {
                    offset: self.pos,
                    needed: needed as usize,
                    available: self.data.len() - self.pos,
                },
            );
        }
        let b = self.take(needed as usize)?;
        let content = &b[0..b.len() - 2];
        proof {
            assert(content@ =~= start.data.subrange(start.pos as int + 4, start.pos as int + 4 + 2 * (-n) - 2));
        }
        let mut code_units: Vec<u16> = Vec::new();
        let count = content.len() / 2;
        assert(count * 2 <= content@.len());
        let mut i: usize = 0;
        while i < count
            invariant
                count == content@.len() / 2,
                count * 2 <= content@.len(),
                content@.len() <= usize::MAX,
                i <= count,
                code_units@ =~= utf16_units(content@).take(i as int),
            decreases count - i,
        {
            let pair = &content[2 * i..2 * i + 2];
            let u = u16_le(pair);
            code_units.push(u);
            proof {
                assert(pair@ =~= content@.subrange(2 * i, 2 * i + 2));
            }
            i += 1;
        }
        assert(utf16_units(content@).take(count as int) =~= utf16_units(content@));
        proof {
            lemma_utf16_units_little_endian(content@);
        }
        let text = crate::text::from_utf16_lossy(code_units.as_slice());
        proof {
            let b = content@;
            if forall|i: int| 0 <= i < b.len() / 2 ==> #[trigger] unit_le(b, i) < 0xD800 {
                assert forall|i: int| 0 <= i < code_units@.len() implies code_units@[i] < 0xD800 by {
                    assert(utf16_units(b)[i] as int == unit_le(b, i));
                }
                assert forall|i: int| 0 <= i < b.len() / 2 implies (#[trigger] text@[i]) as int == unit_le(b, i) by {
                    assert(utf16_units(b)[i] as int == unit_le(b, i));
                    assert(text@[i] == (code_units@[i] as u32) as char);
                }
            }
        }
        Ok(text)
    }
}

} // verus!
