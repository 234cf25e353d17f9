//! A little-endian byte cursor with the primitive readers the Agent formats use.
//!
//! Everything is little-endian (the formats were authored on x86). Strings are
//! DWORD-length-prefixed UTF-16LE; see [`Cursor::string`].

use crate::error::Error;
use crate::model::{Color, Guid};
use crate::textutil::{string_from_utf16_lossy, utf16_lossy};
use vstd::slice::slice_subrange;
use vstd::prelude::*;

verus! {

/// Little-endian `u16` of `b[at..at + 2]`.
pub open spec fn le_u16(b: Seq<u8>, at: int) -> u16 {
    (b[at] + 256 * b[at + 1]) as u16
}

/// Little-endian `u32` of `b[at..at + 4]`.
pub open spec fn le_u32(b: Seq<u8>, at: int) -> u32 {
    (b[at] + 256 * b[at + 1] + 65536 * b[at + 2] + 16777216 * b[at + 3]) as u32
}

/// The `n` UTF-16LE code units stored in `b[at..at + 2n]`.
pub open spec fn le_units(b: Seq<u8>, at: int, n: nat) -> Seq<u16> {
    Seq::new(n, |i: int| le_u16(b, at + 2 * i))
}

/// The decoded text of a length-prefixed UTF-16 string holding `units`.
pub open spec fn utf16_text(units: Seq<u16>) -> Seq<char> {
    if units.len() == 0 {
        Seq::empty()
    } else {
        utf16_lossy(units)
    }
}

/// How a length-prefixed string is spelled on disk.
#[derive(Clone, Copy, PartialEq, Eq, Debug, Structural)]
pub enum StringForm {
    /// `u32` code-unit count, UTF-16LE units, then a `0x0000` terminator (when non-empty).
    Utf16Terminated,
    /// `u32` code-unit count and UTF-16LE units, no terminator.
    Utf16,
    /// `u32` byte count and single-byte (Latin-1) characters, no terminator.
    Ansi,
}

/// A forward/seekable cursor over a byte slice.
pub struct Cursor<'a> {
    buf: &'a [u8],
    pos: usize,
}

impl<'a> Cursor<'a> {
    /// The bytes under the cursor.
    pub closed spec fn data(&self) -> Seq<u8> {
        self.buf@
    }

    /// The cursor's absolute offset.
    pub closed spec fn offset(&self) -> int {
        self.pos as int
    }

    /// Whether `n` bytes can be read at the cursor.
    pub open spec fn fits(&self, n: int) -> bool {
        self.offset() + n <= self.data().len()
    }

    /// Create a cursor at the start of `buf`.
    pub fn new(buf: &'a [u8]) -> (c: Self)
        ensures
            c.data() == buf@,
            c.offset() == 0,
    {
        Cursor { buf, pos: 0 }
    }

    /// Create a cursor positioned at `pos`.
    pub fn at(buf: &'a [u8], pos: usize) -> (c: Self)
        ensures
            c.data() == buf@,
            c.offset() == pos,
    {
        Cursor { buf, pos }
    }

    /// Current absolute byte offset.
    pub fn pos(&self) -> (p: usize)
        ensures
            p == self.offset(),
    {
        self.pos
    }

    /// Seek to an absolute byte offset.
    pub fn seek(&mut self, pos: usize)
        ensures
            final(self).data() == old(self).data(),
            final(self).offset() == pos,
    {
        self.pos = pos;
    }

    /// Bytes remaining after the cursor.
    pub fn remaining(&self) -> (n: usize)
        ensures
            n == (if self.offset() <= self.data().len() {
                self.data().len() - self.offset()
            } else {
                0
            }),
    {
        if self.pos <= self.buf.len() {
            self.buf.len() - self.pos
        } else {
            0
        }
    }

    /// The error for a read of `n` bytes that does not fit.
    fn eof(&self, n: usize, context: &'static str) -> (e: Error)
        ensures
            e == eof_error(context, self.offset(), n, self.data().len()),
    {
        Error::UnexpectedEof { context, offset: self.pos, needed: n, available: self.remaining() }
    }

    /// Borrow `n` bytes and advance, or report where the buffer ran out.
    fn take(&mut self, n: usize, context: &'static str) -> (r: Result<&'a [u8], Error>)
        ensures
            final(self).data() == old(self).data(),
            old(self).fits(n as int) ==> {
                &&& r matches Ok(s) && s@ == old(self).data().subrange(
                    old(self).offset(),
                    old(self).offset() + n,
                )
                &&& final(self).offset() == old(self).offset() + n
            },
            !old(self).fits(n as int) ==> {
                &&& r == Err::<&'a [u8], Error>(
                    eof_error(context, old(self).offset(), n, old(self).data().len()),
                )
                &&& final(self).offset() == old(self).offset()
            },
    {
        if n > self.buf.len() || self.pos > self.buf.len() - n {
            return Err(self.eof(n, context));
        }
        let end = self.pos + n;
        let slice = slice_subrange(self.buf, self.pos, end);
        self.pos = end;
        Ok(slice)
    }

    /// Read a `u8`.
    pub fn u8(&mut self) -> (r: Result<u8, Error>)
        ensures
            final(self).data() == old(self).data(),
            old(self).fits(1) ==> r == Ok::<u8, Error>(old(self).data()[old(self).offset()])
                && final(self).offset() == old(self).offset() + 1,
            !old(self).fits(1) ==> r == Err::<u8, Error>(
                eof_error("u8", old(self).offset(), 1, old(self).data().len()),
            ) && final(self).offset() == old(self).offset(),
    {
        let b = self.take(1, "u8")?;
        Ok(b[0])
    }

    /// Read a little-endian `u16`.
    pub fn u16(&mut self) -> (r: Result<u16, Error>)
        ensures
            final(self).data() == old(self).data(),
            old(self).fits(2) ==> r == Ok::<u16, Error>(le_u16(old(self).data(), old(self).offset()))
                && final(self).offset() == old(self).offset() + 2,
            !old(self).fits(2) ==> r == Err::<u16, Error>(
                eof_error("u16", old(self).offset(), 2, old(self).data().len()),
            ) && final(self).offset() == old(self).offset(),
    {
        let b = self.take(2, "u16")?;
        Ok(b[0] as u16 + 256 * (b[1] as u16))
    }

    /// Read a little-endian `i16`.
    pub fn i16(&mut self) -> (r: Result<i16, Error>)
        ensures
            final(self).data() == old(self).data(),
            old(self).fits(2) ==> r == Ok::<i16, Error>(
                le_u16(old(self).data(), old(self).offset()) as i16,
            ) && final(self).offset() == old(self).offset() + 2,
            !old(self).fits(2) ==> r == Err::<i16, Error>(
                eof_error("u16", old(self).offset(), 2, old(self).data().len()),
            ) && final(self).offset() == old(self).offset(),
    {
        let v = self.u16()?;
        Ok(v as i16)
    }

    /// Read a little-endian `u32`.
    pub fn u32(&mut self) -> (r: Result<u32, Error>)
        ensures
            final(self).data() == old(self).data(),
            old(self).fits(4) ==> r == Ok::<u32, Error>(le_u32(old(self).data(), old(self).offset()))
                && final(self).offset() == old(self).offset() + 4,
            !old(self).fits(4) ==> r == Err::<u32, Error>(
                eof_error("u32", old(self).offset(), 4, old(self).data().len()),
            ) && final(self).offset() == old(self).offset(),
    {
        let b = self.take(4, "u32")?;
        Ok(b[0] as u32 + 256 * (b[1] as u32) + 65536 * (b[2] as u32) + 16777216 * (b[3] as u32))
    }

    /// Read a little-endian `i32`.
    pub fn i32(&mut self) -> (r: Result<i32, Error>)
        ensures
            final(self).data() == old(self).data(),
            old(self).fits(4) ==> r == Ok::<i32, Error>(
                le_u32(old(self).data(), old(self).offset()) as i32,
            ) && final(self).offset() == old(self).offset() + 4,
            !old(self).fits(4) ==> r == Err::<i32, Error>(
                eof_error("u32", old(self).offset(), 4, old(self).data().len()),
            ) && final(self).offset() == old(self).offset(),
    {
        let v = self.u32()?;
        Ok(v as i32)
    }

    /// Read a little-endian `u64` (used for the `{offset, length}` block descriptors).
    pub fn u64(&mut self) -> (r: Result<u64, Error>)
        ensures
            final(self).data() == old(self).data(),
            old(self).fits(8) ==> r == Ok::<u64, Error>(
                (le_u32(old(self).data(), old(self).offset()) + 4294967296 * le_u32(
                    old(self).data(),
                    old(self).offset() + 4,
                )) as u64,
            ) && final(self).offset() == old(self).offset() + 8,
            !old(self).fits(8) ==> r is Err,
    {
        let lo = self.u32()?;
        let hi = self.u32()?;
        Ok(lo as u64 + 4294967296 * (hi as u64))
    }

    /// Read a Windows `GUID` (16 bytes, mixed-endian components as laid out on disk).
    pub fn guid(&mut self) -> (r: Result<Guid, Error>)
        ensures
            final(self).data() == old(self).data(),
            old(self).fits(16) ==> (r matches Ok(g) && g.0@ == old(self).data().subrange(
                old(self).offset(),
                old(self).offset() + 16,
            )) && final(self).offset() == old(self).offset() + 16,
            !old(self).fits(16) ==> r == Err::<Guid, Error>(
                eof_error("guid", old(self).offset(), 16, old(self).data().len()),
            ) && final(self).offset() == old(self).offset(),
    {
        let b = self.take(16, "guid")?;
        let mut bytes = [0u8; 16];
        let mut i: usize = 0;
        while i < 16
            invariant
                b@.len() == 16,
                bytes@.len() == 16,
                0 <= i <= 16,
                forall|j: int| 0 <= j < i ==> bytes@[j] == b@[j],
            decreases 16 - i,
        {
            bytes[i] = b[i];
            i += 1;
        }
        assert(bytes@ =~= b@);
        Ok(Guid(bytes))
    }

    /// Read a `COLORREF`/`RGBQUAD`: 4 bytes stored B, G, R, pad.
    pub fn color(&mut self) -> (r: Result<Color, Error>)
        ensures
            final(self).data() == old(self).data(),
            old(self).fits(4) ==> r == Ok::<Color, Error>(
                Color {
                    b: old(self).data()[old(self).offset()],
                    g: old(self).data()[old(self).offset() + 1],
                    r: old(self).data()[old(self).offset() + 2],
                },
            ) && final(self).offset() == old(self).offset() + 4,
            !old(self).fits(4) ==> r == Err::<Color, Error>(
                eof_error("color", old(self).offset(), 4, old(self).data().len()),
            ) && final(self).offset() == old(self).offset(),
    {
        let b = self.take(4, "color")?;
        Ok(Color { b: b[0], g: b[1], r: b[2] })
    }

    /// Advance past `n` bytes.
    pub fn skip(&mut self, n: usize) -> (r: Result<(), Error>)
        ensures
            final(self).data() == old(self).data(),
            old(self).fits(n as int) ==> r is Ok && final(self).offset() == old(self).offset() + n,
            !old(self).fits(n as int) ==> r == Err::<(), Error>(
                eof_error("skip", old(self).offset(), n, old(self).data().len()),
            ) && final(self).offset() == old(self).offset(),
    {
        self.take(n, "skip")?;
        Ok(())
    }

    /// Borrow `n` bytes and advance.
    pub fn bytes(&mut self, n: usize) -> (r: Result<&'a [u8], Error>)
        ensures
            final(self).data() == old(self).data(),
            old(self).fits(n as int) ==> {
                &&& r matches Ok(s) && s@ == old(self).data().subrange(
                    old(self).offset(),
                    old(self).offset() + n,
                )
                &&& final(self).offset() == old(self).offset() + n
            },
            !old(self).fits(n as int) ==> r == Err::<&'a [u8], Error>(
                eof_error("bytes", old(self).offset(), n, old(self).data().len()),
            ) && final(self).offset() == old(self).offset(),
    {
        self.take(n, "bytes")
    }

    /// Read a DWORD-length-prefixed UTF-16LE string.
    ///
    /// Layout: `u32 charLength` (count of UTF-16 code units, *not* bytes), then
    /// `charLength * 2` bytes of UTF-16LE. If `null_terminated` and `charLength > 0`,
    /// a trailing `0x0000` code unit follows and is consumed. An empty string
    /// (`charLength == 0`) has no terminator.
    pub fn string(&mut self, null_terminated: bool) -> (r: Result<String, Error>)
        ensures
            final(self).data() == old(self).data(),
            text_view(r) == spec_text(
                old(self).data(),
                old(self).offset(),
                if null_terminated { StringForm::Utf16Terminated } else { StringForm::Utf16 },
            ).0,
            r is Ok ==> final(self).offset() == spec_text(
                old(self).data(),
                old(self).offset(),
                if null_terminated { StringForm::Utf16Terminated } else { StringForm::Utf16 },
            ).1,
    {
        self.text(if null_terminated { StringForm::Utf16Terminated } else { StringForm::Utf16 })
    }

    /// Read a length-prefixed string spelled as `form`.
    pub fn text(&mut self, form: StringForm) -> (r: Result<String, Error>)
        ensures
            final(self).data() == old(self).data(),
            text_view(r) == spec_text(old(self).data(), old(self).offset(), form).0,
            r is Ok ==> final(self).offset() == spec_text(old(self).data(), old(self).offset(), form).1,
    {
        let len = self.u32()?;
        if len == 0 {
            return Ok(String::new());
        }
        let len = len as usize;
        match form {
            StringForm::Ansi => {
                let b = self.take(len, "string")?;
                Ok(latin1_string(b))
            },
            _ => {
                if len > usize::MAX / 2 {
                    return Err(self.eof(usize::MAX, "string"));
                }
                let ghost start = self.offset();
                let b = self.take(len * 2, "string")?;
                let units = le_units_of(b);
                assert(units@ =~= le_units(self.data(), start, len as nat));
                let s = string_from_utf16_lossy(&units);
                if form == StringForm::Utf16Terminated {
                    self.skip(2)?;
                }
                Ok(s)
            },
        }
    }
}

/// The error a read of `n` bytes at `offset` reports when the `len`-byte buffer runs out.
pub open spec fn eof_error(context: &'static str, offset: int, n: usize, len: nat) -> Error {
    Error::UnexpectedEof {
        context,
        offset: offset as usize,
        needed: n,
        available: (if offset <= len { len - offset } else { 0 }) as usize,
    }
}

/// What reading a `form` string at `at` in `b` yields, and where the cursor ends up.
pub open spec fn spec_text(b: Seq<u8>, at: int, form: StringForm) -> (Result<Seq<char>, Error>, int) {
    if at + 4 > b.len() {
        (Err(eof_error("u32", at, 4, b.len())), at)
    } else {
        let n = le_u32(b, at);
        let start = at + 4;
        if n == 0 {
            (Ok(Seq::empty()), start)
        } else if form == StringForm::Ansi {
            if start + n > b.len() {
                (Err(eof_error("string", start, n as usize, b.len())), start)
            } else {
                (Ok(latin1(b.subrange(start, start + n))), start + n)
            }
        } else if n > usize::MAX / 2 {
            (Err(eof_error("string", start, usize::MAX, b.len())), start)
        } else if start + 2 * n > b.len() {
            (Err(eof_error("string", start, (2 * n) as usize, b.len())), start)
        } else {
            let s = utf16_text(le_units(b, start, n as nat));
            let end = start + 2 * n;
            if form == StringForm::Utf16Terminated {
                if end + 2 > b.len() {
                    (Err(eof_error("skip", end, 2, b.len())), end)
                } else {
                    (Ok(s), end + 2)
                }
            } else {
                (Ok(s), end)
            }
        }
    }
}

/// A string result seen through its characters.
pub open spec fn text_view(r: Result<String, Error>) -> Result<Seq<char>, Error> {
    match r {
        Ok(s) => Ok(s@),
        Err(e) => Err(e),
    }
}

/// The UTF-16LE code units of an even-length byte run.
fn le_units_of(b: &[u8]) -> (units: Vec<u16>)
    requires
        b@.len() % 2 == 0,
    ensures
        units@ == le_units(b@, 0, (b@.len() / 2) as nat),
{
    let n = b.len() / 2;
    let mut units: Vec<u16> = Vec::with_capacity(n);
    let mut i: usize = 0;
    while i < n
        invariant
            n == b@.len() / 2,
            n * 2 <= b@.len(),
            b@.len() <= usize::MAX,
            0 <= i <= n,
            units@ == le_units(b@, 0, i as nat),
        decreases n - i,
    {
        units.push(b[2 * i] as u16 + 256 * (b[2 * i + 1] as u16));
        i += 1;
        assert(units@ =~= le_units(b@, 0, i as nat));
    }
    units
}

/// Bytes read as single-byte characters (code points 0..=255).
pub open spec fn latin1(b: Seq<u8>) -> Seq<char> {
    Seq::new(b.len(), |i: int| b[i] as char)
}

/// Decode single-byte characters.
fn latin1_string(b: &[u8]) -> (s: String)
    ensures
        s@ == latin1(b@),
{
    let mut s = String::new();
    let mut i: usize = 0;
    while i < b.len()
        invariant
            0 <= i <= b@.len(),
            s@ == latin1(b@.subrange(0, i as int)),
        decreases b@.len() - i,
    {
        crate::textutil::push_char(&mut s, b[i] as char);
        i += 1;
        assert(latin1(b@.subrange(0, i as int)) =~= latin1(b@.subrange(0, (i - 1) as int)).push(
            b@[i - 1] as char,
        ));
    }
    assert(b@.subrange(0, b@.len() as int) =~= b@);
    s
}

} // verus!

verus! {

/// Read a byte at `at`, giving the value and the offset after it.
pub open spec fn sp_u8(b: Seq<u8>, at: int) -> Option<(u8, int)> {
    if 0 <= at && at + 1 <= b.len() {
        Some((b[at], at + 1))
    } else {
        None
    }
}

/// Read a little-endian `u16` at `at`.
pub open spec fn sp_u16(b: Seq<u8>, at: int) -> Option<(u16, int)> {
    if 0 <= at && at + 2 <= b.len() {
        Some((le_u16(b, at), at + 2))
    } else {
        None
    }
}

/// Read a little-endian `u32` at `at`.
pub open spec fn sp_u32(b: Seq<u8>, at: int) -> Option<(u32, int)> {
    if 0 <= at && at + 4 <= b.len() {
        Some((le_u32(b, at), at + 4))
    } else {
        None
    }
}

/// Read `n` raw bytes at `at`.
pub open spec fn sp_bytes(b: Seq<u8>, at: int, n: int) -> Option<(Seq<u8>, int)> {
    if 0 <= at && 0 <= n && at + n <= b.len() {
        Some((b.subrange(at, at + n), at + n))
    } else {
        None
    }
}

/// Read a `B, G, R, pad` color at `at`.
pub open spec fn sp_color(b: Seq<u8>, at: int) -> Option<(Color, int)> {
    if 0 <= at && at + 4 <= b.len() {
        Some((Color { b: b[at], g: b[at + 1], r: b[at + 2] }, at + 4))
    } else {
        None
    }
}

/// Read a length-prefixed string spelled as `form` at `at`.
pub open spec fn sp_text(b: Seq<u8>, at: int, form: StringForm) -> Option<(Seq<char>, int)> {
    match spec_text(b, at, form).0 {
        Ok(s) => Some((s, spec_text(b, at, form).1)),
        Err(_) => None,
    }
}

/// `count` items read back to back from `at` with `item`.
pub open spec fn spec_list<T>(
    b: Seq<u8>,
    at: int,
    count: nat,
    item: spec_fn(Seq<u8>, int) -> Option<(T, int)>,
) -> Option<(Seq<T>, int)>
    decreases count,
{
    if count == 0 {
        Some((Seq::empty(), at))
    } else {
        match spec_list(b, at, (count - 1) as nat, item) {
            None => None,
            Some((xs, p)) => match item(b, p) {
                None => None,
                Some((x, q)) => Some((xs.push(x), q)),
            },
        }
    }
}

/// Once a list read fails, reading more items fails too.
pub proof fn lemma_list_fail<T>(
    b: Seq<u8>,
    at: int,
    i: nat,
    n: nat,
    item: spec_fn(Seq<u8>, int) -> Option<(T, int)>,
)
    requires
        spec_list(b, at, i, item) is None,
        i <= n,
    ensures
        spec_list(b, at, n, item) is None,
    decreases n - i,
{
    if i < n {
        lemma_list_fail(b, at, i, (n - 1) as nat, item);
    }
}

/// A cursor's offset is never negative.
pub broadcast proof fn lemma_offset_nonneg(c: &Cursor)
    ensures
        #[trigger] c.offset() >= 0,
{
}

/// Whether an error is a read that ran out of bytes.
pub open spec fn is_eof(e: Error) -> bool {
    e is UnexpectedEof
}

} // verus!
