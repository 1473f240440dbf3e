use vstd::prelude::*;
use vstd::string::*;

verus! {

/// Size of the buffer of a reader made by `CharReader::new`.
pub const DEFAULT_BUF_SIZE: usize = 5000;

#[derive(Debug)]
pub enum CharReaderError {
    InvalidData,
    ReachedEOF,
}

/// The text that `std::str::from_utf8` reads from `b`, or `None` where `b`
/// is not UTF-8.
pub uninterp spec fn utf8_text(b: Seq<u8>) -> Option<Seq<char>>;

/// Relies on `std::str::from_utf8`: the text that the bytes encode, where
/// they are valid UTF-8. The text is made of those very bytes, so a
/// non-empty slice gives a non-empty text whose first character takes no
/// more bytes than the slice holds.
#[verifier::external_body]
fn decode_utf8(b: &[u8]) -> (r: Option<String>)
    ensures
        r is Some <==> utf8_text(b@) is Some,
        r is Some ==> r->0@ == utf8_text(b@)->0,
        b@.len() > 0 && r is Some ==> r->0@.len() > 0 && utf8_len(r->0@[0]) <= b@.len(),
{
    match std::str::from_utf8(b) {
        Ok(s) => Some(s.to_owned()),
        Err(_) => None,
    }
}

/// The number of bytes that UTF-8 takes for `c`.
pub open spec fn utf8_len(c: char) -> nat {
    if (c as u32) < 0x80 {
        1
    } else if (c as u32) < 0x800 {
        2
    } else if (c as u32) < 0x10000 {
        3
    } else {
        4
    }
}

fn char_utf8_len(c: char) -> (r: usize)
    ensures
        r == utf8_len(c),
{
    let v = c as u32;
    if v < 0x80 {
        1
    } else if v < 0x800 {
        2
    } else if v < 0x10000 {
        3
    } else {
        4
    }
}

/// Reads characters from a byte buffer that its owner refills from
/// `inner`.
pub struct CharReader<R> {
    inner: R,
    buf: Vec<u8>,
    pos: usize,
    filled: usize,
}

impl<R> CharReader<R> {
    /// The bytes read into the buffer and not yet decoded.
    pub closed spec fn pending(&self) -> Seq<u8> {
        self.buf@.subrange(self.pos as int, self.filled as int)
    }

    /// The size of the buffer.
    pub closed spec fn size(&self) -> nat {
        self.buf@.len()
    }

    pub closed spec fn wf(&self) -> bool {
        self.pos <= self.filled <= self.buf.len()
    }

    /// A reader over `inner` with a buffer of the default size.
    pub fn new(inner: R) -> (r: Self)
        ensures
            r.wf(),
            r.size() == DEFAULT_BUF_SIZE,
            r.pending().len() == 0,
    {
        CharReader::with_capacity(DEFAULT_BUF_SIZE, inner)
    }

    /// A reader over `inner` with a buffer of `capacity` bytes.
    pub fn with_capacity(capacity: usize, inner: R) -> (r: Self)
        ensures
            r.wf(),
            r.size() == capacity,
            r.pending().len() == 0,
    {
        let mut buf: Vec<u8> = Vec::with_capacity(capacity);
        while buf.len() < capacity
            invariant
                buf.len() <= capacity,
            decreases capacity - buf.len(),
        {
            buf.push(0);
        }
        CharReader { inner, buf, pos: 0, filled: 0 }
    }

    /// The size of the buffer.
    pub fn capacity(&self) -> (r: usize)
        ensures
            r == self.size(),
    {
        self.buf.len()
    }

    /// The source that the buffer is refilled from.
    pub fn inner_mut(&mut self) -> &mut R {
        &mut self.inner
    }

    /// Whether fewer bytes are pending than the longest character takes,
    /// so that the buffer should be refilled before the next character.
    pub fn needs_input(&self) -> (r: bool)
        requires
            self.wf(),
        ensures
            r == (self.pending().len() <= 4),
    {
        self.filled - self.pos <= 4
    }

    /// How many bytes the buffer can take in after its pending bytes.
    pub fn spare(&self) -> (r: usize)
        requires
            self.wf(),
        ensures
            r == self.size() - self.pending().len(),
    {
        self.buf.len() - (self.filled - self.pos)
    }

    /// Moves the pending bytes to the front of the buffer and appends
    /// `bytes` after them.
    pub fn refill(&mut self, bytes: &[u8])
        requires
            old(self).wf(),
            bytes@.len() <= old(self).size() - old(self).pending().len(),
        ensures
            final(self).wf(),
            final(self).size() == old(self).size(),
            final(self).pending() == old(self).pending() + bytes@,
    {
        let ghost pending0 = self.pending();
        let n = self.filled - self.pos;
        let mut i: usize = 0;
        while i < n
            invariant
                self.pos <= self.filled <= self.buf.len(),
                n == self.filled - self.pos,
                i <= n,
                self.buf.len() == old(self).buf.len(),
                pending0.len() == n,
                forall|k: int| i <= k < n ==> #[trigger] self.buf@[self.pos + k] == pending0[k],
                forall|k: int| 0 <= k < i ==> #[trigger] self.buf@[k] == pending0[k],
            decreases n - i,
        {
            let b = self.buf[self.pos + i];
            self.buf.set(i, b);
            i = i + 1;
        }
        assert(self.buf@.subrange(0, n as int) =~= pending0);
        self.pos = 0;
        self.filled = n;
        let mut j: usize = 0;
        while j < bytes.len()
            invariant
                self.pos == 0,
                self.filled == n + j,
                j <= bytes@.len(),
                n + bytes@.len() <= self.buf.len(),
                self.buf.len() == old(self).buf.len(),
                pending0.len() == n,
                forall|k: int| 0 <= k < n ==> #[trigger] self.buf@[k] == pending0[k],
                forall|k: int| 0 <= k < j ==> #[trigger] self.buf@[n + k] == bytes@[k],
            decreases bytes@.len() - j,
        {
            self.buf.set(self.filled, bytes[j]);
            self.filled = self.filled + 1;
            j = j + 1;
        }
        assert(self.pending() =~= pending0 + bytes@) by {
            assert forall|k: int| 0 <= k < bytes@.len() implies self.pending()[n + k] == bytes@[k] by {
                assert(self.buf@[n + k] == bytes@[k]);
            }
        }
    }

    /// Decodes the next character from the pending bytes.
    pub fn next_char(&mut self) -> (r: Result<char, CharReaderError>)
        requires
            old(self).wf(),
        ensures
            final(self).wf(),
            final(self).size() == old(self).size(),
            old(self).pending().len() == 0 ==> r is Err && r->Err_0 is ReachedEOF,
            r is Ok ==> ({
                let text = utf8_text(old(self).pending());
                &&& text is Some
                &&& r->Ok_0 == text->0[0]
                &&& final(self).pending() == old(self).pending().subrange(utf8_len(r->Ok_0) as int, old(self).pending().len() as int)
            }),
            r is Err ==> final(self).pending() == old(self).pending(),
            old(self).pending().len() > 0 && utf8_text(old(self).pending()) is None ==> r is Err && r->Err_0 is InvalidData,
            old(self).pending().len() > 0 && utf8_text(old(self).pending()) is Some ==> r is Ok,
    {
        if self.pos == self.filled {
            return Err(CharReaderError::ReachedEOF);
        }
        let text = match decode_utf8(&self.buf.as_slice()[self.pos..self.filled]) {
            Some(t) => t,
            None => return Err(CharReaderError::InvalidData),
        };
        let c = text.as_str().get_char(0);
        let n = char_utf8_len(c);
        if n > self.filled - self.pos {
            return Err(CharReaderError::InvalidData);
        }
        let ghost p0 = self.pending();
        self.pos = self.pos + n;
        assert(self.pending() =~= p0.subrange(n as int, p0.len() as int));
        Ok(c)
    }
}

} // verus!
