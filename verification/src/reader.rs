//! Buffered reading of a byte stream: a fixed-size buffer that is refilled from a source, a line
//! reader and a streaming reader of the fields of a JSON object

use crate::text::is_ascii_ws;
use vstd::prelude::*;

verus! {

/// Reader error
#[derive(Debug, Clone, Copy, PartialEq, Eq, Structural)]
pub enum Error {
    /// EOF while parsing
    EofWhileParsing,
    /// The element to deserialize doesn't fit into the buffer
    BufferTooSmall,
    /// Expected this character to be a `'{'`
    ExpectedObjectBegin,
    /// Expected this character to be a `':'`
    ExpectedColon,
    /// Expected this character to be either a `','` or a `'}'`
    ExpectedObjectCommaOrEnd,
    /// Input has non-whitespace trailing characters
    TrailingCharacters,
    /// JSON parse error (the parser's description of it is not kept)
    Json,
}

// ---------------------------------------------------------------------------------------------
// A source of bytes
// ---------------------------------------------------------------------------------------------

/// Source of bytes held in memory, handing them out in order (like reading from a `&[u8]`)
#[derive(Debug)]
pub struct SliceReader {
    data: Vec<u8>,
    pos: usize,
}

impl SliceReader {
    #[verifier::type_invariant]
    closed spec fn inv(self) -> bool {
        self.pos <= self.data@.len()
    }

    /// Bytes not read yet
    pub closed spec fn rest(&self) -> Seq<u8> {
        self.data@.skip(self.pos as int)
    }

    /// Source of the given bytes
    pub fn new(data: Vec<u8>) -> (r: Self)
        ensures
            r.rest() == data@,
    {
        let r = SliceReader { data, pos: 0 };
        assert(r.data@.skip(0) =~= r.data@);
        r
    }

    /// Read up to `max` bytes: as many as there are, up to `max`
    pub fn read(&mut self, max: usize) -> (r: &[u8])
        ensures
            r@ == old(self).rest().take(min_nat(max as nat, old(self).rest().len()) as int),
            final(self).rest() == old(self).rest().skip(r@.len() as int),
    {
        proof {
            use_type_invariant(&*self);
        }
        let avail = self.data.len() - self.pos;
        let n = if max < avail {
            max
        } else {
            avail
        };
        let start = self.pos;
        self.pos = start + n;
        let s = self.data.as_slice();
        let r = &s[start..start + n];
        assert(r@ =~= old(self).rest().take(n as int));
        assert(self.data@.skip(self.pos as int) =~= old(self).rest().skip(n as int));
        r
    }
}

/// Smaller of two natural numbers
pub open spec fn min_nat(a: nat, b: nat) -> nat {
    if a <= b {
        a
    } else {
        b
    }
}

// ---------------------------------------------------------------------------------------------
// Buffered reader
// ---------------------------------------------------------------------------------------------

/// Buffered reader: a fixed-size buffer that is refilled from a source and whose content is
/// consumed from the front
pub struct BufferedReader {
    buffer: Vec<u8>,
    start: usize,
    end: usize,
    eof: bool,
}

/// Bytes taken from the source by a refill: as many as fit, unless the end of the source was
/// seen already
pub open spec fn refill_amount(data_len: nat, cap: nat, eof: bool, available: nat) -> nat {
    if eof || data_len >= cap {
        0
    } else {
        min_nat((cap - data_len) as nat, available)
    }
}

/// Position of the first line break (`\r` or `\n`) at or after `i`
pub open spec fn line_break_from(s: Seq<u8>, i: int) -> Option<int>
    decreases s.len() - i,
{
    if i < 0 || i >= s.len() {
        None
    } else if s[i] == 0x0du8 || s[i] == 0x0au8 {
        Some(i)
    } else {
        line_break_from(s, i + 1)
    }
}

/// A line break found from `i` lies at or after `i` within the sequence
pub proof fn lemma_line_break_bound(s: Seq<u8>, i: int)
    requires
        0 <= i,
    ensures
        line_break_from(s, i) matches Some(p) ==> i <= p < s.len(),
    decreases s.len() - i,
{
    if 0 <= i < s.len() && !(s[i] == 0x0du8 || s[i] == 0x0au8) {
        lemma_line_break_bound(s, i + 1);
    }
}

/// Number of whitespace bytes at the front
pub open spec fn leading_ws(s: Seq<u8>) -> nat
    decreases s.len(),
{
    if s.len() > 0 && is_ascii_ws(s[0]) {
        1 + leading_ws(s.drop_first())
    } else {
        0
    }
}

impl BufferedReader {
    /// Positions within the buffer
    pub closed spec fn wf(&self) -> bool {
        self.start <= self.end <= self.buffer@.len() <= usize::MAX
    }

    /// Buffered data not consumed yet
    pub closed spec fn data(&self) -> Seq<u8> {
        self.buffer@.subrange(self.start as int, self.end as int)
    }

    /// Size of the buffer
    pub closed spec fn capacity(&self) -> nat {
        self.buffer@.len()
    }

    /// Position in the buffer up to which it is filled
    pub closed spec fn filled(&self) -> nat {
        self.end as nat
    }

    /// Whether the source has reported its end
    pub closed spec fn at_eof(&self) -> bool {
        self.eof
    }

    /// Whether the buffer is filled up to its end
    pub open spec fn is_full(&self) -> bool {
        self.filled() == self.capacity()
    }

    /// Create buffered reader with a buffer of the given size
    pub fn new(capacity: usize) -> (r: Self)
        ensures
            r.wf(),
            r.data() == Seq::<u8>::empty(),
            r.capacity() == capacity,
            r.filled() == 0,
            !r.at_eof(),
    {
        let mut buffer: Vec<u8> = Vec::new();
        let mut i: usize = 0;
        while i < capacity
            invariant
                i <= capacity,
                buffer@.len() == i,
            decreases capacity - i,
        {
            buffer.push(0u8);
            i = i + 1;
        }
        let r = BufferedReader { buffer, start: 0, end: 0, eof: false };
        assert(r.data() =~= Seq::<u8>::empty());
        r
    }

    /// Move remaining buffer data to the front of the buffer
    pub fn compact(&mut self)
        requires
            old(self).wf(),
        ensures
            final(self).wf(),
            final(self).data() == old(self).data(),
            final(self).filled() == old(self).data().len(),
            final(self).capacity() == old(self).capacity(),
            final(self).at_eof() == old(self).at_eof(),
    {
        if self.start > 0 && self.end > 0 {
            let ghost d = self.data();
            let n = self.end - self.start;
            let mut i: usize = 0;
            while i < n
                invariant
                    i <= n,
                    n == self.end - self.start,
                    self.start <= self.end <= self.buffer@.len(),
                    self.end == old(self).end,
                    self.start == old(self).start,
                    self.eof == old(self).eof,
                    d == old(self).buffer@.subrange(self.start as int, self.end as int),
                    self.buffer@.len() == old(self).buffer@.len(),
                    forall|j: int| 0 <= j < i ==> self.buffer@[j] == d[j],
                    forall|j: int| i <= j < n ==> self.buffer@[self.start + j] == d[j],
                decreases n - i,
            {
                let b = self.buffer[self.start + i];
                self.buffer.set(i, b);
                i = i + 1;
            }
            self.start = 0;
            self.end = n;
            assert(self.data() =~= d);
        }
    }

    /// Whether more data should be read into the buffer: the source has not ended and the
    /// buffer is not full
    pub fn wants_data(&self) -> (r: bool)
        ensures
            r == (!self.at_eof() && self.filled() < self.capacity()),
    {
        !self.eof && self.end < self.buffer.len()
    }

    /// Space left at the end of the buffer
    pub fn space(&self) -> (r: usize)
        requires
            self.wf(),
        ensures
            r == self.capacity() - self.filled(),
    {
        self.buffer.len() - self.end
    }

    /// Append bytes read from the source; no bytes means the source has ended
    pub fn fill(&mut self, bytes: &[u8])
        requires
            old(self).wf(),
            old(self).filled() + bytes@.len() <= old(self).capacity(),
        ensures
            final(self).wf(),
            final(self).data() == old(self).data() + bytes@,
            final(self).filled() == old(self).filled() + bytes@.len(),
            final(self).capacity() == old(self).capacity(),
            final(self).at_eof() == (old(self).at_eof() || bytes@.len() == 0),
    {
        let ghost d = self.data();
        let mut i: usize = 0;
        while i < bytes.len()
            invariant
                i <= bytes@.len(),
                self.start <= self.end,
                self.start == old(self).start,
                self.end == old(self).end,
                self.eof == old(self).eof,
                self.end + bytes@.len() <= self.buffer@.len(),
                self.buffer@.len() == old(self).buffer@.len(),
                self.buffer@.len() <= usize::MAX,
                self.buffer@.subrange(self.start as int, self.end as int) == d,
                forall|j: int| 0 <= j < i ==> self.buffer@[self.end + j] == bytes@[j],
            decreases bytes.len() - i,
        {
            let ghost before = self.buffer@;
            let at = self.end + i;
            self.buffer.set(at, bytes[i]);
            assert(self.buffer@.subrange(self.start as int, self.end as int) =~= before.subrange(
                self.start as int,
                self.end as int,
            ));
            i = i + 1;
        }
        if bytes.len() == 0 {
            self.eof = true;
        }
        self.end = self.end + bytes.len();
        assert(self.data() =~= d + bytes@);
    }

    /// Move remaining buffer data to the front and fill up the buffer from the source until it
    /// is full or the source has ended
    pub fn read(&mut self, source: &mut SliceReader)
        requires
            old(self).wf(),
        ensures
            final(self).wf(),
            final(self).data() == old(self).data() + old(source).rest().take(
                refill_amount(
                    old(self).data().len(),
                    old(self).capacity(),
                    old(self).at_eof(),
                    old(source).rest().len(),
                ) as int,
            ),
            final(source).rest() == old(source).rest().skip(
                refill_amount(
                    old(self).data().len(),
                    old(self).capacity(),
                    old(self).at_eof(),
                    old(source).rest().len(),
                ) as int,
            ),
            final(self).filled() == final(self).data().len(),
            final(self).capacity() == old(self).capacity(),
            final(self).at_eof() == (old(self).at_eof() || (old(self).data().len()
                < old(self).capacity() && old(source).rest().len() < old(self).capacity() - old(
                self,
            ).data().len())),
    {
        self.compact();
        let ghost d0 = self.data();
        let ghost r0 = source.rest();
        let ghost k = refill_amount(d0.len(), self.capacity(), self.at_eof(), r0.len());
        let mut taken: usize = 0;
        assert(r0.take(0) =~= Seq::<u8>::empty());
        assert(d0 + r0.take(0) =~= d0);
        assert(r0.skip(0) =~= r0);
        while self.wants_data()
            invariant
                self.wf(),
                self.data() == d0 + r0.take(taken as int),
                source.rest() == r0.skip(taken as int),
                self.filled() == self.data().len(),
                self.capacity() == old(self).capacity(),
                d0.len() <= self.capacity(),
                k == refill_amount(d0.len(), self.capacity(), old(self).at_eof(), r0.len()),
                !self.at_eof() ==> !old(self).at_eof(),
                !self.at_eof() ==> taken <= r0.len() && taken <= self.capacity() - d0.len(),
                self.at_eof() && !old(self).at_eof() ==> taken == r0.len() && d0.len() + r0.len()
                    < self.capacity(),
                old(self).at_eof() ==> self.at_eof() && taken == 0,
            decreases self.capacity() - self.filled() + (if self.at_eof() {
                0int
            } else {
                1int
            }),
        {
            let space = self.space();
            let chunk = source.read(space);
            let ghost n = chunk@.len();
            assert(r0.skip(taken as int).take(n as int) =~= r0.subrange(
                taken as int,
                taken + n,
            ));
            assert(r0.take(taken + n) =~= r0.take(taken as int) + r0.subrange(
                taken as int,
                taken + n,
            ));
            assert(r0.skip(taken as int).skip(n as int) =~= r0.skip(taken + n));
            self.fill(chunk);
            taken = taken + chunk.len();
        }
        assert(taken == k);
    }

    /// Consume data
    pub fn consume(&mut self, amt: usize)
        requires
            old(self).wf(),
        ensures
            final(self).wf(),
            final(self).data() == old(self).data().skip(
                min_nat(amt as nat, old(self).data().len()) as int,
            ),
            final(self).filled() == old(self).filled(),
            final(self).capacity() == old(self).capacity(),
            final(self).at_eof() == old(self).at_eof(),
    {
        if amt >= self.end - self.start {
            self.start = self.end;
        } else {
            self.start = self.start + amt;
        }
        assert(self.data() =~= old(self).data().skip(
            min_nat(amt as nat, old(self).data().len()) as int,
        ));
    }

    /// Currently buffered data to parse
    pub fn buffer(&self) -> (r: &[u8])
        requires
            self.wf(),
        ensures
            r@ == self.data(),
    {
        let s = self.buffer.as_slice();
        &s[self.start..self.end]
    }

    /// Trim leading whitespace from buffer
    pub fn trim_whitespace(&mut self)
        requires
            old(self).wf(),
        ensures
            final(self).wf(),
            final(self).data() == old(self).data().skip(leading_ws(old(self).data()) as int),
            final(self).filled() == old(self).filled(),
            final(self).capacity() == old(self).capacity(),
            final(self).at_eof() == old(self).at_eof(),
    {
        let ghost d = self.data();
        assert(d.skip(0) =~= d);
        while self.start < self.end && (self.buffer[self.start] == 0x20u8 || self.buffer[self.start]
            == 0x09u8 || self.buffer[self.start] == 0x0au8 || self.buffer[self.start] == 0x0cu8
            || self.buffer[self.start] == 0x0du8)
            invariant
                old(self).start <= self.start <= self.end,
                self.end <= self.buffer@.len(),
                self.end == old(self).end,
                self.buffer@ == old(self).buffer@,
                self.eof == old(self).eof,
                d == old(self).data(),
                leading_ws(d) == (self.start - old(self).start) + leading_ws(self.data()),
                self.data() == d.skip(self.start - old(self).start),
            decreases self.end - self.start,
        {
            let ghost cur = self.data();
            assert(cur[0] == self.buffer@[self.start as int]);
            self.start = self.start + 1;
            assert(cur.drop_first() =~= self.data());
            assert(self.data() =~= d.skip(self.start - old(self).start));
        }
        proof {
            let cur = self.data();
            if cur.len() > 0 {
                assert(cur[0] == self.buffer@[self.start as int]);
            }
        }
    }

    /// Peek next byte in buffer
    pub fn peek(&self) -> (r: Result<u8, Error>)
        requires
            self.wf(),
        ensures
            self.data().len() > 0 ==> (r matches Ok(b) && b == self.data()[0]),
            self.data().len() == 0 && self.is_full() ==> r == Err::<u8, Error>(Error::BufferTooSmall),
            self.data().len() == 0 && !self.is_full() ==> r == Err::<u8, Error>(Error::EofWhileParsing),
    {
        if self.start < self.end {
            Ok(self.buffer[self.start])
        } else if self.end == self.buffer.len() {
            Err(Error::BufferTooSmall)
        } else {
            Err(Error::EofWhileParsing)
        }
    }

    /// Peek next line in buffer: the data up to the first line break, or all data if the
    /// buffer has no line break and is not full
    pub fn peek_line(&self) -> (r: Result<&[u8], Error>)
        requires
            self.wf(),
        ensures
            r matches Ok(l) ==> l@.len() < self.capacity(),
            match line_break_from(self.data(), 0) {
                Some(pos) => r matches Ok(l) && l@ == self.data().take(pos),
                None => if self.is_full() {
                    r matches Err(Error::BufferTooSmall)
                } else {
                    r matches Ok(l) && l@ == self.data()
                },
            },
    {
        let buf = self.buffer();
        let mut i: usize = 0;
        while i < buf.len()
            invariant
                i <= buf@.len(),
                buf@.len() <= self.filled() <= self.capacity(),
                buf@ == self.data(),
                line_break_from(buf@, 0) == line_break_from(buf@, i as int),
            decreases buf.len() - i,
        {
            if buf[i] == 0x0du8 || buf[i] == 0x0au8 {
                return Ok(&buf[0..i]);
            }
            i = i + 1;
        }
        if self.end == self.buffer.len() {
            Err(Error::BufferTooSmall)
        } else {
            Ok(buf)
        }
    }
}

// ---------------------------------------------------------------------------------------------
// Line reader
// ---------------------------------------------------------------------------------------------

/// Line reader: reads the input line by line
pub struct LineReader {
    buffer: BufferedReader,
    last_line_len: usize,
}

/// What a line reader has still to read: its buffered data after the line returned last and,
/// unless the source has reported its end, the rest of the source
pub open spec fn unread(lines: LineReader, source: SliceReader) -> Seq<u8> {
    let d = lines.reader().data();
    d.skip(min_nat(lines.pending(), d.len()) as int) + if lines.reader().at_eof() {
        Seq::<u8>::empty()
    } else {
        source.rest()
    }
}

/// The buffered data fits into the buffer
pub proof fn lemma_data_fits(r: BufferedReader)
    requires
        r.wf(),
    ensures
        r.data().len() <= r.capacity(),
{
}

impl LineReader {
    /// The buffered reader underneath
    pub closed spec fn reader(&self) -> BufferedReader {
        self.buffer
    }

    /// Number of bytes of the line returned last, including its line break
    pub closed spec fn pending(&self) -> nat {
        self.last_line_len as nat
    }

    /// The buffered reader is well formed
    pub open spec fn wf(&self) -> bool {
        self.reader().wf()
    }

    /// Create line reader with a buffer of the given size
    pub fn new(capacity: usize) -> (r: Self)
        ensures
            r.wf(),
            r.reader().data() == Seq::<u8>::empty(),
            r.reader().capacity() == capacity,
            r.reader().filled() == 0,
            !r.reader().at_eof(),
            r.pending() == 0,
    {
        LineReader { buffer: BufferedReader::new(capacity), last_line_len: 0 }
    }

    /// Return the next line (without its line break), or `None` at the end of input: consumes
    /// the previous line with its line break, refills the buffer and takes the data up to the
    /// next line break
    pub fn next(&mut self, source: &mut SliceReader) -> (r: Result<Option<Vec<u8>>, Error>)
        requires
            old(self).wf(),
        ensures
            final(self).wf(),
            r matches Ok(Some(_)) ==> final(self).pending() >= 1,
            r matches Ok(Some(_)) ==> final(self).reader().data().len() > 0,
            ({
                let d1 = old(self).reader().data().skip(
                    min_nat(old(self).pending(), old(self).reader().data().len()) as int,
                );
                let cap = old(self).reader().capacity();
                let k = refill_amount(
                    d1.len(),
                    cap,
                    old(self).reader().at_eof(),
                    old(source).rest().len(),
                );
                let d2 = d1 + old(source).rest().take(k as int);
                &&& final(self).reader().data() == d2
                &&& final(source).rest() == old(source).rest().skip(k as int)
                &&& final(self).reader().capacity() == cap
                &&& final(self).reader().at_eof() == (old(self).reader().at_eof() || (d1.len()
                    < cap && old(source).rest().len() < cap - d1.len()))
                &&& if d2.len() == 0 {
                    r matches Ok(None)
                } else {
                    match line_break_from(d2, 0) {
                        Some(pos) => r matches Ok(Some(l)) && l@ == d2.take(pos)
                            && final(self).pending() == pos + 1,
                        None => if d2.len() == old(self).reader().capacity() {
                            r matches Err(Error::BufferTooSmall)
                        } else {
                            r matches Ok(Some(l)) && l@ == d2 && final(self).pending() == d2.len()
                                + 1
                        },
                    }
                }
            }),
    {
        self.buffer.consume(self.last_line_len);
        self.buffer.read(source);
        if self.buffer.buffer().len() == 0 {
            return Ok(None);
        }
        let line = match self.buffer.peek_line() {
            Ok(l) => l,
            Err(e) => return Err(e),
        };
        proof {
            lemma_line_break_bound(self.buffer.data(), 0);
        }
        let mut out: Vec<u8> = Vec::new();
        let mut i: usize = 0;
        while i < line.len()
            invariant
                i <= line@.len(),
                out@ == line@.take(i as int),
            decreases line.len() - i,
        {
            out.push(line[i]);
            assert(line@.take(i + 1) =~= line@.take(i as int).push(line@[i as int]));
            i = i + 1;
        }
        assert(line@.take(i as int) =~= line@);
        self.last_line_len = line.len() + 1;
        Ok(Some(out))
    }
}

// ---------------------------------------------------------------------------------------------
// Streaming JSON object reader
// ---------------------------------------------------------------------------------------------

/// What `serde_json`'s stream deserializer makes of the bytes when asked for a string: `None`
/// if there is only whitespace, an error if they do not start (after whitespace) with a JSON
/// string, else the string and the position after it
pub uninterp spec fn json_string_front(buf: Seq<u8>) -> Option<Result<(Seq<char>, nat), ()>>;

/// What `serde_json`'s stream deserializer makes of the bytes when asked for any value: `None`
/// if there is only whitespace, an error if they do not start (after whitespace) with a JSON
/// value, else the position after the value
pub uninterp spec fn json_value_front(buf: Seq<u8>) -> Option<Result<nat, ()>>;

/// `serde_json::Deserializer::from_slice(buf).into_iter::<String>()`: its first item and
/// `byte_offset` after it. Stated: the result is the name `json_string_front` of the bytes, and
/// the offset lies within them; the parser's error is not kept.
#[verifier::external_body]
fn next_json_string(buf: &[u8]) -> (r: Option<Result<(String, usize), ()>>)
    ensures
        match r {
            None => json_string_front(buf@) is None,
            Some(Ok((s, n))) => json_string_front(buf@) == Some(Ok::<(Seq<char>, nat), ()>(
                (s@, n as nat),
            )) && n <= buf@.len(),
            Some(Err(_)) => json_string_front(buf@) == Some(Err::<(Seq<char>, nat), ()>(())),
        },
{
    let mut de = serde_json::Deserializer::from_slice(buf).into_iter::<String>();
    match de.next() {
        None => None,
        Some(Ok(s)) => Some(Ok((s, de.byte_offset()))),
        Some(Err(_)) => Some(Err(())),
    }
}

/// `serde_json::Deserializer::from_slice(buf).into_iter::<serde::de::IgnoredAny>()`: whether
/// its first item is a JSON value and `byte_offset` after it. Stated: the result is the name
/// `json_value_front` of the bytes, and the offset lies within them.
#[verifier::external_body]
fn next_json_value(buf: &[u8]) -> (r: Option<Result<usize, ()>>)
    ensures
        match r {
            None => json_value_front(buf@) is None,
            Some(Ok(n)) => json_value_front(buf@) == Some(Ok::<nat, ()>(n as nat)) && n
                <= buf@.len(),
            Some(Err(_)) => json_value_front(buf@) == Some(Err::<nat, ()>(())),
        },
{
    let mut de = serde_json::Deserializer::from_slice(buf).into_iter::<serde::de::IgnoredAny>();
    match de.next() {
        None => None,
        Some(Ok(_)) => Some(Ok(de.byte_offset())),
        Some(Err(_)) => Some(Err(())),
    }
}

/// Result of peeking at the front of buffered data
pub open spec fn peek_result(d: Seq<u8>, full: bool) -> Result<u8, Error> {
    if d.len() > 0 {
        Ok(d[0])
    } else if full {
        Err(Error::BufferTooSmall)
    } else {
        Err(Error::EofWhileParsing)
    }
}

/// Skip whitespace at `at` and expect the given byte: the position after it, or the error and
/// the position reached
pub open spec fn expect_at(d: Seq<u8>, at: nat, full: bool, want: u8, err: Error) -> Result<
    nat,
    (Error, nat),
> {
    let w = at + leading_ws(d.skip(at as int));
    match peek_result(d.skip(w as int), full) {
        Ok(b) => if b == want {
            Ok(w + 1)
        } else {
            Err((err, w))
        },
        Err(e) => Err((e, w)),
    }
}

/// What the parser found at the front of the data when asked for a string, as views
pub open spec fn key_found(found: Option<Result<(String, usize), ()>>) -> Option<
    Result<(Seq<char>, nat), ()>,
> {
    match found {
        None => None,
        Some(Err(_)) => Some(Err(())),
        Some(Ok((k, n))) => Some(Ok((k@, n as nat))),
    }
}

/// What the parser found at the front of the data when asked for a value, as views
pub open spec fn value_found(found: Option<Result<usize, ()>>) -> Option<Result<nat, ()>> {
    match found {
        None => None,
        Some(Err(_)) => Some(Err(())),
        Some(Ok(n)) => Some(Ok(n as nat)),
    }
}

/// What follows a key at the front of the data, given what the parser found there: the key and
/// the position after the colon that must come next, or the error and the position reached
pub open spec fn key_step(d: Seq<u8>, full: bool, found: Option<Result<(Seq<char>, nat), ()>>) -> Result<
    (Seq<char>, nat),
    (Error, nat),
> {
    match found {
        None => Err((Error::EofWhileParsing, 0)),
        Some(Err(_)) => Err((Error::Json, 0)),
        Some(Ok((k, n))) => match expect_at(d, n, full, 0x3au8, Error::ExpectedColon) {
            Ok(a) => Ok((k, a)),
            Err((e, a)) => Err((e, a)),
        },
    }
}

/// What follows a value at the front of the data, given what the parser found there: the
/// value's text, the position after the comma or closing brace that must come next, and whether
/// it was the closing brace; or the error and the position reached
pub open spec fn value_step(d: Seq<u8>, full: bool, found: Option<Result<nat, ()>>) -> Result<
    (Seq<u8>, nat, bool),
    (Error, nat),
> {
    match found {
        None => Err((Error::EofWhileParsing, 0)),
        Some(Err(_)) => Err((Error::Json, 0)),
        Some(Ok(n)) => {
            let w = n + leading_ws(d.skip(n as int));
            match peek_result(d.skip(w as int), full) {
                Ok(b) => if b == 0x2cu8 {
                    Ok((d.take(n as int), w + 1, false))
                } else if b == 0x7du8 {
                    Ok((d.take(n as int), w + 1, true))
                } else {
                    Err((Error::ExpectedObjectCommaOrEnd, w))
                },
                Err(e) => Err((e, w)),
            }
        },
    }
}

/// One step of reading object fields from buffered data: the result (a key and the text of its
/// value, or `None` after the end of the object), the number of bytes consumed, and whether the
/// opening brace and the closing brace have been read afterwards. Keys and values are found by
/// the parser (`json_string_front`, `json_value_front`).
pub open spec fn object_step(d: Seq<u8>, full: bool, initialized: bool, done: bool) -> (
    Result<Option<(Seq<char>, Seq<u8>)>, Error>,
    nat,
    bool,
    bool,
) {
    if done {
        let w = leading_ws(d);
        match peek_result(d.skip(w as int), full) {
            Ok(_) => (Err(Error::TrailingCharacters), w, initialized, done),
            Err(Error::EofWhileParsing) => (Ok(None), w, initialized, done),
            Err(e) => (Err(e), w, initialized, done),
        }
    } else {
        let open: Result<nat, (Error, nat)> = if initialized {
            Ok(0)
        } else {
            expect_at(d, 0, full, 0x7bu8, Error::ExpectedObjectBegin)
        };
        match open {
            Err((e, n)) => (Err(e), n, initialized, done),
            Ok(a0) => match key_step(d.skip(a0 as int), full, json_string_front(d.skip(a0 as int))) {
                Err((e, n)) => (Err(e), a0 + n, true, done),
                Ok((k, a)) => {
                    let a2 = a0 + a;
                    match value_step(d.skip(a2 as int), full, json_value_front(d.skip(a2 as int))) {
                        Err((e, n)) => (Err(e), a2 + n, true, done),
                        Ok((v, b, closed)) => (Ok(Some((k, v))), a2 + b, true, closed),
                    }
                },
            },
        }
    }
}

/// Streaming JSON object reader: reads a JSON object field by field, needing only one field to
/// fit into the buffer rather than the whole object. Each field's value is handed out as its
/// JSON text, for the caller to turn into its own type.
pub struct StreamingJsonObjectReader {
    buffer: BufferedReader,
    initialized: bool,
    done: bool,
}

impl StreamingJsonObjectReader {
    /// The buffered reader underneath
    pub closed spec fn reader(&self) -> BufferedReader {
        self.buffer
    }

    /// Whether the opening brace has been read
    pub closed spec fn started(&self) -> bool {
        self.initialized
    }

    /// Whether the closing brace has been read
    pub closed spec fn finished(&self) -> bool {
        self.done
    }

    /// The buffered reader is well formed
    pub open spec fn wf(&self) -> bool {
        self.reader().wf()
    }

    /// Create streaming JSON object reader with a buffer of the given size
    pub fn new(capacity: usize) -> (r: Self)
        ensures
            r.wf(),
            r.reader().data() == Seq::<u8>::empty(),
            r.reader().capacity() == capacity,
            r.reader().filled() == 0,
            !r.reader().at_eof(),
            !r.started(),
            !r.finished(),
    {
        StreamingJsonObjectReader { buffer: BufferedReader::new(capacity), initialized: false, done: false }
    }

    /// Make room in the buffer for more data
    pub fn compact(&mut self)
        requires
            old(self).wf(),
        ensures
            final(self).wf(),
            final(self).reader().data() == old(self).reader().data(),
            final(self).reader().filled() == old(self).reader().data().len(),
            final(self).reader().capacity() == old(self).reader().capacity(),
            final(self).reader().at_eof() == old(self).reader().at_eof(),
            final(self).started() == old(self).started(),
            final(self).finished() == old(self).finished(),
    {
        self.buffer.compact();
    }

    /// Whether more data should be read into the buffer
    pub fn wants_data(&self) -> (r: bool)
        ensures
            r == (!self.reader().at_eof() && self.reader().filled() < self.reader().capacity()),
    {
        self.buffer.wants_data()
    }

    /// Space left at the end of the buffer
    pub fn space(&self) -> (r: usize)
        requires
            self.wf(),
        ensures
            r == self.reader().capacity() - self.reader().filled(),
    {
        self.buffer.space()
    }

    /// Append bytes read from the source; no bytes means the source has ended
    pub fn fill(&mut self, bytes: &[u8])
        requires
            old(self).wf(),
            old(self).reader().filled() + bytes@.len() <= old(self).reader().capacity(),
        ensures
            final(self).wf(),
            final(self).reader().data() == old(self).reader().data() + bytes@,
            final(self).reader().filled() == old(self).reader().filled() + bytes@.len(),
            final(self).reader().capacity() == old(self).reader().capacity(),
            final(self).reader().at_eof() == (old(self).reader().at_eof() || bytes@.len() == 0),
            final(self).started() == old(self).started(),
            final(self).finished() == old(self).finished(),
    {
        self.buffer.fill(bytes);
    }

    /// Return the next key and the JSON text of its value from the buffered data, or `None`
    /// after the end of the object
    #[verifier::rlimit(60)]
    #[verifier::spinoff_prover]
    pub fn next_buffered(&mut self) -> (r: Result<Option<(String, Vec<u8>)>, Error>)
        requires
            old(self).wf(),
        ensures
            final(self).wf(),
            final(self).reader().capacity() == old(self).reader().capacity(),
            final(self).reader().filled() == old(self).reader().filled(),
            final(self).reader().at_eof() == old(self).reader().at_eof(),
            ({
                let (res, n, init, done) = object_step(
                    old(self).reader().data(),
                    old(self).reader().is_full(),
                    old(self).started(),
                    old(self).finished(),
                );
                &&& final(self).reader().data() == old(self).reader().data().skip(n as int)
                &&& final(self).started() == init
                &&& final(self).finished() == done
                &&& match res {
                    Ok(None) => r matches Ok(None),
                    Ok(Some((k, v))) => r matches Ok(Some((k2, v2))) && k2@ == k && v2@ == v,
                    Err(e) => r == Err::<Option<(String, Vec<u8>)>, Error>(e),
                }
            }),
    {
        let ghost d = self.buffer.data();
        let ghost full = self.buffer.is_full();
        proof {
            lemma_leading_ws_bound(d);
        }
        assert(d.skip(0) =~= d);
        if self.done {
            self.buffer.trim_whitespace();
            return match self.buffer.peek() {
                Ok(_) => Err(Error::TrailingCharacters),
                Err(Error::EofWhileParsing) => Ok(None),
                Err(e) => Err(e),
            };
        }
        if !self.initialized {
            self.buffer.trim_whitespace();
            match self.buffer.peek() {
                Ok(b) => {
                    if b == 0x7bu8 {
                        self.buffer.consume(1);
                        assert(d.skip(leading_ws(d) as int).skip(1) =~= d.skip(leading_ws(d) + 1int));
                    } else {
                        return Err(Error::ExpectedObjectBegin);
                    }
                },
                Err(e) => return Err(e),
            }
            self.initialized = true;
        } else {
            assert(d.skip(0) =~= d);
        }
        let ghost a0 = (d.len() - self.buffer.data().len()) as nat;
        assert(self.buffer.data() =~= d.skip(a0 as int));
        let found_key = next_json_string(self.buffer.buffer());
        let res_key = self.after_key(found_key);
        proof {
            let e0 = d.skip(a0 as int);
            match key_step(e0, full, key_found(found_key)) {
                Ok((_, a)) => assert(e0.skip(a as int) =~= d.skip((a0 + a) as int)),
                Err((_, a)) => assert(e0.skip(a as int) =~= d.skip((a0 + a) as int)),
            }
        }
        let key = match res_key {
            Ok(k) => k,
            Err(e) => return Err(e),
        };
        let ghost a2 = (d.len() - self.buffer.data().len()) as nat;
        assert(self.buffer.data() =~= d.skip(a2 as int));
        let found_value = next_json_value(self.buffer.buffer());
        let res_value = self.after_value(found_value);
        proof {
            let e2 = d.skip(a2 as int);
            match value_step(e2, full, value_found(found_value)) {
                Ok((_, a, _)) => assert(e2.skip(a as int) =~= d.skip((a2 + a) as int)),
                Err((_, a)) => assert(e2.skip(a as int) =~= d.skip((a2 + a) as int)),
            }
        }
        let value = match res_value {
            Ok(v) => v,
            Err(e) => return Err(e),
        };
        let ghost a4 = (d.len() - self.buffer.data().len()) as nat;
        assert(self.buffer.data() =~= d.skip(a4 as int));
        Ok(Some((key, value)))
    }

    /// Take a key at the front of the buffered data, given what the parser found there (the key
    /// and the number of bytes it takes), and the colon that must follow it
    pub fn after_key(&mut self, found: Option<Result<(String, usize), ()>>) -> (r: Result<String, Error>)
        requires
            old(self).wf(),
            found matches Some(Ok((_, n))) ==> n <= old(self).reader().data().len(),
        ensures
            final(self).wf(),
            final(self).reader().capacity() == old(self).reader().capacity(),
            final(self).reader().filled() == old(self).reader().filled(),
            final(self).reader().at_eof() == old(self).reader().at_eof(),
            final(self).started() == old(self).started(),
            final(self).finished() == old(self).finished(),
            match key_step(old(self).reader().data(), old(self).reader().is_full(), key_found(found)) {
                Ok((k, a)) => r matches Ok(x) && x@ == k && a <= old(self).reader().data().len()
                    && final(self).reader().data() == old(self).reader().data().skip(a as int),
                Err((e, a)) => r == Err::<String, Error>(e) && a <= old(self).reader().data().len()
                    && final(self).reader().data() == old(self).reader().data().skip(a as int),
            },
    {
        let ghost d = self.buffer.data();
        assert(d.skip(0) =~= d);
        match found {
            None => Err(Error::EofWhileParsing),
            Some(Err(_)) => Err(Error::Json),
            Some(Ok((k, n))) => {
                self.buffer.consume(n);
                assert(self.buffer.data() =~= d.skip(n as int));
                self.consume_ws_then(Ghost(d), Ghost(n as nat));
                let ghost w = n + leading_ws(d.skip(n as int));
                match self.buffer.peek() {
                    Ok(b) => {
                        if b == 0x3au8 {
                            self.buffer.consume(1);
                            assert(d.skip(w as int).skip(1) =~= d.skip(w + 1));
                            Ok(k)
                        } else {
                            Err(Error::ExpectedColon)
                        }
                    },
                    Err(e) => Err(e),
                }
            },
        }
    }

    /// Take a value at the front of the buffered data, given what the parser found there (the
    /// number of bytes it takes), and the comma or closing brace that must follow it
    pub fn after_value(&mut self, found: Option<Result<usize, ()>>) -> (r: Result<Vec<u8>, Error>)
        requires
            old(self).wf(),
            found matches Some(Ok(n)) ==> n <= old(self).reader().data().len(),
        ensures
            final(self).wf(),
            final(self).reader().capacity() == old(self).reader().capacity(),
            final(self).reader().filled() == old(self).reader().filled(),
            final(self).reader().at_eof() == old(self).reader().at_eof(),
            final(self).started() == old(self).started(),
            match value_step(
                old(self).reader().data(),
                old(self).reader().is_full(),
                value_found(found),
            ) {
                Ok((v, a, closed)) => r matches Ok(x) && x@ == v && a <= old(
                    self,
                ).reader().data().len() && final(self).reader().data() == old(
                    self,
                ).reader().data().skip(a as int) && final(self).finished() == (old(
                    self,
                ).finished() || closed),
                Err((e, a)) => r == Err::<Vec<u8>, Error>(e) && a <= old(self).reader().data().len()
                    && final(self).reader().data() == old(self).reader().data().skip(a as int)
                    && final(self).finished() == old(self).finished(),
            },
    {
        let ghost d = self.buffer.data();
        assert(d.skip(0) =~= d);
        match found {
            None => Err(Error::EofWhileParsing),
            Some(Err(_)) => Err(Error::Json),
            Some(Ok(n)) => {
                let text = copy_bytes(self.buffer.buffer(), n);
                self.buffer.consume(n);
                assert(self.buffer.data() =~= d.skip(n as int));
                self.consume_ws_then(Ghost(d), Ghost(n as nat));
                let ghost w = n + leading_ws(d.skip(n as int));
                match self.buffer.peek() {
                    Ok(b) => {
                        if b == 0x2cu8 {
                            self.buffer.consume(1);
                            assert(d.skip(w as int).skip(1) =~= d.skip(w + 1));
                            Ok(text)
                        } else if b == 0x7du8 {
                            self.buffer.consume(1);
                            self.done = true;
                            assert(d.skip(w as int).skip(1) =~= d.skip(w + 1));
                            Ok(text)
                        } else {
                            Err(Error::ExpectedObjectCommaOrEnd)
                        }
                    },
                    Err(e) => Err(e),
                }
            },
        }
    }

    /// Trim whitespace, knowing that the buffered data is what follows position `at` of `d`
    fn consume_ws_then(&mut self, Ghost(d): Ghost<Seq<u8>>, Ghost(at): Ghost<nat>)
        requires
            old(self).wf(),
            at <= d.len(),
            old(self).reader().data() == d.skip(at as int),
        ensures
            final(self).wf(),
            final(self).reader().data() == d.skip((at + leading_ws(d.skip(at as int))) as int),
            at + leading_ws(d.skip(at as int)) <= d.len(),
            final(self).reader().capacity() == old(self).reader().capacity(),
            final(self).reader().filled() == old(self).reader().filled(),
            final(self).reader().at_eof() == old(self).reader().at_eof(),
            final(self).started() == old(self).started(),
            final(self).finished() == old(self).finished(),
    {
        proof {
            lemma_leading_ws_bound(d.skip(at as int));
        }
        self.buffer.trim_whitespace();
        assert(d.skip(at as int).skip(leading_ws(d.skip(at as int)) as int) =~= d.skip(
            (at + leading_ws(d.skip(at as int))) as int,
        ));
    }

    /// Return the next key and the JSON text of its value, refilling the buffer from the
    /// source first
    pub fn next(&mut self, source: &mut SliceReader) -> (r: Result<Option<(String, Vec<u8>)>, Error>)
        requires
            old(self).wf(),
        ensures
            final(self).wf(),
            final(self).reader().capacity() == old(self).reader().capacity(),
            ({
                let k = refill_amount(
                    old(self).reader().data().len(),
                    old(self).reader().capacity(),
                    old(self).reader().at_eof(),
                    old(source).rest().len(),
                );
                let d = old(self).reader().data() + old(source).rest().take(k as int);
                let (res, n, init, done) = object_step(
                    d,
                    d.len() == old(self).reader().capacity(),
                    old(self).started(),
                    old(self).finished(),
                );
                &&& final(source).rest() == old(source).rest().skip(k as int)
                &&& final(self).reader().data() == d.skip(n as int)
                &&& final(self).started() == init
                &&& final(self).finished() == done
                &&& match res {
                    Ok(None) => r matches Ok(None),
                    Ok(Some((key, v))) => r matches Ok(Some((k2, v2))) && k2@ == key && v2@ == v,
                    Err(e) => r == Err::<Option<(String, Vec<u8>)>, Error>(e),
                }
            }),
    {
        self.buffer.read(source);
        self.next_buffered()
    }
}

proof fn lemma_leading_ws_bound(s: Seq<u8>)
    ensures
        leading_ws(s) <= s.len(),
    decreases s.len(),
{
    if s.len() > 0 && is_ascii_ws(s[0]) {
        lemma_leading_ws_bound(s.drop_first());
    }
}

/// Copy of the first `n` bytes
fn copy_bytes(s: &[u8], n: usize) -> (r: Vec<u8>)
    requires
        n <= s@.len(),
    ensures
        r@ == s@.take(n as int),
{
    let mut out: Vec<u8> = Vec::new();
    let mut i: usize = 0;
    while i < n
        invariant
            i <= n,
            n <= s@.len(),
            out@ == s@.take(i as int),
        decreases n - i,
    {
        out.push(s[i]);
        assert(s@.take(i + 1) =~= s@.take(i as int).push(s@[i as int]));
        i = i + 1;
    }
    out
}

} // verus!
