//! PN532 NFC controller protocol: building command frames, checking ACK frames and parsing
//! response frames (PN532 user manual, section 6.2)

use vstd::prelude::*;

verus! {

/// Response buffer size (32 is the PN532 default)
pub const BUFFER_SIZE: usize = 32;

/// Frame identifier of frames from the host to the PN532
pub const HOST_TO_PN532: u8 = 0xD4;

/// Frame identifier of frames from the PN532 to the host
pub const PN532_TO_HOST: u8 = 0xD5;

/// Last byte of every frame
pub const POSTAMBLE: u8 = 0x00;

/// PN532 protocol error
#[derive(Debug, Clone, Copy, PartialEq, Eq, Structural)]
pub enum Error {
    /// The ACK frame was not the expected one
    BadAck,
    /// The response frame is malformed
    BadResponseFrame,
    /// The PN532 answered with a syntax error frame
    Syntax,
    /// A checksum of the response frame does not match
    CrcError,
    /// The response does not fit into the buffer
    BufTooSmall,
    /// No ACK came in time
    TimeoutAck,
    /// No response came in time
    TimeoutResponse,
}

/// Frame start
pub open spec fn preamble() -> Seq<u8> {
    seq![0x00u8, 0x00u8, 0xFFu8]
}

/// ACK frame
pub open spec fn ack_frame() -> Seq<u8> {
    seq![0x00u8, 0x00u8, 0xFFu8, 0x00u8, 0xFFu8, 0x00u8]
}

/// Sum of bytes
pub open spec fn byte_sum(s: Seq<u8>) -> nat
    decreases s.len(),
{
    if s.len() == 0 {
        0
    } else {
        (byte_sum(s.drop_last()) + s.last()) as nat
    }
}

/// Checksum byte that makes a sum zero modulo 256: `(!sum).wrapping_add(1)`
pub open spec fn checksum(sum: int) -> u8 {
    ((256 - sum % 256) % 256) as u8
}

/// A normal information frame: preamble, length and its checksum, frame identifier, command,
/// data, data checksum and postamble
pub open spec fn frame(tfi: u8, command: u8, data: Seq<u8>) -> Seq<u8> {
    let len = (2 + data.len()) as u8;
    preamble() + seq![len, checksum(len as int), tfi, command] + data + seq![
        checksum(tfi + command + byte_sum(data)),
        POSTAMBLE,
    ]
}

/// Result of parsing a response frame for the given response command: the range of its data
/// in the buffer
pub open spec fn spec_parse_response(buf: Seq<u8>, expected: u8) -> Result<(int, int), Error> {
    let len = buf[3] as int;
    if buf.subrange(0, 3) != preamble() {
        Err(Error::BadResponseFrame)
    } else if (len + buf[4]) % 256 != 0 {
        Err(Error::CrcError)
    } else if len == 0 {
        Err(Error::BadResponseFrame)
    } else if len == 1 {
        Err(Error::Syntax)
    } else if 6 + len >= buf.len() {
        Err(Error::BufTooSmall)
    } else if buf[6 + len] != POSTAMBLE {
        Err(Error::BadResponseFrame)
    } else if buf[5] != PN532_TO_HOST || buf[6] != expected {
        Err(Error::BadResponseFrame)
    } else if byte_sum(buf.subrange(5, 6 + len)) % 256 != 0 {
        Err(Error::CrcError)
    } else {
        Ok((7, 5 + len))
    }
}

/// Sum of the bytes of a slice, up to an end position
fn sum_bytes(s: &[u8], start: usize, end: usize) -> (r: u64)
    requires
        start <= end <= s@.len(),
        end - start <= 256,
    ensures
        r == byte_sum(s@.subrange(start as int, end as int)),
{
    let mut sum: u64 = 0;
    let mut i = start;
    assert(s@.subrange(start as int, start as int) =~= Seq::<u8>::empty());
    while i < end
        invariant
            start <= i <= end <= s@.len(),
            end - start <= 256,
            sum == byte_sum(s@.subrange(start as int, i as int)),
            sum <= 255 * (i - start),
        decreases end - i,
    {
        assert(s@.subrange(start as int, i + 1).drop_last() =~= s@.subrange(
            start as int,
            i as int,
        ));
        sum = sum + s[i] as u64;
        i = i + 1;
    }
    sum
}

/// Parse a PN532 response frame: the data it carries, if it is a well formed response to the
/// command whose response command is given
pub fn parse_response(response_buf: &[u8], expected_response_command: u8) -> (r: Result<&[u8], Error>)
    requires
        response_buf@.len() >= 5,
    ensures
        match spec_parse_response(response_buf@, expected_response_command) {
            Ok((a, b)) => r matches Ok(d) && d@ == response_buf@.subrange(a, b),
            Err(e) => r == Err::<&[u8], Error>(e),
        },
{
    let buf = response_buf;
    if !(buf[0] == 0x00u8 && buf[1] == 0x00u8 && buf[2] == 0xFFu8) {
        proof {
            if buf@.subrange(0, 3) == preamble() {
                assert(buf@.subrange(0, 3)[0] == buf@[0]);
                assert(buf@.subrange(0, 3)[1] == buf@[1]);
                assert(buf@.subrange(0, 3)[2] == buf@[2]);
            }
        }
        return Err(Error::BadResponseFrame);
    }
    assert(buf@.subrange(0, 3) =~= preamble());
    let frame_len = buf[3] as usize;
    if (frame_len + buf[4] as usize) % 256 != 0 {
        return Err(Error::CrcError);
    }
    if frame_len == 0 {
        return Err(Error::BadResponseFrame);
    }
    if frame_len == 1 {
        return Err(Error::Syntax);
    }
    if 6 + frame_len >= buf.len() {
        return Err(Error::BufTooSmall);
    }
    if buf[6 + frame_len] != POSTAMBLE {
        return Err(Error::BadResponseFrame);
    }
    if buf[5] != PN532_TO_HOST || buf[6] != expected_response_command {
        return Err(Error::BadResponseFrame);
    }
    let checksum = sum_bytes(buf, 5, 6 + frame_len);
    if checksum % 256 != 0 {
        return Err(Error::CrcError);
    }
    Ok(&buf[7..5 + frame_len])
}

/// Whether bytes read are the ACK frame
pub fn is_ack(ack_buf: &[u8]) -> (r: bool)
    ensures
        r == (ack_buf@ == ack_frame()),
{
    if ack_buf.len() != 6 {
        return false;
    }
    let r = ack_buf[0] == 0x00u8 && ack_buf[1] == 0x00u8 && ack_buf[2] == 0xFFu8 && ack_buf[3]
        == 0x00u8 && ack_buf[4] == 0xFFu8 && ack_buf[5] == 0x00u8;
    if r {
        assert(ack_buf@ =~= ack_frame());
    } else {
        assert(ack_buf@ != ack_frame()) by {
            if ack_buf@ == ack_frame() {
                assert(ack_buf@[0] == ack_frame()[0]);
                assert(ack_buf@[1] == ack_frame()[1]);
                assert(ack_buf@[2] == ack_frame()[2]);
                assert(ack_buf@[3] == ack_frame()[3]);
                assert(ack_buf@[4] == ack_frame()[4]);
                assert(ack_buf@[5] == ack_frame()[5]);
            }
        }
    }
    r
}

/// Result of checking an ACK frame
pub fn check_ack(ack_buf: &[u8]) -> (r: Result<(), Error>)
    ensures
        r is Ok <==> ack_buf@ == ack_frame(),
        r is Err ==> r == Err::<(), Error>(Error::BadAck),
{
    if is_ack(ack_buf) {
        Ok(())
    } else {
        Err(Error::BadAck)
    }
}

/// PN532 I2C interface with ready status interrupt: the bus and the interrupt line
#[derive(Debug)]
pub struct I2CInterfaceWithIrq<I2C, IRQ> {
    pub i2c: I2C,
    pub irq: IRQ,
}

impl<I2C, IRQ> I2CInterfaceWithIrq<I2C, IRQ> {
    /// Create the interface from the bus and the interrupt line
    pub fn new(i2c: I2C, irq: IRQ) -> (r: Self)
        ensures
            r.i2c == i2c,
            r.irq == irq,
    {
        I2CInterfaceWithIrq { i2c, irq }
    }
}

/// PN532 driver: the interface to the PN532 and the frame buffer
#[derive(Debug)]
pub struct Pn532<I> {
    pub interface: I,
    pub buf: Vec<u8>,
}

impl<I> Pn532<I> {
    /// Frame buffer
    pub open spec fn buffer(&self) -> Seq<u8> {
        self.buf@
    }

    /// Create PN532 driver with a zeroed frame buffer of `BUFFER_SIZE` bytes
    pub fn new(interface: I) -> (r: Self)
        ensures
            r.interface == interface,
            r.buffer() == Seq::new(BUFFER_SIZE as nat, |i: int| 0u8),
    {
        let mut buf: Vec<u8> = Vec::new();
        let mut i: usize = 0;
        while i < BUFFER_SIZE
            invariant
                i <= BUFFER_SIZE,
                buf@ == Seq::new(i as nat, |j: int| 0u8),
            decreases BUFFER_SIZE - i,
        {
            buf.push(0u8);
            assert(buf@ =~= Seq::new((i + 1) as nat, |j: int| 0u8));
            i = i + 1;
        }
        Pn532 { interface, buf }
    }

    /// Build the frame of a command with its data in the frame buffer and return it, ready to be
    /// written to the PN532
    pub fn command_frame(&mut self, command: u8, data: &[u8]) -> (r: &[u8])
        requires
            data@.len() + 9 <= old(self).buffer().len(),
            data@.len() <= 253,
        ensures
            r@ == frame(HOST_TO_PN532, command, data@),
            final(self).buffer().len() == old(self).buffer().len(),
            final(self).interface == old(self).interface,
    {
        let data_len = data.len();
        let frame_len: u8 = 2 + data_len as u8;
        let mut data_sum: u64 = HOST_TO_PN532 as u64 + command as u64;
        let mut i: usize = 0;
        assert(data@.take(0) =~= Seq::<u8>::empty());
        while i < data_len
            invariant
                i <= data_len,
                data_len == data@.len(),
                data_len <= 253,
                data_len + 9 <= self.buf@.len(),
                self.interface == old(self).interface,
                self.buf@.len() == old(self).buf@.len(),
                data_sum == HOST_TO_PN532 + command + byte_sum(data@.take(i as int)),
                data_sum <= 510 + 255 * i,
            decreases data_len - i,
        {
            assert(data@.take(i + 1).drop_last() =~= data@.take(i as int));
            data_sum = data_sum + data[i] as u64;
            i = i + 1;
        }
        assert(data@.take(data_len as int) =~= data@);
        let ghost f = frame(HOST_TO_PN532, command, data@);
        assert(frame_len == (2 + data_len) as u8);
        assert(f[0] == 0x00u8 && f[1] == 0x00u8 && f[2] == 0xFFu8);
        assert(f[3] == frame_len && f[4] == checksum(frame_len as int));
        assert(f[5] == HOST_TO_PN532 && f[6] == command);
        self.buf.set(0, 0x00u8);
        self.buf.set(1, 0x00u8);
        self.buf.set(2, 0xFFu8);
        self.buf.set(3, frame_len);
        self.buf.set(4, to_checksum(frame_len as u64));
        self.buf.set(5, HOST_TO_PN532);
        self.buf.set(6, command);
        let mut j: usize = 0;
        while j < data_len
            invariant
                j <= data_len,
                data_len == data@.len(),
                data_len <= 253,
                data_len + 9 <= self.buf@.len(),
                self.interface == old(self).interface,
                self.buf@.len() == old(self).buf@.len(),
                self.buf@.len() == old(self).buf@.len(),
                forall|k: int| 0 <= k < 7 ==> self.buf@[k] == f[k],
                forall|k: int| 0 <= k < j ==> self.buf@[7 + k] == data@[k],
                f == frame(HOST_TO_PN532, command, data@),
                frame_len == (2 + data_len) as u8,
                self.buf@[3] == frame_len,
            decreases data_len - j,
        {
            self.buf.set(7 + j, data[j]);
            j = j + 1;
        }
        self.buf.set(7 + data_len, to_checksum(data_sum));
        self.buf.set(8 + data_len, POSTAMBLE);
        let s = self.buf.as_slice();
        let r = &s[0..9 + data_len];
        assert(r@ =~= f) by {
            assert forall|k: int| 0 <= k < f.len() implies r@[k] == f[k] by {
                if k >= 7 && k < 7 + data_len {
                    assert(f[k] == data@[k - 7]);
                }
            }
        }
        r
    }
}

/// Checksum byte for a sum
fn to_checksum(sum: u64) -> (r: u8)
    ensures
        r == checksum(sum as int),
{
    ((256 - sum % 256) % 256) as u8
}

/// A checksum byte makes its sum zero modulo 256
pub proof fn law_checksum(sum: nat)
    ensures
        (sum + checksum(sum as int)) % 256 == 0,
{
}

/// A frame is the preamble, the length of frame identifier, command and data, a byte that makes
/// the length sum to zero modulo 256, the frame identifier, the command, the data, a byte that
/// makes identifier, command and data sum to zero modulo 256, and the postamble
pub proof fn law_frame(tfi: u8, command: u8, data: Seq<u8>)
    requires
        data.len() <= 253,
    ensures
        ({
            let f = frame(tfi, command, data);
            let n = data.len() as int;
            &&& f.len() == n + 9
            &&& f.subrange(0, 3) == preamble()
            &&& f[3] == n + 2
            &&& (f[3] + f[4]) % 256 == 0
            &&& f[5] == tfi && f[6] == command
            &&& f.subrange(7, 7 + n) == data
            &&& byte_sum(f.subrange(5, 8 + n)) % 256 == 0
            &&& f[8 + n] == POSTAMBLE
        }),
{
    let f = frame(tfi, command, data);
    let n = data.len() as int;
    let len = (2 + data.len()) as u8;
    assert(f.subrange(0, 3) =~= preamble());
    assert(f.subrange(7, 7 + n) =~= data);
    let c = checksum(tfi + command + byte_sum(data));
    assert(f.subrange(5, 8 + n) =~= seq![tfi, command] + data + seq![c]);
    lemma_byte_sum_concat(seq![tfi, command], data);
    lemma_byte_sum_concat(seq![tfi, command] + data, seq![c]);
    assert(byte_sum(seq![tfi, command]) == tfi + command) by {
        assert(seq![tfi, command].drop_last() =~= seq![tfi]);
        assert(seq![tfi].drop_last() =~= Seq::<u8>::empty());
        reveal_with_fuel(byte_sum, 3);
    }
    assert(byte_sum(seq![c]) == c) by {
        assert(seq![c].drop_last() =~= Seq::<u8>::empty());
        reveal_with_fuel(byte_sum, 2);
    }
    let t = tfi + command + byte_sum(data);
    assert((t + c) % 256 == 0) by {
        assert(c == (256 - t % 256) % 256);
    }
}

/// A response frame built like a command frame, followed by anything, parses back to its data:
/// the data the PN532 sends is what the parser hands out.
pub proof fn parse_of_response_frame(command: u8, data: Seq<u8>, rest: Seq<u8>)
    requires
        data.len() <= 253,
    ensures
        spec_parse_response(frame(PN532_TO_HOST, command, data) + rest, command) == Ok::<
            (int, int),
            Error,
        >((7, 7 + data.len() as int)),
        (frame(PN532_TO_HOST, command, data) + rest).subrange(7, 7 + data.len() as int) == data,
{
    let f = frame(PN532_TO_HOST, command, data);
    let buf = f + rest;
    let len = (2 + data.len()) as u8;
    assert(len == 2 + data.len());
    assert(buf[3] == len);
    assert(buf.subrange(0, 3) =~= preamble());
    assert(buf[4] == checksum(len as int));
    assert(buf[5] == PN532_TO_HOST);
    assert(buf[6] == command);
    assert(buf[6 + len as int] == POSTAMBLE);
    let body = buf.subrange(5, 6 + len as int);
    let c = checksum(PN532_TO_HOST + command + byte_sum(data));
    assert(body =~= seq![PN532_TO_HOST, command] + data + seq![c]);
    lemma_byte_sum_concat(seq![PN532_TO_HOST, command], data);
    lemma_byte_sum_concat(seq![PN532_TO_HOST, command] + data, seq![c]);
    assert(byte_sum(seq![PN532_TO_HOST, command]) == PN532_TO_HOST + command) by {
        assert(seq![PN532_TO_HOST, command].drop_last() =~= seq![PN532_TO_HOST]);
        assert(seq![PN532_TO_HOST].drop_last() =~= Seq::<u8>::empty());
        reveal_with_fuel(byte_sum, 3);
    }
    assert(byte_sum(seq![c]) == c) by {
        assert(seq![c].drop_last() =~= Seq::<u8>::empty());
        reveal_with_fuel(byte_sum, 2);
    }
    let t = PN532_TO_HOST + command + byte_sum(data);
    assert((t + c) % 256 == 0) by {
        assert(c == (256 - t % 256) % 256);
    }
    assert(buf.subrange(7, 7 + data.len() as int) =~= data);
}

proof fn lemma_byte_sum_concat(a: Seq<u8>, b: Seq<u8>)
    ensures
        byte_sum(a + b) == byte_sum(a) + byte_sum(b),
    decreases b.len(),
{
    if b.len() == 0 {
        assert(a + b =~= a);
    } else {
        lemma_byte_sum_concat(a, b.drop_last());
        assert((a + b).drop_last() =~= a + b.drop_last());
    }
}

} // verus!
