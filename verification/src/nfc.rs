//! NFC card identification (UID): parsing from bytes and from hex text, hex display, and the
//! decisions of the reader loop that waits for a card

use crate::hex::{all_hex, hex_decoded, hex_to_array, hex_value, spec_decode_to_array};
use crate::pn532::{Error as Pn532Error, I2CInterfaceWithIrq, Pn532, BUFFER_SIZE};
use crate::text::{hex_lower, push_hex_lower};
use vstd::prelude::*;
use vstd::string::{StrSliceExecFns, StringSliceAdditionalSpecFns};

verus! {

/// NFC UID error
#[derive(Debug, Clone, Copy, PartialEq, Eq)]
pub struct InvalidUid;

/// NFC UID
#[derive(Debug, Clone, PartialEq, Eq)]
pub enum Uid {
    /// Single Size UID (4 bytes), Mifare Classic
    Single([u8; 4]),
    /// Double Size UID (7 bytes), NXP NTAG Series
    Double([u8; 7]),
    /// Triple Size UID (10 bytes), not used yet
    Triple([u8; 10]),
}

/// Bytes of a UID
pub open spec fn uid_bytes(u: Uid) -> Seq<u8> {
    match u {
        Uid::Single(b) => b@,
        Uid::Double(b) => b@,
        Uid::Triple(b) => b@,
    }
}

impl View for Uid {
    type V = Seq<u8>;

    open spec fn view(&self) -> Seq<u8> {
        uid_bytes(*self)
    }
}

/// Length of a UID in bytes: 4, 7 or 10
pub open spec fn valid_uid_len(n: nat) -> bool {
    n == 4 || n == 7 || n == 10
}

/// Result of parsing a UID from hex text given as bytes
pub open spec fn spec_parse_uid(s: Seq<u8>) -> Result<Seq<u8>, InvalidUid> {
    if (s.len() == 8 || s.len() == 14 || s.len() == 20) && all_hex(s) {
        Ok(hex_decoded(s))
    } else {
        Err(InvalidUid)
    }
}

/// A UID's hex text, as `to_string` writes it, parses back to the same UID
pub proof fn law_uid_text_roundtrip(u: Uid)
    ensures
        spec_parse_uid(hex_lower(u@)) == Ok::<Seq<u8>, InvalidUid>(u@),
{
    crate::hex::lemma_hex_lower_decodes(u@);
}

impl Uid {
    /// UID of the given bytes, if their number is that of a UID size
    pub fn try_from(bytes: &[u8]) -> (r: Result<Uid, InvalidUid>)
        ensures
            match r {
                Ok(u) => valid_uid_len(bytes@.len()) && u@ == bytes@,
                Err(_) => !valid_uid_len(bytes@.len()),
            },
    {
        let n = bytes.len();
        if n == 4 {
            let a: [u8; 4] = [bytes[0], bytes[1], bytes[2], bytes[3]];
            assert(a@ =~= bytes@);
            Ok(Uid::Single(a))
        } else if n == 7 {
            let a: [u8; 7] = [bytes[0], bytes[1], bytes[2], bytes[3], bytes[4], bytes[5], bytes[6]];
            assert(a@ =~= bytes@);
            Ok(Uid::Double(a))
        } else if n == 10 {
            let a: [u8; 10] = [
                bytes[0],
                bytes[1],
                bytes[2],
                bytes[3],
                bytes[4],
                bytes[5],
                bytes[6],
                bytes[7],
                bytes[8],
                bytes[9],
            ];
            assert(a@ =~= bytes@);
            Ok(Uid::Triple(a))
        } else {
            Err(InvalidUid)
        }
    }

    /// Parse a UID from its hex text (8, 14 or 20 hex digits of either case)
    pub fn from_str(s: &str) -> (r: Result<Uid, InvalidUid>)
        ensures
            match spec_parse_uid(s.spec_bytes()) {
                Ok(b) => r matches Ok(u) && u@ == b,
                Err(e) => r == Err::<Uid, InvalidUid>(e),
            },
    {
        let bytes = s.as_bytes_vec();
        Self::parse_hex(bytes.as_slice())
    }

    /// Parse a UID from its hex text given as bytes
    pub fn parse_hex(s: &[u8]) -> (r: Result<Uid, InvalidUid>)
        ensures
            match spec_parse_uid(s@) {
                Ok(b) => r matches Ok(u) && u@ == b,
                Err(e) => r == Err::<Uid, InvalidUid>(e),
            },
    {
        let n = s.len();
        if n == 8 {
            match hex_to_array::<4>(s) {
                Some(a) => Ok(Uid::Single(a)),
                None => Err(InvalidUid),
            }
        } else if n == 14 {
            match hex_to_array::<7>(s) {
                Some(a) => Ok(Uid::Double(a)),
                None => Err(InvalidUid),
            }
        } else if n == 20 {
            match hex_to_array::<10>(s) {
                Some(a) => Ok(Uid::Triple(a)),
                None => Err(InvalidUid),
            }
        } else {
            Err(InvalidUid)
        }
    }

    /// Bytes of the UID
    pub fn as_ref(&self) -> (r: &[u8])
        ensures
            r@ == self@,
    {
        match self {
            Uid::Single(b) => b.as_slice(),
            Uid::Double(b) => b.as_slice(),
            Uid::Triple(b) => b.as_slice(),
        }
    }

    /// Lower case hex text of the UID, two digits per byte
    pub fn to_string(&self) -> (s: String)
        ensures
            s@ == crate::text::ascii_chars(hex_lower(self@)),
    {
        let mut out: Vec<u8> = Vec::new();
        write_hex_bytes(&mut out, self.as_ref());
        crate::text::ascii_to_string(out.as_slice())
    }

    /// Copy of the UID
    pub fn copy(&self) -> (u: Uid)
        ensures
            u@ == self@,
    {
        match self {
            Uid::Single(b) => Uid::Single(*b),
            Uid::Double(b) => Uid::Double(*b),
            Uid::Triple(b) => Uid::Triple(*b),
        }
    }

    /// Whether two UIDs are the same
    pub fn same(&self, other: &Uid) -> (r: bool)
        ensures
            r == (self@ == other@),
    {
        let a = self.as_ref();
        let b = other.as_ref();
        if a.len() != b.len() {
            return false;
        }
        let mut i: usize = 0;
        while i < a.len()
            invariant
                i <= a@.len(),
                a@.len() == b@.len(),
                a@ == self@,
                b@ == other@,
                a@.take(i as int) == b@.take(i as int),
            decreases a.len() - i,
        {
            if a[i] != b[i] {
                assert(a@[i as int] != b@[i as int]);
                return false;
            }
            assert(a@.take(i + 1) =~= a@.take(i as int).push(a@[i as int]));
            assert(b@.take(i + 1) =~= b@.take(i as int).push(b@[i as int]));
            i = i + 1;
        }
        assert(a@.take(i as int) =~= a@);
        assert(b@.take(i as int) =~= b@);
        true
    }
}

/// Write two lower case hex digits per byte
pub fn write_hex_bytes(out: &mut Vec<u8>, bytes: &[u8])
    ensures
        final(out)@ == old(out)@ + hex_lower(bytes@),
        forall|i: int|
            old(out)@.len() <= i < final(out)@.len() ==> #[trigger] final(out)@[i] < 128,
{
    push_hex_lower(bytes, out);
    proof {
        crate::text::lemma_hex_lower_ascii(bytes@);
    }
}

/// The hex text of a UID parses back to the same UID
pub proof fn parse_of_displayed_uid(u: Uid)
    ensures
        spec_parse_uid(hex_lower(u@)) == Ok::<Seq<u8>, InvalidUid>(u@),
{
    let b = u@;
    crate::text::lemma_hex_lower_ascii(b);
    let h = hex_lower(b);
    crate::text::lemma_hex_lower_index(b);
    assert forall|i: int| 0 <= i < h.len() implies hex_value(#[trigger] h[i]) >= 0 by {
        let j = i / 2;
        let x = b[j];
        if i % 2 == 0 {
            assert(i == 2 * j);
            assert(h[i] == crate::text::hex_digit_lower(x / 16));
        } else {
            assert(i == 2 * j + 1);
            assert(h[i] == crate::text::hex_digit_lower(x % 16));
        }
    }
    assert(hex_decoded(h) =~= b) by {
        assert forall|i: int| 0 <= i < b.len() implies #[trigger] hex_decoded(h)[i] == b[i] by {
            let x = b[i];
            assert(h[2 * i] == crate::text::hex_digit_lower(x / 16));
            assert(h[2 * i + 1] == crate::text::hex_digit_lower(x % 16));
            assert(hex_value(crate::text::hex_digit_lower(x / 16)) == x / 16);
            assert(hex_value(crate::text::hex_digit_lower(x % 16)) == x % 16);
            assert((x / 16) * 16 + x % 16 == x);
        }
    }
}

/// What an InListPassiveTarget response (PN532 section 7.3.5, ISO/IEC 14443 Type A) tells
#[derive(Debug)]
pub enum TargetList {
    /// The response is too short to hold a target
    TooShort,
    /// No target was detected
    Empty,
    /// A target was detected (and needs to be released), with its UID if that is valid
    Target(Option<Uid>),
}

/// The NFCID bytes of the first target: the declared number of bytes after the header, cut
/// short where the response ends
pub open spec fn target_nfcid(resp: Seq<u8>) -> Seq<u8> {
    let tail = resp.skip(6);
    let n = if (resp[5] as int) < tail.len() {
        resp[5] as int
    } else {
        tail.len() as int
    };
    tail.take(n)
}

/// Read the first target of an InListPassiveTarget response: one byte with the number of
/// targets, then per target its number, SENS_RES (2 bytes), SEL_RES, the NFCID length and the
/// NFCID bytes
pub fn parse_target_list(list_response: &[u8]) -> (r: TargetList)
    ensures
        list_response@.len() < 6 ==> r is TooShort,
        list_response@.len() >= 6 && list_response@[0] < 1 ==> r is Empty,
        list_response@.len() >= 6 && list_response@[0] >= 1 ==> match r {
            TargetList::Target(Some(u)) => valid_uid_len(target_nfcid(list_response@).len())
                && u@ == target_nfcid(list_response@),
            TargetList::Target(None) => !valid_uid_len(target_nfcid(list_response@).len()),
            _ => false,
        },
{
    if list_response.len() < 6 {
        return TargetList::TooShort;
    }
    if list_response[0] < 1 {
        return TargetList::Empty;
    }
    let tail = &list_response[6..list_response.len()];
    let declared = list_response[5] as usize;
    let n = if declared < tail.len() {
        declared
    } else {
        tail.len()
    };
    let nfcid = &tail[0..n];
    assert(nfcid@ =~= target_nfcid(list_response@));
    match Uid::try_from(nfcid) {
        Ok(uid) => TargetList::Target(Some(uid)),
        Err(_) => TargetList::Target(None),
    }
}


/// NFC reader: the PN532 driver on its I2C interface with ready interrupt
#[derive(Debug)]
pub struct Nfc<I2C, IRQ> {
    pub driver: Pn532<I2CInterfaceWithIrq<I2C, IRQ>>,
}

impl<I2C, IRQ> Nfc<I2C, IRQ> {
    /// NFC reader on the given bus and interrupt line, with a zeroed frame buffer (the PN532 is
    /// configured by the caller, through `driver`)
    pub fn from_bus(i2c: I2C, irq: IRQ) -> (r: Self)
        ensures
            r.driver.interface.i2c == i2c,
            r.driver.interface.irq == irq,
            r.driver.buffer() == Seq::new(BUFFER_SIZE as nat, |i: int| 0u8),
    {
        Nfc { driver: Pn532::new(I2CInterfaceWithIrq::new(i2c, irq)) }
    }
}

/// What the reader loop does after listing passive targets
#[derive(Debug)]
pub enum ListStep {
    /// Start the next detection (no target, or an unusable response)
    Restart,
    /// Stop reading with this error
    Fail(Pn532Error),
    /// Release the detected target, then return its UID if it has a valid one, or else start the
    /// next detection
    Release(Option<Uid>),
}

/// Decide the next step of the reader loop from the outcome of listing passive targets: a
/// timeout means that no card came and detection starts again, another error ends the loop, and
/// a response is read by `parse_target_list`
pub fn list_step(listed: Result<&[u8], Pn532Error>) -> (r: ListStep)
    ensures
        match listed {
            Err(Pn532Error::TimeoutResponse) => r is Restart,
            Err(e) => r == ListStep::Fail(e),
            Ok(resp) => {
                if resp@.len() < 6 || resp@[0] < 1 {
                    r is Restart
                } else {
                    match r {
                        ListStep::Release(Some(u)) => valid_uid_len(target_nfcid(resp@).len())
                            && u@ == target_nfcid(resp@),
                        ListStep::Release(None) => !valid_uid_len(target_nfcid(resp@).len()),
                        _ => false,
                    }
                }
            },
        },
{
    match listed {
        Err(Pn532Error::TimeoutResponse) => ListStep::Restart,
        Err(e) => ListStep::Fail(e),
        Ok(resp) => match parse_target_list(resp) {
            TargetList::TooShort => ListStep::Restart,
            TargetList::Empty => ListStep::Restart,
            TargetList::Target(uid) => ListStep::Release(uid),
        },
    }
}

} // verus!
