//! Over-the-air updates: finding the latest release, its version and checksum, and following
//! redirects while downloading

use crate::digest::{flashed_digest, sha256, ImageHash};
use crate::hex::{hex_to_array, lemma_hex_lower_decodes, spec_decode_to_array, strip_hex_prefix};
use crate::text::hex_lower;
use crate::reader::{
    lemma_data_fits, lemma_line_break_bound, line_break_from, min_nat, refill_amount, unread,
    LineReader, SliceReader,
};
use vstd::prelude::*;
use vstd::string::StringExecFns;

verus! {

/// Prefix to strip from the release tag to get the release version
pub open spec fn release_tag_version_prefix() -> Seq<char> {
    "firmware-"@
}

/// Maximum number of redirects to follow
pub const MAX_REDIRECTS: usize = 5;

/// HTTP (TLS) read buffer size. Needs to fit an encrypted TLS record. Actual size depends on
/// server configuration. Maximum allowed value for a TLS record is 16640.
pub const READ_BUFFER_SIZE: usize = 16640;

/// HTTP (TLS) write buffer size
pub const WRITE_BUFFER_SIZE: usize = 2048;

/// OTA update error (of the decisions made here; network and flash errors are the caller's)
#[derive(Debug, Clone, Copy, PartialEq, Eq, Structural)]
pub enum Error {
    /// Received malformed redirect
    MalformedRedirect,
    /// Too many redirects
    TooManyRedirects,
    /// Request failed with the given HTTP status
    RequestFailed(u16),
    /// Unable to query latest release
    UnableToQueryLatestRelease,
    /// Unable to fetch checksum
    UnableToFetchChecksum,
    /// Writing the image to flash failed
    FlashingFailed,
    /// Checksum mismatch
    ChecksumMismatch,
    /// Timeout waiting for response
    Timeout,
}

/// OTA updater resources: TLS read and write buffers
pub struct Resources {
    pub read_buffer: Vec<u8>,
    pub write_buffer: Vec<u8>,
}

/// Zeroed buffer of the given size
fn zeroed(n: usize) -> (r: Vec<u8>)
    ensures
        r@ == Seq::new(n as nat, |i: int| 0u8),
{
    let mut v: Vec<u8> = Vec::new();
    let mut i: usize = 0;
    while i < n
        invariant
            i <= n,
            v@ == Seq::new(i as nat, |j: int| 0u8),
        decreases n - i,
    {
        v.push(0u8);
        assert(v@ =~= Seq::new((i + 1) as nat, |j: int| 0u8));
        i = i + 1;
    }
    v
}

impl Resources {
    /// Create new OTA updater resources: zeroed buffers of the TLS read and write buffer sizes
    pub fn new() -> (r: Self)
        ensures
            r.read_buffer@ == Seq::new(READ_BUFFER_SIZE as nat, |i: int| 0u8),
            r.write_buffer@ == Seq::new(WRITE_BUFFER_SIZE as nat, |i: int| 0u8),
    {
        Resources { read_buffer: zeroed(READ_BUFFER_SIZE), write_buffer: zeroed(WRITE_BUFFER_SIZE) }
    }
}

// ---------------------------------------------------------------------------------------------
// Splitting at a byte
// ---------------------------------------------------------------------------------------------

/// Position of the first occurrence of `b` at or after `i`, if any
pub open spec fn find_byte(s: Seq<u8>, b: u8, i: int) -> Option<int>
    decreases s.len() - i,
{
    if i < 0 || i >= s.len() {
        None
    } else if s[i] == b {
        Some(i)
    } else {
        find_byte(s, b, i + 1)
    }
}

/// Text before the first occurrence of `b` (all of it if there is none)
pub open spec fn before_byte(s: Seq<u8>, b: u8) -> Seq<u8> {
    match find_byte(s, b, 0) {
        Some(i) => s.take(i),
        None => s,
    }
}

/// Text after the first occurrence of `b`, if there is one
pub open spec fn after_byte(s: Seq<u8>, b: u8) -> Option<Seq<u8>> {
    match find_byte(s, b, 0) {
        Some(i) => Some(s.skip(i + 1)),
        None => None,
    }
}

proof fn lemma_find_byte(s: Seq<u8>, b: u8, i: int)
    requires
        0 <= i,
    ensures
        find_byte(s, b, i) matches Some(p) ==> i <= p < s.len() && s[p] == b && forall|k: int|
            i <= k < p ==> s[k] != b,
        find_byte(s, b, i) is None ==> forall|k: int| i <= k < s.len() ==> s[k] != b,
    decreases s.len() - i,
{
    if 0 <= i < s.len() && s[i] != b {
        lemma_find_byte(s, b, i + 1);
    }
}

/// Position of the first occurrence of a byte
fn find(s: &[u8], b: u8) -> (r: Option<usize>)
    ensures
        match find_byte(s@, b, 0) {
            Some(p) => r == Some(p as usize),
            None => r is None,
        },
        r matches Some(p) ==> p < s@.len(),
{
    let mut i: usize = 0;
    while i < s.len()
        invariant
            i <= s@.len(),
            find_byte(s@, b, 0) == find_byte(s@, b, i as int),
        decreases s.len() - i,
    {
        if s[i] == b {
            return Some(i);
        }
        i = i + 1;
    }
    None
}

// ---------------------------------------------------------------------------------------------
// Checksum file
// ---------------------------------------------------------------------------------------------

/// The checksum a line of a checksum file gives for a file name: each line has a hex digest, two
/// spaces and the file name (the line's parts are separated by single spaces)
pub open spec fn line_checksum(line: Seq<u8>, filename: Seq<u8>) -> Option<Seq<u8>> {
    let space = 0x20u8;
    match spec_decode_to_array(before_byte(line, space), 32) {
        None => None,
        Some(digest) => match after_byte(line, space) {
            None => None,
            Some(rest1) => if rest1.len() > 0 && rest1[0] == space {
                let rest2 = rest1.skip(1);
                if before_byte(rest2, space) == filename {
                    Some(digest)
                } else {
                    None
                }
            } else {
                None
            },
        },
    }
}

/// The first `b` at or after `i` is at `p` when there is one at `p` and none before it
proof fn lemma_find_byte_at(s: Seq<u8>, b: u8, i: int, p: int)
    requires
        0 <= i <= p < s.len(),
        s[p] == b,
        forall|k: int| i <= k < p ==> #[trigger] s[k] != b,
    ensures
        find_byte(s, b, i) == Some(p),
    decreases p - i,
{
    if i < p {
        lemma_find_byte_at(s, b, i + 1, p);
    }
}

/// A checksum file line, as the build task writes it (the digest in lower case hex, two spaces
/// and the file name), gives the digest for that file name and for no other
pub proof fn law_checksum_line(digest: Seq<u8>, filename: Seq<u8>, other: Seq<u8>)
    requires
        digest.len() == 32,
        forall|i: int| 0 <= i < filename.len() ==> #[trigger] filename[i] != 0x20u8,
    ensures
        line_checksum(hex_lower(digest) + seq![0x20u8, 0x20u8] + filename, filename) == Some(digest),
        other != filename ==> line_checksum(hex_lower(digest) + seq![0x20u8, 0x20u8] + filename, other)
            is None,
{
    let h = hex_lower(digest);
    let line = h + seq![0x20u8, 0x20u8] + filename;
    lemma_hex_lower_decodes(digest);
    assert forall|k: int| 0 <= k < 64 implies #[trigger] line[k] != 0x20u8 by {
        assert(line[k] == h[k]);
    }
    lemma_find_byte_at(line, 0x20u8, 0, 64);
    assert(line.take(64) =~= h);
    assert(strip_hex_prefix(h) == h) by {
        assert(!(h[1] == 0x78u8 || h[1] == 0x58u8));
    }
    let rest1 = line.skip(65);
    assert(rest1 =~= seq![0x20u8] + filename);
    assert(rest1.skip(1) =~= filename);
    lemma_find_byte(filename, 0x20u8, 0);
}

/// The checksum a line of a checksum file gives for the given file name, if it names that file
pub fn checksum_from_line(line: &[u8], filename: &[u8]) -> (r: Option<[u8; 32]>)
    ensures
        match line_checksum(line@, filename@) {
            Some(d) => r matches Some(a) && a@ == d,
            None => r is None,
        },
{
    let space = 0x20u8;
    proof {
        lemma_find_byte(line@, space, 0);
    }
    let n = line.len();
    let (first, rest1) = match find(line, space) {
        Some(i) => (&line[0..i], Some(&line[i + 1..n])),
        None => (line, None),
    };
    assert(first@ == before_byte(line@, space));
    let digest: [u8; 32] = match hex_to_array::<32>(first) {
        Some(d) => d,
        None => return None,
    };
    let rest1 = match rest1 {
        Some(r) => r,
        None => return None,
    };
    assert(after_byte(line@, space) == Some(rest1@));
    if !(rest1.len() > 0 && rest1[0] == space) {
        return None;
    }
    let rest2 = &rest1[1..rest1.len()];
    assert(rest2@ == rest1@.skip(1));
    proof {
        lemma_find_byte(rest2@, space, 0);
    }
    let third = match find(rest2, space) {
        Some(i) => &rest2[0..i],
        None => rest2,
    };
    assert(third@ == before_byte(rest2@, space));
    if bytes_eq(third, filename) {
        Some(digest)
    } else {
        None
    }
}

/// Whether two byte sequences are equal
pub fn bytes_eq(a: &[u8], b: &[u8]) -> (r: bool)
    ensures
        r == (a@ == b@),
{
    if a.len() != b.len() {
        return false;
    }
    let mut i: usize = 0;
    while i < a.len()
        invariant
            i <= a@.len(),
            a@.len() == b@.len(),
            a@.take(i as int) == b@.take(i as int),
        decreases a.len() - i,
    {
        if a[i] != b[i] {
            assert(a@[i as int] != b@[i as int]);
            return false;
        }
        assert(a@.take(i + 1) =~= a@.take(i as int).push(a@[i as int]));
        assert(b@.take(i + 1) =~= b@.take(i as int).push(b@[i as int]));
        i = i + 1;
    }
    assert(a@.take(i as int) =~= a@);
    assert(b@.take(i as int) =~= b@);
    true
}

/// The checksum that reading a checksum file line by line finds for a file name, given what is
/// left to read and the size of the line buffer: a line ends at the first `\r` or `\n`, which is
/// skipped, and the last line may end without one. The line buffer holds the next `cap` bytes,
/// so a line with no break among them is too long and ends the search. The first line that
/// gives a checksum for the file name wins.
pub open spec fn first_checksum_line(s: Seq<u8>, cap: nat, filename: Seq<u8>) -> Option<Seq<u8>>
    decreases s.len(),
{
    if s.len() == 0 {
        None
    } else {
        let window = s.take(min_nat(cap, s.len()) as int);
        match line_break_from(window, 0) {
            Some(pos) => match line_checksum(window.take(pos), filename) {
                Some(d) => Some(d),
                None => {
                    proof {
                        lemma_line_break_bound(window, 0);
                    }
                    first_checksum_line(s.skip(pos + 1), cap, filename)
                },
            },
            None => if window.len() == cap {
                None
            } else {
                line_checksum(window, filename)
            },
        }
    }
}

/// A line reader's next call sees the next `cap` bytes of what is unread, and what it leaves
/// unread follows them
proof fn lemma_next_window(
    d0: Seq<u8>,
    p0: nat,
    eof0: bool,
    r0: Seq<u8>,
    cap: nat,
    eof1: bool,
)
    requires
        d0.len() <= cap,
        eof1 == (eof0 || ({
            let d1 = d0.skip(min_nat(p0, d0.len()) as int);
            d1.len() < cap && r0.len() < cap - d1.len()
        })),
    ensures
        ({
            let d1 = d0.skip(min_nat(p0, d0.len()) as int);
            let k = refill_amount(d1.len(), cap, eof0, r0.len());
            let d2 = d1 + r0.take(k as int);
            let s = d1 + if eof0 {
                Seq::<u8>::empty()
            } else {
                r0
            };
            &&& d2 == s.take(min_nat(cap, s.len()) as int)
            &&& d2 + (if eof1 {
                Seq::<u8>::empty()
            } else {
                r0.skip(k as int)
            }) == s
            &&& d2.len() < cap ==> eof1
        }),
{
    let d1 = d0.skip(min_nat(p0, d0.len()) as int);
    let k = refill_amount(d1.len(), cap, eof0, r0.len());
    let d2 = d1 + r0.take(k as int);
    let s = d1 + if eof0 {
        Seq::<u8>::empty()
    } else {
        r0
    };
    if eof0 {
        assert(s =~= d1);
        assert(d2 =~= d1);
        assert(s.take(s.len() as int) =~= s);
        assert(d2 + Seq::<u8>::empty() =~= s);
    } else {
        assert(s.take(min_nat(cap, s.len()) as int) =~= d2);
        if eof1 {
            assert(d2 + Seq::<u8>::empty() =~= s);
        } else {
            assert(d2 + r0.skip(k as int) =~= s);
        }
    }
}

/// Find the checksum of a file in a checksum file read line by line: the first line that gives
/// one for the file name. Fails if the checksum file ends first, or a line does not fit into the
/// line reader's buffer.
pub fn release_checksum(lines: &mut LineReader, source: &mut SliceReader, filename: &[u8]) -> (r:
    Result<[u8; 32], Error>)
    requires
        old(lines).wf(),
    ensures
        final(lines).wf(),
        match first_checksum_line(
            unread(*old(lines), *old(source)),
            old(lines).reader().capacity(),
            filename@,
        ) {
            Some(d) => r matches Ok(a) && a@ == d,
            None => r == Err::<[u8; 32], Error>(Error::UnableToFetchChecksum),
        },
{
    let ghost cap = lines.reader().capacity();
    let ghost target = first_checksum_line(unread(*lines, *source), cap, filename@);
    loop
        invariant
            lines.wf(),
            lines.reader().capacity() == cap,
            first_checksum_line(unread(*lines, *source), cap, filename@) == target,
            target == first_checksum_line(unread(*old(lines), *old(source)), cap, filename@),
            cap == old(lines).reader().capacity(),
        decreases unread(*lines, *source).len(),
    {
        let ghost s = unread(*lines, *source);
        let ghost r0 = source.rest();
        let ghost d0 = lines.reader().data();
        let ghost p0 = lines.pending();
        let ghost eof0 = lines.reader().at_eof();
        proof {
            lemma_data_fits(lines.reader());
        }
        let res = lines.next(source);
        let ghost d2 = lines.reader().data();
        proof {
            lemma_next_window(d0, p0, eof0, r0, cap, lines.reader().at_eof());
            lemma_line_break_bound(d2, 0);
        }
        let ghost window = s.take(min_nat(cap, s.len()) as int);
        assert(window == d2);
        match res {
            Err(_) => {
                assert(s.len() > 0);
                assert(first_checksum_line(s, cap, filename@) == None::<Seq<u8>>);
                return Err(Error::UnableToFetchChecksum);
            },
            Ok(None) => return Err(Error::UnableToFetchChecksum),
            Ok(Some(line)) => {
                assert(s.len() > 0);
                match checksum_from_line(line.as_slice(), filename) {
                    Some(d) => {
                        assert(first_checksum_line(s, cap, filename@) == Some(d@));
                        return Ok(d);
                    },
                    None => {},
                }
                proof {
                    let tail = if lines.reader().at_eof() {
                        Seq::<u8>::empty()
                    } else {
                        source.rest()
                    };
                    assert(d2 + tail == s);
                    let m = lines.pending();
                    if m <= d2.len() {
                        assert(unread(*lines, *source) =~= s.skip(m as int));
                    } else {
                        assert(unread(*lines, *source) =~= Seq::<u8>::empty());
                    }
                }
            },
        }
    }
}

// ---------------------------------------------------------------------------------------------
// Latest release and its version
// ---------------------------------------------------------------------------------------------

/// Position of the last `/` in a text before position `end`
pub open spec fn last_slash(s: Seq<char>, end: int) -> Option<int>
    decreases end,
{
    if end <= 0 || end > s.len() {
        None
    } else if s[end - 1] == '/' {
        Some(end - 1)
    } else {
        last_slash(s, end - 1)
    }
}

proof fn lemma_last_slash(s: Seq<char>, end: int)
    requires
        0 <= end <= s.len(),
    ensures
        last_slash(s, end) matches Some(p) ==> 0 <= p < end && s[p] == '/',
    decreases end,
{
    if end > 0 && s[end - 1] != '/' {
        lemma_last_slash(s, end - 1);
    }
}

/// The last `/` before `end` is at `p` when there is one at `p` and none after it
proof fn lemma_last_slash_at(s: Seq<char>, p: int, end: int)
    requires
        0 <= p < end <= s.len(),
        s[p] == '/',
        forall|i: int| p < i < end ==> #[trigger] s[i] != '/',
    ensures
        last_slash(s, end) == Some(p),
    decreases end,
{
    if end - 1 != p {
        lemma_last_slash_at(s, p, end - 1);
    }
}

/// The path component that ends at `end` (as `str::rsplit('/')` yields them) and where the text
/// before it ends (-1 if there is no `/` before it)
pub open spec fn split_last(s: Seq<char>, end: int) -> (Seq<char>, int) {
    match last_slash(s, end) {
        Some(p) => (s.subrange(p + 1, end), p),
        None => (s.subrange(0, end), -1),
    }
}

/// The release tag that a redirect of the `releases/latest` URL points to: its location ends in
/// `releases/tag/<tag>`
pub open spec fn spec_release_tag(status: u16, location: Option<Seq<char>>) -> Result<
    Seq<char>,
    Error,
> {
    if !(300 <= status < 400) {
        Err(Error::UnableToQueryLatestRelease)
    } else {
        match location {
            None => Err(Error::MalformedRedirect),
            Some(l) => {
                let (tag, e1) = split_last(l, l.len() as int);
                if e1 < 0 {
                    Err(Error::UnableToQueryLatestRelease)
                } else {
                    let (t, e2) = split_last(l, e1);
                    if t != "tag"@ || e2 < 0 {
                        Err(Error::UnableToQueryLatestRelease)
                    } else {
                        let (r, _) = split_last(l, e2);
                        if r != "releases"@ {
                            Err(Error::UnableToQueryLatestRelease)
                        } else {
                            Ok(tag)
                        }
                    }
                }
            },
        }
    }
}

/// The latest release is found from the redirect of the `releases/latest` URL: a redirect to any
/// location ending in `/releases/tag/` and a tag gives that tag; a response that is no redirect
/// fails, and so does a redirect without a location
pub proof fn law_release_tag(status: u16, base: Seq<char>, tag: Seq<char>)
    requires
        forall|i: int| 0 <= i < tag.len() ==> #[trigger] tag[i] != '/',
    ensures
        300 <= status < 400 ==> spec_release_tag(status, Some(base + "/releases/tag/"@ + tag))
            == Ok::<Seq<char>, Error>(tag),
        300 <= status < 400 ==> spec_release_tag(status, None) == Err::<Seq<char>, Error>(
            Error::MalformedRedirect,
        ),
        !(300 <= status < 400) ==> spec_release_tag(status, Some(base + "/releases/tag/"@ + tag))
            == Err::<Seq<char>, Error>(Error::UnableToQueryLatestRelease),
{
    reveal_strlit("/releases/tag/");
    reveal_strlit("tag");
    reveal_strlit("releases");
    let m = "/releases/tag/"@;
    let l = base + m + tag;
    let b = base.len() as int;
    assert(m.len() == 14);
    assert forall|i: int| 0 <= i < 14 implies l[b + i] == #[trigger] m[i] by {}
    assert forall|i: int| 0 <= i < tag.len() implies l[b + 14 + i] == #[trigger] tag[i] by {}
    assert forall|i: int| b + 13 < i < l.len() implies #[trigger] l[i] != '/' by {
        assert(l[i] == tag[i - b - 14]);
    }
    lemma_last_slash_at(l, b + 13, l.len() as int);
    assert forall|i: int| b + 9 < i < b + 13 implies #[trigger] l[i] != '/' by {
        assert(l[i] == m[i - b]);
    }
    lemma_last_slash_at(l, b + 9, b + 13);
    assert forall|i: int| b < i < b + 9 implies #[trigger] l[i] != '/' by {
        assert(l[i] == m[i - b]);
    }
    lemma_last_slash_at(l, b, b + 9);
    assert(l.subrange(b + 14, l.len() as int) =~= tag);
    assert(l.subrange(b + 10, b + 13) =~= "tag"@);
    assert(l.subrange(b + 1, b + 9) =~= "releases"@);
}

/// Position of the last `/` before `end`
fn find_last_slash(s: &[char], end: usize) -> (r: Option<usize>)
    requires
        end <= s@.len(),
    ensures
        match last_slash(s@, end as int) {
            Some(p) => r == Some(p as usize),
            None => r is None,
        },
{
    let mut e = end;
    while e > 0
        invariant
            e <= end <= s@.len(),
            last_slash(s@, end as int) == last_slash(s@, e as int),
        decreases e,
    {
        if s[e - 1] == '/' {
            return Some(e - 1);
        }
        e = e - 1;
    }
    None
}

/// String of the given characters
pub fn chars_to_string(cs: &[char]) -> (s: String)
    ensures
        s@ == cs@,
{
    let mut s = String::new();
    let mut i: usize = 0;
    while i < cs.len()
        invariant
            i <= cs@.len(),
            s@ == cs@.take(i as int),
        decreases cs.len() - i,
    {
        crate::text::string_push(&mut s, cs[i]);
        assert(cs@.take(i + 1) =~= cs@.take(i as int).push(cs@[i as int]));
        i = i + 1;
    }
    assert(cs@.take(i as int) =~= cs@);
    s
}

/// Copy of characters
fn copy_chars(cs: &[char]) -> (r: Vec<char>)
    ensures
        r@ == cs@,
{
    let mut v: Vec<char> = Vec::new();
    let mut i: usize = 0;
    while i < cs.len()
        invariant
            i <= cs@.len(),
            v@ == cs@.take(i as int),
        decreases cs.len() - i,
    {
        v.push(cs[i]);
        assert(cs@.take(i + 1) =~= cs@.take(i as int).push(cs@[i as int]));
        i = i + 1;
    }
    assert(cs@.take(i as int) =~= cs@);
    v
}

/// The path component that ends at `end` and where the text before it ends
fn split_last_at(s: &[char], end: usize) -> (r: (Vec<char>, Option<usize>))
    requires
        end <= s@.len(),
    ensures
        r.0@ == split_last(s@, end as int).0,
        split_last(s@, end as int).1 < 0 <==> r.1 is None,
        r.1 matches Some(p) ==> p == split_last(s@, end as int).1 && p < end,
{
    proof {
        lemma_last_slash(s@, end as int);
    }
    match find_last_slash(s, end) {
        Some(p) => (copy_chars(&s[p + 1..end]), Some(p)),
        None => (copy_chars(&s[0..end]), None),
    }
}

/// The release tag that a redirect response of the `releases/latest` URL points to, given the
/// response status and its location header (if it has one that is valid UTF-8)
pub fn release_tag(status: u16, location: Option<&str>) -> (r: Result<String, Error>)
    ensures
        match spec_release_tag(status, match location {
            Some(l) => Some(l@),
            None => None,
        }) {
            Ok(t) => r matches Ok(s) && s@ == t,
            Err(e) => r == Err::<String, Error>(e),
        },
{
    if !(300 <= status && status < 400) {
        return Err(Error::UnableToQueryLatestRelease);
    }
    let l = match location {
        None => return Err(Error::MalformedRedirect),
        Some(l) => l,
    };
    let cs = crate::json::reader::string_chars(l);
    let (tag, e1) = split_last_at(cs.as_slice(), cs.len());
    let e1 = match e1 {
        None => return Err(Error::UnableToQueryLatestRelease),
        Some(e) => e,
    };
    let (t, e2) = split_last_at(cs.as_slice(), e1);
    let tag_word = crate::json::reader::string_chars("tag");
    if !crate::json::reader::chars_eq(t.as_slice(), tag_word.as_slice()) {
        return Err(Error::UnableToQueryLatestRelease);
    }
    let e2 = match e2 {
        None => return Err(Error::UnableToQueryLatestRelease),
        Some(e) => e,
    };
    let (rel, _) = split_last_at(cs.as_slice(), e2);
    let releases_word = crate::json::reader::string_chars("releases");
    if !crate::json::reader::chars_eq(rel.as_slice(), releases_word.as_slice()) {
        return Err(Error::UnableToQueryLatestRelease);
    }
    Ok(chars_to_string(tag.as_slice()))
}

/// The release version of a release tag: the tag without its `firmware-` prefix, if it has it
pub fn release_version(tag: &str) -> (r: Result<String, Error>)
    ensures
        crate::text::has_prefix(tag@, release_tag_version_prefix()) ==> (r matches Ok(v) && v@
            == tag@.skip(release_tag_version_prefix().len() as int)),
        !crate::text::has_prefix(tag@, release_tag_version_prefix()) ==> r == Err::<String, Error>(
            Error::UnableToQueryLatestRelease,
        ),
{
    if crate::text::starts_with(tag, "firmware-") {
        let cs = crate::json::reader::string_chars(tag);
        let prefix = crate::json::reader::string_chars("firmware-");
        let rest = copy_chars(&cs.as_slice()[prefix.len()..cs.len()]);
        Ok(chars_to_string(rest.as_slice()))
    } else {
        Err(Error::UnableToQueryLatestRelease)
    }
}

/// The version to update to: the latest release version unless it is the running version
/// (deliberately no semantic version comparison, so that it updates to whatever is the latest)
pub fn new_version(current: &str, latest: String) -> (r: Option<String>)
    ensures
        latest@ == current@ ==> r is None,
        latest@ != current@ ==> (r matches Some(v) && v@ == latest@),
{
    let a = crate::json::reader::string_chars(current);
    let b = crate::json::reader::string_chars(latest.as_str());
    if crate::json::reader::chars_eq(a.as_slice(), b.as_slice()) {
        None
    } else {
        Some(latest)
    }
}

/// What to do with a response while fetching a URL
#[derive(Debug)]
pub enum Step {
    /// Follow the redirect to the given location
    Follow(String),
    /// Process the response
    Process,
}

/// Decide what to do with a response: follow a redirect (if redirects are followed), process
/// any other informational, successful or redirect response, and fail on anything else
pub fn response_step(status: u16, follow_redirects: bool, location: Option<String>) -> (r: Result<
    Step,
    Error,
>)
    ensures
        300 <= status < 400 && follow_redirects ==> match location {
            Some(l) => (r matches Ok(Step::Follow(x)) && x@ == l@),
            None => r == Err::<Step, Error>(Error::MalformedRedirect),
        },
        !(300 <= status < 400 && follow_redirects) && 100 <= status < 400 ==> r matches Ok(
            Step::Process,
        ),
        !(100 <= status < 400) ==> r == Err::<Step, Error>(Error::RequestFailed(status)),
{
    let redirection = 300 <= status && status < 400;
    if redirection && follow_redirects {
        match location {
            Some(l) => Ok(Step::Follow(l)),
            None => Err(Error::MalformedRedirect),
        }
    } else if 100 <= status && status < 400 {
        Ok(Step::Process)
    } else {
        Err(Error::RequestFailed(status))
    }
}

/// What to do with a response at the given number of redirects followed so far: as
/// `response_step` decides, except that the last allowed request must not redirect again
pub fn redirect_step(redirects: usize, status: u16, follow_redirects: bool, location: Option<String>) -> (r:
    Result<Step, Error>)
    ensures
        300 <= status < 400 && follow_redirects && location is Some && redirects + 1 >= MAX_REDIRECTS
            ==> r == Err::<Step, Error>(Error::TooManyRedirects),
        300 <= status < 400 && follow_redirects && location is Some && redirects + 1 < MAX_REDIRECTS
            ==> (r matches Ok(Step::Follow(x)) && x@ == location->0@),
        300 <= status < 400 && follow_redirects && location is None ==> r == Err::<Step, Error>(
            Error::MalformedRedirect,
        ),
        !(300 <= status < 400 && follow_redirects) && 100 <= status < 400 ==> r matches Ok(
            Step::Process,
        ),
        !(100 <= status < 400) ==> r == Err::<Step, Error>(Error::RequestFailed(status)),
{
    match response_step(status, follow_redirects, location) {
        Ok(Step::Follow(l)) => {
            if redirects >= MAX_REDIRECTS - 1 {
                Err(Error::TooManyRedirects)
            } else {
                Ok(Step::Follow(l))
            }
        },
        other => other,
    }
}

/// Check a flashed image's checksum against the expected one
pub fn check_checksum(expected: &[u8; 32], actual: &[u8; 32]) -> (r: Result<(), Error>)
    ensures
        r is Ok <==> expected@ == actual@,
        r is Err ==> r == Err::<(), Error>(Error::ChecksumMismatch),
{
    if bytes_eq(expected.as_slice(), actual.as_slice()) {
        Ok(())
    } else {
        Err(Error::ChecksumMismatch)
    }
}

/// What becomes of a firmware update once the new image was downloaded and flashed
#[derive(Debug, Clone, Copy, PartialEq, Eq, Structural)]
pub enum UpdateDecision {
    /// The image is complete and has the listed checksum: commit it for the next restart
    Commit,
    /// Cancel the update and fail with the given error
    Cancel(Error),
}

/// Decide on a flashed update: commit it if downloading and flashing gave the expected checksum,
/// else cancel it, failing with a checksum mismatch or with the download's own error
pub fn update_decision(expected: &[u8; 32], flashed: Result<[u8; 32], Error>) -> (r:
    UpdateDecision)
    ensures
        match flashed {
            Ok(actual) => if actual@ == expected@ {
                r == UpdateDecision::Commit
            } else {
                r == UpdateDecision::Cancel(Error::ChecksumMismatch)
            },
            Err(e) => r == UpdateDecision::Cancel(e),
        },
{
    match flashed {
        Ok(actual) => match check_checksum(expected, &actual) {
            Ok(()) => UpdateDecision::Commit,
            Err(e) => UpdateDecision::Cancel(e),
        },
        Err(e) => UpdateDecision::Cancel(e),
    }
}

/// Decide on an update once the image download ended: the download's error cancels it;
/// otherwise the digest of the bytes absorbed (the image as written to flash) is compared with
/// the listed checksum, and the update is committed if they are equal and cancelled with a
/// checksum mismatch if not
pub fn finish_download(expected: &[u8; 32], image: ImageHash, download: Result<(), Error>) -> (r:
    UpdateDecision)
    ensures
        match download {
            Ok(()) => if sha256(image.absorbed()) == expected@ {
                r == UpdateDecision::Commit
            } else {
                r == UpdateDecision::Cancel(Error::ChecksumMismatch)
            },
            Err(e) => r == UpdateDecision::Cancel(e),
        },
{
    let flashed = match download {
        Ok(()) => Ok(flashed_digest(image)),
        Err(e) => Err(e),
    };
    update_decision(expected, flashed)
}

/// URL of a file of a release: in the repository's release downloads, under the release's tag
pub open spec fn release_file_url(repository: Seq<char>, version: Seq<char>, filename: Seq<char>) -> Seq<
    char,
> {
    repository + "/releases/download/"@ + release_tag_version_prefix() + version + "/"@ + filename
}

/// URL of a file of a release
pub fn release_download_url(repository: &str, version: &str, filename: &str) -> (r: String)
    ensures
        r@ == release_file_url(repository@, version@, filename@),
{
    let mut out = String::from_str(repository);
    out.append("/releases/download/");
    out.append("firmware-");
    out.append(version);
    out.append("/");
    out.append(filename);
    out
}

/// URL that redirects to the latest release of the repository
pub fn latest_release_url(repository: &str) -> (r: String)
    ensures
        r@ == repository@ + "/releases/latest"@,
{
    let mut out = String::from_str(repository);
    out.append("/releases/latest");
    out
}

} // verus!
