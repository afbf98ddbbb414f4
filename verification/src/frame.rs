//! The wire frame: the decimal byte length of the body, `"\r\n"`, then the
//! body bytes verbatim.  `encode` builds the frame for a message; the
//! decoding side splits a buffered frame and reads the length line back.

use vstd::prelude::*;

use crate::message::{render_spec, Message};
use crate::text::{chars_of, dec_digits, parse_u64_range, parse_uint_spec, trim_back, u64_to_string};
use vstd::utf8::{decode_utf8, valid_utf8};

verus! {

use vstd::string::StringExecFns;

/// What went wrong while reading one frame from the peer.
#[derive(Copy, Clone, Debug, Eq, PartialEq, Structural)]
pub enum ErrorKind {
    /// The peer closed the stream: zero bytes came for the length line.
    ConnectionLost,
    /// The length line did not read back as an unsigned 64-bit number.
    InvalidBytesRead,
    /// The transport failed underneath the frame.
    IOError,
}

/// A frame-reading error, carrying its kind.
#[derive(Debug)]
pub struct Error {
    kind: ErrorKind,
}

impl Error {
    /// The kind of this error.
    pub closed spec fn kind_spec(&self) -> ErrorKind {
        self.kind
    }

    /// Reports the kind of this error.
    pub fn kind(&self) -> (k: ErrorKind)
        ensures
            k == self.kind_spec(),
    {
        self.kind
    }
}

impl From<ErrorKind> for Error {
    /// Wraps a kind as an error.
    fn from(kind: ErrorKind) -> (e: Error) {
        Error { kind }
    }
}

impl vstd::std_specs::convert::FromSpecImpl<ErrorKind> for Error {
    open spec fn obeys_from_spec() -> bool {
        true
    }

    closed spec fn from_spec(kind: ErrorKind) -> Error {
        Error { kind }
    }
}

/// The frame that carries a body text: the decimal count of the body's
/// UTF-8 bytes, a carriage return and newline, then the body.
pub open spec fn frame_spec(body: Seq<char>) -> Seq<char> {
    dec_digits(vstd::utf8::encode_utf8(body).len()) + "\r\n"@ + body
}

impl Message {
    /// Frames the canonical text of this message for the wire.
    pub fn encode(&self) -> (frame: String)
        requires
            vstd::utf8::encode_utf8(render_spec(self@)).len() <= usize::MAX,
        ensures
            frame@ == frame_spec(render_spec(self@)),
    {
        let body = self.render();
        let byte_len = body.as_str().len();
        let mut frame = u64_to_string(byte_len as u64);
        frame.append("\r\n");
        frame.append(body.as_str());
        frame
    }
}

/// What the length line denotes: its text with trailing whitespace removed,
/// read as an unsigned 64-bit number.
pub open spec fn frame_len_spec(line: Seq<char>) -> Option<int> {
    parse_uint_spec(trim_back(line), u64::MAX as int)
}

/// Reads the length line of a frame back as the body's byte count.
pub fn parse_frame_len(line: &str) -> (r: Result<u64, Error>)
    ensures
        match r {
            Result::Ok(n) => frame_len_spec(line@) == Option::Some(n as int),
            Result::Err(e) => frame_len_spec(line@) is None && e.kind_spec()
                == ErrorKind::InvalidBytesRead,
        },
{
    let v = chars_of(line);
    let mut b = v.len();
    proof {
        assert(v@.take(v@.len() as int) =~= v@);
    }
    while b > 0 && crate::text::is_space_char(v[b - 1])
        invariant
            b <= v@.len(),
            trim_back(v@) == trim_back(v@.take(b as int)),
        decreases b,
    {
        proof {
            assert(v@.take(b as int).drop_last() =~= v@.take(b - 1));
        }
        b = b - 1;
    }
    proof {
        assert(v@.take(v@.len() as int) =~= v@);
        assert(trim_back(v@.take(b as int)) == v@.take(b as int));
        assert(v@.subrange(0, b as int) =~= v@.take(b as int));
    }
    match parse_u64_range(&v, 0, b) {
        Option::Some(n) => Ok(n),
        Option::None => Err(Error { kind: ErrorKind::InvalidBytesRead }),
    }
}

/// Relies on String::from_utf8: it accepts exactly the valid UTF-8 byte
/// sequences and returns the text they encode.
#[verifier::external_body]
fn utf8_to_text(b: Vec<u8>) -> (r: Option<String>)
    ensures
        r is Some <==> valid_utf8(b@),
        r is Some ==> r->0@ == decode_utf8(b@),
{
    match String::from_utf8(b) {
        Ok(s) => Some(s),
        Err(_) => None,
    }
}

/// Relies on String::from_utf8_lossy: a valid UTF-8 byte sequence decodes
/// to its text unchanged; invalid bytes are replaced, never refused.
#[verifier::external_body]
fn bytes_to_text(b: &Vec<u8>) -> (r: String)
    ensures
        valid_utf8(b@) ==> r@ == decode_utf8(b@),
{
    String::from_utf8_lossy(b).into_owned()
}

/// Where a buffered frame's length line ends: one past the first newline
/// byte, or the end of the buffer when no newline came.
pub open spec fn line_end(bytes: Seq<u8>) -> int {
    if exists|i: int| 0 <= i < bytes.len() && bytes[i] == 10 {
        (choose|i: int|
            0 <= i < bytes.len() && bytes[i] == 10 && forall|j: int|
                0 <= j < i ==> bytes[j] != 10) + 1
    } else {
        bytes.len() as int
    }
}

/// Decodes one frame from a buffer: the length line up to its newline,
/// then that many body bytes, short bodies accepted as what was there.
#[verifier::loop_isolation(false)]
pub fn decode_frame(bytes: &Vec<u8>) -> (r: Result<String, Error>)
    ensures
        bytes@.len() == 0 ==> (r matches Result::Err(e) && e.kind_spec()
            == ErrorKind::ConnectionLost),
        bytes@.len() > 0 ==> {
            let line = bytes@.take(line_end(bytes@));
            let rest = bytes@.skip(line_end(bytes@));
            if !valid_utf8(line) {
                r matches Result::Err(e) && e.kind_spec() == ErrorKind::IOError
            } else {
                match frame_len_spec(decode_utf8(line)) {
                    Option::None => r matches Result::Err(e) && e.kind_spec()
                        == ErrorKind::InvalidBytesRead,
                    Option::Some(n) => {
                        let body = rest.take(if n <= rest.len() {
                            n
                        } else {
                            rest.len() as int
                        });
                        r is Ok && (valid_utf8(body) ==> r->Ok_0@ == decode_utf8(body))
                    },
                }
            }
        },
{
    if bytes.len() == 0 {
        return Err(Error { kind: ErrorKind::ConnectionLost });
    }
    let n = bytes.len();
    let mut i: usize = 0;
    while i < n && bytes[i] != 10
        invariant
            i <= n == bytes@.len(),
            forall|j: int| 0 <= j < i as int ==> bytes@[j] != 10,
        decreases n - i,
    {
        i = i + 1;
    }
    let end = if i < n {
        i + 1
    } else {
        n
    };
    proof {
        if i < n {
            assert(bytes@[i as int] == 10);
            let w = choose|w: int|
                0 <= w < bytes@.len() && bytes@[w] == 10 && forall|j: int|
                    0 <= j < w ==> bytes@[j] != 10;
            assert(line_end(bytes@) == w + 1);
            assert(w == i as int) by {
                if w < i as int {
                    assert(bytes@[w] != 10);
                }
                if (i as int) < w {
                    assert(bytes@[i as int] != 10);
                }
            }
        } else {
            assert(forall|j: int| 0 <= j < bytes@.len() ==> bytes@[j] != 10);
            assert(line_end(bytes@) == bytes@.len() as int);
        }
        assert(line_end(bytes@) == end as int);
    }
    let mut line_bytes: Vec<u8> = Vec::new();
    let mut k: usize = 0;
    while k < end
        invariant
            k <= end <= bytes@.len(),
            line_bytes@ == bytes@.take(end as int).take(k as int),
        decreases end - k,
    {
        line_bytes.push(bytes[k]);
        proof {
            assert(bytes@.take(end as int).take(k + 1) =~= bytes@.take(end as int).take(
                k as int,
            ).push(bytes@[k as int]));
        }
        k = k + 1;
    }
    proof {
        assert(bytes@.take(end as int).take(end as int) =~= bytes@.take(end as int));
    }
    let line_text = match utf8_to_text(line_bytes) {
        Option::Some(t) => t,
        Option::None => {
            return Err(Error { kind: ErrorKind::IOError });
        },
    };
    let size = match parse_frame_len(line_text.as_str()) {
        Ok(s) => s,
        Err(e) => {
            return Err(e);
        },
    };
    let rest_len = n - end;
    let take_n: usize = if size <= rest_len as u64 {
        size as usize
    } else {
        rest_len
    };
    let mut body: Vec<u8> = Vec::new();
    let mut k2: usize = 0;
    while k2 < take_n
        invariant
            k2 <= take_n,
            end + take_n <= bytes@.len(),
            body@ == bytes@.skip(end as int).take(take_n as int).take(k2 as int),
        decreases take_n - k2,
    {
        body.push(bytes[end + k2]);
        proof {
            let whole = bytes@.skip(end as int).take(take_n as int);
            assert(whole.take(k2 + 1) =~= whole.take(k2 as int).push(bytes@[end + k2]));
        }
        k2 = k2 + 1;
    }
    proof {
        let rest = bytes@.skip(end as int);
        let want = if size as int <= rest.len() {
            size as int
        } else {
            rest.len() as int
        };
        assert(want == take_n as int);
        assert(rest.take(take_n as int).take(take_n as int) =~= rest.take(take_n as int));
    }
    Ok(bytes_to_text(&body))
}

} // verus!
