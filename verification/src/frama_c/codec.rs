//! Frames and messages of the Frama-C server protocol.

use vstd::prelude::*;
use vstd::string::*;
use vstd::utf8::*;

use crate::error::FramaCError;
use crate::json;
use crate::json::{Json, JsonObject, JsonView};
use crate::text::same_text;

verus! {

// ── Frames ──────────────────────────────────────────────────────────────

/// The lowercase hexadecimal digit of value `d`.
pub open spec fn hex_digit(d: nat) -> u8 {
    if d < 10 {
        (48 + d) as u8
    } else {
        (87 + d) as u8
    }
}

/// `n` in hexadecimal, filled with leading zeros to at least `width` digits.
pub open spec fn hex(n: nat, width: nat) -> Seq<u8>
    decreases n, width,
{
    if n == 0 && width == 0 {
        Seq::empty()
    } else {
        hex(n / 16, if width == 0 { 0 } else { (width - 1) as nat }).push(hex_digit(n % 16))
    }
}

/// The frame that carries `payload`: a letter that says how long the header is,
/// the number of bytes in hexadecimal, and the bytes.
pub open spec fn frame(payload: Seq<u8>) -> Seq<u8> {
    header(payload.len()) + payload
}

/// The header of a frame of `len` bytes.
pub open spec fn header(len: nat) -> Seq<u8> {
    if len <= 0xFFF {
        seq![83u8] + hex(len, 3)
    } else if len <= 0xFFF_FFFF {
        seq![76u8] + hex(len, 7)
    } else {
        seq![87u8] + hex(len, 15)
    }
}

fn hex_byte(d: u64) -> (r: u8)
    requires
        d < 16,
    ensures
        r == hex_digit(d as nat),
{
    if d < 10 {
        48 + d as u8
    } else {
        87 + d as u8
    }
}

/// Appends `n` in hexadecimal, at least `width` digits wide.
pub fn push_hex(out: &mut Vec<u8>, n: usize, width: usize)
    ensures
        final(out)@ == old(out)@ + hex(n as nat, width as nat),
    decreases n, width,
{
    if n == 0 && width == 0 {
        assert(out@ =~= old(out)@ + hex(n as nat, width as nat));
    } else {
        push_hex(out, n / 16, if width == 0 { 0 } else { width - 1 });
        out.push(hex_byte((n % 16) as u64));
        assert(out@ =~= old(out)@ + hex(n as nat, width as nat));
    }
}

/// Encode a payload as a frame.
///
/// Frame format: `S` + 3 hex digits (up to 0xFFF bytes), `L` + 7 hex digits (up
/// to 0xFFF_FFFF bytes), or `W` + 15 hex digits. Hex digits are lowercase.
pub fn encode_frame(payload: &str) -> (r: Vec<u8>)
    ensures
        r@ == frame(payload.spec_bytes()),
{
    let bytes = payload.as_bytes();
    let len: usize = bytes.len();
    let mut buf: Vec<u8> = Vec::new();
    if len <= 0xFFF {
        buf.push(83);
        push_hex(&mut buf, len, 3);
    } else if len <= 0xFFF_FFFF {
        buf.push(76);
        push_hex(&mut buf, len, 7);
    } else {
        buf.push(87);
        push_hex(&mut buf, len, 15);
    }
    assert(buf@ =~= header(len as nat));
    buf.extend_from_slice(bytes);
    assert(buf@ =~= frame(payload.spec_bytes()));
    buf
}

/// The error text of `std::str::from_utf8` on bytes that are no UTF-8.
pub uninterp spec fn utf8_error(bytes: Seq<u8>) -> Seq<char>;

/// `std::str::from_utf8` gives the text that the bytes encode, if they are UTF-8.
#[verifier::external_body]
fn utf8_text(bytes: &[u8]) -> (r: Result<String, String>)
    ensures
        match r {
            Ok(s) => valid_utf8(bytes@) && s@ == decode_utf8(bytes@),
            Err(e) => !valid_utf8(bytes@) && e@ == utf8_error(bytes@),
        },
{
    std::str::from_utf8(bytes).map(|s| s.to_string()).map_err(|e| e.to_string())
}

/// The value of a hexadecimal digit of either case.
pub open spec fn hex_digit_value(b: u8) -> Option<nat> {
    if 48 <= b <= 57 {
        Some((b - 48) as nat)
    } else if 97 <= b <= 102 {
        Some((b - 87) as nat)
    } else if 65 <= b <= 70 {
        Some((b - 55) as nat)
    } else {
        None
    }
}

/// The number that hexadecimal digits spell, if all bytes are such digits.
pub open spec fn hex_value(digits: Seq<u8>) -> Option<nat>
    decreases digits.len(),
{
    if digits.len() == 0 {
        Some(0)
    } else {
        match (hex_value(digits.drop_last()), hex_digit_value(digits.last())) {
            (Some(n), Some(d)) => Some(16 * n + d),
            _ => None,
        }
    }
}

/// Sixteen to the power of `w`.
pub open spec fn sixteen_to(w: nat) -> nat
    decreases w,
{
    if w == 0 {
        1
    } else {
        16 * sixteen_to((w - 1) as nat)
    }
}

proof fn lemma_sixteen_to(a: nat, b: nat)
    requires
        a <= b,
    ensures
        sixteen_to(a) <= sixteen_to(b),
    decreases b,
{
    if a < b {
        lemma_sixteen_to(a, (b - 1) as nat);
    }
}

/// A byte that is no digit spoils the number, whatever stands around it.
proof fn lemma_no_digit(digits: Seq<u8>, i: int)
    requires
        0 <= i < digits.len(),
        hex_digit_value(digits[i]) is None,
    ensures
        hex_value(digits) is None,
    decreases digits.len(),
{
    if i < digits.len() - 1 {
        lemma_no_digit(digits.drop_last(), i);
    }
}

/// Reads the number that the header of a frame spells.
fn read_hex(digits: &[u8]) -> (r: Option<u64>)
    requires
        digits@.len() <= 15,
    ensures
        match r {
            Some(n) => hex_value(digits@) == Some(n as nat),
            None => hex_value(digits@) is None,
        },
{
    let mut n: u64 = 0;
    let mut i: usize = 0;
    while i < digits.len()
        invariant
            i <= digits@.len() <= 15,
            hex_value(digits@.take(i as int)) == Some(n as nat),
            n < sixteen_to(i as nat),
        decreases digits@.len() - i,
    {
        proof {
            lemma_sixteen_to(i as nat, 14);
            reveal_with_fuel(sixteen_to, 15);
            assert(digits@.take(i + 1).drop_last() =~= digits@.take(i as int));
        }
        let b: u8 = digits[i];
        let d: u64 = if 48 <= b && b <= 57 {
            (b - 48) as u64
        } else if 97 <= b && b <= 102 {
            (b - 87) as u64
        } else if 65 <= b && b <= 70 {
            (b - 55) as u64
        } else {
            proof {
                lemma_no_digit(digits@, i as int);
            }
            return None;
        };
        n = 16 * n + d;
        i = i + 1;
    }
    assert(digits@.take(i as int) =~= digits@);
    Some(n)
}

/// What the bytes received so far say of the next frame.
pub enum Decoded {
    /// The frame is not there yet, or not all of it.
    Incomplete,
    /// The frame is malformed, with a message.
    Invalid(Seq<char>),
    /// The payload, and the number of bytes that the frame takes.
    Complete(Seq<char>, nat),
}

/// The number of hexadecimal digits that a frame's first byte announces.
pub open spec fn header_digits(b: u8) -> Option<nat> {
    if b == 83 {
        Some(3)
    } else if b == 76 {
        Some(7)
    } else if b == 87 {
        Some(15)
    } else {
        None
    }
}

/// Two lowercase hexadecimal digits.
pub open spec fn byte_text(b: u8) -> Seq<char> {
    seq![hex_digit((b / 16) as nat) as char, hex_digit((b % 16) as nat) as char]
}

/// What `buf` says of the frame at its start.
pub open spec fn decoded(buf: Seq<u8>) -> Decoded {
    if buf.len() == 0 {
        Decoded::Incomplete
    } else {
        match header_digits(buf[0]) {
            None => Decoded::Invalid("unexpected frame prefix byte: 0x"@ + byte_text(buf[0])),
            Some(digits) => if buf.len() < 1 + digits {
                Decoded::Incomplete
            } else {
                decoded_after_header(buf, 1 + digits)
            },
        }
    }
}

/// What `buf` says of the frame at its start, whose header takes `start` bytes.
pub open spec fn decoded_after_header(buf: Seq<u8>, start: nat) -> Decoded {
    let number = buf.subrange(1, start as int);
    if !valid_utf8(number) {
        Decoded::Invalid("invalid UTF-8 in frame header: "@ + utf8_error(number))
    } else {
        match hex_value(number) {
            Some(len) => if buf.len() < start + len {
                Decoded::Incomplete
            } else {
                let payload = buf.subrange(start as int, (start + len) as int);
                if valid_utf8(payload) {
                    Decoded::Complete(decode_utf8(payload), start + len)
                } else {
                    Decoded::Invalid("invalid UTF-8 in frame payload: "@ + utf8_error(payload))
                }
            },
            None => Decoded::Invalid(
                "invalid hex in frame header '"@ + decode_utf8(number)
                    + "': invalid digit found in string"@,
            ),
        }
    }
}

/// Try to decode one complete frame from a byte buffer.
///
/// Returns `Ok(Some((payload, consumed)))` on success, `Ok(None)` if the buffer
/// is incomplete, or an [`FramaCError::InvalidFrame`] on a format error.
pub fn decode_frame(buf: &[u8]) -> (r: Result<Option<(String, usize)>, FramaCError>)
    ensures
        match decoded(buf@) {
            Decoded::Incomplete => r matches Ok(None),
            Decoded::Invalid(m) => r matches Err(FramaCError::InvalidFrame(e)) && e@ == m,
            Decoded::Complete(payload, consumed) => r matches Ok(Some((p, n))) && p@ == payload
                && n == consumed,
        },
{
    if buf.len() == 0 {
        return Ok(None);
    }
    let prefix: u8 = buf[0];
    let digits: usize = if prefix == 83 {
        3
    } else if prefix == 76 {
        7
    } else if prefix == 87 {
        15
    } else {
        let mut m = "unexpected frame prefix byte: 0x".to_owned();
        m.push(hex_byte((prefix / 16) as u64) as char);
        m.push(hex_byte((prefix % 16) as u64) as char);
        assert(m@ =~= "unexpected frame prefix byte: 0x"@ + byte_text(prefix));
        return Err(FramaCError::InvalidFrame(m));
    };
    let start: usize = 1 + digits;
    if buf.len() < start {
        return Ok(None);
    }
    let number = vstd::slice::slice_subrange(buf, 1, start);
    let spelled = match utf8_text(number) {
        Ok(s) => s,
        Err(e) => {
            return Err(
                FramaCError::InvalidFrame(
                    "invalid UTF-8 in frame header: ".to_owned().concat(e.as_str()),
                ),
            );
        },
    };
    let len: u64 = match read_hex(number) {
        Some(n) => n,
        None => {
            return Err(
                FramaCError::InvalidFrame(
                    "invalid hex in frame header '".to_owned().concat(spelled.as_str()).concat(
                        "': invalid digit found in string",
                    ),
                ),
            );
        },
    };
    if ((buf.len() - start) as u64) < len {
        return Ok(None);
    }
    let total: usize = start + len as usize;
    match utf8_text(vstd::slice::slice_subrange(buf, start, total)) {
        Ok(payload) => Ok(Some((payload, total))),
        Err(e) => Err(
            FramaCError::InvalidFrame(
                "invalid UTF-8 in frame payload: ".to_owned().concat(e.as_str()),
            ),
        ),
    }
}

proof fn lemma_hex(n: nat, width: nat)
    requires
        n < sixteen_to(width),
    ensures
        hex(n, width).len() == width,
        hex_value(hex(n, width)) == Some(n),
        forall|i: int|
            0 <= i < width ==> {
                let b = #[trigger] hex(n, width)[i];
                48 <= b <= 57 || 97 <= b <= 102
            },
    decreases width,
{
    if width > 0 {
        let rest = (width - 1) as nat;
        assert(n / 16 < sixteen_to(rest));
        lemma_hex(n / 16, rest);
        assert(hex(n, width).drop_last() =~= hex(n / 16, rest));
        let d = n % 16;
        assert(hex_digit_value(hex_digit(d)) == Some(d));
    }
}

/// The header of a frame, read back, gives the number of bytes.
proof fn lemma_header(len: nat, digits: nat)
    requires
        len < sixteen_to(digits),
    ensures
        valid_utf8(hex(len, digits)),
        hex_value(hex(len, digits)) == Some(len),
        hex(len, digits).len() == digits,
{
    lemma_hex(len, digits);
    let chars = hex(len, digits).map_values(|b: u8| b as char);
    assert(is_ascii_chars(chars)) by {
        assert forall|i: int| 0 <= i < chars.len() implies (chars[i] as u32) < 128 by {
            let b = hex(len, digits)[i];
        }
    }
    is_ascii_chars_encode_utf8(chars);
    assert(encode_utf8(chars) =~= hex(len, digits));
    encode_utf8_valid_utf8(chars);
}

/// The frame of a payload that fits in a frame, up to where it is cut, and
/// whatever comes after it: what `decoded` says.
proof fn lemma_decoded_frame(payload: Seq<char>, buf: Seq<u8>)
    requires
        encode_utf8(payload).len() < sixteen_to(15),
        ({
            let f = frame(encode_utf8(payload));
            f.is_prefix_of(buf) || (buf.is_prefix_of(f) && buf.len() < f.len())
        }),
    ensures
        decoded(buf) == (if frame(encode_utf8(payload)).len() <= buf.len() {
            Decoded::Complete(payload, frame(encode_utf8(payload)).len())
        } else {
            Decoded::Incomplete
        }),
{
    let bytes = encode_utf8(payload);
    let len = bytes.len();
    let f = frame(bytes);
    reveal_with_fuel(sixteen_to, 16);
    let digits: nat = if len <= 0xFFF {
        3
    } else if len <= 0xFFF_FFFF {
        7
    } else {
        15
    };
    lemma_header(len, digits);
    let start = 1 + digits;
    assert(f.len() == start + len);
    encode_utf8_valid_utf8(payload);
    encode_utf8_decode_utf8(payload);
    if buf.len() > 0 {
        assert(buf[0] == f[0]);
        assert(header_digits(buf[0]) == Some(digits));
        if buf.len() >= start {
            assert(buf.subrange(1, start as int) =~= hex(len, digits)) by {
                assert forall|i: int| 0 <= i < digits implies buf.subrange(1, start as int)[i]
                    == hex(len, digits)[i] by {
                    assert(buf[i + 1] == f[i + 1]);
                }
            }
            if buf.len() >= f.len() {
                assert(buf.subrange(start as int, (start + len) as int) =~= bytes) by {
                    assert forall|i: int| 0 <= i < len implies buf.subrange(
                        start as int,
                        (start + len) as int,
                    )[i] == bytes[i] by {
                        assert(buf[start + i] == f[start + i]);
                    }
                }
            }
        }
    }
}

/// A frame that was encoded is decoded to its payload, whatever bytes follow it,
/// and takes as many bytes as the encoding has.
pub proof fn frame_round_trip(payload: Seq<char>, rest: Seq<u8>)
    requires
        encode_utf8(payload).len() < sixteen_to(15),
    ensures
        decoded(frame(encode_utf8(payload)) + rest) == Decoded::Complete(
            payload,
            frame(encode_utf8(payload)).len(),
        ),
{
    let f = frame(encode_utf8(payload));
    assert(f.is_prefix_of(f + rest));
    lemma_decoded_frame(payload, f + rest);
}

/// As long as a byte of a frame is missing, the frame is taken as incomplete.
pub proof fn cut_frame_is_incomplete(payload: Seq<char>, cut: int)
    requires
        encode_utf8(payload).len() < sixteen_to(15),
        0 <= cut < frame(encode_utf8(payload)).len(),
    ensures
        decoded(frame(encode_utf8(payload)).take(cut)) == Decoded::Incomplete,
{
    lemma_decoded_frame(payload, frame(encode_utf8(payload)).take(cut));
}

/// Hexadecimal digits spell the number, in lower case, and fill the width.
pub proof fn hex_digits_read_back(n: nat, width: nat)
    requires
        n < sixteen_to(width),
    ensures
        hex(n, width).len() == width,
        hex_value(hex(n, width)) == Some(n),
        forall|i: int|
            0 <= i < width ==> {
                let b = #[trigger] hex(n, width)[i];
                48 <= b <= 57 || 97 <= b <= 102
            },
{
    lemma_hex(n, width);
}

/// A frame is a letter, the number of bytes and the bytes: `S` and three digits for
/// up to 4095 bytes, `L` and seven for up to 268435455, `W` and fifteen for more.
pub proof fn frame_tells_its_length(payload: Seq<u8>)
    requires
        payload.len() < sixteen_to(15),
    ensures
        ({
            let digits: nat = if payload.len() <= 4095 {
                3
            } else if payload.len() <= 268435455 {
                7
            } else {
                15
            };
            let f = frame(payload);
            &&& f.len() == 1 + digits + payload.len()
            &&& f[0] == (if digits == 3 {
                'S'
            } else if digits == 7 {
                'L'
            } else {
                'W'
            }) as u8
            &&& hex_value(f.subrange(1, 1 + digits as int)) == Some(payload.len())
            &&& f.subrange(1 + digits as int, f.len() as int) == payload
        }),
{
    reveal_with_fuel(sixteen_to, 16);
    let digits: nat = if payload.len() <= 4095 {
        3
    } else if payload.len() <= 268435455 {
        7
    } else {
        15
    };
    lemma_hex(payload.len(), digits);
    let f = frame(payload);
    assert(f.subrange(1, 1 + digits as int) =~= hex(payload.len(), digits));
    assert(f.subrange(1 + digits as int, f.len() as int) =~= payload);
}

/// A frame that begins with another letter is none; and so is one whose header holds
/// a byte that is no hexadecimal digit.
pub proof fn malformed_frames_are_refused(buf: Seq<u8>, i: int)
    requires
        buf.len() > 0,
    ensures
        buf[0] != 'S' as u8 && buf[0] != 'L' as u8 && buf[0] != 'W' as u8 ==> decoded(buf)
            is Invalid,
        buf[0] == 'S' as u8 && buf.len() >= 4 && 1 <= i < 4 && hex_digit_value(buf[i]) is None
            ==> decoded(buf) is Invalid,
        hex_digit_value('+' as u8) is None,
{
    if buf[0] == 'S' as u8 && buf.len() >= 4 && 1 <= i < 4 && hex_digit_value(buf[i]) is None {
        let number = buf.subrange(1, 4);
        assert(number[i - 1] == buf[i]);
        lemma_no_digit(number, i - 1);
    }
}

// ── Messages ────────────────────────────────────────────────────────────

/// Client command sent to Frama-C Server.
#[derive(Debug)]
pub enum FramaCCommand {
    Get { id: String, request: String, data: Json },
    SetParam { id: String, request: String, data: Json },
    Exec { id: String, request: String, data: Json },
    Poll,
    Shutdown,
    Kill { id: String },
    SigOn { id: String },
    SigOff { id: String },
}

/// Server response from Frama-C Server.
#[derive(Debug)]
pub enum FramaCResponse {
    Data { id: String, data: Json },
    Error { id: String, msg: String },
    Signal { id: String },
    Rejected { id: String },
    Killed { id: String },
    CmdLineOn,
    CmdLineOff,
}

/// What a command says.
pub enum CommandView {
    Get { id: Seq<char>, request: Seq<char>, data: JsonView },
    SetParam { id: Seq<char>, request: Seq<char>, data: JsonView },
    Exec { id: Seq<char>, request: Seq<char>, data: JsonView },
    Poll,
    Shutdown,
    Kill { id: Seq<char> },
    SigOn { id: Seq<char> },
    SigOff { id: Seq<char> },
}

/// What a response says.
pub enum ResponseView {
    Data { id: Seq<char>, data: JsonView },
    Error { id: Seq<char>, msg: Seq<char> },
    Signal { id: Seq<char> },
    Rejected { id: Seq<char> },
    Killed { id: Seq<char> },
    CmdLineOn,
    CmdLineOff,
}

impl View for FramaCCommand {
    type V = CommandView;

    open spec fn view(&self) -> CommandView {
        match self {
            FramaCCommand::Get { id, request, data } => CommandView::Get {
                id: id@,
                request: request@,
                data: data@,
            },
            FramaCCommand::SetParam { id, request, data } => CommandView::SetParam {
                id: id@,
                request: request@,
                data: data@,
            },
            FramaCCommand::Exec { id, request, data } => CommandView::Exec {
                id: id@,
                request: request@,
                data: data@,
            },
            FramaCCommand::Poll => CommandView::Poll,
            FramaCCommand::Shutdown => CommandView::Shutdown,
            FramaCCommand::Kill { id } => CommandView::Kill { id: id@ },
            FramaCCommand::SigOn { id } => CommandView::SigOn { id: id@ },
            FramaCCommand::SigOff { id } => CommandView::SigOff { id: id@ },
        }
    }
}

impl View for FramaCResponse {
    type V = ResponseView;

    open spec fn view(&self) -> ResponseView {
        match self {
            FramaCResponse::Data { id, data } => ResponseView::Data { id: id@, data: data@ },
            FramaCResponse::Error { id, msg } => ResponseView::Error { id: id@, msg: msg@ },
            FramaCResponse::Signal { id } => ResponseView::Signal { id: id@ },
            FramaCResponse::Rejected { id } => ResponseView::Rejected { id: id@ },
            FramaCResponse::Killed { id } => ResponseView::Killed { id: id@ },
            FramaCResponse::CmdLineOn => ResponseView::CmdLineOn,
            FramaCResponse::CmdLineOff => ResponseView::CmdLineOff,
        }
    }
}

/// The JSON object of a request: `cmd`, `id`, `request` and `data`.
pub open spec fn request_json(
    cmd: Seq<char>,
    id: Seq<char>,
    request: Seq<char>,
    data: JsonView,
) -> JsonView {
    JsonView::Record(
        seq![
            ("cmd"@, JsonView::Text(cmd)),
            ("id"@, JsonView::Text(id)),
            ("request"@, JsonView::Text(request)),
            ("data"@, data),
        ],
    )
}

/// The JSON object of a command on a request or a signal: `cmd` and `id`.
pub open spec fn control_json(cmd: Seq<char>, id: Seq<char>) -> JsonView {
    JsonView::Record(seq![("cmd"@, JsonView::Text(cmd)), ("id"@, JsonView::Text(id))])
}

/// The text of a command on the wire.
pub open spec fn command_text(c: CommandView) -> Seq<char> {
    match c {
        CommandView::Get { id, request, data } => json::json_text(request_json("GET"@, id, request, data)),
        CommandView::SetParam { id, request, data } => json::json_text(request_json("SET"@, id, request, data)),
        CommandView::Exec { id, request, data } => json::json_text(
            request_json("EXEC"@, id, request, data),
        ),
        CommandView::Poll => "\"POLL\""@,
        CommandView::Shutdown => "\"SHUTDOWN\""@,
        CommandView::Kill { id } => json::json_text(control_json("KILL"@, id)),
        CommandView::SigOn { id } => json::json_text(control_json("SIGON"@, id)),
        CommandView::SigOff { id } => json::json_text(control_json("SIGOFF"@, id)),
    }
}

fn request_object(cmd: &str, id: &String, request: &String, data: &Json) -> (r: Json)
    ensures
        r@ == request_json(cmd@, id@, request@, data@),
{
    let mut o = JsonObject::new();
    o.insert("cmd".to_owned(), Json::text(cmd));
    o.insert("id".to_owned(), Json::Text(id.clone()));
    o.insert("request".to_owned(), Json::Text(request.clone()));
    o.insert("data".to_owned(), data.clone());
    proof {
        reveal_strlit("cmd");
        reveal_strlit("id");
        reveal_strlit("request");
        reveal_strlit("data");
        assert("cmd"@[0] != "id"@[0]);
        assert("cmd"@[0] != "request"@[0]);
        assert("cmd"@[0] != "data"@[0]);
        assert("id"@[0] != "request"@[0]);
        assert("id"@[0] != "data"@[0]);
        assert("request"@[0] != "data"@[0]);
        reveal_with_fuel(json::with_field, 5);
        assert(o@ =~= request_json(cmd@, id@, request@, data@)->Record_0);
    }
    Json::Record(o)
}

fn control_object(cmd: &str, id: &String) -> (r: Json)
    ensures
        r@ == control_json(cmd@, id@),
{
    let mut o = JsonObject::new();
    o.insert("cmd".to_owned(), Json::text(cmd));
    o.insert("id".to_owned(), Json::Text(id.clone()));
    proof {
        reveal_strlit("cmd");
        reveal_strlit("id");
        assert("cmd"@[0] != "id"@[0]);
        reveal_with_fuel(json::with_field, 3);
        assert(o@ =~= control_json(cmd@, id@)->Record_0);
    }
    Json::Record(o)
}

/// Serialize a command to the JSON text that goes on the wire.
///
/// GET, SET and EXEC are objects with the fields `cmd`, `id`, `request` and
/// `data`; POLL and SHUTDOWN are the string literals `"POLL"` and `"SHUTDOWN"`.
pub fn encode_command(cmd: &FramaCCommand) -> (r: String)
    ensures
        r@ == command_text(cmd@),
{
    match cmd {
        FramaCCommand::Get { id, request, data } => request_object(
            "GET",
            id,
            request,
            data,
        ).to_text(),
        FramaCCommand::SetParam { id, request, data } => request_object(
            "SET",
            id,
            request,
            data,
        ).to_text(),
        FramaCCommand::Exec { id, request, data } => request_object(
            "EXEC",
            id,
            request,
            data,
        ).to_text(),
        FramaCCommand::Poll => "\"POLL\"".to_owned(),
        FramaCCommand::Shutdown => "\"SHUTDOWN\"".to_owned(),
        FramaCCommand::Kill { id } => control_object("KILL", id).to_text(),
        FramaCCommand::SigOn { id } => control_object("SIGON", id).to_text(),
        FramaCCommand::SigOff { id } => control_object("SIGOFF", id).to_text(),
    }
}

/// The response that a JSON value stands for, or why it stands for none.
pub open spec fn response_of_json(v: JsonView) -> Result<ResponseView, Seq<char>> {
    match v {
        JsonView::Text(s) => if s == "CMDLINEON"@ {
            Ok(ResponseView::CmdLineOn)
        } else if s == "CMDLINEOFF"@ {
            Ok(ResponseView::CmdLineOff)
        } else {
            Err("unknown string response: "@ + s)
        },
        JsonView::Record(_) => {
            let res = v.text_or_empty("res"@);
            let id = v.text_or_empty("id"@);
            if res == "DATA"@ {
                Ok(ResponseView::Data { id, data: v.at("data"@) })
            } else if res == "ERROR"@ {
                Ok(ResponseView::Error { id, msg: v.text_or_empty("msg"@) })
            } else if res == "SIGNAL"@ {
                Ok(ResponseView::Signal { id })
            } else if res == "REJECTED"@ {
                Ok(ResponseView::Rejected { id })
            } else if res == "KILLED"@ {
                Ok(ResponseView::Killed { id })
            } else {
                Err("unknown res type: "@ + res)
            }
        },
        _ => Err("expected string or object, got: "@ + json::json_text(v)),
    }
}

/// The response that a JSON value stands for.
pub fn response_of_value(value: &Json) -> (r: Result<FramaCResponse, FramaCError>)
    ensures
        match response_of_json(value@) {
            Ok(v) => r matches Ok(x) && x@ == v,
            Err(m) => r matches Err(FramaCError::UnexpectedResponse(e)) && e@ == m,
        },
{
    match value {
        Json::Text(s) => if same_text(s.as_str(), "CMDLINEON") {
            Ok(FramaCResponse::CmdLineOn)
        } else if same_text(s.as_str(), "CMDLINEOFF") {
            Ok(FramaCResponse::CmdLineOff)
        } else {
            Err(
                FramaCError::UnexpectedResponse(
                    "unknown string response: ".to_owned().concat(s.as_str()),
                ),
            )
        },
        Json::Record(_) => {
            let res = value.get_str_or_empty("res");
            let id = value.get_str_or_empty("id");
            if same_text(res.as_str(), "DATA") {
                let data = match value.get("data") {
                    Some(d) => d.clone(),
                    None => Json::Null,
                };
                Ok(FramaCResponse::Data { id, data })
            } else if same_text(res.as_str(), "ERROR") {
                Ok(FramaCResponse::Error { id, msg: value.get_str_or_empty("msg") })
            } else if same_text(res.as_str(), "SIGNAL") {
                Ok(FramaCResponse::Signal { id })
            } else if same_text(res.as_str(), "REJECTED") {
                Ok(FramaCResponse::Rejected { id })
            } else if same_text(res.as_str(), "KILLED") {
                Ok(FramaCResponse::Killed { id })
            } else {
                Err(
                    FramaCError::UnexpectedResponse(
                        "unknown res type: ".to_owned().concat(res.as_str()),
                    ),
                )
            }
        },
        _ => Err(
            FramaCError::UnexpectedResponse(
                "expected string or object, got: ".to_owned().concat(value.to_text().as_str()),
            ),
        ),
    }
}

/// Deserialize a JSON text into a response.
///
/// Handles both string responses (CMDLINEON, CMDLINEOFF) and object responses
/// (DATA, ERROR, SIGNAL, REJECTED, KILLED).
pub fn decode_response(json_str: &str) -> (r: Result<FramaCResponse, FramaCError>)
    ensures
        match json::json_parsed(json_str@) {
            Ok(v) => match response_of_json(v) {
                Ok(x) => r matches Ok(y) && y@ == x,
                Err(m) => r matches Err(FramaCError::UnexpectedResponse(e)) && e@ == m,
            },
            Err(m) => r matches Err(FramaCError::Json(e)) && e@ == m,
        },
{
    match Json::parse(json_str) {
        Ok(value) => response_of_value(&value),
        Err(e) => Err(FramaCError::Json(e)),
    }
}

/// A command on the wire, read as JSON, has the command's own fields: what
/// Frama-C reads is what was sent. The data must be such that printing keeps it,
/// and leave room for the level that the command adds.
pub proof fn request_prints_back(
    cmd: Seq<char>,
    id: Seq<char>,
    request: Seq<char>,
    data: JsonView,
)
    requires
        data.exact(),
        data.depth() <= 126,
    ensures
        request_json(cmd, id, request, data).prints_back(),
        request_json(cmd, id, request, data).at("cmd"@) == JsonView::Text(cmd),
        request_json(cmd, id, request, data).at("id"@) == JsonView::Text(id),
        request_json(cmd, id, request, data).at("request"@) == JsonView::Text(request),
        request_json(cmd, id, request, data).at("data"@) == data,
{
    reveal_strlit("cmd");
    reveal_strlit("id");
    reveal_strlit("request");
    reveal_strlit("data");
    assert("cmd"@[0] != "id"@[0]);
    assert("cmd"@[0] != "request"@[0]);
    assert("cmd"@[0] != "data"@[0]);
    assert("id"@[0] != "request"@[0]);
    assert("id"@[0] != "data"@[0]);
    assert("request"@[0] != "data"@[0]);
    let fields = request_json(cmd, id, request, data)->Record_0;
    reveal_with_fuel(json::lookup, 5);
    assert(json::distinct_keys(fields));
    assert forall|i: int| 0 <= i < fields.len() implies (#[trigger] fields[i]).1.exact() by {
        assert(i == 0 || i == 1 || i == 2 || i == 3);
    }
    assert forall|i: int| 0 <= i < fields.len() implies (#[trigger] fields[i]).1.depth()
        <= data.depth() by {
        assert(i == 0 || i == 1 || i == 2 || i == 3);
    }
    json::lemma_record_depth(fields, data.depth());
}

/// Each kind of command has its own word on the wire, and those on a request or a
/// signal name it.
pub proof fn commands_have_their_words(id: Seq<char>, request: Seq<char>, data: JsonView)
    ensures
        command_text(CommandView::Get { id, request, data }) == json::json_text(
            request_json("GET"@, id, request, data),
        ),
        command_text(CommandView::SetParam { id, request, data }) == json::json_text(
            request_json("SET"@, id, request, data),
        ),
        command_text(CommandView::Exec { id, request, data }) == json::json_text(
            request_json("EXEC"@, id, request, data),
        ),
        command_text(CommandView::Poll) == seq!['"', 'P', 'O', 'L', 'L', '"'],
        command_text(CommandView::Kill { id }) == json::json_text(control_json("KILL"@, id)),
        control_json("KILL"@, id).at("cmd"@) == JsonView::Text("KILL"@),
        control_json("KILL"@, id).at("id"@) == JsonView::Text(id),
        command_text(CommandView::SigOn { id }) == json::json_text(control_json("SIGON"@, id)),
        command_text(CommandView::SigOff { id }) == json::json_text(control_json("SIGOFF"@, id)),
{
    reveal_strlit("\"POLL\"");
    reveal_strlit("cmd");
    reveal_strlit("id");
    assert("\"POLL\""@ =~= seq!['"', 'P', 'O', 'L', 'L', '"']);
    assert("cmd"@[0] != "id"@[0]);
    reveal_with_fuel(json::lookup, 3);
}

/// Each kind of message from the server is taken as what it says: data, an error with
/// its text, a rejection, the notice that the request was killed, a signal, or a
/// notice on the command line. What is none of these is refused.
pub proof fn messages_are_taken_as_they_say(v: JsonView, id: Seq<char>)
    requires
        v is Record,
        v.at("id"@) == JsonView::Text(id),
    ensures
        v.at("res"@) == JsonView::Text("DATA"@) ==> response_of_json(v) == Ok::<
            ResponseView,
            Seq<char>,
        >(ResponseView::Data { id, data: v.at("data"@) }),
        v.at("res"@) == JsonView::Text("ERROR"@) ==> response_of_json(v) == Ok::<
            ResponseView,
            Seq<char>,
        >(
            ResponseView::Error {
                id,
                msg: match v.at("msg"@) {
                    JsonView::Text(m) => m,
                    _ => Seq::empty(),
                },
            },
        ),
        v.at("res"@) == JsonView::Text("SIGNAL"@) ==> response_of_json(v) == Ok::<
            ResponseView,
            Seq<char>,
        >(ResponseView::Signal { id }),
        v.at("res"@) == JsonView::Text("REJECTED"@) ==> response_of_json(v) == Ok::<
            ResponseView,
            Seq<char>,
        >(ResponseView::Rejected { id }),
        v.at("res"@) == JsonView::Text("KILLED"@) ==> response_of_json(v) == Ok::<
            ResponseView,
            Seq<char>,
        >(ResponseView::Killed { id }),
        !(v.at("res"@) is Text) ==> response_of_json(v) is Err,
        response_of_json(JsonView::Text("CMDLINEON"@)) == Ok::<ResponseView, Seq<char>>(
            ResponseView::CmdLineOn,
        ),
        response_of_json(JsonView::Text("CMDLINEOFF"@)) == Ok::<ResponseView, Seq<char>>(
            ResponseView::CmdLineOff,
        ),
        response_of_json(JsonView::Null) is Err,
{
    reveal_strlit("DATA");
    reveal_strlit("ERROR");
    reveal_strlit("SIGNAL");
    reveal_strlit("REJECTED");
    reveal_strlit("KILLED");
    reveal_strlit("CMDLINEON");
    reveal_strlit("CMDLINEOFF");
    assert("DATA"@.len() == 4 && "ERROR"@.len() == 5 && "SIGNAL"@.len() == 6 && "REJECTED"@.len()
        == 8 && "KILLED"@.len() == 6);
    assert("SIGNAL"@[0] != "KILLED"@[0]);
    assert("CMDLINEON"@.len() == 9 && "CMDLINEOFF"@.len() == 10);
}

/// The message of data for `id`, as the server sends it, is taken as that data.
pub proof fn data_message_gives_its_data(id: Seq<char>, data: JsonView)
    ensures
        response_of_json(
            JsonView::Record(
                seq![
                    ("res"@, JsonView::Text("DATA"@)),
                    ("id"@, JsonView::Text(id)),
                    ("data"@, data),
                ],
            ),
        ) == Ok::<ResponseView, Seq<char>>(ResponseView::Data { id, data }),
{
    reveal_strlit("res");
    reveal_strlit("id");
    reveal_strlit("data");
    assert("res"@[0] != "id"@[0]);
    assert("res"@[0] != "data"@[0]);
    assert("id"@[0] != "data"@[0]);
    reveal_with_fuel(json::lookup, 4);
}

} // verus!
