//! The control protocol between a client invocation and the daemon, over a
//! loopback TCP connection. A request is one opcode byte. A response is a type
//! byte, then either one flag byte (status) or a two-byte big-endian length and
//! that many bytes of UTF-8 text (ok, error).
use vstd::prelude::*;
use vstd::utf8::*;

verus! {

/// Loopback port of the daemon's listener.
pub const DAEMON_PORT: u16 = 37845;

pub const DAEMON_STARTED: &'static str = "Daemon started successfully";

pub const DAEMON_ALREADY_RUNNING: &'static str = "Daemon is already running";

pub const DAEMON_NOT_RUNNING: &'static str = "Daemon is not running";

pub const DAEMON_STOPPING: &'static str = "Daemon stopping";

pub const UI_LAUNCHED: &'static str = "UI launched";

pub const UI_ALREADY_VISIBLE: &'static str = "UI already visible";

pub const FAILED_TO_START: &'static str = "Failed to start daemon";

pub const FAILED_TO_COMMUNICATE: &'static str = "Failed to communicate with daemon";

pub const INVALID_RESPONSE: &'static str = "Invalid response from daemon";

pub const UNKNOWN_COMMAND: &'static str = "Unknown command";

/// A request to the daemon.
#[derive(Debug, Clone, Copy, PartialEq, Eq, Structural)]
pub enum Command {
    Stop,
    Show,
    Status,
}

impl Command {
    pub open spec fn opcode(self) -> u8 {
        match self {
            Command::Stop => 0x01,
            Command::Show => 0x02,
            Command::Status => 0x03,
        }
    }

    /// The request whose opcode is `b`.
    pub open spec fn from_byte_spec(b: u8) -> Option<Self> {
        if b == 0x01 {
            Some(Command::Stop)
        } else if b == 0x02 {
            Some(Command::Show)
        } else if b == 0x03 {
            Some(Command::Status)
        } else {
            None
        }
    }

    pub fn from_byte(b: u8) -> (r: Option<Self>)
        ensures
            r == Self::from_byte_spec(b),
            r matches Some(c) ==> c.opcode() == b,
    {
        match b {
            0x01 => Some(Command::Stop),
            0x02 => Some(Command::Show),
            0x03 => Some(Command::Status),
            _ => None,
        }
    }

    pub fn to_byte(self) -> (r: u8)
        ensures
            r == self.opcode(),
    {
        match self {
            Command::Stop => 0x01,
            Command::Show => 0x02,
            Command::Status => 0x03,
        }
    }
}

/// The first byte of a response.
#[derive(Debug, Clone, Copy, PartialEq, Eq, Structural)]
pub enum ResponseType {
    Success,
    Status,
    Error,
}

impl ResponseType {
    pub open spec fn tag_spec(self) -> u8 {
        match self {
            ResponseType::Success => 0x80,
            ResponseType::Status => 0x81,
            ResponseType::Error => 0x82,
        }
    }

    pub fn tag(self) -> (r: u8)
        ensures
            r == self.tag_spec(),
    {
        match self {
            ResponseType::Success => 0x80,
            ResponseType::Status => 0x81,
            ResponseType::Error => 0x82,
        }
    }
}

/// The daemon's answer to a request.
#[derive(Debug)]
pub enum Response {
    Success(String),
    Error(String),
    Status { daemon_running: bool, ui_visible: bool },
}

/// A response, its text as characters.
pub enum ResponseView {
    Success(Seq<char>),
    Error(Seq<char>),
    Status { daemon_running: bool, ui_visible: bool },
}

impl View for Response {
    type V = ResponseView;

    open spec fn view(&self) -> ResponseView {
        match self {
            Response::Success(m) => ResponseView::Success(m@),
            Response::Error(m) => ResponseView::Error(m@),
            Response::Status { daemon_running, ui_visible } => ResponseView::Status {
                daemon_running: *daemon_running,
                ui_visible: *ui_visible,
            },
        }
    }
}

/// The status flag byte: bit 0 for a running daemon, bit 1 for a visible window.
pub open spec fn status_flags(daemon_running: bool, ui_visible: bool) -> u8 {
    ((if daemon_running {
        1int
    } else {
        0
    }) + (if ui_visible {
        2int
    } else {
        0
    })) as u8
}

pub open spec fn be16(n: nat) -> Seq<u8> {
    seq![(n / 256) as u8, (n % 256) as u8]
}

/// A text frame: type byte, big-endian length, UTF-8 bytes.
pub open spec fn text_frame(tag: u8, text: Seq<char>) -> Seq<u8> {
    seq![tag] + be16(encode_utf8(text).len()) + encode_utf8(text)
}

/// The bytes of a response; `None` when its text does not fit a two-byte length.
pub open spec fn encoded(r: ResponseView) -> Option<Seq<u8>> {
    match r {
        ResponseView::Success(m) => if encode_utf8(m).len() <= 0xffff {
            Some(text_frame(0x80, m))
        } else {
            None
        },
        ResponseView::Error(m) => if encode_utf8(m).len() <= 0xffff {
            Some(text_frame(0x82, m))
        } else {
            None
        },
        ResponseView::Status { daemon_running, ui_visible } => Some(
            seq![0x81u8, status_flags(daemon_running, ui_visible)],
        ),
    }
}

/// Appends a text frame to `out`.
fn push_text_frame(out: &mut Vec<u8>, tag: u8, text: &String) -> (ok: bool)
    ensures
        ok == (encode_utf8(text@).len() <= 0xffff),
        ok ==> final(out)@ == old(out)@ + text_frame(tag, text@),
{
    let bytes = text.as_str().as_bytes();
    let n = bytes.len();
    if n > 0xffff {
        return false;
    }
    out.push(tag);
    out.push((n / 256) as u8);
    out.push((n % 256) as u8);
    let ghost start = out@;
    let mut i: usize = 0;
    while i < n
        invariant
            n == bytes@.len(),
            bytes@ == encode_utf8(text@),
            i <= n,
            out@ == start + bytes@.subrange(0, i as int),
        decreases n - i,
    {
        out.push(bytes[i]);
        i = i + 1;
        assert(out@ =~= start + bytes@.subrange(0, i as int));
    }
    assert(bytes@.subrange(0, n as int) =~= bytes@);
    assert(start + bytes@ =~= old(out)@ + text_frame(tag, text@));
    true
}

/// The bytes of a response; `None` when its text is longer than 65535 bytes.
pub fn encode_response(response: &Response) -> (r: Option<Vec<u8>>)
    ensures
        match encoded(response@) {
            None => r is None,
            Some(b) => r matches Some(v) && v@ == b,
        },
{
    let mut out: Vec<u8> = Vec::new();
    match response {
        Response::Success(m) => {
            if push_text_frame(&mut out, ResponseType::Success.tag(), m) {
                Some(out)
            } else {
                None
            }
        },
        Response::Error(m) => {
            if push_text_frame(&mut out, ResponseType::Error.tag(), m) {
                Some(out)
            } else {
                None
            }
        },
        Response::Status { daemon_running, ui_visible } => {
            let mut flags: u8 = 0;
            if *daemon_running {
                flags = flags + 1;
            }
            if *ui_visible {
                flags = flags + 2;
            }
            out.push(ResponseType::Status.tag());
            out.push(flags);
            assert(out@ =~= seq![0x81u8, status_flags(*daemon_running, *ui_visible)]);
            Some(out)
        },
    }
}

/// What a decoder holds after reading some bytes of a response.
pub enum Decoded {
    /// A whole response, and the number of bytes it took.
    Complete(Response, usize),
    /// The frame needs at least this many more bytes.
    Incomplete(usize),
    /// The type byte is none of the three.
    Invalid,
}

/// The decoder's result, its text as characters.
pub enum DecodedView {
    Complete(ResponseView, nat),
    Incomplete(nat),
    Invalid,
}

impl View for Decoded {
    type V = DecodedView;

    open spec fn view(&self) -> DecodedView {
        match self {
            Decoded::Complete(r, n) => DecodedView::Complete(r@, *n as nat),
            Decoded::Incomplete(n) => DecodedView::Incomplete(*n as nat),
            Decoded::Invalid => DecodedView::Invalid,
        }
    }
}

/// The text of a payload: valid UTF-8 as it is, each invalid sequence as U+FFFD.
pub uninterp spec fn lossy_utf8(b: Seq<u8>) -> Seq<char>;

/// Relies on `String::from_utf8_lossy`, which returns valid UTF-8 input
/// unchanged and depends on the bytes alone.
#[verifier::external_body]
fn utf8_lossy(b: &[u8]) -> (r: String)
    ensures
        r@ == lossy_utf8(b@),
        valid_utf8(b@) ==> r@ == decode_utf8(b@),
{
    String::from_utf8_lossy(b).into_owned()
}

/// The text of a payload: its decoding when it is valid UTF-8.
pub open spec fn payload_text(b: Seq<u8>) -> Seq<char> {
    if valid_utf8(b) {
        decode_utf8(b)
    } else {
        lossy_utf8(b)
    }
}

/// What the bytes `b`, read from the start of a response, hold.
pub open spec fn decoded(b: Seq<u8>) -> DecodedView {
    if b.len() == 0 {
        DecodedView::Incomplete(1)
    } else if b[0] == 0x81 {
        if b.len() < 2 {
            DecodedView::Incomplete(1)
        } else {
            DecodedView::Complete(
                ResponseView::Status {
                    daemon_running: b[1] % 2 == 1,
                    ui_visible: (b[1] / 2) % 2 == 1,
                },
                2,
            )
        }
    } else if b[0] == 0x80 || b[0] == 0x82 {
        if b.len() < 3 {
            DecodedView::Incomplete((3 - b.len()) as nat)
        } else {
            let n = b[1] as nat * 256 + b[2] as nat;
            if b.len() < 3 + n {
                DecodedView::Incomplete((3 + n - b.len()) as nat)
            } else {
                let text = payload_text(b.subrange(3, 3 + n as int));
                DecodedView::Complete(
                    if b[0] == 0x80 {
                        ResponseView::Success(text)
                    } else {
                        ResponseView::Error(text)
                    },
                    3 + n,
                )
            }
        }
    } else {
        DecodedView::Invalid
    }
}

/// Decodes the response at the start of `b`. Bytes past the frame are left alone.
pub fn decode_response(b: &[u8]) -> (r: Decoded)
    ensures
        r@ == decoded(b@),
{
    let len = b.len();
    if len == 0 {
        return Decoded::Incomplete(1);
    }
    let tag = b[0];
    if tag == ResponseType::Status.tag() {
        if len < 2 {
            return Decoded::Incomplete(1);
        }
        let flags = b[1];
        return Decoded::Complete(
            Response::Status { daemon_running: flags % 2 == 1, ui_visible: (flags / 2) % 2 == 1 },
            2,
        );
    }
    if tag == ResponseType::Success.tag() || tag == ResponseType::Error.tag() {
        if len < 3 {
            return Decoded::Incomplete(3 - len);
        }
        let n = (b[1] as usize) * 256 + (b[2] as usize);
        if len - 3 < n {
            return Decoded::Incomplete(3 + n - len);
        }
        let payload = slice_range(b, 3, 3 + n);
        let text = utf8_lossy(payload.as_slice());
        if tag == ResponseType::Success.tag() {
            Decoded::Complete(Response::Success(text), 3 + n)
        } else {
            Decoded::Complete(Response::Error(text), 3 + n)
        }
    } else {
        Decoded::Invalid
    }
}

/// A copy of `b[from..to]`.
fn slice_range(b: &[u8], from: usize, to: usize) -> (r: Vec<u8>)
    requires
        from <= to <= b@.len(),
    ensures
        r@ == b@.subrange(from as int, to as int),
{
    let mut out: Vec<u8> = Vec::new();
    let mut i: usize = from;
    while i < to
        invariant
            from <= i <= to,
            to <= b@.len(),
            out@ == b@.subrange(from as int, i as int),
        decreases to - i,
    {
        out.push(b[i]);
        i = i + 1;
        assert(out@ =~= b@.subrange(from as int, i as int));
    }
    out
}

/// A response that fits its frame comes back whole from its bytes.
pub proof fn lemma_response_round_trip(r: ResponseView)
    requires
        encoded(r) is Some,
    ensures
        decoded(encoded(r)->0) == DecodedView::Complete(r, encoded(r)->0.len()),
{
    broadcast use encode_utf8_valid_utf8, encode_utf8_decode_utf8;

    let b = encoded(r)->0;
    match r {
        ResponseView::Status { daemon_running, ui_visible } => {
            assert(b[0] == 0x81);
        },
        ResponseView::Success(m) => {
            let e = encode_utf8(m);
            assert(b[0] == 0x80);
            assert(b[1] as nat * 256 + b[2] as nat == e.len());
            assert(b.subrange(3, 3 + e.len() as int) =~= e);
            assert(valid_utf8(e));
            assert(decode_utf8(e) == m);
        },
        ResponseView::Error(m) => {
            let e = encode_utf8(m);
            assert(b[0] == 0x82);
            assert(b[1] as nat * 256 + b[2] as nat == e.len());
            assert(b.subrange(3, 3 + e.len() as int) =~= e);
            assert(valid_utf8(e));
        },
    }
}

} // verus!
