use vstd::prelude::*;
use vstd::string::StringExecFns;
use vstd::string::StringSliceAdditionalSpecFns;
use vstd::utf8::{decode_utf8, encode_utf8, valid_utf8};

verus! {

/// The most bytes of each message that an exit code carries.
pub const MAX_MESSAGE_LEN: usize = 1024;

/// Why a connection ended.
#[derive(Copy, Clone, Eq, PartialEq, Debug, Structural)]
pub enum ExitStatus {
    /// Disconnection was requested.
    Disconnected,
    /// An unresolvable IO error occurred that forced disconnection.
    NetworkError,
    /// A required action failed to receive a response.
    TimedOut,
    /// A packet violated a format expectation.
    ProtocolViolation,
    /// Couldn't resolve an IP string to a socket addr (during connection).
    AddressUnresolvable,
    /// Expected an exit code, but it failed to deserialize.
    InvalidExitCode,
}

/// The status that a status byte stands for; unknown bytes mean `Disconnected`.
pub open spec fn status_of(value: u8) -> ExitStatus {
    if value == 1 {
        ExitStatus::NetworkError
    } else if value == 2 {
        ExitStatus::TimedOut
    } else if value == 3 {
        ExitStatus::ProtocolViolation
    } else if value == 4 {
        ExitStatus::AddressUnresolvable
    } else if value == 5 {
        ExitStatus::InvalidExitCode
    } else {
        ExitStatus::Disconnected
    }
}

/// The byte that a status is encoded as.
pub open spec fn status_byte(s: ExitStatus) -> u8 {
    match s {
        ExitStatus::Disconnected => 0,
        ExitStatus::NetworkError => 1,
        ExitStatus::TimedOut => 2,
        ExitStatus::ProtocolViolation => 3,
        ExitStatus::AddressUnresolvable => 4,
        ExitStatus::InvalidExitCode => 5,
    }
}

/// The wire numbers of the statuses: Disconnected, NetworkError, TimedOut, ProtocolViolation,
/// AddressUnresolvable and InvalidExitCode are 0 to 5 in that order. Decoding each of those
/// bytes gives back the status it numbers, and any other byte decodes as Disconnected.
pub proof fn lemma_status_wire_numbers()
    ensures
        status_byte(ExitStatus::Disconnected) == 0,
        status_byte(ExitStatus::NetworkError) == 1,
        status_byte(ExitStatus::TimedOut) == 2,
        status_byte(ExitStatus::ProtocolViolation) == 3,
        status_byte(ExitStatus::AddressUnresolvable) == 4,
        status_byte(ExitStatus::InvalidExitCode) == 5,
        forall|v: u8| v <= 5 ==> #[trigger] status_byte(status_of(v)) == v,
        forall|v: u8| v > 5 ==> #[trigger] status_of(v) == ExitStatus::Disconnected,
        forall|s: ExitStatus| #[trigger] status_of(status_byte(s)) == s,
{
}

impl ExitStatus {
    /// The byte this status is encoded as.
    pub fn as_u8(self) -> (r: u8)
        ensures
            r == status_byte(self),
    {
        match self {
            ExitStatus::Disconnected => 0,
            ExitStatus::NetworkError => 1,
            ExitStatus::TimedOut => 2,
            ExitStatus::ProtocolViolation => 3,
            ExitStatus::AddressUnresolvable => 4,
            ExitStatus::InvalidExitCode => 5,
        }
    }

    /// The human-readable name of the status.
    pub fn as_str(self) -> (r: &'static str)
        ensures
            self == ExitStatus::Disconnected ==> r@ == "Disconnected"@,
            self == ExitStatus::NetworkError ==> r@ == "Network Error"@,
            self == ExitStatus::TimedOut ==> r@ == "Timed Out"@,
            self == ExitStatus::ProtocolViolation ==> r@ == "Protocol Violation"@,
            self == ExitStatus::AddressUnresolvable ==> r@ == "Address Unresolvable"@,
            self == ExitStatus::InvalidExitCode ==> r@ == "Invalid Exit Code"@,
    {
        match self {
            ExitStatus::Disconnected => "Disconnected",
            ExitStatus::NetworkError => "Network Error",
            ExitStatus::TimedOut => "Timed Out",
            ExitStatus::ProtocolViolation => "Protocol Violation",
            ExitStatus::AddressUnresolvable => "Address Unresolvable",
            ExitStatus::InvalidExitCode => "Invalid Exit Code",
        }
    }
}

impl Default for ExitStatus {
    fn default() -> (r: ExitStatus)
        ensures
            r == ExitStatus::Disconnected,
    {
        ExitStatus::Disconnected
    }
}

impl From<u8> for ExitStatus {
    fn from(value: u8) -> (r: ExitStatus)
        ensures
            r == status_of(value),
    {
        match value {
            1 => ExitStatus::NetworkError,
            2 => ExitStatus::TimedOut,
            3 => ExitStatus::ProtocolViolation,
            4 => ExitStatus::AddressUnresolvable,
            5 => ExitStatus::InvalidExitCode,
            _ => ExitStatus::Disconnected,
        }
    }
}

impl vstd::std_specs::convert::FromSpecImpl<u8> for ExitStatus {
    open spec fn obeys_from_spec() -> bool {
        true
    }

    open spec fn from_spec(v: u8) -> ExitStatus {
        status_of(v)
    }
}

/// The text that a string of bytes stands for, with each invalid sequence replaced by
/// U+FFFD, as `String::from_utf8_lossy` decodes it.
pub uninterp spec fn utf8_lossy(bytes: Seq<u8>) -> Seq<char>;

/// Decode bytes as UTF-8, replacing each invalid sequence with U+FFFD.
/// Calls `String::from_utf8_lossy`; valid UTF-8 decodes to exactly the text it encodes.
#[verifier::external_body]
fn string_from_utf8_lossy(bytes: &[u8]) -> (r: String)
    ensures
        r@ == utf8_lossy(bytes@),
        valid_utf8(bytes@) ==> r@ == decode_utf8(bytes@),
{
    String::from_utf8_lossy(bytes).into_owned()
}

/// The bytes of a message that an exit code carries: at most 1024.
pub open spec fn message_bytes(m: Option<String>) -> Seq<u8> {
    match m {
        Some(s) => {
            let b = encode_utf8(s@);
            if b.len() <= 1024 {
                b
            } else {
                b.subrange(0, 1024)
            }
        },
        None => Seq::empty(),
    }
}

/// A 16 bit value as little endian bytes.
pub open spec fn le16(v: nat) -> Seq<u8> {
    seq![(v % 256) as u8, ((v / 256) % 256) as u8]
}

/// The encoding of an exit code: status byte, both message lengths as little endian u16,
/// then both messages.
pub open spec fn spec_encode(e: ExitCode) -> Seq<u8> {
    seq![status_byte(e.status)] + le16(message_bytes(e.short).len()) + le16(
        message_bytes(e.long).len(),
    ) + message_bytes(e.short) + message_bytes(e.long)
}

/// The little endian u16 at index i.
pub open spec fn get_le16(b: Seq<u8>, i: int) -> int {
    (b[i] as int) + 256 * (b[i + 1] as int)
}

/// Which message bytes a buffer holds: the short message, if its length is not zero and
/// it fits, and then the long message, read from where the short message ended.
pub open spec fn decode_messages(b: Seq<u8>) -> (Option<Seq<u8>>, Option<Seq<u8>>) {
    let sl = get_le16(b, 1);
    let ll = get_le16(b, 3);
    let short = if sl != 0 && b.len() - 5 >= sl {
        Some(b.subrange(5, 5 + sl))
    } else {
        None
    };
    let pos: int = if short is Some {
        5 + sl
    } else {
        5
    };
    let long = if ll != 0 && b.len() - pos >= ll {
        Some(b.subrange(pos, pos + ll))
    } else {
        None
    };
    (short, long)
}

/// Whether e is what an exit code decodes to from buf. Fewer than 5 bytes give the default
/// exit code; a message length over 1024 gives the status alone; a message that does not fit in
/// the remaining bytes is left out.
pub open spec fn decodes_to(buf: Seq<u8>, r: ExitCode) -> bool {
    &&& buf.len() < 5 ==> r.status == ExitStatus::Disconnected && r.short is None && r.long is None
    &&& buf.len() >= 5 ==> r.status == status_of(buf[0])
    &&& buf.len() >= 5 && (get_le16(buf, 1) > 1024 || get_le16(buf, 3) > 1024) ==> r.short is None
        && r.long is None
    &&& buf.len() >= 5 && get_le16(buf, 1) <= 1024 && get_le16(buf, 3) <= 1024 ==> ({
        let (s, l) = decode_messages(buf);
        &&& (r.short is Some <==> s is Some)
        &&& (r.short matches Some(t) ==> t@ == utf8_lossy(s.unwrap()))
        &&& (r.short matches Some(t) ==> (valid_utf8(s.unwrap()) ==> t@ == decode_utf8(s.unwrap())))
        &&& (r.long is Some <==> l is Some)
        &&& (r.long matches Some(t) ==> t@ == utf8_lossy(l.unwrap()))
        &&& (r.long matches Some(t) ==> (valid_utf8(l.unwrap()) ==> t@ == decode_utf8(l.unwrap())))
    })
}

/// Used to inform a remote of disconnection and the reason for that disconnection.
#[derive(Clone, Debug)]
pub struct ExitCode {
    /// Which error occurred.
    pub status: ExitStatus,
    /// A brief, human-readable explanation of the error, if any.
    pub short: Option<String>,
    /// A longer explanation, if any.
    pub long: Option<String>,
}

impl Default for ExitCode {
    fn default() -> (r: ExitCode)
        ensures
            r.status == ExitStatus::Disconnected,
            r.short is None,
            r.long is None,
    {
        ExitCode { status: ExitStatus::Disconnected, short: None, long: None }
    }
}

/// The byte length of an optional message, capped at 1024.
fn capped_len(m: &Option<String>) -> (r: usize)
    ensures
        r == message_bytes(*m).len(),
        r <= 1024,
{
    match m {
        Some(s) => {
            let st = s.as_str();
            let b = st.as_bytes();
            let n = b.len();
            proof {
                assert(st.spec_bytes() == encode_utf8(s@));
            }
            if n < MAX_MESSAGE_LEN {
                n
            } else {
                MAX_MESSAGE_LEN
            }
        },
        None => 0,
    }
}

/// Append the first `n` bytes of an optional message.
fn put_message(out: &mut Vec<u8>, m: &Option<String>, n: usize)
    requires
        n == message_bytes(*m).len(),
    ensures
        final(out)@ == old(out)@ + message_bytes(*m),
{
    match m {
        Some(s) => {
            let bytes = s.as_str().as_bytes();
            let mut k: usize = 0;
            while k < n
                invariant
                    n <= bytes@.len(),
                    bytes@ == encode_utf8(s@),
                    n == message_bytes(*m).len(),
                    k <= n,
                    out@ == old(out)@ + bytes@.subrange(0, k as int),
                decreases n - k,
            {
                out.push(bytes[k]);
                proof {
                    assert(bytes@.subrange(0, k + 1) =~= bytes@.subrange(0, k as int).push(bytes@[k as int]));
                }
                k = k + 1;
            }
            proof {
                assert(bytes@.subrange(0, n as int) =~= message_bytes(*m));
            }
        },
        None => {
            proof {
                assert(out@ =~= old(out)@ + message_bytes(*m));
            }
        },
    }
}

impl ExitCode {
    /// The client disconnected from the server with no further info.
    pub fn disconnected() -> (r: ExitCode)
        ensures
            r.status == ExitStatus::Disconnected,
            r.short is None,
            r.long is None,
    {
        ExitCode { status: ExitStatus::Disconnected, short: None, long: None }
    }

    /// An exit code with only a status.
    pub fn from_status(status: ExitStatus) -> (r: ExitCode)
        ensures
            r.status == status,
            r.short is None,
            r.long is None,
    {
        ExitCode { status, short: None, long: None }
    }

    /// An exit code with a status and a short explanation.
    pub fn with_short(status: ExitStatus, short: &str) -> (r: ExitCode)
        ensures
            r.status == status,
            r.short matches Some(s) && s@ == short@,
            r.long is None,
    {
        ExitCode { status, short: Some(String::from_str(short)), long: None }
    }

    /// An exit code with a status, a short explanation and a long explanation.
    pub fn with_messages(status: ExitStatus, short: &str, long: &str) -> (r: ExitCode)
        ensures
            r.status == status,
            r.short matches Some(s) && s@ == short@,
            r.long matches Some(l) && l@ == long@,
    {
        ExitCode { status, short: Some(String::from_str(short)), long: Some(String::from_str(long)) }
    }

    /// The number of bytes the exit code encodes to.
    pub fn encoded_len(&self) -> (r: usize)
        ensures
            r == spec_encode(*self).len(),
            r == 5 + message_bytes(self.short).len() + message_bytes(self.long).len(),
    {
        let mut sum: usize = 5;
        sum = sum + capped_len(&self.short);
        sum = sum + capped_len(&self.long);
        sum
    }

    /// Append the encoding of the exit code to a buffer.
    pub fn into_buf(&self, buf: &mut Vec<u8>)
        ensures
            final(buf)@ == old(buf)@ + spec_encode(*self),
    {
        let short_len = capped_len(&self.short);
        let long_len = capped_len(&self.long);
        buf.push(self.status.as_u8());
        buf.push((short_len & 0xFF) as u8);
        buf.push((short_len >> 8) as u8);
        buf.push((long_len & 0xFF) as u8);
        buf.push((long_len >> 8) as u8);
        proof {
            assert((short_len & 0xFF) == short_len % 256 && (short_len >> 8) == (short_len / 256) % 256)
                by (bit_vector)
                requires
                    short_len <= 1024,
            ;
            assert((long_len & 0xFF) == long_len % 256 && (long_len >> 8) == (long_len / 256) % 256)
                by (bit_vector)
                requires
                    long_len <= 1024,
            ;
        }
        put_message(buf, &self.short, short_len);
        put_message(buf, &self.long, long_len);
        proof {
            assert(buf@ =~= old(buf)@ + spec_encode(*self));
        }
    }

    /// The encoding of the exit code, as a shared byte buffer.
    pub fn to_bytes(&self) -> (r: bytes::Bytes)
        ensures
            crate::shared::bytes_contents(r) == spec_encode(*self),
    {
        crate::shared::bytes_from_vec(self.encode())
    }

    /// The encoding of the exit code.
    pub fn encode(&self) -> (r: Vec<u8>)
        ensures
            r@ == spec_encode(*self),
    {
        let mut buf: Vec<u8> = Vec::new();
        self.into_buf(&mut buf);
        proof {
            assert(buf@ =~= spec_encode(*self));
        }
        buf
    }

    /// Decode an exit code. Fewer than 5 bytes give the default exit code; a message
    /// length over 1024 gives the status alone; a message that does not fit in the
    /// remaining bytes is left out.
    pub fn from_bytes(buf: &[u8]) -> (r: ExitCode)
        ensures
            decodes_to(buf@, r),
    {
        let n = buf.len();
        if n < 5 {
            return ExitCode::default();
        }
        let status = buf[0];
        let short_len = (buf[1] as usize) | ((buf[2] as usize) << 8);
        let long_len = (buf[3] as usize) | ((buf[4] as usize) << 8);
        proof {
            let (a, b, c, d) = (buf@[1] as usize, buf@[2] as usize, buf@[3] as usize, buf@[4] as usize);
            assert((a | (b << 8)) == a + 256 * b && (c | (d << 8)) == c + 256 * d) by (bit_vector)
                requires
                    a < 256,
                    b < 256,
                    c < 256,
                    d < 256,
            ;
        }
        if short_len > MAX_MESSAGE_LEN || long_len > MAX_MESSAGE_LEN {
            return ExitCode { status: ExitStatus::from(status), short: None, long: None };
        }
        let mut pos: usize = 5;
        let short = if short_len != 0 && n - pos >= short_len {
            let s = string_from_utf8_lossy(vstd::slice::slice_subrange(buf, pos, pos + short_len));
            pos = pos + short_len;
            Some(s)
        } else {
            None
        };
        let long = if long_len != 0 && n - pos >= long_len {
            Some(string_from_utf8_lossy(vstd::slice::slice_subrange(buf, pos, pos + long_len)))
        } else {
            None
        };
        ExitCode { status: ExitStatus::from(status), short, long }
    }

    /// The exit code as text: the status, then the short and long messages.
    pub fn display(&self) -> (r: String)
        ensures
            r@ == display_text(*self),
    {
        let mut out = String::from_str(self.status.as_str());
        match &self.short {
            Some(short) => {
                out.append(": ");
                out.append(short.as_str());
            },
            None => {},
        }
        match &self.long {
            Some(long) => {
                if self.short.is_some() {
                    out.append("\n");
                } else {
                    out.append(": ");
                }
                out.append(long.as_str());
            },
            None => {},
        }
        out
    }
}

/// The text of an exit code: the status name, then ": " and the short message, then the
/// long message after a newline, or after ": " when there is no short message.
pub open spec fn display_text(e: ExitCode) -> Seq<char> {
    let name = match e.status {
        ExitStatus::Disconnected => "Disconnected"@,
        ExitStatus::NetworkError => "Network Error"@,
        ExitStatus::TimedOut => "Timed Out"@,
        ExitStatus::ProtocolViolation => "Protocol Violation"@,
        ExitStatus::AddressUnresolvable => "Address Unresolvable"@,
        ExitStatus::InvalidExitCode => "Invalid Exit Code"@,
    };
    let with_short = match e.short {
        Some(s) => name + ": "@ + s@,
        None => name,
    };
    match e.long {
        Some(l) => with_short + (if e.short is Some {
            "\n"@
        } else {
            ": "@
        }) + l@,
        None => with_short,
    }
}

/// An exit code whose messages are absent or non-empty and at most 1024 bytes decodes back
/// from its encoding to the same status and messages.
pub proof fn lemma_decode_encode(e: ExitCode)
    requires
        e.short matches Some(s) ==> 0 < encode_utf8(s@).len() <= 1024,
        e.long matches Some(l) ==> 0 < encode_utf8(l@).len() <= 1024,
    ensures
        ({
            let b = spec_encode(e);
            let (s, l) = decode_messages(b);
            &&& b.len() >= 5
            &&& status_of(b[0]) == e.status
            &&& get_le16(b, 1) <= 1024
            &&& get_le16(b, 3) <= 1024
            &&& (s is Some <==> e.short is Some)
            &&& (e.short matches Some(t) ==> decode_utf8(s.unwrap()) == t@ && valid_utf8(s.unwrap()))
            &&& (l is Some <==> e.long is Some)
            &&& (e.long matches Some(t) ==> decode_utf8(l.unwrap()) == t@ && valid_utf8(l.unwrap()))
        }),
{
    let b = spec_encode(e);
    let sb = message_bytes(e.short);
    let lb = message_bytes(e.long);
    let sl = sb.len();
    let ll = lb.len();
    assert(b[0] == status_byte(e.status));
    assert(get_le16(b, 1) == sl) by {
        assert(b[1] == (sl % 256) as u8 && b[2] == ((sl / 256) % 256) as u8);
    }
    assert(get_le16(b, 3) == ll) by {
        assert(b[3] == (ll % 256) as u8 && b[4] == ((ll / 256) % 256) as u8);
    }
    assert(b.subrange(5, 5 + sl as int) =~= sb);
    if e.short is Some {
        assert(b.subrange(5 + sl as int, 5 + sl + ll as int) =~= lb);
    } else {
        assert(b.subrange(5, 5 + ll as int) =~= lb);
    }
    match e.short {
        Some(t) => {
            vstd::utf8::encode_utf8_valid_utf8(t@);
            vstd::utf8::encode_utf8_decode_utf8(t@);
        },
        None => {},
    }
    match e.long {
        Some(t) => {
            vstd::utf8::encode_utf8_valid_utf8(t@);
            vstd::utf8::encode_utf8_decode_utf8(t@);
        },
        None => {},
    }
}

/// Decoding the encoding of an exit code whose messages are absent or non-empty and at most
/// 1024 bytes gives back its status and the text of its messages.
pub proof fn lemma_exit_roundtrip(e: ExitCode, r: ExitCode)
    requires
        e.short matches Some(s) ==> 0 < encode_utf8(s@).len() <= 1024,
        e.long matches Some(l) ==> 0 < encode_utf8(l@).len() <= 1024,
        decodes_to(spec_encode(e), r),
    ensures
        r.status == e.status,
        r.short is Some <==> e.short is Some,
        r.short matches Some(t) ==> t@ == e.short.unwrap()@,
        r.long is Some <==> e.long is Some,
        r.long matches Some(t) ==> t@ == e.long.unwrap()@,
{
    lemma_decode_encode(e);
}

} // verus!
