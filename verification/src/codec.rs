use vstd::prelude::*;

use crate::exit::{decodes_to, get_le16, le16, spec_encode, ExitCode, ExitStatus};
use crate::packet::ChannelId;
use crate::shared::{bytes_contents, bytes_from_vec};
use crate::zip::{le_bytes_u32, le_u32, lemma_le_u32_roundtrip, push_u32_le};
use crate::encoding::{le_bytes, le_value, lemma_le_roundtrip, lemma_pow256_values, push_le, read_le};
use crate::session::Session;

verus! {

/// The frame of a message on a TCP stream: the payload's length as a little-endian u32, the
/// channel as a little-endian u16, then the payload.
pub open spec fn tcp_frame(channel: ChannelId, data: Seq<u8>) -> Seq<u8> {
    le_bytes_u32(data.len() % 0x1_0000_0000) + le16((channel.0 % 65536) as nat) + data
}

/// What one step of decoding a TCP stream gives.
pub enum TcpDecoded {
    /// Not enough bytes have arrived yet.
    Pending,
    /// A message on a channel.
    Packet(Seq<u8>, ChannelId),
    /// The remote sent an exit code, encoded in these bytes.
    Exit(Seq<u8>),
    /// The announced payload is larger than the decoder's limit.
    TooLarge,
}

/// Decoding the payload of a message whose header was read.
pub open spec fn tcp_body_step(p: Seq<u8>, len: usize, ch: ChannelId) -> (
    TcpDecoded,
    Seq<u8>,
    Option<(usize, ChannelId)>,
) {
    if p.len() < len {
        (TcpDecoded::Pending, p, Some((len, ch)))
    } else {
        (TcpDecoded::Packet(p.subrange(0, len as int), ch), p.subrange(len as int, p.len() as int), None)
    }
}

/// One step of decoding the bytes p of a TCP stream, given the header already read: what comes
/// out, the bytes left, and the header kept.
pub open spec fn tcp_decode_step(p: Seq<u8>, h: Option<(usize, ChannelId)>, limit: usize) -> (
    TcpDecoded,
    Seq<u8>,
    Option<(usize, ChannelId)>,
) {
    match h {
        Some((len, ch)) => tcp_body_step(p, len, ch),
        None => if p.len() < 6 {
            (TcpDecoded::Pending, p, None)
        } else {
            let len = le_u32(p, 0);
            let ch = ChannelId(get_le16(p, 4) as usize);
            let rest = p.subrange(6, p.len() as int);
            if ch.0 == 65535 {
                (TcpDecoded::Exit(rest), rest, None)
            } else if len > limit {
                (TcpDecoded::TooLarge, rest, None)
            } else {
                tcp_body_step(rest, len as usize, ch)
            }
        },
    }
}

/// A message framed by the encoder comes out of a decoder whole, on its channel, and leaves
/// the bytes after it to the next step.
pub proof fn lemma_tcp_roundtrip(ch: ChannelId, data: Seq<u8>, rest: Seq<u8>, limit: usize)
    requires
        ch.0 < 65535,
        data.len() <= limit,
        data.len() < 0x1_0000_0000,
    ensures
        tcp_decode_step(tcp_frame(ch, data) + rest, None, limit) == (
            TcpDecoded::Packet(data, ch),
            rest,
            None::<(usize, ChannelId)>,
        ),
{
    let p = tcp_frame(ch, data) + rest;
    let a = le_bytes_u32(data.len() % 0x1_0000_0000);
    let l = le16((ch.0 % 65536) as nat);
    assert(data.len() < 0x1_0000_0000);
    assert(p =~= a + (l + data + rest));
    lemma_le_u32_roundtrip(data.len() as u32, Seq::empty(), l + data + rest);
    assert(Seq::<u8>::empty() + a + (l + data + rest) =~= p);
    assert(le_u32(p, 0) == data.len());
    assert(p[4] == l[0] && p[5] == l[1]);
    assert(get_le16(p, 4) == ch.0) by (nonlinear_arith)
        requires
            p[4] == (ch.0 % 65536 % 256) as u8,
            p[5] == (((ch.0 % 65536) / 256) % 256) as u8,
            ch.0 < 65535,
            get_le16(p, 4) == (p[4] as int) + 256 * (p[5] as int),
    ;
    let q = p.subrange(6, p.len() as int);
    assert(q =~= data + rest);
    assert(q.subrange(0, data.len() as int) =~= data);
    assert(q.subrange(data.len() as int, q.len() as int) =~= rest);
}

/// What a write of pending bytes did.
pub enum WriteOutcome {
    /// Some bytes were written.
    Wrote(usize),
    /// The write was interrupted before it wrote anything.
    Interrupted,
    /// The writer can take no bytes now.
    WouldBlock,
    /// The write failed, with this message.
    Failed(String),
}

/// What flushing does next.
pub enum FlushStep {
    /// This many bytes were written; go on while bytes are left.
    Wrote(usize),
    /// Try the write again.
    Retry,
    /// Stop for now.
    Stop,
    /// Stop: the connection is over.
    Fail(ExitCode),
}

/// Frames messages to be written to a TCP stream.
pub struct TcpEncoder {
    buffer: Vec<u8>,
    written: usize,
}

impl TcpEncoder {
    /// The bytes not written yet.
    pub closed spec fn view(&self) -> Seq<u8> {
        self.buffer@.subrange(self.written as int, self.buffer@.len() as int)
    }

    pub closed spec fn wf(&self) -> bool {
        self.written <= self.buffer@.len()
    }

    pub fn new() -> (r: TcpEncoder)
        ensures
            r.wf(),
            r@ == Seq::<u8>::empty(),
    {
        let r = TcpEncoder { buffer: Vec::new(), written: 0 };
        assert(r@ =~= Seq::<u8>::empty());
        r
    }

    /// Whether some bytes are not written yet.
    pub fn has_unwritten(&self) -> (r: bool)
        requires
            self.wf(),
        ensures
            r == (self@.len() != 0),
    {
        self.buffer.len() != self.written
    }

    /// The bytes not written yet.
    pub fn unwritten(&self) -> (r: &[u8])
        requires
            self.wf(),
        ensures
            r@ == self@,
    {
        &self.buffer[self.written..self.buffer.len()]
    }

    /// Frame a message on a channel after the bytes not written yet.
    pub fn encode(&mut self, channel: ChannelId, data: &[u8])
        requires
            old(self).wf(),
        ensures
            final(self).wf(),
            final(self)@ == old(self)@ + tcp_frame(channel, data@),
    {
        proof {
            crate::zip::lemma_truncate_u32(data@.len() as usize);
        }
        push_u32_le(&mut self.buffer, data.len() as u32);
        let c = (channel.0 % 65536) as u16;
        self.buffer.push((c % 256) as u8);
        self.buffer.push((c / 256) as u8);
        let mut k: usize = 0;
        let ghost mid = self.buffer@;
        assert(mid =~= old(self).buffer@ + le_bytes_u32(data@.len() % 0x1_0000_0000) + le16(
            (channel.0 % 65536) as nat,
        ));
        while k < data.len()
            invariant
                k <= data@.len(),
                self.buffer@ == mid + data@.subrange(0, k as int),
                self.written == old(self).written,
                old(self).written <= old(self).buffer@.len(),
                mid.len() >= old(self).buffer@.len(),
            decreases data@.len() - k,
        {
            self.buffer.push(data[k]);
            k = k + 1;
            assert(self.buffer@ =~= mid + data@.subrange(0, k as int));
        }
        assert(self@ =~= old(self)@ + tcp_frame(channel, data@));
    }

    /// Frame an exit code after the bytes not written yet.
    pub fn encode_exit(&mut self, exit: &ExitCode)
        requires
            old(self).wf(),
        ensures
            final(self).wf(),
            final(self)@ == old(self)@ + le_bytes_u32(spec_encode(*exit).len()) + le16(65535)
                + spec_encode(*exit),
    {
        let len = exit.encoded_len();
        push_u32_le(&mut self.buffer, len as u32);
        self.buffer.push(255u8);
        self.buffer.push(255u8);
        exit.into_buf(&mut self.buffer);
        assert(self@ =~= old(self)@ + le_bytes_u32(spec_encode(*exit).len()) + le16(65535)
            + spec_encode(*exit));
    }

    /// Account for what a write of the unwritten bytes did. A write of zero bytes means the
    /// remote disconnected.
    pub fn on_write(&mut self, outcome: WriteOutcome) -> (r: FlushStep)
        requires
            old(self).wf(),
            outcome matches WriteOutcome::Wrote(n) ==> n <= old(self)@.len(),
        ensures
            final(self).wf(),
            match outcome {
                WriteOutcome::Wrote(n) => if n == 0 {
                    (r matches FlushStep::Fail(e) && e.status == ExitStatus::Disconnected
                        && e.short is None && e.long is None) && final(self)@ == old(self)@
                } else {
                    r matches FlushStep::Wrote(m) && m == n && final(self)@ == old(self)@.subrange(
                        n as int,
                        old(self)@.len() as int,
                    )
                },
                WriteOutcome::Interrupted => r is Retry && final(self)@ == old(self)@,
                WriteOutcome::WouldBlock => r is Stop && final(self)@ == old(self)@,
                WriteOutcome::Failed(msg) => (r matches FlushStep::Fail(e) && e.status
                    == ExitStatus::NetworkError && e.short is Some && e.short.unwrap()@ == msg@
                    && e.long is None) && final(self)@ == old(self)@,
            },
    {
        match outcome {
            WriteOutcome::Wrote(n) => {
                if n == 0 {
                    FlushStep::Fail(ExitCode::disconnected())
                } else {
                    let blen = self.buffer.len();
                    assert(old(self)@.len() == blen - self.written);
                    self.written = self.written + n;
                    assert(self@ =~= old(self)@.subrange(n as int, old(self)@.len() as int));
                    if self.written == self.buffer.len() {
                        self.buffer.clear();
                        self.written = 0;
                        assert(self@ =~= old(self)@.subrange(n as int, old(self)@.len() as int));
                    }
                    FlushStep::Wrote(n)
                }
            },
            WriteOutcome::Interrupted => FlushStep::Retry,
            WriteOutcome::WouldBlock => FlushStep::Stop,
            WriteOutcome::Failed(msg) => FlushStep::Fail(
                ExitCode::with_short(ExitStatus::NetworkError, msg.as_str()),
            ),
        }
    }
}

/// What a read from a TCP stream did.
pub enum ReadOutcome {
    /// These bytes were read. No bytes means the remote closed the stream.
    Data(Vec<u8>),
    /// The read was interrupted before it read anything.
    Interrupted,
    /// No bytes are available now.
    WouldBlock,
    /// The read failed, with this message.
    Failed(String),
}

/// Splits a TCP stream into messages.
pub struct TcpDecoder {
    buffer: Vec<u8>,
    start: usize,
    header: Option<(usize, ChannelId)>,
    limit: usize,
}

impl TcpDecoder {
    /// The bytes received and not decoded yet.
    pub closed spec fn view(&self) -> Seq<u8> {
        self.buffer@.subrange(self.start as int, self.buffer@.len() as int)
    }

    /// The header of the message being received, if it was read.
    pub closed spec fn header_spec(&self) -> Option<(usize, ChannelId)> {
        self.header
    }

    /// The largest payload the decoder accepts.
    pub closed spec fn limit_spec(&self) -> usize {
        self.limit
    }

    pub closed spec fn wf(&self) -> bool {
        self.start <= self.buffer@.len()
    }

    /// A decoder with nothing received, that accepts payloads up to 1_000_000 bytes.
    pub fn new() -> (r: TcpDecoder)
        ensures
            r.wf(),
            r@ == Seq::<u8>::empty(),
            r.header_spec() is None,
            r.limit_spec() == 1_000_000,
    {
        let r = TcpDecoder { buffer: Vec::new(), start: 0, header: None, limit: 1_000_000 };
        assert(r@ =~= Seq::<u8>::empty());
        r
    }

    /// Account for what a read did. Returns None when the read is to be tried again, else the
    /// number of bytes received or the exit code that ends the connection.
    pub fn receive(&mut self, outcome: ReadOutcome) -> (r: Option<Result<usize, ExitCode>>)
        requires
            old(self).wf(),
        ensures
            final(self).wf(),
            final(self).header_spec() == old(self).header_spec(),
            final(self).limit_spec() == old(self).limit_spec(),
            match outcome {
                ReadOutcome::Data(v) => if v@.len() == 0 {
                    (r matches Some(Err(e)) && e.status == ExitStatus::Disconnected && e.short is None
                        && e.long is None) && final(self)@ == old(self)@
                } else {
                    r == Some(Ok::<usize, ExitCode>(v@.len() as usize)) && final(self)@ == old(self)@ + v@
                },
                ReadOutcome::Interrupted => r is None && final(self)@ == old(self)@,
                ReadOutcome::WouldBlock => r == Some(Ok::<usize, ExitCode>(0)) && final(self)@ == old(self)@,
                ReadOutcome::Failed(msg) => (r matches Some(Err(e)) && e.status
                    == ExitStatus::NetworkError && e.short is Some && e.short.unwrap()@
                    == "[N002] (Tcp Read Error)"@ && e.long is Some && e.long.unwrap()@ == msg@)
                    && final(self)@ == old(self)@,
            },
    {
        match outcome {
            ReadOutcome::Data(v) => {
                if v.len() == 0 {
                    Some(Err(ExitCode::from_status(ExitStatus::Disconnected)))
                } else {
                    let n = v.len();
                    let mut k: usize = 0;
                    let ghost mid = self.buffer@;
                    while k < n
                        invariant
                            k <= n,
                            n == v@.len(),
                            self.buffer@ == mid + v@.subrange(0, k as int),
                            mid == old(self).buffer@,
                            self.start == old(self).start,
                            self.header == old(self).header,
                            self.limit == old(self).limit,
                            old(self).start <= old(self).buffer@.len(),
                        decreases n - k,
                    {
                        self.buffer.push(v[k]);
                        k = k + 1;
                        assert(self.buffer@ =~= mid + v@.subrange(0, k as int));
                    }
                    assert(self@ =~= old(self)@ + v@);
                    Some(Ok(n))
                }
            },
            ReadOutcome::Interrupted => None,
            ReadOutcome::WouldBlock => Some(Ok(0)),
            ReadOutcome::Failed(msg) => Some(
                Err(
                    ExitCode::with_messages(
                        ExitStatus::NetworkError,
                        "[N002] (Tcp Read Error)",
                        msg.as_str(),
                    ),
                ),
            ),
        }
    }

    /// Drop the first n bytes received.
    fn consume(&mut self, n: usize)
        requires
            old(self).wf(),
            n <= old(self)@.len(),
        ensures
            final(self).wf(),
            final(self)@ == old(self)@.subrange(n as int, old(self)@.len() as int),
            final(self).header == old(self).header,
            final(self).limit == old(self).limit,
    {
        let blen = self.buffer.len();
        assert(old(self)@.len() == blen - self.start);
        self.start = self.start + n;
        assert(self@ =~= old(self)@.subrange(n as int, old(self)@.len() as int));
        if self.start == self.buffer.len() {
            self.buffer.clear();
            self.start = 0;
            assert(self@ =~= old(self)@.subrange(n as int, old(self)@.len() as int));
        }
    }

    /// Decode the next message, if all of it was received. A message on the exit code channel
    /// ends the connection with the exit code it carries.
    pub fn decode(&mut self) -> (r: Result<Option<(bytes::Bytes, ChannelId)>, ExitCode>)
        requires
            old(self).wf(),
        ensures
            final(self).wf(),
            final(self).limit_spec() == old(self).limit_spec(),
            ({
                let (out, rest, h) = tcp_decode_step(
                    old(self)@,
                    old(self).header_spec(),
                    old(self).limit_spec(),
                );
                match out {
                    TcpDecoded::Pending => r matches Ok(None) && final(self)@ == rest
                        && final(self).header_spec() == h,
                    TcpDecoded::Packet(data, ch) => (r matches Ok(Some((b, c))) && bytes_contents(b)
                        == data && c == ch) && final(self)@ == rest && final(self).header_spec()
                        == h,
                    TcpDecoded::Exit(bytes) => r matches Err(e) && decodes_to(bytes, e),
                    TcpDecoded::TooLarge => r matches Err(e) && e.status
                        == ExitStatus::ProtocolViolation && e.short is Some && e.short.unwrap()@
                        == "[N811] TCP Packet too large"@ && e.long is None,
                }
            }),
    {
        let (len, channel) = match self.header {
            Some(hdr) => hdr,
            None => {
                if self.buffer.len() - self.start < 6 {
                    return Ok(None);
                }
                let s = self.start;
                let len = crate::zip::read_u32_le(self.buffer.as_slice(), s) as usize;
                let channel = ChannelId((self.buffer[s + 4] as usize) + (self.buffer[s + 5] as usize)
                    * 256);
                assert(le_u32(self@, 0) == len);
                self.consume(6);
                if channel.0 == 65535 {
                    let rest = &self.buffer[self.start..self.buffer.len()];
                    return Err(ExitCode::from_bytes(rest));
                }
                if len > self.limit {
                    return Err(
                        ExitCode::with_short(
                            ExitStatus::ProtocolViolation,
                            "[N811] TCP Packet too large",
                        ),
                    );
                }
                self.header = Some((len, channel));
                (len, channel)
            },
        };
        if self.buffer.len() - self.start < len {
            Ok(None)
        } else {
            self.header = None;
            let mut payload: Vec<u8> = Vec::new();
            let mut k: usize = 0;
            let s = self.start;
            let blen = self.buffer.len();
            while k < len
                invariant
                    k <= len,
                    s + len <= blen,
                    blen == self.buffer@.len(),
                    payload@ == self.buffer@.subrange(s as int, s + k),
                decreases len - k,
            {
                payload.push(self.buffer[s + k]);
                k = k + 1;
                assert(payload@ =~= self.buffer@.subrange(s as int, s + k));
            }
            assert(payload@ =~= self@.subrange(0, len as int));
            self.consume(len);
            Ok(Some((bytes_from_vec(payload), channel)))
        }
    }
}


/// The frame of a message in a UDP datagram: the payload's length and the channel, each as a
/// little-endian u16, then the payload.
pub open spec fn udp_frame(channel: ChannelId, data: Seq<u8>) -> Seq<u8> {
    le_bytes(data.len() % 65536, 2) + le_bytes((channel.0 % 65536) as nat, 2) + data
}

/// One step of decoding the bytes p left in a datagram: the message, if all of it is there,
/// and the bytes left. A header is consumed even where its payload is cut short.
pub open spec fn udp_decode_step(p: Seq<u8>) -> (Option<(ChannelId, Seq<u8>)>, Seq<u8>) {
    if p.len() < 4 {
        (None, p)
    } else {
        let len = le_value(p.subrange(0, 2));
        let ch = ChannelId(le_value(p.subrange(2, 4)) as usize);
        let rest = p.subrange(4, p.len() as int);
        if rest.len() >= len {
            (Some((ch, rest.subrange(0, len as int))), rest.subrange(len as int, rest.len() as int))
        } else {
            (None, rest)
        }
    }
}

/// A message framed for a datagram comes out of the decoder whole, on its channel, and leaves
/// the bytes after it to the next step.
pub proof fn lemma_udp_roundtrip(ch: ChannelId, data: Seq<u8>, rest: Seq<u8>)
    requires
        ch.0 < 65536,
        data.len() < 65536,
    ensures
        udp_decode_step(udp_frame(ch, data) + rest) == (Some((ch, data)), rest),
{
    let a = le_bytes(data.len() % 65536, 2);
    let b = le_bytes((ch.0 % 65536) as nat, 2);
    let p = udp_frame(ch, data) + rest;
    lemma_pow256_values();
    lemma_le_roundtrip(data.len(), 2);
    lemma_le_roundtrip(ch.0 as nat, 2);
    assert(p.subrange(0, 2) =~= a);
    assert(p.subrange(2, 4) =~= b);
    let q = p.subrange(4, p.len() as int);
    assert(q =~= data + rest);
    assert(q.subrange(0, data.len() as int) =~= data);
    assert(q.subrange(data.len() as int, q.len() as int) =~= rest);
}

/// Gathers messages into UDP datagrams that start with the sender's session.
pub struct UdpEncoder {
    buffer: Vec<u8>,
}

impl UdpEncoder {
    /// The datagram gathered so far.
    pub closed spec fn view(&self) -> Seq<u8> {
        self.buffer@
    }

    pub closed spec fn wf(&self) -> bool {
        self.buffer@.len() >= 8
    }

    /// A datagram that holds only the session.
    pub fn new(session: Session) -> (r: UdpEncoder)
        ensures
            r.wf(),
            r@ == le_bytes(session.0 as nat, 8),
    {
        let mut buffer: Vec<u8> = Vec::new();
        push_le(&mut buffer, session.0, 8);
        proof {
            crate::encoding::lemma_le_bytes_len(session.0 as nat, 8);
            assert(buffer@ =~= le_bytes(session.0 as nat, 8));
        }
        UdpEncoder { buffer }
    }

    /// Replace the session at the start of the datagram.
    pub fn set_session(&mut self, session: Session)
        requires
            old(self).wf(),
        ensures
            final(self).wf(),
            final(self)@ == le_bytes(session.0 as nat, 8) + old(self)@.subrange(8, old(self)@.len() as int),
    {
        let mut head: Vec<u8> = Vec::new();
        push_le(&mut head, session.0, 8);
        proof {
            crate::encoding::lemma_le_bytes_len(session.0 as nat, 8);
        }
        let mut k: usize = 0;
        while k < 8
            invariant
                k <= 8,
                head@.len() == 8,
                self.buffer@.len() == old(self).buffer@.len(),
                old(self).buffer@.len() >= 8,
                head@ == le_bytes(session.0 as nat, 8),
                forall|j: int| 0 <= j < k ==> #[trigger] self.buffer@[j] == head@[j],
                forall|j: int| 8 <= j < self.buffer@.len() ==> #[trigger] self.buffer@[j] == old(self).buffer@[j],
            decreases 8 - k,
        {
            self.buffer.set(k, head[k]);
            k = k + 1;
        }
        assert(self.buffer@ =~= le_bytes(session.0 as nat, 8) + old(self)@.subrange(8, old(self)@.len() as int));
    }

    /// Take the datagram to be sent, if it holds any message; the encoder keeps the session.
    pub fn flush(&mut self) -> (r: Option<Vec<u8>>)
        requires
            old(self).wf(),
        ensures
            final(self).wf(),
            old(self)@.len() > 8 ==> (r matches Some(v) && v@ == old(self)@) && final(self)@ == old(self)@.subrange(0, 8),
            old(self)@.len() <= 8 ==> r is None && final(self)@ == old(self)@,
    {
        if self.buffer.len() > 8 {
            let datagram = self.buffer.clone();
            self.buffer.truncate(8);
            assert(self.buffer@ =~= old(self)@.subrange(0, 8));
            Some(datagram)
        } else {
            None
        }
    }

    /// Add a message on a channel. Where the message would take the datagram past 1180 bytes,
    /// the datagram gathered so far is taken first and returned, to be sent.
    pub fn encode(&mut self, channel: ChannelId, data: &[u8]) -> (r: Option<Vec<u8>>)
        requires
            old(self).wf(),
        ensures
            final(self).wf(),
            ({
                let full = old(self)@.len() + data@.len() > 1180 && old(self)@.len() > 8;
                &&& full ==> (r matches Some(v) && v@ == old(self)@)
                    && final(self)@ == old(self)@.subrange(0, 8) + udp_frame(channel, data@)
                &&& !full ==> r is None && final(self)@ == old(self)@ + udp_frame(channel, data@)
            }),
    {
        let blen = self.buffer.len();
        let over = blen > 1180 || data.len() > 1180 - blen;
        let ret = if over {
            self.flush()
        } else {
            None
        };
        let ghost mid = self.buffer@;
        push_le(&mut self.buffer, (data.len() % 65536) as u64, 2);
        push_le(&mut self.buffer, (channel.0 % 65536) as u64, 2);
        let ghost mid2 = self.buffer@;
        let n = data.len();
        let mut k: usize = 0;
        while k < n
            invariant
                k <= n,
                n == data@.len(),
                self.buffer@ == mid2 + data@.subrange(0, k as int),
            decreases n - k,
        {
            self.buffer.push(data[k]);
            k = k + 1;
            assert(self.buffer@ =~= mid2 + data@.subrange(0, k as int));
        }
        assert(self.buffer@ =~= mid + udp_frame(channel, data@));
        ret
    }
}

/// Splits a received UDP datagram into its session and messages.
pub struct UdpDecoder {
    buffer: Vec<u8>,
    start: usize,
}

impl UdpDecoder {
    /// The bytes of the datagram not decoded yet.
    pub closed spec fn view(&self) -> Seq<u8> {
        self.buffer@.subrange(self.start as int, self.buffer@.len() as int)
    }

    pub closed spec fn wf(&self) -> bool {
        self.start <= self.buffer@.len()
    }

    /// A decoder with no datagram.
    pub fn new() -> (r: UdpDecoder)
        ensures
            r.wf(),
            r@ == Seq::<u8>::empty(),
    {
        let r = UdpDecoder { buffer: Vec::new(), start: 0 };
        assert(r@ =~= Seq::<u8>::empty());
        r
    }

    /// Take a received datagram: its session, from its first 8 bytes, or None where it is
    /// shorter than that.
    pub fn receive(&mut self, datagram: &[u8]) -> (r: Option<Session>)
        requires
            old(self).wf(),
        ensures
            final(self).wf(),
            datagram@.len() < 8 ==> r is None && final(self)@ == Seq::<u8>::empty(),
            datagram@.len() >= 8 ==> r == Some(Session(le_value(datagram@.subrange(0, 8)) as u64))
                && final(self)@ == datagram@.subrange(8, datagram@.len() as int),
    {
        self.buffer.clear();
        self.start = 0;
        if datagram.len() < 8 {
            assert(self@ =~= Seq::<u8>::empty());
            return None;
        }
        let session = read_le(datagram, 0, 8);
        let n = datagram.len();
        let mut k: usize = 0;
        while k < n
            invariant
                k <= n,
                n == datagram@.len(),
                self.buffer@ == datagram@.subrange(0, k as int),
                self.start == 0,
            decreases n - k,
        {
            self.buffer.push(datagram[k]);
            k = k + 1;
            assert(self.buffer@ =~= datagram@.subrange(0, k as int));
        }
        self.start = 8;
        assert(self@ =~= datagram@.subrange(8, datagram@.len() as int));
        Some(Session(session))
    }

    /// Decode the next message of the datagram, if all of it is there.
    pub fn decode(&mut self) -> (r: Option<(ChannelId, bytes::Bytes)>)
        requires
            old(self).wf(),
        ensures
            final(self).wf(),
            ({
                let (out, rest) = udp_decode_step(old(self)@);
                &&& final(self)@ == rest
                &&& match out {
                    None => r is None,
                    Some((ch, data)) => r matches Some((c, b)) && c == ch && bytes_contents(b) == data,
                }
            }),
    {
        let blen = self.buffer.len();
        if blen - self.start < 4 {
            return None;
        }
        let s = self.start;
        let len = read_le(self.buffer.as_slice(), s, 2) as usize;
        let ch = read_le(self.buffer.as_slice(), s + 2, 2) as usize;
        proof {
            assert(self@.subrange(0, 2) =~= self.buffer@.subrange(s as int, s + 2));
            assert(self@.subrange(2, 4) =~= self.buffer@.subrange(s + 2, s + 4));
            crate::encoding::lemma_le_value_bound(self.buffer@.subrange(s as int, s + 2));
            lemma_pow256_values();
        }
        self.start = s + 4;
        assert(self@ =~= old(self)@.subrange(4, old(self)@.len() as int));
        if blen - self.start < len {
            return None;
        }
        let mut payload: Vec<u8> = Vec::new();
        let mut k: usize = 0;
        let s2 = self.start;
        while k < len
            invariant
                k <= len,
                s2 + len <= blen,
                blen == self.buffer@.len(),
                payload@ == self.buffer@.subrange(s2 as int, s2 + k),
            decreases len - k,
        {
            payload.push(self.buffer[s2 + k]);
            k = k + 1;
            assert(payload@ =~= self.buffer@.subrange(s2 as int, s2 + k));
        }
        let ghost before = self@;
        self.start = s2 + len;
        assert(payload@ =~= before.subrange(0, len as int));
        assert(self@ =~= before.subrange(len as int, before.len() as int));
        Some((ChannelId(ch), bytes_from_vec(payload)))
    }
}

} // verus!
