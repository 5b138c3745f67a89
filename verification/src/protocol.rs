//! Length-prefixed protocol shared by the runtime, the SSH transport and the
//! remote agent.

use vstd::prelude::*;
use crate::json::{members_view, opt_view, Json, JsonView};
use crate::json_value::tokens;
use crate::string_map::StringMap;
use crate::text::{decimal, decimal_text};

verus! {

/// The bytes that begin every frame: `SCX1`.
pub const MAGIC: [u8; 4] = [83, 67, 88, 49];

/// The largest header in bytes: 8 MiB.
pub const MAX_HEADER: usize = 8_388_608;

/// The largest payload in bytes: 256 MiB.
pub const MAX_PAYLOAD: usize = 268_435_456;

/// What a client asks for.
#[derive(Debug, PartialEq)]
pub struct Request {
    pub id: String,
    pub method: String,
    pub params: Json,
    pub readonly: bool,
}

/// What a request says.
pub struct RequestView {
    pub id: Seq<char>,
    pub method: Seq<char>,
    pub params: JsonView,
    pub readonly: bool,
}

impl View for Request {
    type V = RequestView;

    open spec fn view(&self) -> RequestView {
        RequestView {
            id: self.id@,
            method: self.method@,
            params: self.params@,
            readonly: self.readonly,
        }
    }
}

impl Clone for Request {
    fn clone(&self) -> (r: Self)
        ensures
            r@ == self@,
            tokens(r.params) == tokens(self.params),
    {
        Request {
            id: self.id.clone(),
            method: self.method.clone(),
            params: self.params.clone(),
            readonly: self.readonly,
        }
    }
}

/// What a request is answered.
#[derive(Debug, PartialEq)]
pub struct Response {
    pub id: String,
    pub ok: bool,
    pub result: Json,
    pub error: Option<String>,
    pub metadata: StringMap<Json>,
}

/// What a response says.
pub struct ResponseView {
    pub id: Seq<char>,
    pub ok: bool,
    pub result: JsonView,
    pub error: Option<Seq<char>>,
    pub metadata: Map<Seq<char>, JsonView>,
}

impl View for Response {
    type V = ResponseView;

    open spec fn view(&self) -> ResponseView {
        ResponseView {
            id: self.id@,
            ok: self.ok,
            result: self.result@,
            error: opt_view(self.error),
            metadata: members_view(self.metadata),
        }
    }
}

/// A header and the bytes that go with it.
#[derive(Debug, PartialEq)]
pub struct Frame<T> {
    pub header: T,
    pub payload: Vec<u8>,
}

impl<T: Clone> Clone for Frame<T> {
    fn clone(&self) -> (r: Self)
        ensures
            cloned::<T>(self.header, r.header),
            r.payload@ == self.payload@,
    {
        let payload = self.payload.clone();
        assert(payload@ =~= self.payload@);
        Frame { header: self.header.clone(), payload }
    }
}

/// Why a frame was not written or not read.
#[derive(Debug, PartialEq)]
pub enum ProtocolError {
    /// The input does not begin as a frame does.
    Magic,
    /// The header is longer than `MAX_HEADER`.
    HeaderTooLarge,
    /// The payload is longer than `MAX_PAYLOAD`.
    PayloadTooLarge,
    /// The stream failed.
    Io(String),
    /// The header is not the JSON that it should be.
    Json(String),
}

/// What a protocol error says.
pub enum ProtocolProblem {
    Magic,
    HeaderTooLarge,
    PayloadTooLarge,
    Io(Seq<char>),
    Json(Seq<char>),
}

impl View for ProtocolError {
    type V = ProtocolProblem;

    open spec fn view(&self) -> ProtocolProblem {
        match self {
            ProtocolError::Magic => ProtocolProblem::Magic,
            ProtocolError::HeaderTooLarge => ProtocolProblem::HeaderTooLarge,
            ProtocolError::PayloadTooLarge => ProtocolProblem::PayloadTooLarge,
            ProtocolError::Io(s) => ProtocolProblem::Io(s@),
            ProtocolError::Json(s) => ProtocolProblem::Json(s@),
        }
    }
}

impl ProtocolProblem {
    /// The message for a reader.
    pub open spec fn message(self) -> Seq<char> {
        match self {
            ProtocolProblem::Magic => "invalid frame magic"@,
            ProtocolProblem::HeaderTooLarge => "frame header exceeds "@ + decimal(MAX_HEADER as nat) + " bytes"@,
            ProtocolProblem::PayloadTooLarge => "frame payload exceeds "@ + decimal(MAX_PAYLOAD as nat) + " bytes"@,
            ProtocolProblem::Io(s) => "I/O error: "@ + s,
            ProtocolProblem::Json(s) => "invalid JSON header: "@ + s,
        }
    }
}

impl ProtocolError {
    /// The message for a reader.
    pub fn message(&self) -> (r: String)
        ensures
            r@ == self@.message(),
    {
        match self {
            ProtocolError::Magic => "invalid frame magic".to_owned(),
            ProtocolError::HeaderTooLarge => {
                let mut out = "frame header exceeds ".to_owned();
                out.append(decimal_text(MAX_HEADER as u64).as_str());
                out.append(" bytes");
                out
            },
            ProtocolError::PayloadTooLarge => {
                let mut out = "frame payload exceeds ".to_owned();
                out.append(decimal_text(MAX_PAYLOAD as u64).as_str());
                out.append(" bytes");
                out
            },
            ProtocolError::Io(s) => {
                let mut out = "I/O error: ".to_owned();
                out.append(s.as_str());
                out
            },
            ProtocolError::Json(s) => {
                let mut out = "invalid JSON header: ".to_owned();
                out.append(s.as_str());
                out
            },
        }
    }
}

/// The last `width` base-256 digits of `n`, the most significant first.
pub open spec fn big_endian(n: nat, width: nat) -> Seq<u8>
    decreases width,
{
    if width == 0 {
        Seq::empty()
    } else {
        big_endian(n / 256, (width - 1) as nat).push((n % 256) as u8)
    }
}

/// The number whose base-256 digits these are, the most significant first.
pub open spec fn big_endian_value(bytes: Seq<u8>) -> nat
    decreases bytes.len(),
{
    if bytes.len() == 0 {
        0
    } else {
        big_endian_value(bytes.drop_last()) * 256 + bytes.last() as nat
    }
}

/// `n` without its last `width` base-256 digits.
spec fn shifted(n: nat, width: nat) -> nat
    decreases width,
{
    if width == 0 {
        n
    } else {
        shifted(n / 256, (width - 1) as nat)
    }
}

proof fn lemma_written_reads_back(n: nat, width: nat)
    requires
        shifted(n, width) == 0,
    ensures
        big_endian(n, width).len() == width,
        big_endian_value(big_endian(n, width)) == n,
    decreases width,
{
    if width > 0 {
        lemma_written_reads_back(n / 256, (width - 1) as nat);
        assert(big_endian(n, width).drop_last() =~= big_endian(n / 256, (width - 1) as nat));
    }
}

proof fn lemma_big_endian_len(n: nat, width: nat)
    ensures
        big_endian(n, width).len() == width,
    decreases width,
{
    if width > 0 {
        lemma_big_endian_len(n / 256, (width - 1) as nat);
    }
}

proof fn lemma_read_writes_back(bytes: Seq<u8>)
    ensures
        big_endian(big_endian_value(bytes), bytes.len()) == bytes,
    decreases bytes.len(),
{
    if bytes.len() > 0 {
        lemma_read_writes_back(bytes.drop_last());
        let v = big_endian_value(bytes.drop_last());
        let b = bytes.last() as nat;
        assert((v * 256 + b) / 256 == v && (v * 256 + b) % 256 == b) by (nonlinear_arith)
            requires
                b < 256,
        ;
        assert(bytes =~= bytes.drop_last().push(bytes.last()));
    } else {
        assert(bytes =~= Seq::<u8>::empty());
    }
}

/// A frame on the wire: the magic, the length of the header in four bytes and
/// that of the payload in eight, then the header and the payload.
pub open spec fn frame_bytes(header: Seq<u8>, payload: Seq<u8>) -> Seq<u8> {
    MAGIC@ + big_endian(header.len(), 4) + big_endian(payload.len(), 8) + header + payload
}

fn push_big_endian(out: &mut Vec<u8>, n: u64, width: usize)
    ensures
        final(out)@ == old(out)@ + big_endian(n as nat, width as nat),
    decreases width,
{
    if width > 0 {
        push_big_endian(out, n / 256, width - 1);
        let b: u8 = (n % 256) as u8;
        out.push(b);
    }
    assert(out@ =~= old(out)@ + big_endian(n as nat, width as nat));
}

fn push_bytes(out: &mut Vec<u8>, bytes: &Vec<u8>, from: usize, to: usize)
    requires
        from <= to <= bytes@.len(),
    ensures
        final(out)@ == old(out)@ + bytes@.subrange(from as int, to as int),
{
    let mut i: usize = from;
    while i < to
        invariant
            from <= i <= to <= bytes@.len(),
            out@ == old(out)@ + bytes@.subrange(from as int, i as int),
        decreases to - i,
    {
        out.push(bytes[i]);
        i = i + 1;
        assert(out@ =~= old(out)@ + bytes@.subrange(from as int, i as int));
    }
}

/// The bytes of a frame whose header is already JSON, or the refusal of a
/// header or a payload that is too large.
pub fn write_frame(frame: &Frame<Vec<u8>>) -> (r: Result<Vec<u8>, ProtocolError>)
    ensures
        match r {
            Ok(bytes) => frame.header@.len() <= MAX_HEADER && frame.payload@.len() <= MAX_PAYLOAD && bytes@
                == frame_bytes(frame.header@, frame.payload@),
            Err(e) => if frame.header@.len() > MAX_HEADER {
                e@ == ProtocolProblem::HeaderTooLarge
            } else {
                frame.payload@.len() > MAX_PAYLOAD && e@ == ProtocolProblem::PayloadTooLarge
            },
        },
{
    if frame.header.len() > MAX_HEADER {
        return Err(ProtocolError::HeaderTooLarge);
    }
    if frame.payload.len() > MAX_PAYLOAD {
        return Err(ProtocolError::PayloadTooLarge);
    }
    let mut out: Vec<u8> = Vec::new();
    out.push(MAGIC[0]);
    out.push(MAGIC[1]);
    out.push(MAGIC[2]);
    out.push(MAGIC[3]);
    assert(out@ =~= MAGIC@);
    push_big_endian(&mut out, frame.header.len() as u64, 4);
    push_big_endian(&mut out, frame.payload.len() as u64, 8);
    push_bytes(&mut out, &frame.header, 0, frame.header.len());
    push_bytes(&mut out, &frame.payload, 0, frame.payload.len());
    proof {
        assert(frame.header@.subrange(0, frame.header@.len() as int) =~= frame.header@);
        assert(frame.payload@.subrange(0, frame.payload@.len() as int) =~= frame.payload@);
    }
    Ok(out)
}

/// What a stream that ends too early is reported as.
pub open spec fn ended_early() -> ProtocolProblem {
    ProtocolProblem::Io("early eof"@)
}

/// What is read from the beginning of `input`: a header, a payload and the
/// number of bytes that they took; or why not.
pub open spec fn read_outcome(input: Seq<u8>) -> Result<(Seq<u8>, Seq<u8>, nat), ProtocolProblem> {
    if input.len() < 4 {
        Err(ended_early())
    } else if input.take(4) != MAGIC@ {
        Err(ProtocolProblem::Magic)
    } else if input.len() < 16 {
        Err(ended_early())
    } else {
        let h = big_endian_value(input.subrange(4, 8));
        let p = big_endian_value(input.subrange(8, 16));
        if h > MAX_HEADER {
            Err(ProtocolProblem::HeaderTooLarge)
        } else if p > MAX_PAYLOAD {
            Err(ProtocolProblem::PayloadTooLarge)
        } else if input.len() < 16 + h + p {
            Err(ended_early())
        } else {
            Ok((
                input.subrange(16, (16 + h) as int),
                input.subrange((16 + h) as int, (16 + h + p) as int),
                16 + h + p,
            ))
        }
    }
}

/// A frame that was written is read as it was, whatever bytes follow it.
pub proof fn law_written_frame_is_read(header: Seq<u8>, payload: Seq<u8>, rest: Seq<u8>)
    requires
        header.len() <= MAX_HEADER,
        payload.len() <= MAX_PAYLOAD,
    ensures
        read_outcome(frame_bytes(header, payload) + rest) == Ok::<(Seq<u8>, Seq<u8>, nat), ProtocolProblem>(
            (header, payload, frame_bytes(header, payload).len()),
        ),
{
    reveal_with_fuel(shifted, 9);
    lemma_written_reads_back(header.len(), 4);
    lemma_written_reads_back(payload.len(), 8);
    let input = frame_bytes(header, payload) + rest;
    let h = header.len() as int;
    let p = payload.len() as int;
    assert(frame_bytes(header, payload).len() == 16 + h + p);
    assert(input.take(4) =~= MAGIC@);
    assert(input.subrange(4, 8) =~= big_endian(header.len(), 4));
    assert(input.subrange(8, 16) =~= big_endian(payload.len(), 8));
    assert(input.subrange(16, 16 + h) =~= header);
    assert(input.subrange(16 + h, 16 + h + p) =~= payload);
}

/// What is read as a frame is the wire form of that frame: no other bytes are
/// read as it.
pub proof fn law_read_frame_was_written(input: Seq<u8>)
    requires
        read_outcome(input) is Ok,
    ensures
        ({
            let (header, payload, taken) = read_outcome(input)->Ok_0;
            &&& header.len() <= MAX_HEADER
            &&& payload.len() <= MAX_PAYLOAD
            &&& taken <= input.len()
            &&& input.take(taken as int) == frame_bytes(header, payload)
        }),
{
    let (header, payload, taken) = read_outcome(input)->Ok_0;
    lemma_read_writes_back(input.subrange(4, 8));
    lemma_read_writes_back(input.subrange(8, 16));
    assert(input.take(taken as int) =~= input.take(4) + input.subrange(4, 8) + input.subrange(8, 16) + header
        + payload);
}

/// How far the reading of a frame has come.
#[derive(Debug, PartialEq)]
pub enum Stage {
    Magic,
    HeaderLength,
    PayloadLength { announced: u64 },
    Header { header_length: usize, payload_length: usize },
    Payload { header: Vec<u8>, payload_length: usize },
}

/// Reads frames from a stream in pieces of the sizes that it asks for.
#[derive(Debug, PartialEq)]
pub struct FrameReader {
    pub stage: Stage,
}

impl FrameReader {
    /// The number of bytes that the next piece has.
    pub open spec fn size(self) -> nat {
        match self.stage {
            Stage::Magic => 4,
            Stage::HeaderLength => 4,
            Stage::PayloadLength { .. } => 8,
            Stage::Header { header_length, .. } => header_length as nat,
            Stage::Payload { payload_length, .. } => payload_length as nat,
        }
    }

    /// A reader at the beginning of a frame.
    pub fn new() -> (r: Self)
        ensures
            r.stage is Magic,
    {
        FrameReader { stage: Stage::Magic }
    }

    /// The number of bytes that the next piece has.
    pub fn wanted(&self) -> (r: usize)
        ensures
            r == self.size(),
    {
        match &self.stage {
            Stage::Magic => 4,
            Stage::HeaderLength => 4,
            Stage::PayloadLength { .. } => 8,
            Stage::Header { header_length, .. } => *header_length,
            Stage::Payload { payload_length, .. } => *payload_length,
        }
    }

    /// Takes the next piece. The last one completes the frame, after which the
    /// reader is at the beginning of the next; a refused piece leaves it where
    /// it was.
    pub fn feed(&mut self, bytes: Vec<u8>) -> (r: Result<Option<Frame<Vec<u8>>>, ProtocolError>)
        requires
            bytes@.len() == old(self).size(),
        ensures
            match old(self).stage {
                Stage::Magic => if bytes@ == MAGIC@ {
                    (r matches Ok(None)) && final(self).stage is HeaderLength
                } else {
                    (r matches Err(e) && e@ == ProtocolProblem::Magic) && *final(self) == *old(self)
                },
                Stage::HeaderLength => (r matches Ok(None)) && (final(self).stage matches Stage::PayloadLength {
                    announced,
                } && announced == big_endian_value(bytes@)),
                Stage::PayloadLength { announced } => if announced > MAX_HEADER {
                    (r matches Err(e) && e@ == ProtocolProblem::HeaderTooLarge) && *final(self) == *old(self)
                } else if big_endian_value(bytes@) > MAX_PAYLOAD {
                    (r matches Err(e) && e@ == ProtocolProblem::PayloadTooLarge) && *final(self) == *old(self)
                } else {
                    (r matches Ok(None)) && (final(self).stage matches Stage::Header {
                        header_length: h,
                        payload_length: p,
                    } && h == announced && p == big_endian_value(bytes@))
                },
                Stage::Header { payload_length, .. } => (r matches Ok(None))
                    && (final(self).stage matches Stage::Payload { header: h, payload_length: p } && h@ == bytes@ && p
                    == payload_length),
                Stage::Payload { header, .. } => (r matches Ok(Some(frame)) && frame.header@ == header@
                    && frame.payload@ == bytes@) && final(self).stage is Magic,
            },
    {
        let mut stage = Stage::Magic;
        std::mem::swap(&mut stage, &mut self.stage);
        match stage {
            Stage::Magic => {
                if bytes[0] == MAGIC[0] && bytes[1] == MAGIC[1] && bytes[2] == MAGIC[2] && bytes[3] == MAGIC[3] {
                    assert(bytes@ =~= MAGIC@);
                    self.stage = Stage::HeaderLength;
                    Ok(None)
                } else {
                    self.stage = Stage::Magic;
                    Err(ProtocolError::Magic)
                }
            },
            Stage::HeaderLength => {
                let announced: u64 = value_of_four(&bytes, 0);
                assert(bytes@.subrange(0, 4) =~= bytes@);
                self.stage = Stage::PayloadLength { announced };
                Ok(None)
            },
            Stage::PayloadLength { announced } => {
                let payload_length: u64 = value_of_eight(&bytes);
                if announced > MAX_HEADER as u64 {
                    self.stage = Stage::PayloadLength { announced };
                    return Err(ProtocolError::HeaderTooLarge);
                }
                if payload_length > MAX_PAYLOAD as u64 {
                    self.stage = Stage::PayloadLength { announced };
                    return Err(ProtocolError::PayloadTooLarge);
                }
                self.stage = Stage::Header {
                    header_length: announced as usize,
                    payload_length: payload_length as usize,
                };
                Ok(None)
            },
            Stage::Header { payload_length, .. } => {
                self.stage = Stage::Payload { header: bytes, payload_length };
                Ok(None)
            },
            Stage::Payload { header, .. } => {
                self.stage = Stage::Magic;
                Ok(Some(Frame { header, payload: bytes }))
            },
        }
    }
}

fn value_of_four(bytes: &Vec<u8>, at: usize) -> (r: u64)
    requires
        at <= 4,
        at + 4 <= bytes@.len(),
    ensures
        r == big_endian_value(bytes@.subrange(at as int, at + 4)),
        r <= 0xffff_ffff,
{
    let r: u64 = ((bytes[at] as u64 * 256 + bytes[at + 1] as u64) * 256 + bytes[at + 2] as u64) * 256 + bytes[at
        + 3] as u64;
    proof {
        reveal_with_fuel(big_endian_value, 5);
        let s = bytes@.subrange(at as int, at + 4);
        assert(s.drop_last() =~= bytes@.subrange(at as int, at + 3));
        assert(s.drop_last().drop_last() =~= bytes@.subrange(at as int, at + 2));
        assert(s.drop_last().drop_last().drop_last() =~= bytes@.subrange(at as int, at + 1));
        assert(s.drop_last().drop_last().drop_last().drop_last() =~= Seq::<u8>::empty());
    }
    r
}

proof fn lemma_value_of_parts(a: Seq<u8>, b: Seq<u8>)
    requires
        b.len() == 4,
    ensures
        big_endian_value(a + b) == big_endian_value(a) * 0x1_0000_0000 + big_endian_value(b),
{
    reveal_with_fuel(big_endian_value, 5);
    let s = a + b;
    assert(s.drop_last() =~= a + b.take(3));
    assert(s.drop_last().drop_last() =~= a + b.take(2));
    assert(s.drop_last().drop_last().drop_last() =~= a + b.take(1));
    assert(s.drop_last().drop_last().drop_last().drop_last() =~= a);
    assert(b.drop_last() =~= b.take(3));
    assert(b.drop_last().drop_last() =~= b.take(2));
    assert(b.drop_last().drop_last().drop_last() =~= b.take(1));
    assert(b.drop_last().drop_last().drop_last().drop_last() =~= Seq::<u8>::empty());
}

fn value_of_eight(bytes: &Vec<u8>) -> (r: u64)
    requires
        bytes@.len() == 8,
    ensures
        r == big_endian_value(bytes@),
{
    let high: u64 = value_of_four(bytes, 0);
    let low: u64 = value_of_four(bytes, 4);
    proof {
        assert(bytes@ =~= bytes@.subrange(0, 4) + bytes@.subrange(4, 8));
        lemma_value_of_parts(bytes@.subrange(0, 4), bytes@.subrange(4, 8));
    }
    high * 0x1_0000_0000 + low
}

/// Reads one frame from the beginning of `input`, with the number of bytes that
/// it took.
pub fn read_frame(input: &Vec<u8>) -> (r: Result<(Frame<Vec<u8>>, usize), ProtocolError>)
    ensures
        match r {
            Ok((frame, taken)) => read_outcome(input@) == Ok::<(Seq<u8>, Seq<u8>, nat), ProtocolProblem>(
                (frame.header@, frame.payload@, taken as nat),
            ),
            Err(e) => read_outcome(input@) == Err::<(Seq<u8>, Seq<u8>, nat), ProtocolProblem>(e@),
        },
{
    let mut reader = FrameReader::new();
    let mut taken: usize = 0;
    loop
        invariant
            taken <= input@.len(),
            match reader.stage {
                Stage::Magic => taken == 0,
                Stage::HeaderLength => taken == 4 && input@.take(4) == MAGIC@,
                Stage::PayloadLength { announced } => taken == 8 && input@.take(4) == MAGIC@ && announced
                    == big_endian_value(input@.subrange(4, 8)),
                Stage::Header { header_length, payload_length } => taken == 16 && input@.take(4) == MAGIC@
                    && header_length == big_endian_value(input@.subrange(4, 8)) && payload_length
                    == big_endian_value(input@.subrange(8, 16)) && header_length <= MAX_HEADER && payload_length
                    <= MAX_PAYLOAD,
                Stage::Payload { header, payload_length } => taken == 16 + header@.len() && input@.take(4) == MAGIC@
                    && header@.len() == big_endian_value(input@.subrange(4, 8)) && payload_length
                    == big_endian_value(input@.subrange(8, 16)) && header@.len() <= MAX_HEADER && payload_length
                    <= MAX_PAYLOAD && header@ == input@.subrange(16, taken as int),
            },
        decreases
                match reader.stage {
                    Stage::Magic => 5int,
                    Stage::HeaderLength => 4,
                    Stage::PayloadLength { .. } => 3,
                    Stage::Header { .. } => 2,
                    Stage::Payload { .. } => 1,
                },
    {
        let size: usize = reader.wanted();
        if input.len() - taken < size {
            return Err(ProtocolError::Io("early eof".to_owned()));
        }
        let mut piece: Vec<u8> = Vec::new();
        push_bytes(&mut piece, input, taken, taken + size);
        proof {
            assert(piece@ =~= input@.subrange(taken as int, taken + size));
            if taken == 0 {
                assert(input@.take(4) =~= input@.subrange(0, 4));
            }
        }
        match reader.feed(piece) {
            Err(e) => {
                return Err(e);
            },
            Ok(Some(frame)) => {
                return Ok((frame, taken + size));
            },
            Ok(None) => {},
        }
        taken = taken + size;
    }
}

/// A frame on the wire is `SCX1`, the length of the header in four bytes and that of
/// the payload in eight, each with the most significant byte first, then all bytes of
/// the header and all bytes of the payload.
pub proof fn law_the_wire_form_of_a_frame(header: Seq<u8>, payload: Seq<u8>)
    requires
        header.len() <= 8_388_608,
        payload.len() <= 268_435_456,
    ensures
        ({
            let wire = frame_bytes(header, payload);
            &&& wire.len() == 16 + header.len() + payload.len()
            &&& wire[0] == 0x53 && wire[1] == 0x43 && wire[2] == 0x58 && wire[3] == 0x31
            &&& wire[4] * 0x100_0000 + wire[5] * 0x1_0000 + wire[6] * 0x100 + wire[7] == header.len()
            &&& wire[8] == 0 && wire[9] == 0 && wire[10] == 0 && wire[11] == 0
            &&& wire[12] * 0x100_0000 + wire[13] * 0x1_0000 + wire[14] * 0x100 + wire[15] == payload.len()
            &&& wire.subrange(16, 16 + header.len() as int) == header
            &&& wire.skip(16 + header.len() as int) == payload
        }),
{
    let h = header.len();
    let p = payload.len();
    let wire = frame_bytes(header, payload);
    lemma_big_endian_len(h, 4);
    lemma_big_endian_len(p, 8);
    reveal_with_fuel(big_endian, 9);
    let a = big_endian(h, 4);
    let b = big_endian(p, 8);
    assert(a =~= seq![
        (h / 256 / 256 / 256 % 256) as u8,
        (h / 256 / 256 % 256) as u8,
        (h / 256 % 256) as u8,
        (h % 256) as u8,
    ]);
    assert(p / 256 / 256 / 256 / 256 == 0);
    assert(b =~= seq![
        0u8,
        0u8,
        0u8,
        0u8,
        (p / 256 / 256 / 256 % 256) as u8,
        (p / 256 / 256 % 256) as u8,
        (p / 256 % 256) as u8,
        (p % 256) as u8,
    ]);
    assert forall|i: int| 0 <= i < 4 implies wire[4 + i] == #[trigger] a[i] by {}
    assert forall|i: int| 0 <= i < 8 implies wire[8 + i] == #[trigger] b[i] by {}
    assert(wire[4] == a[0] && wire[5] == a[1] && wire[6] == a[2] && wire[7] == a[3]);
    assert(wire[8] == b[0] && wire[9] == b[1] && wire[10] == b[2] && wire[11] == b[3]);
    assert(wire[12] == b[4] && wire[13] == b[5] && wire[14] == b[6] && wire[15] == b[7]);
    assert(wire.subrange(16, 16 + h as int) =~= header);
    assert(wire.skip(16 + h as int) =~= payload);
}

/// What does not begin with `SCX1` is no frame. A frame whose header is announced with
/// more than 8 MiB, or whose payload with more than 256 MiB, is refused before any of
/// it is read. What ends before all announced bytes are there is no frame either.
pub proof fn law_what_is_refused_as_a_frame(input: Seq<u8>)
    requires
        input.len() >= 16,
    ensures
        ({
            let magic = input[0] == 0x53 && input[1] == 0x43 && input[2] == 0x58 && input[3] == 0x31;
            let h = big_endian_value(input.subrange(4, 8));
            let p = big_endian_value(input.subrange(8, 16));
            let outcome = read_outcome(input);
            &&& !magic ==> outcome == Err::<(Seq<u8>, Seq<u8>, nat), ProtocolProblem>(ProtocolProblem::Magic)
            &&& magic && h > 8_388_608 ==> outcome == Err::<(Seq<u8>, Seq<u8>, nat), ProtocolProblem>(
                ProtocolProblem::HeaderTooLarge,
            )
            &&& magic && h <= 8_388_608 && p > 268_435_456 ==> outcome == Err::<
                (Seq<u8>, Seq<u8>, nat),
                ProtocolProblem,
            >(ProtocolProblem::PayloadTooLarge)
            &&& magic && h <= 8_388_608 && p <= 268_435_456 ==> (outcome is Ok <==> input.len() >= 16 + h + p)
        }),
{
    let head = input.take(4);
    let magic = input[0] == 0x53 && input[1] == 0x43 && input[2] == 0x58 && input[3] == 0x31;
    if magic {
        assert(head =~= MAGIC@);
    } else {
        assert(head[0] == input[0] && head[1] == input[1] && head[2] == input[2] && head[3] == input[3]);
    }
}

/// A length is read with the most significant byte first: each byte counts 256 times
/// as much as the one after it.
pub proof fn law_lengths_are_read_with_the_most_significant_byte_first(bytes: Seq<u8>, next: u8)
    ensures
        big_endian_value(Seq::<u8>::empty()) == 0,
        big_endian_value(bytes.push(next)) == 256 * big_endian_value(bytes) + next,
{
    assert(bytes.push(next).drop_last() =~= bytes);
}

/// The messages of protocol errors name the limit or the cause.
pub proof fn law_protocol_errors_name_their_cause(cause: Seq<char>)
    ensures
        ProtocolProblem::Magic.message() == "invalid frame magic"@,
        ProtocolProblem::HeaderTooLarge.message() == "frame header exceeds "@ + decimal(8_388_608) + " bytes"@,
        ProtocolProblem::PayloadTooLarge.message() == "frame payload exceeds "@ + decimal(268_435_456) + " bytes"@,
        ProtocolProblem::Io(cause).message() == "I/O error: "@ + cause,
        ProtocolProblem::Json(cause).message() == "invalid JSON header: "@ + cause,
{
}

/// What a request and a response say is what stands in their fields.
pub proof fn law_headers_say_what_they_hold(request: Request, response: Response)
    ensures
        request@.id == request.id@ && request@.method == request.method@,
        request@.params == request.params@ && request@.readonly == request.readonly,
        response@.id == response.id@ && response@.ok == response.ok,
        response@.result == response.result@,
        response@.error == match response.error {
            Some(s) => Some(s@),
            None => None,
        },
        JsonView::Object(response@.metadata) == Json::Object(response.metadata)@,
{
}

/// A frame is asked for in five pieces: four bytes that begin it, four for the length of
/// its header, eight for that of its payload, and then as many as were announced.
pub proof fn law_the_pieces_of_a_frame(reader: FrameReader)
    ensures
        reader.size() == match reader.stage {
            Stage::Magic => 4nat,
            Stage::HeaderLength => 4,
            Stage::PayloadLength { .. } => 8,
            Stage::Header { header_length, .. } => header_length as nat,
            Stage::Payload { payload_length, .. } => payload_length as nat,
        },
{
}

/// An input that ends before a frame is complete is told as an early end of the stream,
/// whether it ends in the first bytes, in the lengths, in the header or in the payload.
pub proof fn law_an_early_end_is_told(input: Seq<u8>)
    ensures
        input.len() < 4 ==> read_outcome(input) == Err::<(Seq<u8>, Seq<u8>, nat), ProtocolProblem>(
            ProtocolProblem::Io("early eof"@),
        ),
        4 <= input.len() < 16 && input[0] == 0x53 && input[1] == 0x43 && input[2] == 0x58 && input[3] == 0x31
            ==> read_outcome(input) == Err::<(Seq<u8>, Seq<u8>, nat), ProtocolProblem>(
            ProtocolProblem::Io("early eof"@),
        ),
        input.len() >= 16 && input[0] == 0x53 && input[1] == 0x43 && input[2] == 0x58 && input[3] == 0x31
            && big_endian_value(input.subrange(4, 8)) <= 8_388_608 && big_endian_value(input.subrange(8, 16))
            <= 268_435_456 && input.len() < 16 + big_endian_value(input.subrange(4, 8)) + big_endian_value(
            input.subrange(8, 16),
        ) ==> read_outcome(input) == Err::<(Seq<u8>, Seq<u8>, nat), ProtocolProblem>(
            ProtocolProblem::Io("early eof"@),
        ),
{
    if input.len() >= 4 && input[0] == 0x53 && input[1] == 0x43 && input[2] == 0x58 && input[3] == 0x31 {
        assert(input.take(4) =~= MAGIC@);
    }
}

} // verus!
