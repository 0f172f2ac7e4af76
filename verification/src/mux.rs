//! Framing and demultiplexing of the three logical streams.
//!
//! One physical connection carries three independent logical byte channels:
//! the client's input, the server's output, and the server's diagnostics.
//! On the wire they travel as frames: a one-byte channel tag, a four-byte
//! big-endian payload length, and the payload. Demultiplexing reconstructs
//! each channel's bytes exactly, in frame order, with zero cross-channel
//! bleed, however finely the frames interleave; a framing violation (an
//! unknown tag, a truncated frame) fails the whole physical stream, which
//! terminates all three logical streams at once.

use vstd::prelude::*;

verus! {

/// One of the three logical channels inside a physical connection.
#[derive(Clone, Copy, PartialEq, Eq, Structural, Debug)]
pub enum Channel {
    /// Client-to-server command bytes.
    Input,
    /// Server-to-client response bytes.
    Output,
    /// Server-to-client diagnostic bytes.
    Diag,
}

/// The wire tag of a channel.
pub open spec fn channel_tag(c: Channel) -> u8 {
    match c {
        Channel::Input => 0,
        Channel::Output => 1,
        Channel::Diag => 2,
    }
}

/// The channel of a wire tag, if the tag is one of the three.
pub open spec fn tag_channel(t: u8) -> Option<Channel> {
    if t == 0 {
        Some(Channel::Input)
    } else if t == 1 {
        Some(Channel::Output)
    } else if t == 2 {
        Some(Channel::Diag)
    } else {
        None
    }
}

/// Model of one frame: a channel and its payload bytes.
#[verifier::ext_equal]
pub struct FrameModel {
    pub chan: Channel,
    pub payload: Seq<u8>,
}

/// One frame of the physical stream.
#[derive(Debug)]
pub struct Frame {
    pub chan: Channel,
    pub payload: Vec<u8>,
}

impl View for Frame {
    type V = FrameModel;

    open spec fn view(&self) -> FrameModel {
        FrameModel { chan: self.chan, payload: self.payload@ }
    }
}

/// Model of a sequence of frames.
pub open spec fn frames_model(fs: Seq<Frame>) -> Seq<FrameModel> {
    Seq::new(fs.len(), |i: int| fs[i]@)
}

/// A frame's payload must fit the four-byte length field.
pub open spec fn frame_valid(f: FrameModel) -> bool {
    f.payload.len() <= 0xffffffff
}

/// Every frame of the sequence fits its length field.
pub open spec fn frames_valid(fs: Seq<FrameModel>) -> bool {
    forall|i: int| 0 <= i < fs.len() ==> frame_valid(#[trigger] fs[i])
}

/// The four big-endian bytes of a length.
pub open spec fn be_bytes(n: u32) -> Seq<u8> {
    seq![
        ((n >> 24) & 0xff) as u8,
        ((n >> 16) & 0xff) as u8,
        ((n >> 8) & 0xff) as u8,
        (n & 0xff) as u8,
    ]
}

/// The length read back from four big-endian bytes.
pub open spec fn be_word(b0: u8, b1: u8, b2: u8, b3: u8) -> u32 {
    (((b0 as u32) << 24) | ((b1 as u32) << 16) | ((b2 as u32) << 8) | (b3 as u32)) as u32
}

/// Reading the four bytes of a length gives the length back.
pub proof fn lemma_be_round_trip(n: u32)
    ensures
        be_word(
            ((n >> 24) & 0xff) as u8,
            ((n >> 16) & 0xff) as u8,
            ((n >> 8) & 0xff) as u8,
            (n & 0xff) as u8,
        ) == n,
{
    assert((((((n >> 24) & 0xff) as u8 as u32) << 24) | ((((n >> 16) & 0xff) as u8 as u32) << 16)
        | ((((n >> 8) & 0xff) as u8 as u32) << 8) | ((n & 0xff) as u8 as u32)) == n)
        by (bit_vector);
}

/// The wire bytes of one frame: tag, big-endian length, payload.
pub open spec fn frame_bytes(f: FrameModel) -> Seq<u8> {
    seq![channel_tag(f.chan)] + be_bytes(f.payload.len() as u32) + f.payload
}

/// The wire bytes of a sequence of frames, in order.
pub open spec fn frames_bytes(fs: Seq<FrameModel>) -> Seq<u8>
    decreases fs.len(),
{
    if fs.len() == 0 {
        Seq::empty()
    } else {
        frame_bytes(fs[0]) + frames_bytes(fs.drop_first())
    }
}

/// A framing violation of the physical stream.
#[derive(Clone, Copy, PartialEq, Eq, Structural, Debug)]
pub enum MuxError {
    /// A frame began with a tag that is none of the three channels.
    BadTag,
    /// The stream ended inside a frame header or payload.
    Truncated,
}

/// Parse a physical stream into its frames; `None` on a framing violation.
pub open spec fn parse_frames(b: Seq<u8>) -> Option<Seq<FrameModel>>
    decreases b.len(),
{
    if b.len() == 0 {
        Some(Seq::empty())
    } else if b.len() < 5 {
        None
    } else if tag_channel(b[0]) is None {
        None
    } else {
        let n = be_word(b[1], b[2], b[3], b[4]) as int;
        if b.len() < 5 + n {
            None
        } else {
            let head = FrameModel {
                chan: tag_channel(b[0]).unwrap(),
                payload: b.subrange(5, 5 + n),
            };
            match parse_frames(b.skip(5 + n)) {
                None => None,
                Some(rest) => Some(seq![head] + rest),
            }
        }
    }
}

/// Which violation a malformed stream fails with (meaningful only when
/// `parse_frames` is `None`).
pub open spec fn parse_error(b: Seq<u8>) -> MuxError
    decreases b.len(),
{
    if b.len() < 5 {
        MuxError::Truncated
    } else if tag_channel(b[0]) is None {
        MuxError::BadTag
    } else {
        let n = be_word(b[1], b[2], b[3], b[4]) as int;
        if b.len() < 5 + n {
            MuxError::Truncated
        } else {
            parse_error(b.skip(5 + n))
        }
    }
}

/// The bytes of one logical channel: the payloads of its frames, concatenated
/// in frame order.
pub open spec fn channel_payload(fs: Seq<FrameModel>, c: Channel) -> Seq<u8>
    decreases fs.len(),
{
    if fs.len() == 0 {
        Seq::empty()
    } else if fs[0].chan == c {
        fs[0].payload + channel_payload(fs.drop_first(), c)
    } else {
        channel_payload(fs.drop_first(), c)
    }
}

/// A channel's bytes distribute over concatenation of frame sequences.
pub proof fn lemma_channel_payload_add(x: Seq<FrameModel>, y: Seq<FrameModel>, c: Channel)
    ensures
        channel_payload(x + y, c) == channel_payload(x, c) + channel_payload(y, c),
    decreases x.len(),
{
    if x.len() == 0 {
        assert(x + y =~= y);
        assert(channel_payload(x, c) + channel_payload(y, c) =~= channel_payload(y, c));
    } else {
        assert((x + y)[0] == x[0]);
        assert((x + y).drop_first() =~= x.drop_first() + y);
        lemma_channel_payload_add(x.drop_first(), y, c);
        if x[0].chan == c {
            assert(x[0].payload + (channel_payload(x.drop_first(), c) + channel_payload(y, c))
                =~= (x[0].payload + channel_payload(x.drop_first(), c)) + channel_payload(y, c));
        }
    }
}

/// Appending one frame appends its payload to its own channel and to no
/// other.
pub proof fn lemma_channel_payload_push(fs: Seq<FrameModel>, f: FrameModel, c: Channel)
    ensures
        channel_payload(fs.push(f), c) == channel_payload(fs, c) + (if f.chan == c {
            f.payload
        } else {
            Seq::<u8>::empty()
        }),
{
    assert(fs.push(f) =~= fs + seq![f]);
    lemma_channel_payload_add(fs, seq![f], c);
    lemma_channel_payload_singleton(f, c);
}

/// The bytes a single frame contributes to a channel.
pub proof fn lemma_channel_payload_singleton(x: FrameModel, c: Channel)
    ensures
        channel_payload(seq![x], c) == if x.chan == c {
            x.payload
        } else {
            Seq::<u8>::empty()
        },
{
    assert(seq![x].len() == 1);
    assert(seq![x][0] == x);
    assert(seq![x].drop_first() =~= Seq::<FrameModel>::empty());
    assert(channel_payload(Seq::<FrameModel>::empty(), c) == Seq::<u8>::empty());
    if x.chan == c {
        assert(channel_payload(seq![x], c) =~= x.payload);
    }
}

/// The frame sequence with frame `i` split in two at payload offset `k`, both
/// halves on the frame's own channel.
pub open spec fn split_frame(fs: Seq<FrameModel>, i: int, k: int) -> Seq<FrameModel> {
    fs.take(i) + seq![
        FrameModel { chan: fs[i].chan, payload: fs[i].payload.take(k) },
        FrameModel { chan: fs[i].chan, payload: fs[i].payload.skip(k) },
    ] + fs.skip(i + 1)
}

/// Channel isolation is independent of framing granularity: splitting any
/// frame in two changes no channel's reconstructed bytes.
pub proof fn lemma_split_frame_payload(fs: Seq<FrameModel>, i: int, k: int, c: Channel)
    requires
        0 <= i < fs.len(),
        0 <= k <= fs[i].payload.len(),
    ensures
        channel_payload(split_frame(fs, i, k), c) == channel_payload(fs, c),
{
    let f = fs[i];
    let two = seq![
        FrameModel { chan: f.chan, payload: f.payload.take(k) },
        FrameModel { chan: f.chan, payload: f.payload.skip(k) },
    ];
    let one = seq![f];
    assert(fs =~= fs.take(i) + one + fs.skip(i + 1));
    lemma_channel_payload_add(fs.take(i) + one, fs.skip(i + 1), c);
    lemma_channel_payload_add(fs.take(i), one, c);
    lemma_channel_payload_add(fs.take(i) + two, fs.skip(i + 1), c);
    lemma_channel_payload_add(fs.take(i), two, c);
    let f1 = FrameModel { chan: f.chan, payload: f.payload.take(k) };
    let f2 = FrameModel { chan: f.chan, payload: f.payload.skip(k) };
    lemma_channel_payload_singleton(f, c);
    lemma_channel_payload_singleton(f2, c);
    assert(one =~= seq![f]);
    assert(two.len() == 2);
    assert(two[0] == f1);
    assert(two.drop_first() =~= seq![f2]);
    if f.chan == c {
        assert(channel_payload(one, c) == f.payload);
        assert(channel_payload(two, c) =~= f.payload.take(k) + f.payload.skip(k));
        assert(f.payload.take(k) + f.payload.skip(k) =~= f.payload);
    } else {
        assert(channel_payload(one, c) == Seq::<u8>::empty());
        assert(channel_payload(two, c) =~= Seq::<u8>::empty());
    }
    assert(channel_payload(split_frame(fs, i, k), c) =~= channel_payload(fs, c));
}

/// The channel of a wire tag, executably.
fn channel_of_tag(t: u8) -> (r: Option<Channel>)
    ensures
        r == tag_channel(t),
{
    if t == 0 {
        Some(Channel::Input)
    } else if t == 1 {
        Some(Channel::Output)
    } else if t == 2 {
        Some(Channel::Diag)
    } else {
        None
    }
}

/// Append the bytes of `src` to `dst`.
fn append_bytes(dst: &mut Vec<u8>, src: &Vec<u8>)
    ensures
        final(dst)@ == old(dst)@ + src@,
{
    let mut j: usize = 0;
    while j < src.len()
        invariant
            j <= src.len(),
            dst@ == old(dst)@ + src@.take(j as int),
        decreases src.len() - j,
    {
        dst.push(src[j]);
        proof {
            assert(old(dst)@ + src@.take(j + 1 as int) =~= (old(dst)@ + src@.take(j as int)).push(
                src@[j as int],
            ));
        }
        j = j + 1;
    }
    proof {
        assert(src@.take(src@.len() as int) =~= src@);
    }
}

/// Write one frame onto the wire: tag, big-endian length, payload.
fn push_frame(out: &mut Vec<u8>, chan: Channel, payload: &Vec<u8>)
    requires
        payload@.len() <= 0xffffffff,
    ensures
        final(out)@ == old(out)@ + frame_bytes(FrameModel { chan, payload: payload@ }),
{
    let tag: u8 = match chan {
        Channel::Input => 0,
        Channel::Output => 1,
        Channel::Diag => 2,
    };
    let n: u32 = payload.len() as u32;
    out.push(tag);
    out.push(((n >> 24) & 0xff) as u8);
    out.push(((n >> 16) & 0xff) as u8);
    out.push(((n >> 8) & 0xff) as u8);
    out.push((n & 0xff) as u8);
    let ghost header = out@;
    append_bytes(out, payload);
    proof {
        let f = FrameModel { chan, payload: payload@ };
        assert(header =~= old(out)@ + seq![channel_tag(f.chan)] + be_bytes(
            f.payload.len() as u32,
        ));
        assert(out@ =~= old(out)@ + frame_bytes(f));
    }
}

/// The wire encoding of one logical-channel write: a single frame. What a
/// connection enqueues on its output or diagnostic stream is relayed back to
/// the peer as such frames, in the order enqueued.
pub fn encode_frame(chan: Channel, payload: &Vec<u8>) -> (r: Vec<u8>)
    requires
        payload@.len() <= 0xffffffff,
    ensures
        r@ == frame_bytes(FrameModel { chan, payload: payload@ }),
{
    let mut out: Vec<u8> = Vec::new();
    push_frame(&mut out, chan, payload);
    proof {
        assert(Seq::<u8>::empty() + frame_bytes(FrameModel { chan, payload: payload@ })
            =~= frame_bytes(FrameModel { chan, payload: payload@ }));
    }
    out
}

/// The wire bytes of a sequence of frames, in order.
pub fn encode_frames(frames: &Vec<Frame>) -> (r: Vec<u8>)
    requires
        frames_valid(frames_model(frames@)),
    ensures
        r@ == frames_bytes(frames_model(frames@)),
{
    let mut out: Vec<u8> = Vec::new();
    let mut k: usize = 0;
    while k < frames.len()
        invariant
            k <= frames.len(),
            frames_valid(frames_model(frames@)),
            out@ == frames_bytes(frames_model(frames@).take(k as int)),
        decreases frames.len() - k,
    {
        let ghost fm = frames_model(frames@);
        assert(fm[k as int] == frames@[k as int]@);
        assert(frame_valid(fm[k as int]));
        push_frame(&mut out, frames[k].chan, &frames[k].payload);
        proof {
            assert(fm.take(k + 1 as int) =~= fm.take(k as int).push(fm[k as int]));
            lemma_frames_bytes_push(fm.take(k as int), fm[k as int]);
        }
        k = k + 1;
    }
    proof {
        assert(frames_model(frames@).take(frames@.len() as int) =~= frames_model(frames@));
    }
    out
}

/// Appending a frame appends its wire bytes.
pub proof fn lemma_frames_bytes_push(fs: Seq<FrameModel>, f: FrameModel)
    ensures
        frames_bytes(fs.push(f)) == frames_bytes(fs) + frame_bytes(f),
    decreases fs.len(),
{
    if fs.len() == 0 {
        assert(fs.push(f)[0] == f);
        assert(fs.push(f).drop_first() =~= Seq::<FrameModel>::empty());
        assert(frames_bytes(Seq::<FrameModel>::empty()) == Seq::<u8>::empty());
        assert(frames_bytes(fs.push(f)) =~= frame_bytes(f));
        assert(frames_bytes(fs) + frame_bytes(f) =~= frame_bytes(f));
    } else {
        assert(fs.push(f)[0] == fs[0]);
        assert(fs.push(f).drop_first() =~= fs.drop_first().push(f));
        lemma_frames_bytes_push(fs.drop_first(), f);
        assert(frame_bytes(fs[0]) + (frames_bytes(fs.drop_first()) + frame_bytes(f)) =~= (
        frame_bytes(fs[0]) + frames_bytes(fs.drop_first())) + frame_bytes(f));
    }
}

/// Decode a physical stream into its frames; a framing violation is reported
/// exactly as `parse_frames` and `parse_error` say.
pub fn decode_frames(bytes: &Vec<u8>) -> (r: Result<Vec<Frame>, MuxError>)
    ensures
        r is Ok <==> parse_frames(bytes@) is Some,
        r matches Ok(fs) ==> parse_frames(bytes@) == Some(frames_model(fs@)),
        r matches Err(e) ==> e == parse_error(bytes@),
{
    let mut i: usize = 0;
    let mut out: Vec<Frame> = Vec::new();
    proof {
        assert(bytes@.skip(0) =~= bytes@);
        assert(frames_model(out@) =~= Seq::<FrameModel>::empty());
        match parse_frames(bytes@) {
            Some(rest) => {
                assert(frames_model(out@) + rest =~= rest);
            },
            None => {},
        }
    }
    while i < bytes.len()
        invariant
            i <= bytes.len(),
            parse_frames(bytes@) is Some <==> parse_frames(bytes@.skip(i as int)) is Some,
            parse_frames(bytes@.skip(i as int)) matches Some(rest) ==> parse_frames(bytes@)
                == Some(frames_model(out@) + rest),
            parse_frames(bytes@) is None ==> parse_error(bytes@) == parse_error(
                bytes@.skip(i as int),
            ),
        decreases bytes.len() - i,
    {
        let ghost s = bytes@.skip(i as int);
        assert(s.len() == bytes@.len() - i);
        let remaining = bytes.len() - i;
        if remaining < 5 {
            assert(parse_frames(s) is None);
            assert(parse_error(s) == MuxError::Truncated);
            return Err(MuxError::Truncated);
        }
        assert(s[0] == bytes@[i as int]);
        assert(s[1] == bytes@[i + 1]);
        assert(s[2] == bytes@[i + 2]);
        assert(s[3] == bytes@[i + 3]);
        assert(s[4] == bytes@[i + 4]);
        let chan = match channel_of_tag(bytes[i]) {
            Some(c) => c,
            None => {
                assert(parse_frames(s) is None);
                assert(parse_error(s) == MuxError::BadTag);
                return Err(MuxError::BadTag);
            },
        };
        let n: u32 = be_word_exec(bytes[i + 1], bytes[i + 2], bytes[i + 3], bytes[i + 4]);
        let n_us: usize = n as usize;
        if remaining - 5 < n_us {
            assert(parse_frames(s) is None);
            assert(parse_error(s) == MuxError::Truncated);
            return Err(MuxError::Truncated);
        }
        let mut payload: Vec<u8> = Vec::new();
        let mut j: usize = 0;
        while j < n_us
            invariant
                j <= n_us,
                i + 5 + n_us <= bytes@.len(),
                bytes@.len() <= usize::MAX,
                payload@ == bytes@.subrange(i + 5, i + 5 + j),
            decreases n_us - j,
        {
            payload.push(bytes[i + 5 + j]);
            proof {
                assert(bytes@.subrange(i + 5, i + 5 + j + 1) =~= bytes@.subrange(
                    i + 5,
                    i + 5 + j,
                ).push(bytes@[i + 5 + j]));
            }
            j = j + 1;
        }
        let ghost head = FrameModel { chan, payload: s.subrange(5, 5 + n as int) };
        proof {
            assert(s.subrange(5, 5 + n as int) =~= bytes@.subrange(i + 5, i + 5 + n_us));
            assert(s.skip(5 + n as int) =~= bytes@.skip(i + 5 + n_us as int));
        }
        let frame = Frame { chan, payload };
        assert(frame@ == head);
        let ghost out_pre = out@;
        out.push(frame);
        proof {
            assert(frames_model(out@) =~= frames_model(out_pre).push(head));
            match parse_frames(bytes@.skip(i + 5 + n_us as int)) {
                Some(rest) => {
                    assert(parse_frames(s) == Some(seq![head] + rest));
                    assert(frames_model(out_pre) + (seq![head] + rest) =~= frames_model(
                        out_pre,
                    ).push(head) + rest);
                },
                None => {},
            }
        }
        i = i + 5 + n_us;
    }
    proof {
        assert(bytes@.skip(i as int) =~= Seq::<u8>::empty());
        assert(parse_frames(bytes@.skip(i as int)) == Some(Seq::<FrameModel>::empty()));
        assert(frames_model(out@) + Seq::<FrameModel>::empty() =~= frames_model(out@));
    }
    Ok(out)
}

/// The length read back from four big-endian bytes, executably.
fn be_word_exec(b0: u8, b1: u8, b2: u8, b3: u8) -> (n: u32)
    ensures
        n == be_word(b0, b1, b2, b3),
{
    ((b0 as u32) << 24) | ((b1 as u32) << 16) | ((b2 as u32) << 8) | (b3 as u32)
}

/// The three reconstructed logical streams of one physical connection.
#[derive(Debug)]
pub struct Demuxed {
    pub input: Vec<u8>,
    pub output: Vec<u8>,
    pub diag: Vec<u8>,
}

/// Sort decoded frames into the three logical streams, each channel's bytes
/// concatenated in frame order.
pub fn split_channels(frames: &Vec<Frame>) -> (d: Demuxed)
    ensures
        d.input@ == channel_payload(frames_model(frames@), Channel::Input),
        d.output@ == channel_payload(frames_model(frames@), Channel::Output),
        d.diag@ == channel_payload(frames_model(frames@), Channel::Diag),
{
    let mut input: Vec<u8> = Vec::new();
    let mut output: Vec<u8> = Vec::new();
    let mut diag: Vec<u8> = Vec::new();
    let mut k: usize = 0;
    while k < frames.len()
        invariant
            k <= frames.len(),
            input@ == channel_payload(frames_model(frames@).take(k as int), Channel::Input),
            output@ == channel_payload(frames_model(frames@).take(k as int), Channel::Output),
            diag@ == channel_payload(frames_model(frames@).take(k as int), Channel::Diag),
        decreases frames.len() - k,
    {
        let ghost fm = frames_model(frames@);
        let ghost f = fm[k as int];
        assert(f == frames@[k as int]@);
        match frames[k].chan {
            Channel::Input => append_bytes(&mut input, &frames[k].payload),
            Channel::Output => append_bytes(&mut output, &frames[k].payload),
            Channel::Diag => append_bytes(&mut diag, &frames[k].payload),
        }
        proof {
            assert(fm.take(k + 1 as int) =~= fm.take(k as int).push(f));
            lemma_channel_payload_push(fm.take(k as int), f, Channel::Input);
            lemma_channel_payload_push(fm.take(k as int), f, Channel::Output);
            lemma_channel_payload_push(fm.take(k as int), f, Channel::Diag);
            assert(input@ =~= channel_payload(fm.take(k + 1 as int), Channel::Input));
            assert(output@ =~= channel_payload(fm.take(k + 1 as int), Channel::Output));
            assert(diag@ =~= channel_payload(fm.take(k + 1 as int), Channel::Diag));
        }
        k = k + 1;
    }
    proof {
        assert(frames_model(frames@).take(frames@.len() as int) =~= frames_model(frames@));
    }
    Demuxed { input, output, diag }
}

/// Demultiplex one physical stream into the three logical streams: on a
/// well-framed stream each channel's bytes are reconstructed exactly; any
/// framing violation fails all three streams with the violation.
pub fn demux(bytes: &Vec<u8>) -> (r: Result<Demuxed, MuxError>)
    ensures
        r is Ok <==> parse_frames(bytes@) is Some,
        r matches Ok(d) ==> {
            &&& d.input@ == channel_payload(parse_frames(bytes@).unwrap(), Channel::Input)
            &&& d.output@ == channel_payload(parse_frames(bytes@).unwrap(), Channel::Output)
            &&& d.diag@ == channel_payload(parse_frames(bytes@).unwrap(), Channel::Diag)
        },
        r matches Err(e) ==> e == parse_error(bytes@),
{
    match decode_frames(bytes) {
        Err(e) => Err(e),
        Ok(frames) => Ok(split_channels(&frames)),
    }
}

/// Encoding then parsing gives the frames back: the wire framing is lossless.
pub proof fn lemma_parse_of_encode(fs: Seq<FrameModel>)
    requires
        frames_valid(fs),
    ensures
        parse_frames(frames_bytes(fs)) == Some(fs),
    decreases fs.len(),
{
    if fs.len() == 0 {
        assert(frames_bytes(fs).len() == 0);
        assert(Seq::<FrameModel>::empty() =~= fs);
    } else {
        let f = fs[0];
        assert(frame_valid(f));
        let pl = f.payload.len() as int;
        let lw = f.payload.len() as u32;
        let hb = frame_bytes(f);
        let rest_bytes = frames_bytes(fs.drop_first());
        let b = frames_bytes(fs);
        assert(b == hb + rest_bytes);
        assert(hb.len() == 5 + pl);
        assert(b[0] == channel_tag(f.chan));
        assert(tag_channel(channel_tag(f.chan)) == Some(f.chan));
        assert(b[1] == ((lw >> 24) & 0xff) as u8);
        assert(b[2] == ((lw >> 16) & 0xff) as u8);
        assert(b[3] == ((lw >> 8) & 0xff) as u8);
        assert(b[4] == (lw & 0xff) as u8);
        lemma_be_round_trip(lw);
        assert(be_word(b[1], b[2], b[3], b[4]) == lw);
        assert(lw as int == pl);
        assert(b.len() >= 5 + pl);
        assert(b.subrange(5, 5 + pl) =~= f.payload);
        assert(b.skip(5 + pl) =~= rest_bytes);
        assert forall|i: int| 0 <= i < fs.drop_first().len() implies frame_valid(
            #[trigger] fs.drop_first()[i],
        ) by {
            assert(fs.drop_first()[i] == fs[i + 1]);
        }
        lemma_parse_of_encode(fs.drop_first());
        let head = FrameModel { chan: tag_channel(b[0]).unwrap(), payload: b.subrange(5, 5 + pl) };
        assert(head =~= f);
        assert(parse_frames(b) == Some(seq![head] + fs.drop_first()));
        assert(seq![head] + fs.drop_first() =~= fs);
    }
}

/// Channel isolation end to end: demultiplexing the wire bytes of any valid
/// frame sequence yields, for each logical channel, exactly that channel's
/// payload bytes in frame order — no byte of one channel reaches another,
/// however the frames interleave.
pub proof fn lemma_channel_isolation(fs: Seq<FrameModel>, c: Channel)
    requires
        frames_valid(fs),
    ensures
        parse_frames(frames_bytes(fs)) == Some(fs),
        channel_payload(parse_frames(frames_bytes(fs)).unwrap(), c) == channel_payload(fs, c),
{
    lemma_parse_of_encode(fs);
}

} // verus!
