use vstd::prelude::*;

verus! {

/// A frame transport that knows nothing of CTAP semantics.
pub trait Transport {
    type Error;

    fn send(&mut self, frame: &[u8]) -> Result<(), Self::Error>;

    fn receive(&mut self, buffer: &mut [u8]) -> Result<usize, Self::Error>;
}

/// Errors of the in-memory transport.
#[derive(Debug, Clone, Copy, PartialEq, Eq, Structural)]
pub enum InMemoryTransportError {
    Full,
    Empty,
    Disconnected,
}

impl InMemoryTransportError {
    /// The text a user is shown for this error.
    pub open spec fn spec_message(self) -> Seq<char> {
        match self {
            InMemoryTransportError::Full => "transport full"@,
            InMemoryTransportError::Empty => "transport empty"@,
            InMemoryTransportError::Disconnected => "transport disconnected"@,
        }
    }

    /// The text a user is shown for this error.
    pub fn message(&self) -> (s: String)
        ensures
            s@ == self.spec_message(),
    {
        match self {
            InMemoryTransportError::Full => "transport full".to_owned(),
            InMemoryTransportError::Empty => "transport empty".to_owned(),
            InMemoryTransportError::Disconnected => "transport disconnected".to_owned(),
        }
    }
}

/// What an in-memory transport holds: the queued frames, oldest first, its
/// two limits, and whether it is disconnected.
pub ghost struct TransportState {
    pub frames: Seq<Seq<u8>>,
    pub max_frames: nat,
    pub max_frame_size: nat,
    pub disconnected: bool,
}

/// The outcome of sending `frame` in state `s`: the next state and the result.
pub open spec fn spec_send(s: TransportState, frame: Seq<u8>) -> (TransportState, Result<(), InMemoryTransportError>) {
    if s.disconnected {
        (s, Err(InMemoryTransportError::Disconnected))
    } else if frame.len() > s.max_frame_size {
        (s, Err(InMemoryTransportError::Full))
    } else if s.frames.len() >= s.max_frames {
        (s, Err(InMemoryTransportError::Full))
    } else {
        (TransportState { frames: s.frames.push(frame), ..s }, Ok(()))
    }
}

/// The outcome of receiving into a buffer of `buffer_len` bytes in state `s`:
/// the next state and either the frame that was delivered or the error.
pub open spec fn spec_receive(s: TransportState, buffer_len: nat) -> (TransportState, Result<Seq<u8>, InMemoryTransportError>) {
    if s.disconnected {
        (s, Err(InMemoryTransportError::Disconnected))
    } else if s.frames.len() == 0 {
        (s, Err(InMemoryTransportError::Empty))
    } else if buffer_len < s.frames[0].len() {
        (s, Err(InMemoryTransportError::Full))
    } else {
        (TransportState { frames: s.frames.drop_first(), ..s }, Ok(s.frames[0]))
    }
}

/// The frame sequence with the first byte of the oldest frame inverted.
pub open spec fn spec_corrupt_first(frames: Seq<Seq<u8>>) -> Seq<Seq<u8>> {
    if frames.len() > 0 && frames[0].len() > 0 {
        frames.update(0, frames[0].update(0, frames[0][0] ^ 0xFFu8))
    } else {
        frames
    }
}

/// In-memory transport for tests and the simulator: a bounded FIFO of frames
/// with fault injection (disconnection and corruption of the next frame).
#[derive(Debug, Default)]
pub struct InMemoryTransport {
    queue: Vec<Vec<u8>>,
    max_frames: usize,
    max_frame_size: usize,
    disconnected: bool,
}

impl View for InMemoryTransport {
    type V = TransportState;

    closed spec fn view(&self) -> TransportState {
        TransportState {
            frames: self.queue@.map_values(|f: Vec<u8>| f@),
            max_frames: self.max_frames as nat,
            max_frame_size: self.max_frame_size as nat,
            disconnected: self.disconnected,
        }
    }
}

impl InMemoryTransport {
    /// A connected, empty transport; a limit of 0 stands for the default
    /// (16 frames, 1200 bytes per frame).
    pub fn new(max_frames: usize, max_frame_size: usize) -> (t: Self)
        ensures
            t@.frames.len() == 0,
            !t@.disconnected,
            t@.max_frames == (if max_frames == 0 { 16 } else { max_frames as nat }),
            t@.max_frame_size == (if max_frame_size == 0 { 1200 } else { max_frame_size as nat }),
    {
        let t = InMemoryTransport {
            queue: Vec::new(),
            max_frames: if max_frames == 0 { 16 } else { max_frames },
            max_frame_size: if max_frame_size == 0 { 1200 } else { max_frame_size },
            disconnected: false,
        };
        assert(t@.frames =~= Seq::<Seq<u8>>::empty());
        t
    }

    pub fn len(&self) -> (n: usize)
        ensures
            n == self@.frames.len(),
    {
        self.queue.len()
    }

    pub fn is_empty(&self) -> (b: bool)
        ensures
            b == (self@.frames.len() == 0),
    {
        self.queue.len() == 0
    }

    pub fn disconnect(&mut self)
        ensures
            final(self)@ == (TransportState { disconnected: true, ..old(self)@ }),
    {
        self.disconnected = true;
        assert(self@.frames =~= old(self)@.frames);
    }

    pub fn reconnect(&mut self)
        ensures
            final(self)@ == (TransportState { disconnected: false, ..old(self)@ }),
    {
        self.disconnected = false;
        assert(self@.frames =~= old(self)@.frames);
    }

    /// Inverts every bit of the first byte of the oldest queued frame, if any.
    pub fn corrupt_next(&mut self)
        ensures
            final(self)@ == (TransportState { frames: spec_corrupt_first(old(self)@.frames), ..old(self)@ }),
    {
        if self.queue.len() > 0 && self.queue[0].len() > 0 {
            let ghost before = self.queue@;
            let mut frame = self.queue.remove(0);
            let b = frame[0];
            frame.set(0, b ^ 0xFF);
            self.queue.insert(0, frame);
            assert(self.queue@ =~= before.update(0, frame));
            assert(self@.frames =~= spec_corrupt_first(old(self)@.frames));
        } else {
            assert(self@.frames =~= spec_corrupt_first(old(self)@.frames));
        }
    }

    pub fn clear_queue(&mut self)
        ensures
            final(self)@ == (TransportState { frames: Seq::empty(), ..old(self)@ }),
    {
        self.queue.clear();
        assert(self@.frames =~= Seq::<Seq<u8>>::empty());
    }
}

impl Transport for InMemoryTransport {
    type Error = InMemoryTransportError;

    fn send(&mut self, frame: &[u8]) -> (r: Result<(), InMemoryTransportError>)
        ensures
            (final(self)@, r) == spec_send(old(self)@, frame@),
    {
        if self.disconnected {
            return Err(InMemoryTransportError::Disconnected);
        }
        if frame.len() > self.max_frame_size {
            return Err(InMemoryTransportError::Full);
        }
        if self.queue.len() >= self.max_frames {
            return Err(InMemoryTransportError::Full);
        }
        let v = vstd::slice::slice_to_vec(frame);
        self.queue.push(v);
        assert(self@.frames =~= old(self)@.frames.push(frame@));
        Ok(())
    }

    fn receive(&mut self, buffer: &mut [u8]) -> (r: Result<usize, InMemoryTransportError>)
        ensures
            ({
                let (s, out) = spec_receive(old(self)@, old(buffer)@.len());
                &&& final(self)@ == s
                &&& match out {
                    Ok(frame) => r == Ok::<usize, InMemoryTransportError>(frame.len() as usize)
                        && final(buffer)@ == frame + old(buffer)@.skip(frame.len() as int),
                    Err(e) => r == Err::<usize, InMemoryTransportError>(e) && final(buffer)@ == old(buffer)@,
                }
            }),
    {
        if self.disconnected {
            return Err(InMemoryTransportError::Disconnected);
        }
        if self.queue.len() == 0 {
            return Err(InMemoryTransportError::Empty);
        }
        if buffer.len() < self.queue[0].len() {
            return Err(InMemoryTransportError::Full);
        }
        let frame = self.queue.remove(0);
        let len = frame.len();
        copy_prefix(buffer, &frame);
        assert(self@.frames =~= old(self)@.frames.drop_first());
        Ok(len)
    }
}

/// Copies `src` over the first `src.len()` bytes of `dst`.
fn copy_prefix(dst: &mut [u8], src: &Vec<u8>)
    requires
        src.len() <= old(dst)@.len(),
    ensures
        final(dst)@ == src@ + old(dst)@.skip(src@.len() as int),
{
    let mut i: usize = 0;
    while i < src.len()
        invariant
            i <= src.len(),
            src.len() <= dst@.len(),
            dst@.len() == old(dst)@.len(),
            forall|j: int| 0 <= j < i ==> dst@[j] == src@[j],
            forall|j: int| i <= j < dst@.len() ==> dst@[j] == old(dst)@[j],
        decreases src.len() - i,
    {
        dst[i] = src[i];
        i = i + 1;
    }
    assert(dst@ =~= src@ + old(dst)@.skip(src@.len() as int));
}

/// A plain vector of frames is a transport too: it accepts every frame and
/// hands back the newest one first.
impl Transport for Vec<Vec<u8>> {
    type Error = InMemoryTransportError;

    fn send(&mut self, frame: &[u8]) -> (r: Result<(), InMemoryTransportError>)
        ensures
            r is Ok,
            final(self)@.map_values(|f: Vec<u8>| f@) == old(self)@.map_values(|f: Vec<u8>| f@).push(frame@),
    {
        let v = vstd::slice::slice_to_vec(frame);
        self.push(v);
        assert(self@.map_values(|f: Vec<u8>| f@) =~= old(self)@.map_values(|f: Vec<u8>| f@).push(frame@));
        Ok(())
    }

    fn receive(&mut self, buffer: &mut [u8]) -> (r: Result<usize, InMemoryTransportError>)
        ensures
            old(self)@.len() == 0 ==> r == Err::<usize, InMemoryTransportError>(InMemoryTransportError::Empty)
                && final(self)@ == old(self)@ && final(buffer)@ == old(buffer)@,
            old(self)@.len() > 0 && old(buffer)@.len() < old(self)@.last()@.len() ==> r
                == Err::<usize, InMemoryTransportError>(InMemoryTransportError::Full)
                && final(self)@ == old(self)@ && final(buffer)@ == old(buffer)@,
            old(self)@.len() > 0 && old(buffer)@.len() >= old(self)@.last()@.len() ==> r
                == Ok::<usize, InMemoryTransportError>(old(self)@.last()@.len() as usize)
                && final(self)@ == old(self)@.drop_last()
                && final(buffer)@ == old(self)@.last()@ + old(buffer)@.skip(old(self)@.last()@.len() as int),
    {
        match self.pop() {
            None => Err(InMemoryTransportError::Empty),
            Some(frame) => {
                if buffer.len() < frame.len() {
                    self.push(frame);
                    assert(self@ =~= old(self)@);
                    return Err(InMemoryTransportError::Full);
                }
                let len = frame.len();
                copy_prefix(buffer, &frame);
                Ok(len)
            }
        }
    }
}

/// The state after sending each of `fs` in turn.
pub open spec fn send_all(s: TransportState, fs: Seq<Seq<u8>>) -> TransportState
    decreases fs.len(),
{
    if fs.len() == 0 {
        s
    } else {
        send_all(spec_send(s, fs[0]).0, fs.drop_first())
    }
}

/// The frames delivered by `n` receives into buffers of `buffer_len` bytes,
/// stopping at the first refused receive.
pub open spec fn receive_all(s: TransportState, n: nat, buffer_len: nat) -> Seq<Seq<u8>>
    decreases n,
{
    if n == 0 {
        Seq::empty()
    } else {
        match spec_receive(s, buffer_len).1 {
            Ok(f) => seq![f] + receive_all(spec_receive(s, buffer_len).0, (n - 1) as nat, buffer_len),
            Err(_) => Seq::empty(),
        }
    }
}

proof fn lemma_send_all_appends(s: TransportState, fs: Seq<Seq<u8>>)
    requires
        !s.disconnected,
        s.frames.len() + fs.len() <= s.max_frames,
        forall|i: int| 0 <= i < fs.len() ==> #[trigger] fs[i].len() <= s.max_frame_size,
    ensures
        send_all(s, fs) == (TransportState { frames: s.frames + fs, ..s }),
    decreases fs.len(),
{
    if fs.len() == 0 {
        assert(s.frames + fs =~= s.frames);
    } else {
        let s1 = spec_send(s, fs[0]).0;
        let rest = fs.drop_first();
        assert forall|i: int| 0 <= i < rest.len() implies #[trigger] rest[i].len() <= s1.max_frame_size by {
            assert(rest[i] == fs[i + 1]);
        }
        lemma_send_all_appends(s1, rest);
        assert(s1.frames + rest =~= s.frames + fs);
    }
}

proof fn lemma_receive_all_drains(s: TransportState, buffer_len: nat)
    requires
        !s.disconnected,
        forall|i: int| 0 <= i < s.frames.len() ==> #[trigger] s.frames[i].len() <= buffer_len,
    ensures
        receive_all(s, s.frames.len(), buffer_len) == s.frames,
    decreases s.frames.len(),
{
    if s.frames.len() > 0 {
        let s1 = spec_receive(s, buffer_len).0;
        assert forall|i: int| 0 <= i < s1.frames.len() implies #[trigger] s1.frames[i].len() <= buffer_len by {
            assert(s1.frames[i] == s.frames[i + 1]);
        }
        lemma_receive_all_drains(s1, buffer_len);
        assert(seq![s.frames[0]] + s1.frames =~= s.frames);
    }
}

/// First in, first out: on a connected transport, frames sent within its
/// limits are received, by buffers large enough for each, after the frames
/// already queued and in the order in which they were sent.
pub proof fn law_transport_fifo(s: TransportState, fs: Seq<Seq<u8>>, buffer_len: nat)
    requires
        !s.disconnected,
        s.frames.len() + fs.len() <= s.max_frames,
        forall|i: int| 0 <= i < fs.len() ==> #[trigger] fs[i].len() <= s.max_frame_size,
        forall|i: int| 0 <= i < fs.len() ==> #[trigger] fs[i].len() <= buffer_len,
        forall|i: int| 0 <= i < s.frames.len() ==> #[trigger] s.frames[i].len() <= buffer_len,
    ensures
        send_all(s, fs).frames == s.frames + fs,
        receive_all(send_all(s, fs), (s.frames.len() + fs.len()) as nat, buffer_len) == s.frames + fs,
{
    lemma_send_all_appends(s, fs);
    let t = send_all(s, fs);
    assert forall|i: int| 0 <= i < t.frames.len() implies #[trigger] t.frames[i].len() <= buffer_len by {
        if i < s.frames.len() {
            assert(t.frames[i] == s.frames[i]);
        } else {
            assert(t.frames[i] == fs[i - s.frames.len()]);
        }
    }
    lemma_receive_all_drains(t, buffer_len);
}

/// A receive refused for want of room loses nothing: the frame stays first in
/// line and a large enough buffer then gets it.
pub proof fn law_refused_receive_keeps_frame(s: TransportState, small: nat, large: nat)
    requires
        !s.disconnected,
        s.frames.len() > 0,
        small < s.frames[0].len() <= large,
    ensures
        spec_receive(s, small) == (s, Err::<Seq<u8>, InMemoryTransportError>(InMemoryTransportError::Full)),
        spec_receive(spec_receive(s, small).0, large).1 == Ok::<Seq<u8>, InMemoryTransportError>(s.frames[0]),
{
}

/// While disconnected, every send and receive is refused with `Disconnected`
/// and changes nothing; reconnecting brings back the queue as it was.
pub proof fn law_disconnected_refuses(s: TransportState, frame: Seq<u8>, buffer_len: nat)
    requires
        s.disconnected,
    ensures
        spec_send(s, frame) == (s, Err::<(), InMemoryTransportError>(InMemoryTransportError::Disconnected)),
        spec_receive(s, buffer_len) == (s, Err::<Seq<u8>, InMemoryTransportError>(InMemoryTransportError::Disconnected)),
{
}

/// Corrupting the next frame twice restores it.
pub proof fn law_corrupt_twice_restores(frames: Seq<Seq<u8>>)
    ensures
        spec_corrupt_first(spec_corrupt_first(frames)) == frames,
{
    if frames.len() > 0 && frames[0].len() > 0 {
        let b = frames[0][0];
        assert((b ^ 0xFFu8) ^ 0xFFu8 == b) by (bit_vector);
        assert(spec_corrupt_first(spec_corrupt_first(frames))[0] =~= frames[0]);
        assert(spec_corrupt_first(spec_corrupt_first(frames)) =~= frames);
    }
}

} // verus!
