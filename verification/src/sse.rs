//! Server-sent event streams: readers that hand out a primed keep-alive
//! comment, then one frame per message received from a channel, and end
//! when every sender is gone.
use vstd::prelude::*;

verus! {

#[verifier::external_type_specification]
#[verifier::external_body]
#[verifier::reject_recursive_types(T)]
pub struct ExReceiver<T>(std::sync::mpsc::Receiver<T>);

#[verifier::external_type_specification]
#[verifier::external_body]
pub struct ExHeader(tiny_http::Header);

/// `Receiver::recv`: blocks for the next message; `None` once every sender
/// has been dropped.  What arrives, and whether anything does, depends on
/// the other threads, so nothing is stated of the result.
#[verifier::external_body]
fn recv_message<T>(rx: &std::sync::mpsc::Receiver<T>) -> Option<T> {
    rx.recv().ok()
}

/// The UTF-8 bytes of `s`.
fn bytes_of(s: &str) -> (r: Vec<u8>)
    ensures
        r@ == vstd::utf8::encode_utf8(s@),
{
    let b = s.as_bytes();
    let mut r: Vec<u8> = Vec::new();
    let mut i: usize = 0;
    while i < b.len()
        invariant
            i <= b.len(),
            r@ == b@.take(i as int),
        decreases b.len() - i,
    {
        r.push(b[i]);
        assert(r@ =~= b@.take(i + 1));
        i = i + 1;
    }
    assert(b@.take(b.len() as int) =~= b@);
    r
}

/// The bytes of `src` from `pos` that fit in `out`, copied to its front.
fn copy_front(src: &Vec<u8>, pos: usize, out: &mut [u8]) -> (n: usize)
    requires
        pos <= src@.len(),
    ensures
        n == (if old(out)@.len() <= src@.len() - pos { old(out)@.len() as int } else { src@.len() - pos }),
        final(out)@.len() == old(out)@.len(),
        final(out)@.take(n as int) == src@.skip(pos as int).take(n as int),
        final(out)@.skip(n as int) == old(out)@.skip(n as int),
{
    let len = src.len();
    let rest = len - pos;
    let n = if out.len() <= rest { out.len() } else { rest };
    let mut i: usize = 0;
    while i < n
        invariant
            len == src@.len(),
            i <= n <= out@.len(),
            pos + n <= src@.len(),
            out@.len() == old(out)@.len(),
            forall|j: int| 0 <= j < i ==> out@[j] == src@[pos + j],
            forall|j: int| i <= j < out@.len() ==> out@[j] == old(out)@[j],
        decreases n - i,
    {
        out[i] = src[pos + i];
        i = i + 1;
    }
    assert(out@.take(n as int) =~= src@.skip(pos as int).take(n as int));
    assert(out@.skip(n as int) =~= old(out)@.skip(n as int));
    n
}

/// What a read of `k` bytes does: the first `k` bytes of `data` land at the
/// front of the buffer, the rest of it is left as it was.
pub open spec fn copied(before: Seq<u8>, after: Seq<u8>, data: Seq<u8>, k: int) -> bool {
    &&& after.len() == before.len()
    &&& k == (if before.len() <= data.len() { before.len() as int } else { data.len() as int })
    &&& after.take(k) == data.take(k)
    &&& after.skip(k) == before.skip(k)
}

/// The keep-alive comment that opens a reload stream.
pub open spec fn reload_hello() -> Seq<u8> {
    vstd::utf8::encode_utf8(": weaveback-serve\n\n"@)
}

/// The frame sent on each reload signal.
pub open spec fn reload_frame() -> Seq<u8> {
    vstd::utf8::encode_utf8("event: reload\ndata:\n\n"@)
}

/// A reader of the live-reload event stream: one `reload` event per signal.
pub struct SseReader {
    rx: std::sync::mpsc::Receiver<()>,
    buf: Vec<u8>,
    pos: usize,
}

impl SseReader {
    #[verifier::type_invariant]
    spec fn inv(&self) -> bool {
        self.pos <= self.buf@.len()
    }

    /// The bytes not yet handed out of the current frame.
    pub closed spec fn pending(&self) -> Seq<u8> {
        self.buf@.skip(self.pos as int)
    }

    /// A reader whose stream opens with a keep-alive comment.
    pub fn new(rx: std::sync::mpsc::Receiver<()>) -> (s: Self)
        ensures
            s.pending() == reload_hello(),
    {
        let buf = bytes_of(": weaveback-serve\n\n");
        let s = SseReader { rx, buf, pos: 0 };
        assert(s.buf@.skip(0) =~= s.buf@);
        s
    }

    /// Hands out the rest of the current frame, as much as fits; once it is
    /// used up, waits for the next signal and goes on as [`Self::after_signal`]
    /// says for what arrived.
    pub fn read(&mut self, out: &mut [u8]) -> (r: std::io::Result<usize>)
        ensures
            r matches Ok(n) && {
                ||| old(self).pending().len() > 0 && copied(old(out)@, final(out)@, old(self).pending(), n as int)
                    && final(self).pending() == old(self).pending().skip(n as int)
                ||| old(self).pending().len() == 0 && n == 0 && final(out)@ == old(out)@
                ||| old(self).pending().len() == 0 && copied(old(out)@, final(out)@, reload_frame(), n as int)
                    && final(self).pending() == reload_frame().skip(n as int)
            },
    {
        proof { use_type_invariant(&*self); }
        if self.pos < self.buf.len() {
            let ghost p = self.buf@.skip(self.pos as int);
            let n = copy_front(&self.buf, self.pos, out);
            self.pos = self.pos + n;
            assert(self.buf@.skip(self.pos as int) =~= p.skip(n as int));
            return Ok(n);
        }
        assert(self.pending() =~= Seq::<u8>::empty());
        let got = recv_message(&self.rx);
        let n = self.after_signal(got, out);
        Ok(n)
    }

    /// What a read does once nothing is pending, given what the channel
    /// gave: a signal (`Some`) hands out the `reload` frame, as much as fits;
    /// a hang-up (`None`) ends the stream with 0 bytes.
    pub fn after_signal(&mut self, got: Option<()>, out: &mut [u8]) -> (n: usize)
        requires
            old(self).pending().len() == 0,
        ensures
            got is None ==> n == 0 && final(out)@ == old(out)@ && final(self).pending().len() == 0,
            got is Some ==> copied(old(out)@, final(out)@, reload_frame(), n as int) && final(self).pending()
                == reload_frame().skip(n as int),
    {
        proof { use_type_invariant(&*self); }
        match got {
            Some(_) => {
                let frame = bytes_of("event: reload\ndata:\n\n");
                let n = copy_front(&frame, 0, out);
                assert(frame@.skip(0) =~= frame@);
                self.pos = 0;
                self.buf = frame;
                self.pos = n;
                n
            },
            None => 0,
        }
    }
}

/// The keep-alive comment that opens an AI answer stream.
pub open spec fn ai_hello() -> Seq<u8> {
    vstd::utf8::encode_utf8(": weaveback-ai\n\n"@)
}

/// A reader of an AI answer stream: each message received is handed out as
/// it stands.
pub struct AiChannelReader {
    rx: std::sync::mpsc::Receiver<String>,
    buf: Vec<u8>,
    pos: usize,
}

impl AiChannelReader {
    #[verifier::type_invariant]
    spec fn inv(&self) -> bool {
        self.pos <= self.buf@.len()
    }

    /// The bytes not yet handed out of the current message.
    pub closed spec fn pending(&self) -> Seq<u8> {
        self.buf@.skip(self.pos as int)
    }

    /// A reader whose stream opens with a keep-alive comment.
    pub fn new(rx: std::sync::mpsc::Receiver<String>) -> (s: Self)
        ensures
            s.pending() == ai_hello(),
    {
        let buf = bytes_of(": weaveback-ai\n\n");
        let s = AiChannelReader { rx, buf, pos: 0 };
        assert(s.buf@.skip(0) =~= s.buf@);
        s
    }

    /// Hands out the rest of the current message, as much as fits; once it
    /// is used up, waits for messages and goes on as [`Self::after_message`]
    /// says for each, until one is handed out or every sender is gone. The
    /// wait gives up after 2^64 empty messages in a row, returning 0.
    pub fn read(&mut self, out: &mut [u8]) -> (r: std::io::Result<usize>)
        ensures
            r matches Ok(n) && {
                ||| old(self).pending().len() > 0 && copied(old(out)@, final(out)@, old(self).pending(), n as int)
                    && final(self).pending() == old(self).pending().skip(n as int)
                ||| old(self).pending().len() == 0 && n == 0 && final(out)@ == old(out)@
                ||| old(self).pending().len() == 0 && exists|m: Seq<u8>| m.len() > 0 && copied(old(out)@, final(out)@, m, n as int)
                    && final(self).pending() == m.skip(n as int)
            },
    {
        match self.hand_out_pending(out) {
            Some(n) => {
                return Ok(n);
            },
            None => {},
        }
        let mut budget: u64 = u64::MAX;
        while budget > 0
            invariant
                out@ == old(out)@,
                old(self).pending().len() == 0,
                self.pending().len() == 0,
            decreases budget,
        {
            let got = recv_message(&self.rx);
            let ghost g = got;
            match self.after_message(got, out) {
                Some(n) => {
                    proof {
                        if let Some(m) = g {
                            assert(copied(old(out)@, out@, vstd::utf8::encode_utf8(m@), n as int));
                        }
                    }
                    return Ok(n);
                },
                None => {},
            }
            budget = budget - 1;
        }
        Ok(0)
    }

    /// Hands out the rest of the current message, as much as fits, when
    /// there is any; `None` (and nothing changed) when nothing is pending.
    pub fn hand_out_pending(&mut self, out: &mut [u8]) -> (r: Option<usize>)
        ensures
            old(self).pending().len() > 0 ==> (r matches Some(n) && copied(old(out)@, final(out)@, old(self).pending(), n as int)
                && final(self).pending() == old(self).pending().skip(n as int)),
            old(self).pending().len() == 0 ==> r is None && final(out)@ == old(out)@ && final(self).pending().len() == 0,
    {
        proof { use_type_invariant(&*self); }
        if self.pos < self.buf.len() {
            let ghost p = self.buf@.skip(self.pos as int);
            let n = copy_front(&self.buf, self.pos, out);
            self.pos = self.pos + n;
            assert(self.buf@.skip(self.pos as int) =~= p.skip(n as int));
            Some(n)
        } else {
            assert(self.pending() =~= Seq::<u8>::empty());
            None
        }
    }

    /// Waits for the next message (`Receiver::recv`); `None` once every
    /// sender is gone.
    pub fn receive(&self) -> Option<String> {
        recv_message(&self.rx)
    }

    /// What a read does once nothing is pending, given what the channel
    /// gave: a hang-up (`None`) ends the stream with `Some(0)`; an empty
    /// message hands out nothing and asks to wait on (`None`); any other
    /// message becomes the pending bytes and is handed out as much as fits.
    pub fn after_message(&mut self, got: Option<String>, out: &mut [u8]) -> (r: Option<usize>)
        requires
            old(self).pending().len() == 0,
        ensures
            got is None ==> r == Some(0usize) && final(out)@ == old(out)@ && final(self).pending().len() == 0,
            got matches Some(m) ==> (vstd::utf8::encode_utf8(m@).len() == 0 ==> r is None && final(out)@ == old(out)@
                && final(self).pending().len() == 0),
            got matches Some(m) ==> (vstd::utf8::encode_utf8(m@).len() > 0 ==> (r matches Some(n) && copied(
                old(out)@,
                final(out)@,
                vstd::utf8::encode_utf8(m@),
                n as int,
            ) && final(self).pending() == vstd::utf8::encode_utf8(m@).skip(n as int))),
    {
        proof { use_type_invariant(&*self); }
        match got {
            None => Some(0),
            Some(msg) => {
                let frame = bytes_of(msg.as_str());
                if frame.len() > 0 {
                    let n = copy_front(&frame, 0, out);
                    assert(frame@.skip(0) =~= frame@);
                    self.pos = 0;
                    self.buf = frame;
                    self.pos = n;
                    Some(n)
                } else {
                    None
                }
            },
        }
    }
}

/// The response headers of an event stream.
pub open spec fn sse_header_pairs() -> Seq<(Seq<char>, Seq<char>)> {
    seq![
        ("Content-Type"@, "text/event-stream"@),
        ("Cache-Control"@, "no-cache"@),
        ("X-Accel-Buffering"@, "no"@),
        ("Access-Control-Allow-Origin"@, "*"@),
    ]
}

/// The header `field: value` as tiny_http builds it.
pub uninterp spec fn header_of(field: Seq<char>, value: Seq<char>) -> tiny_http::Header;

/// `tiny_http::Header::from_bytes`: the header when both texts are ASCII,
/// `None` otherwise.
#[verifier::external_body]
fn make_header(field: &str, value: &str) -> (r: Option<tiny_http::Header>)
    ensures
        r is Some <==> (vstd::string::is_ascii(field) && vstd::string::is_ascii(value)),
        r matches Some(h) ==> h == header_of(field@, value@),
{
    match tiny_http::Header::from_bytes(field, value) {
        Ok(h) => Some(h),
        Err(()) => None,
    }
}

/// The headers that mark a response as an uncached event stream, open to
/// any origin.
pub fn sse_headers() -> (r: Vec<tiny_http::Header>)
    ensures
        r@.len() == 4,
        forall|i: int| 0 <= i < 4 ==> r@[i] == header_of(#[trigger] sse_header_pairs()[i].0, sse_header_pairs()[i].1),
{
    let pairs: [(&str, &str); 4] = [
        ("Content-Type", "text/event-stream"),
        ("Cache-Control", "no-cache"),
        ("X-Accel-Buffering", "no"),
        ("Access-Control-Allow-Origin", "*"),
    ];
    proof {
        reveal_strlit("Content-Type");
        reveal_strlit("text/event-stream");
        reveal_strlit("Cache-Control");
        reveal_strlit("no-cache");
        reveal_strlit("X-Accel-Buffering");
        reveal_strlit("no");
        reveal_strlit("Access-Control-Allow-Origin");
        reveal_strlit("*");
    }
    let mut r: Vec<tiny_http::Header> = Vec::new();
    let mut i: usize = 0;
    while i < 4
        invariant
            i <= 4,
            r@.len() == i,
            forall|k: int| 0 <= k < 4 ==> (#[trigger] pairs@[k]).0@ == sse_header_pairs()[k].0 && pairs@[k].1@ == sse_header_pairs()[k].1,
            forall|k: int| 0 <= k < 4 ==> vstd::string::is_ascii((#[trigger] pairs@[k]).0) && vstd::string::is_ascii(pairs@[k].1),
            forall|k: int| 0 <= k < i ==> r@[k] == header_of(#[trigger] sse_header_pairs()[k].0, sse_header_pairs()[k].1),
        decreases 4 - i,
    {
        let (f, v) = pairs[i];
        match make_header(f, v) {
            Some(h) => r.push(h),
            None => {
                assert(false);
            },
        }
        i = i + 1;
    }
    r
}

} // verus!
