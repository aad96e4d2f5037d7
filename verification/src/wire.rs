//! Newline framing of the wire protocol: every stream starts with a header
//! line, `rpc` streams carry one request line and one response line, and the
//! header and request lines are capped at 1 MiB.
use vstd::prelude::*;

verus! {

/// The byte that ends a line.
pub const NEWLINE: u8 = 10;

/// Longest line (without its newline) that a reader accepts: 1 MiB.
pub const MAX_LINE: usize = 1048576;

/// What one byte does to a line being read.
pub enum LineEvent {
    /// The byte was kept; the line goes on.
    Pending,
    /// The byte was the newline: here is the line before it.
    Line(Vec<u8>),
    /// The line grew past `MAX_LINE` bytes.
    TooLong,
}

/// The same, over mathematical sequences.
pub enum LineStep {
    Pending,
    Line(Seq<u8>),
    TooLong,
}

impl LineEvent {
    pub open spec fn step(&self) -> LineStep {
        match self {
            LineEvent::Pending => LineStep::Pending,
            LineEvent::Line(l) => LineStep::Line(l@),
            LineEvent::TooLong => LineStep::TooLong,
        }
    }
}

/// One byte of reading: the line read so far and the byte give the new
/// line-so-far and what happened.
pub open spec fn step(pending: Seq<u8>, b: u8) -> (Seq<u8>, LineStep) {
    if b == NEWLINE {
        (Seq::empty(), LineStep::Line(pending))
    } else if pending.len() + 1 > MAX_LINE {
        (Seq::empty(), LineStep::TooLong)
    } else {
        (pending.push(b), LineStep::Pending)
    }
}

/// Reading `bytes` from the state `pending` up to the first line or the
/// first overlong one: the outcome (`None` while no line has ended) and how
/// many bytes were taken.
pub open spec fn scan(pending: Seq<u8>, bytes: Seq<u8>) -> (Option<LineStep>, nat)
    decreases bytes.len(),
{
    if bytes.len() == 0 {
        (None, 0)
    } else {
        let (next, ev) = step(pending, bytes[0]);
        match ev {
            LineStep::Pending => {
                let (r, n) = scan(next, bytes.drop_first());
                (r, n + 1)
            },
            _ => (Some(ev), 1),
        }
    }
}

/// `payload` followed by the newline.
pub open spec fn framed(payload: Seq<u8>) -> Seq<u8> {
    payload.push(NEWLINE)
}

/// A line that a reader gives back unchanged: no newline in it, not too long.
pub open spec fn is_line(payload: Seq<u8>) -> bool {
    &&& payload.len() <= MAX_LINE
    &&& forall|i: int| 0 <= i < payload.len() ==> payload[i] != NEWLINE
}

/// Reads newline-terminated lines one byte at a time.
pub struct LineReader {
    pending: Vec<u8>,
}

impl View for LineReader {
    type V = Seq<u8>;

    closed spec fn view(&self) -> Seq<u8> {
        self.pending@
    }
}

impl LineReader {
    /// The bytes of the line read so far are themselves a line in the making.
    #[verifier::type_invariant]
    closed spec fn inv(self) -> bool {
        is_line(self.pending@)
    }

    pub fn new() -> (r: LineReader)
        ensures
            r@ == Seq::<u8>::empty(),
    {
        LineReader { pending: Vec::new() }
    }

    /// Takes one byte. A newline hands back the line before it; a byte that
    /// would take the line past `MAX_LINE` bytes ends the read with
    /// `TooLong`.
    pub fn feed(&mut self, b: u8) -> (ev: LineEvent)
        ensures
            is_line(final(self)@),
            (final(self)@, ev.step()) == step(old(self)@, b),
    {
        let mut cur = LineReader { pending: Vec::new() };
        std::mem::swap(self, &mut cur);
        proof {
            use_type_invariant(&cur);
        }
        let LineReader { pending: mut line } = cur;
        if b == NEWLINE {
            LineEvent::Line(line)
        } else if line.len() >= MAX_LINE {
            LineEvent::TooLong
        } else {
            line.push(b);
            *self = LineReader { pending: line };
            LineEvent::Pending
        }
    }
}

/// `payload` with the newline that ends it on the wire.
pub fn frame_line(payload: &[u8]) -> (r: Vec<u8>)
    ensures
        r@ == framed(payload@),
{
    let mut r: Vec<u8> = Vec::new();
    let mut i: usize = 0;
    while i < payload.len()
        invariant
            i <= payload@.len(),
            r@ == payload@.take(i as int),
        decreases payload@.len() - i,
    {
        r.push(payload[i]);
        i = i + 1;
        assert(r@ =~= payload@.take(i as int));
    }
    r.push(NEWLINE);
    assert(r@ =~= framed(payload@));
    r
}

/// Every line a reader hands back is a line: no newline in it, at most
/// `MAX_LINE` bytes.
pub proof fn lemma_step_keeps_lines(pending: Seq<u8>, b: u8)
    requires
        is_line(pending),
    ensures
        is_line(step(pending, b).0),
        step(pending, b).1 matches LineStep::Line(l) ==> is_line(l),
{
}

proof fn lemma_scan_line(pending: Seq<u8>, rest: Seq<u8>)
    requires
        is_line(pending + rest),
    ensures
        scan(pending, framed(rest)) == (Some(LineStep::Line(pending + rest)), rest.len() + 1),
    decreases rest.len(),
{
    if rest.len() == 0 {
        assert(framed(rest)[0] == NEWLINE);
        assert(pending + rest =~= pending);
    } else {
        let b = rest[0];
        assert(framed(rest)[0] == b);
        assert((pending + rest)[pending.len() as int] == b);
        assert(pending.len() + 1 <= (pending + rest).len());
        assert(framed(rest).drop_first() =~= framed(rest.drop_first()));
        assert(pending.push(b) + rest.drop_first() =~= pending + rest);
        lemma_scan_line(pending.push(b), rest.drop_first());
    }
}

/// What a read gives back of a write: a fresh reader fed a framed line hands
/// back exactly that line, after taking exactly its bytes.
pub proof fn law_read_gives_back_framed_line(payload: Seq<u8>)
    requires
        is_line(payload),
    ensures
        scan(Seq::empty(), framed(payload)) == (
            Some(LineStep::Line(payload)),
            payload.len() + 1,
        ),
{
    assert(Seq::<u8>::empty() + payload =~= payload);
    lemma_scan_line(Seq::empty(), payload);
}

/// A line longer than `MAX_LINE` bytes is never handed back: the reader
/// stops with `TooLong` once it has taken `MAX_LINE + 1` of its bytes.
pub proof fn law_overlong_line_refused(bytes: Seq<u8>)
    requires
        bytes.len() > MAX_LINE,
        forall|i: int| 0 <= i <= MAX_LINE ==> bytes[i] != NEWLINE,
    ensures
        scan(Seq::empty(), bytes) == (Some(LineStep::TooLong), (MAX_LINE + 1) as nat),
{
    lemma_scan_overlong(Seq::empty(), bytes);
}

proof fn lemma_scan_overlong(pending: Seq<u8>, bytes: Seq<u8>)
    requires
        pending.len() <= MAX_LINE,
        pending.len() + bytes.len() > MAX_LINE,
        forall|i: int| 0 <= i < bytes.len() && pending.len() + i <= MAX_LINE ==> bytes[i] != NEWLINE,
    ensures
        scan(pending, bytes) == (Some(LineStep::TooLong), (MAX_LINE + 1 - pending.len()) as nat),
    decreases bytes.len(),
{
    assert(bytes[0] != NEWLINE);
    if pending.len() < MAX_LINE {
        let rest = bytes.drop_first();
        assert forall|i: int|
            0 <= i < rest.len() && pending.len() + 1 + i <= MAX_LINE implies rest[i] != NEWLINE by {
            assert(rest[i] == bytes[i + 1]);
        }
        lemma_scan_overlong(pending.push(bytes[0]), rest);
    }
}

} // verus!
