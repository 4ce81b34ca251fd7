use vstd::prelude::*;
use crate::number::{
    all_digits, collect_byte, collect_spec, ProtocolError, MAX_DIGITS,
};
use crate::prime::{is_prime, is_prime_spec};
use crate::protocol::{is_command, is_end, is_start, transform, transform_spec, END_MARKER,
    HANDSHAKE, PRIME_CMD, START_MARKER};

verus! {

/// Where a connection stands in the protocol.
#[derive(Clone, Copy, Debug, PartialEq, Eq, Structural)]
pub enum ProtocolState {
    /// Just accepted: the handshake byte has not been sent yet.
    HandshakePending,
    /// Handshake sent: bytes are ignored until a start marker.
    AwaitingStart,
    /// Inside a message: data bytes are echoed transformed.
    InMessage,
}

/// What the connection owes its client after one byte.
#[derive(Clone, Copy, Debug, PartialEq, Eq, Structural)]
pub enum Action {
    /// Nothing to send.
    Nothing,
    /// Send this one byte.
    Emit(u8),
    /// The command sub-protocol collected this number: test it and send the verdict line.
    CheckPrime(u64),
}

/// The abstract value of a connection: its state, and the digits of the number being
/// collected while the command sub-protocol is under way.
pub struct ConnModel {
    pub state: ProtocolState,
    pub pending: Option<Seq<u8>>,
}

/// One connection's protocol state, owned by whoever serves that connection.
pub struct Connection {
    state: ProtocolState,
    pending: Option<Vec<u8>>,
}

/// The reply to a primality test: the ASCII word `prime` or `composite`, then a newline.
pub open spec fn verdict_spec(prime: bool) -> Seq<u8> {
    if prime {
        seq![112u8, 114, 105, 109, 101, 10]
    } else {
        seq![99u8, 111, 109, 112, 111, 115, 105, 116, 101, 10]
    }
}

/// The bytes that an action puts on the wire.
pub open spec fn action_bytes(a: Action) -> Seq<u8> {
    match a {
        Action::Nothing => Seq::empty(),
        Action::Emit(b) => seq![b],
        Action::CheckPrime(n) => verdict_spec(is_prime_spec(n as nat)),
    }
}

/// One byte read from the client, taken by a connection whose handshake has been sent.
pub open spec fn step_spec(m: ConnModel, b: u8) -> (ConnModel, Result<Action, ProtocolError>) {
    match m.pending {
        Some(digits) => {
            let (d, r) = collect_spec(digits, b);
            match r {
                Ok(Some(n)) => (
                    ConnModel { state: ProtocolState::AwaitingStart, pending: None },
                    Ok(Action::CheckPrime(n)),
                ),
                Ok(None) => (ConnModel { state: m.state, pending: Some(d) }, Ok(Action::Nothing)),
                Err(e) => (m, Err(e)),
            }
        },
        None => match m.state {
            ProtocolState::InMessage => if b == END_MARKER {
                (ConnModel { state: ProtocolState::AwaitingStart, pending: None }, Ok(Action::Nothing))
            } else if b == PRIME_CMD {
                (ConnModel { state: ProtocolState::InMessage, pending: Some(Seq::empty()) }, Ok(Action::Nothing))
            } else {
                (m, Ok(Action::Emit(transform_spec(b))))
            },
            _ => if b == START_MARKER {
                (ConnModel { state: ProtocolState::InMessage, pending: None }, Ok(Action::Nothing))
            } else {
                (m, Ok(Action::Nothing))
            },
        },
    }
}

/// What a run of bytes leaves behind: the connection's model, every byte sent, and the
/// error that ended the connection, if one did.
pub struct RunOutcome {
    pub model: ConnModel,
    pub output: Seq<u8>,
    pub error: Option<ProtocolError>,
}

/// Feeds `input` byte by byte, in order, stopping at the first error.
pub open spec fn run_spec(m: ConnModel, input: Seq<u8>) -> RunOutcome
    decreases input.len(),
{
    if input.len() == 0 {
        RunOutcome { model: m, output: Seq::empty(), error: None }
    } else {
        let prev = run_spec(m, input.drop_last());
        if prev.error.is_some() {
            prev
        } else {
            let (m2, r) = step_spec(prev.model, input.last());
            match r {
                Ok(a) => RunOutcome { model: m2, output: prev.output + action_bytes(a), error: None },
                Err(e) => RunOutcome { model: m2, output: prev.output, error: Some(e) },
            }
        }
    }
}

/// The model of a connection whose handshake has just been sent.
pub open spec fn fresh_model() -> ConnModel {
    ConnModel { state: ProtocolState::AwaitingStart, pending: None }
}

/// Everything a client that sends `input` receives: the handshake byte, then the
/// replies to its bytes.
pub open spec fn session_output(input: Seq<u8>) -> Seq<u8> {
    seq![HANDSHAKE] + run_spec(fresh_model(), input).output
}

/// What the end of the stream means for a connection: an error while a number is
/// still being collected, nothing otherwise.
pub open spec fn end_of_stream_spec(m: ConnModel) -> Option<ProtocolError> {
    if m.pending.is_some() {
        Some(ProtocolError::UnexpectedEnd)
    } else {
        None
    }
}

/// The error that ends the session of a client that sends `input` and then closes, if any.
pub open spec fn session_error(input: Seq<u8>) -> Option<ProtocolError> {
    let r = run_spec(fresh_model(), input);
    if r.error.is_some() {
        r.error
    } else {
        end_of_stream_spec(r.model)
    }
}

/// Builds the verdict line for a primality result.
pub fn verdict_line(prime: bool) -> (r: Vec<u8>)
    ensures
        r@ == verdict_spec(prime),
{
    let r = if prime {
        vec![112u8, 114, 105, 109, 101, 10]
    } else {
        vec![99u8, 111, 109, 112, 111, 115, 105, 116, 101, 10]
    };
    assert(r@ =~= verdict_spec(prime));
    r
}

/// Carries out an action in place: the bytes it sends, with the primality test run inline.
pub fn action_reply(a: Action) -> (r: Vec<u8>)
    ensures
        r@ == action_bytes(a),
{
    match a {
        Action::Nothing => Vec::new(),
        Action::Emit(b) => {
            let r = vec![b];
            assert(r@ =~= seq![b]);
            r
        },
        Action::CheckPrime(n) => verdict_line(is_prime(n)),
    }
}

impl View for Connection {
    type V = ConnModel;

    closed spec fn view(&self) -> ConnModel {
        ConnModel {
            state: self.state,
            pending: match self.pending {
                Some(v) => Some(v@),
                None => None,
            },
        }
    }
}

/// A model that the connection can be in: digits are collected only inside a message,
/// and never more than `MAX_DIGITS` of them.
pub open spec fn model_wf(m: ConnModel) -> bool {
    match m.pending {
        Some(d) => m.state == ProtocolState::InMessage && all_digits(d) && d.len() <= MAX_DIGITS,
        None => true,
    }
}

impl Connection {
    pub open spec fn wf(&self) -> bool {
        model_wf(self@)
    }

    /// A connection just accepted.
    pub fn new() -> (r: Connection)
        ensures
            r.wf(),
            r@.state == ProtocolState::HandshakePending,
            r@.pending.is_none(),
    {
        Connection { state: ProtocolState::HandshakePending, pending: None }
    }

    /// The connection's protocol state.
    pub fn state(&self) -> (r: ProtocolState)
        ensures
            r == self@.state,
    {
        self.state
    }

    /// True while a number of the command sub-protocol is being collected.
    pub fn collecting(&self) -> (r: bool)
        ensures
            r == self@.pending.is_some(),
    {
        self.pending.is_some()
    }

    /// The handshake byte, the first time only; afterwards `None`.
    pub fn handshake(&mut self) -> (r: Option<u8>)
        requires
            old(self).wf(),
        ensures
            final(self).wf(),
            old(self)@.state == ProtocolState::HandshakePending ==> r == Some(HANDSHAKE)
                && final(self)@ == fresh_model(),
            old(self)@.state != ProtocolState::HandshakePending ==> r.is_none()
                && final(self)@ == old(self)@,
    {
        match self.state {
            ProtocolState::HandshakePending => {
                self.state = ProtocolState::AwaitingStart;
                self.pending = None;
                Some(HANDSHAKE)
            },
            _ => None,
        }
    }

    /// The client closed the stream: an error if it did so in the middle of a number.
    pub fn end_of_stream(&self) -> (r: Result<(), ProtocolError>)
        ensures
            r == (match end_of_stream_spec(self@) {
                Some(e) => Err(e),
                None => Ok(()),
            }),
    {
        if self.pending.is_some() {
            Err(ProtocolError::UnexpectedEnd)
        } else {
            Ok(())
        }
    }

    /// Takes one byte read from the client and says what to send back.
    pub fn process_byte(&mut self, b: u8) -> (r: Result<Action, ProtocolError>)
        requires
            old(self).wf(),
            old(self)@.state != ProtocolState::HandshakePending,
        ensures
            final(self).wf(),
            final(self)@.state != ProtocolState::HandshakePending,
            (final(self)@, r) == step_spec(old(self)@, b),
    {
        if self.pending.is_some() {
            let mut digits = self.pending.take().unwrap();
            let r = collect_byte(&mut digits, b);
            match r {
                Ok(Some(n)) => {
                    self.state = ProtocolState::AwaitingStart;
                    Ok(Action::CheckPrime(n))
                },
                Ok(None) => {
                    self.pending = Some(digits);
                    Ok(Action::Nothing)
                },
                Err(e) => {
                    self.pending = Some(digits);
                    Err(e)
                },
            }
        } else {
            match self.state {
                ProtocolState::InMessage => {
                    if is_end(b) {
                        self.state = ProtocolState::AwaitingStart;
                        Ok(Action::Nothing)
                    } else if is_command(b) {
                        self.pending = Some(Vec::new());
                        assert(self@.pending == Some(Seq::<u8>::empty()));
                        Ok(Action::Nothing)
                    } else {
                        Ok(Action::Emit(transform(b)))
                    }
                },
                _ => {
                    if is_start(b) {
                        self.state = ProtocolState::InMessage;
                    }
                    Ok(Action::Nothing)
                },
            }
        }
    }

    /// Takes the bytes of one read, in order, and appends what to send back to `out`,
    /// running each primality test inline. Stops at the first protocol error.
    pub fn process_chunk(&mut self, input: &[u8], out: &mut Vec<u8>) -> (r: Result<(), ProtocolError>)
        requires
            old(self).wf(),
            old(self)@.state != ProtocolState::HandshakePending,
        ensures
            final(self).wf(),
            final(self)@.state != ProtocolState::HandshakePending,
            final(self)@ == run_spec(old(self)@, input@).model,
            final(out)@ == old(out)@ + run_spec(old(self)@, input@).output,
            r == (match run_spec(old(self)@, input@).error {
                Some(e) => Err(e),
                None => Ok(()),
            }),
    {
        let ghost m0 = self@;
        let ghost out0 = out@;
        let mut i: usize = 0;
        while i < input.len()
            invariant
                i <= input@.len(),
                m0 == old(self)@,
                out0 == old(out)@,
                self.wf(),
                self@.state != ProtocolState::HandshakePending,
                run_spec(m0, input@.take(i as int)).error.is_none(),
                self@ == run_spec(m0, input@.take(i as int)).model,
                out@ == out0 + run_spec(m0, input@.take(i as int)).output,
            decreases input@.len() - i,
        {
            assert(input@.take(i as int + 1).drop_last() =~= input@.take(i as int));
            assert(input@.take(i as int + 1).last() == input@[i as int]);
            let r = self.process_byte(input[i]);
            match r {
                Ok(a) => {
                    let bytes = action_reply(a);
                    let mut j: usize = 0;
                    let ghost before = out@;
                    while j < bytes.len()
                        invariant
                            j <= bytes@.len(),
                            out@ == before + bytes@.take(j as int),
                        decreases bytes@.len() - j,
                    {
                        out.push(bytes[j]);
                        assert(bytes@.take(j as int + 1) =~= bytes@.take(j as int).push(bytes@[j as int]));
                        j = j + 1;
                    }
                    assert(bytes@.take(j as int) =~= bytes@);
                    assert(out@ =~= out0 + run_spec(m0, input@.take(i as int + 1)).output);
                },
                Err(e) => {
                    assert(run_spec(m0, input@.take(i as int + 1)).error == Some(e));
                    assert(run_spec(m0, input@.take(i as int + 1)).output == run_spec(m0, input@.take(i as int)).output);
                    proof {
                        lemma_error_persists(m0, input@, i as int + 1);
                    }
                    assert(input@.take(input@.len() as int) =~= input@);
                    return Err(e);
                },
            }
            i = i + 1;
        }
        assert(input@.take(i as int) =~= input@);
        Ok(())
    }
}

/// Once a run has failed, more input changes nothing.
proof fn lemma_error_persists(m: ConnModel, input: Seq<u8>, k: int)
    requires
        0 <= k <= input.len(),
        run_spec(m, input.take(k)).error.is_some(),
    ensures
        run_spec(m, input) == run_spec(m, input.take(k)),
    decreases input.len() - k,
{
    if k < input.len() {
        assert(input.take(k + 1).drop_last() =~= input.take(k));
        lemma_error_persists(m, input, k + 1);
    } else {
        assert(input.take(k) =~= input);
    }
}

/// A run continued with more input: nothing changes once it has failed.
pub open spec fn continue_run(first: RunOutcome, rest: Seq<u8>) -> RunOutcome {
    if first.error.is_some() {
        first
    } else {
        let r = run_spec(first.model, rest);
        RunOutcome { model: r.model, output: first.output + r.output, error: r.error }
    }
}

/// Read boundaries do not matter and order is kept: a connection fed `a` and then `b`
/// ends as if fed `a + b` at once, and what it sent for `a` comes first, unchanged.
pub proof fn lemma_run_split(m: ConnModel, a: Seq<u8>, b: Seq<u8>)
    ensures
        run_spec(m, a + b) == continue_run(run_spec(m, a), b),
        run_spec(m, a).output.is_prefix_of(run_spec(m, a + b).output),
    decreases b.len(),
{
    let first = run_spec(m, a);
    if b.len() == 0 {
        assert(a + b =~= a);
        assert(first.output + Seq::<u8>::empty() =~= first.output);
    } else {
        lemma_run_split(m, a, b.drop_last());
        assert((a + b).drop_last() =~= a + b.drop_last());
        assert((a + b).last() == b.last());
        if first.error.is_none() {
            let r = run_spec(first.model, b.drop_last());
            if r.error.is_none() {
                let (m2, x) = step_spec(r.model, b.last());
                match x {
                    Ok(act) => {
                        assert(first.output + (r.output + action_bytes(act)) =~= (first.output
                            + r.output) + action_bytes(act));
                    },
                    Err(_) => {},
                }
            }
        }
    }
    assert(run_spec(m, a).output.is_prefix_of(run_spec(m, a + b).output)) by {
        let whole = run_spec(m, a + b);
        if first.error.is_none() {
            let r = run_spec(first.model, b);
            assert(whole.output == first.output + r.output);
            assert(whole.output.subrange(0, first.output.len() as int) =~= first.output);
        } else {
            assert(whole.output.subrange(0, first.output.len() as int) =~= first.output);
        }
    }
}

/// Two connections served side by side, after a schedule of reads: each entry is one
/// read, taken by the first connection when its flag is `true`, by the second otherwise.
pub open spec fn run_two(m1: ConnModel, m2: ConnModel, reads: Seq<(bool, Seq<u8>)>) -> (
    RunOutcome,
    RunOutcome,
)
    decreases reads.len(),
{
    if reads.len() == 0 {
        (run_spec(m1, Seq::empty()), run_spec(m2, Seq::empty()))
    } else {
        let (a, b) = run_two(m1, m2, reads.drop_last());
        let (first, chunk) = reads.last();
        if first {
            (continue_run(a, chunk), b)
        } else {
            (a, continue_run(b, chunk))
        }
    }
}

/// Everything one of the two connections read, in order.
pub open spec fn input_of(reads: Seq<(bool, Seq<u8>)>, first: bool) -> Seq<u8>
    decreases reads.len(),
{
    if reads.len() == 0 {
        Seq::empty()
    } else if reads.last().0 == first {
        input_of(reads.drop_last(), first) + reads.last().1
    } else {
        input_of(reads.drop_last(), first)
    }
}

/// Connections do not disturb each other: however the reads of two connections are
/// interleaved, each ends exactly as if it had been served alone on its own input.
pub proof fn lemma_connections_independent(
    m1: ConnModel,
    m2: ConnModel,
    reads: Seq<(bool, Seq<u8>)>,
)
    ensures
        run_two(m1, m2, reads) == (run_spec(m1, input_of(reads, true)), run_spec(
            m2,
            input_of(reads, false),
        )),
    decreases reads.len(),
{
    if reads.len() > 0 {
        lemma_connections_independent(m1, m2, reads.drop_last());
        let (first, chunk) = reads.last();
        if first {
            lemma_run_split(m1, input_of(reads.drop_last(), true), chunk);
        } else {
            lemma_run_split(m2, input_of(reads.drop_last(), false), chunk);
        }
    }
}

/// Serves a whole connection whose client sends `input` and then closes: the bytes the
/// client receives, and the protocol error that ends the connection, if any.
pub fn serve_bytes(input: &[u8]) -> (r: (Vec<u8>, Result<(), ProtocolError>))
    ensures
        r.0@ == session_output(input@),
        r.1 == (match session_error(input@) {
            Some(e) => Err(e),
            None => Ok(()),
        }),
{
    let mut conn = Connection::new();
    let mut out: Vec<u8> = Vec::new();
    let h = conn.handshake();
    out.push(h.unwrap());
    let r = conn.process_chunk(input, &mut out);
    assert(out@ =~= session_output(input@));
    match r {
        Ok(()) => (out, conn.end_of_stream()),
        Err(e) => (out, Err(e)),
    }
}

} // verus!
