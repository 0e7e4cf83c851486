//! Echo wire framing: a response is the literal byte `(`, the connection's
//! tag, the literal byte `)`, then the received bytes, unchanged.

use vstd::prelude::*;

verus! {

/// Largest message a client may send in one read.
pub const MAX_MSG_LEN: usize = 120;

/// Largest tag a worker may carry (a decimal identity or a five-digit
/// code both fit).
pub const MAX_TAG_LEN: usize = 18;

/// Size of the reusable per-connection buffer: it accommodates the
/// largest echo response, a maximal message plus tag and parentheses.
pub const BUFFER_SIZE: usize = MAX_MSG_LEN + 2 + MAX_TAG_LEN;

/// The byte `(`.
pub const OPEN_PAREN: u8 = 40;

/// The byte `)`.
pub const CLOSE_PAREN: u8 = 41;

/// The bytes a worker writes back for a message `msg` on a connection
/// tagged `tag`: `(` + tag + `)` + msg.
pub open spec fn response_spec(tag: Seq<u8>, msg: Seq<u8>) -> Seq<u8> {
    seq![OPEN_PAREN] + tag + seq![CLOSE_PAREN] + msg
}

/// Build the echo response for one received message.
pub fn build_response(tag: &Vec<u8>, msg: &Vec<u8>) -> (r: Vec<u8>)
    ensures
        r@ == response_spec(tag@, msg@),
{
    let mut r: Vec<u8> = Vec::new();
    r.push(OPEN_PAREN);
    let mut i: usize = 0;
    while i < tag.len()
        invariant
            i <= tag@.len(),
            r@ == seq![OPEN_PAREN] + tag@.subrange(0, i as int),
        decreases tag@.len() - i,
    {
        r.push(tag[i]);
        i = i + 1;
        proof {
            assert(r@ =~= seq![OPEN_PAREN] + tag@.subrange(0, i as int));
        }
    }
    proof {
        assert(tag@.subrange(0, tag@.len() as int) =~= tag@);
    }
    r.push(CLOSE_PAREN);
    let mut j: usize = 0;
    while j < msg.len()
        invariant
            j <= msg@.len(),
            r@ == seq![OPEN_PAREN] + tag@ + seq![CLOSE_PAREN] + msg@.subrange(0, j as int),
        decreases msg@.len() - j,
    {
        r.push(msg[j]);
        j = j + 1;
        proof {
            assert(r@ =~= seq![OPEN_PAREN] + tag@ + seq![CLOSE_PAREN] + msg@.subrange(0, j as int));
        }
    }
    proof {
        assert(msg@.subrange(0, msg@.len() as int) =~= msg@);
        assert(r@ =~= response_spec(tag@, msg@));
    }
    r
}

/// What one wait on a connection produced, as its worker sees it.
pub enum ReadEvent {
    /// A zero-length read: the peer closed its write side.
    Closed,
    /// A successful read of these bytes.
    Data(Vec<u8>),
    /// The read failed, or the registry forced the transport shut.
    Failed,
    /// The cooperative select chose the shutdown notification over the
    /// read; shutdown takes precedence over any pending input.
    ShutdownNotified,
}

/// What the worker does next.
pub enum WorkerAction {
    /// Write these bytes back in full, then wait again.
    Respond(Vec<u8>),
    /// Deregister and exit; nothing more is sent.
    Finish,
}

/// One turn of the per-connection read-respond loop: received bytes are
/// answered with the tagged echo; end-of-stream, an error and a shutdown
/// notification all end the worker without a response.
pub fn worker_step(tag: &Vec<u8>, event: ReadEvent) -> (a: WorkerAction)
    ensures
        match event {
            ReadEvent::Data(m) => (a matches WorkerAction::Respond(r) && r@ == response_spec(
                tag@,
                m@,
            )),
            _ => a is Finish,
        },
{
    match event {
        ReadEvent::Data(m) => WorkerAction::Respond(build_response(tag, &m)),
        ReadEvent::Closed => WorkerAction::Finish,
        ReadEvent::Failed => WorkerAction::Finish,
        ReadEvent::ShutdownNotified => WorkerAction::Finish,
    }
}

/// A tag with no closing parenthesis in it; decimal tags never have one.
pub open spec fn unambiguous_tag(tag: Seq<u8>) -> bool {
    forall|i: int| 0 <= i < tag.len() ==> tag[i] != CLOSE_PAREN
}

/// A tag of ASCII digits is unambiguous: no digit is a parenthesis.
pub proof fn lemma_digit_tag_unambiguous(tag: Seq<u8>)
    requires
        forall|i: int| 0 <= i < tag.len() ==> 48 <= #[trigger] tag[i] <= 57,
    ensures
        unambiguous_tag(tag),
{
}

/// The reusable buffer accommodates the largest response: for a message
/// and tag within their bounds, the echo never outgrows `BUFFER_SIZE`.
pub proof fn lemma_buffer_accommodates(tag: Seq<u8>, msg: Seq<u8>)
    requires
        tag.len() <= MAX_TAG_LEN,
        msg.len() <= MAX_MSG_LEN,
    ensures
        response_spec(tag, msg).len() <= BUFFER_SIZE,
{
}

/// Isolation of the framing: a response determines its tag and its
/// payload, so no connection's reply can read as another connection's
/// reply — equal responses mean the same tag and the same bytes.
pub proof fn lemma_response_isolation(t1: Seq<u8>, m1: Seq<u8>, t2: Seq<u8>, m2: Seq<u8>)
    requires
        unambiguous_tag(t1),
        unambiguous_tag(t2),
        response_spec(t1, m1) == response_spec(t2, m2),
    ensures
        t1 == t2,
        m1 == m2,
{
    let r1 = response_spec(t1, m1);
    let r2 = response_spec(t2, m2);
    let n1 = t1.len() as int;
    let n2 = t2.len() as int;
    assert(r1[n1 + 1] == CLOSE_PAREN);
    assert(r2[n2 + 1] == CLOSE_PAREN);
    assert forall|i: int| 1 <= i <= n1 implies r1[i] != CLOSE_PAREN by {
        assert(r1[i] == t1[i - 1]);
    }
    assert forall|i: int| 1 <= i <= n2 implies r2[i] != CLOSE_PAREN by {
        assert(r2[i] == t2[i - 1]);
    }
    if n1 < n2 {
        assert(r2[n1 + 1] != CLOSE_PAREN);
        assert(false);
    }
    if n2 < n1 {
        assert(r1[n2 + 1] != CLOSE_PAREN);
        assert(false);
    }
    assert forall|i: int| 0 <= i < n1 implies t1[i] == t2[i] by {
        assert(r1[i + 1] == t1[i]);
        assert(r2[i + 1] == t2[i]);
    }
    assert(t1 =~= t2);
    assert(r1.len() == 2 + n1 + m1.len());
    assert(r2.len() == 2 + n2 + m2.len());
    assert(m1.len() == m2.len());
    assert forall|j: int| 0 <= j < m1.len() implies m1[j] == m2[j] by {
        assert(r1[n1 + 2 + j] == m1[j]);
        assert(r2[n2 + 2 + j] == m2[j]);
    }
    assert(m1 =~= m2);
}

} // verus!
