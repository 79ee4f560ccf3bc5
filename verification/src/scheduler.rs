use vstd::prelude::*;

use mio::net::TcpStream;

verus! {

/// `mio::net::TcpStream`, a non-blocking TCP stream, carried through as it is.
#[verifier::external_type_specification]
#[verifier::external_body]
pub struct ExTcpStream(TcpStream);

/// The pairs of streams that the front end relays between: each pair is the
/// client's stream and the relay server's.
pub struct Scheduler {
    pairs: Vec<(TcpStream, TcpStream)>,
}

impl View for Scheduler {
    type V = Seq<(TcpStream, TcpStream)>;

    closed spec fn view(&self) -> Seq<(TcpStream, TcpStream)> {
        self.pairs@
    }
}

impl Scheduler {
    /// A scheduler with no pairs.
    pub fn new() -> (s: Self)
        ensures
            s@ == Seq::<(TcpStream, TcpStream)>::empty(),
    {
        Scheduler { pairs: Vec::new() }
    }

    /// Adds the pair of a client's stream and the relay server's stream last.
    pub fn append(&mut self, proxy: TcpStream, remote: TcpStream)
        ensures
            final(self)@ == old(self)@.push((proxy, remote)),
    {
        self.pairs.push((proxy, remote));
    }

    /// Takes a turn over the pairs; no pair is added, dropped or moved.
    pub fn schedule(&mut self)
        ensures
            final(self)@ == old(self)@,
    {
    }
}

/// Which of the two streams to serve first: always the client's, token 0.
pub fn which_is_ready(proxy: &mut TcpStream, remote: &mut TcpStream) -> (token: usize)
    ensures
        token == 0,
        *final(proxy) == *old(proxy),
        *final(remote) == *old(remote),
{
    0
}

/// The token after `token`.
pub fn next_token(token: usize) -> (next: usize)
    requires
        token < usize::MAX,
    ensures
        next == token + 1,
{
    token + 1
}

/// Whether `token` is among the tokens of the events that a poll returned.
pub fn is_token_ready(ready: &[usize], token: usize) -> (found: bool)
    ensures
        found == ready@.contains(token),
{
    let mut i: usize = 0;
    while i < ready.len()
        invariant
            i <= ready@.len(),
            forall|j: int| 0 <= j < i ==> ready@[j] != token,
        decreases ready@.len() - i,
    {
        if ready[i] == token {
            assert(ready@[i as int] == token);
            return true;
        }
        i = i + 1;
    }
    false
}

} // verus!
