use vstd::prelude::*;
use crate::error::SBError;

verus! {

/// Where a client's connection attempt stands.
#[derive(Debug, Clone, Copy, PartialEq, Eq, Structural)]
pub enum ClientPhase {
    /// Waiting for the user to confirm the server's host key.
    VerifyingHostKey,
    /// Waiting for the candidate identities to be resolved.
    ResolvingCandidates,
    /// An attempt is in flight: `tried` candidates of `candidates` have been
    /// handed out, in order.
    Authenticating { candidates: usize, tried: usize },
    /// Authenticated; waiting for the one channel to open.
    OpeningChannel,
    /// The channel is open and the clipboard is synchronised over it.
    Syncing,
    /// The attempt ended with this error.
    Aborted(SBError),
}

/// What the driver of a connection reports to the client.
#[derive(Debug, Clone, Copy, PartialEq, Eq, Structural)]
pub enum ClientEvent {
    /// The user's answer on the host key; `None` when no prompt could be
    /// shown.
    HostKeyAnswer(Option<bool>),
    /// The number of candidate identities: the one named by the host's
    /// configuration, or those the key agent lists.
    CandidatesResolved(usize),
    /// The outcome of the attempt in flight: `true` when the server accepted
    /// the identity (an I/O error counts as a refusal).
    AttemptFinished(bool),
    /// The channel is open.
    ChannelOpened,
}

/// What the client asks its driver to do next.
#[derive(Debug, Clone, Copy, PartialEq, Eq, Structural)]
pub enum ClientAction {
    /// Resolve the candidate identities.
    ResolveCandidates,
    /// Authenticate with the candidate at this position, handing it the key
    /// agent.
    Attempt(usize),
    /// Open the one channel of the connection.
    OpenChannel,
    /// Start the clipboard sync loop on the open channel.
    StartSync,
    /// Give up the connection attempt with this error.
    Abort(SBError),
    /// Nothing to do: the event does not apply in this phase.
    Idle,
}

/// The phase and the request that follow an event.
pub open spec fn client_step(p: ClientPhase, e: ClientEvent) -> (ClientPhase, ClientAction) {
    match p {
        ClientPhase::VerifyingHostKey => match e {
            ClientEvent::HostKeyAnswer(None) => (
                ClientPhase::Aborted(SBError::ConfigurationError),
                ClientAction::Abort(SBError::ConfigurationError),
            ),
            ClientEvent::HostKeyAnswer(Some(false)) => (
                ClientPhase::Aborted(SBError::AuthenticationRejected),
                ClientAction::Abort(SBError::AuthenticationRejected),
            ),
            ClientEvent::HostKeyAnswer(Some(true)) => (
                ClientPhase::ResolvingCandidates,
                ClientAction::ResolveCandidates,
            ),
            _ => (p, ClientAction::Idle),
        },
        ClientPhase::ResolvingCandidates => match e {
            ClientEvent::CandidatesResolved(n) => if n == 0 {
                (
                    ClientPhase::Aborted(SBError::AuthenticationFailed),
                    ClientAction::Abort(SBError::AuthenticationFailed),
                )
            } else {
                (ClientPhase::Authenticating { candidates: n, tried: 1 }, ClientAction::Attempt(0))
            },
            _ => (p, ClientAction::Idle),
        },
        ClientPhase::Authenticating { candidates, tried } => match e {
            ClientEvent::AttemptFinished(accepted) => if accepted {
                (ClientPhase::OpeningChannel, ClientAction::OpenChannel)
            } else if tried < candidates {
                (
                    ClientPhase::Authenticating { candidates, tried: (tried + 1) as usize },
                    ClientAction::Attempt(tried),
                )
            } else {
                (
                    ClientPhase::Aborted(SBError::AuthenticationFailed),
                    ClientAction::Abort(SBError::AuthenticationFailed),
                )
            },
            _ => (p, ClientAction::Idle),
        },
        ClientPhase::OpeningChannel => match e {
            ClientEvent::ChannelOpened => (ClientPhase::Syncing, ClientAction::StartSync),
            _ => (p, ClientAction::Idle),
        },
        _ => (p, ClientAction::Idle),
    }
}

/// The phase reached, and the requests made in order, over a sequence of
/// events.
pub open spec fn client_run(p: ClientPhase, events: Seq<ClientEvent>) -> (
    ClientPhase,
    Seq<ClientAction>,
)
    decreases events.len(),
{
    if events.len() == 0 {
        (p, Seq::empty())
    } else {
        let prev = client_run(p, events.drop_last());
        let next = client_step(prev.0, events.last());
        (next.0, prev.1.push(next.1))
    }
}

/// `j` refusals in a row.
pub open spec fn refusals(j: nat) -> Seq<ClientEvent> {
    Seq::new(j, |i: int| ClientEvent::AttemptFinished(false))
}

/// Attempts with the candidates at positions `t` to `t + j - 1`, in order.
pub open spec fn attempts_from(t: nat, j: nat) -> Seq<ClientAction> {
    Seq::new(j, |i: int| ClientAction::Attempt((t + i) as usize))
}

/// `j` requests to do nothing.
pub open spec fn idles(j: nat) -> Seq<ClientAction> {
    Seq::new(j, |i: int| ClientAction::Idle)
}

/// The events of a connection whose host key is trusted and which resolves
/// `n` candidates.
pub open spec fn trusted_with(n: usize) -> Seq<ClientEvent> {
    seq![ClientEvent::HostKeyAnswer(Some(true)), ClientEvent::CandidatesResolved(n)]
}

proof fn lemma_run_concat(p: ClientPhase, a: Seq<ClientEvent>, b: Seq<ClientEvent>)
    ensures
        client_run(p, a + b).0 == client_run(client_run(p, a).0, b).0,
        client_run(p, a + b).1 == client_run(p, a).1 + client_run(client_run(p, a).0, b).1,
    decreases b.len(),
{
    let q = client_run(p, a).0;
    if b.len() == 0 {
        assert(a + b =~= a);
        assert(client_run(p, a).1 + client_run(q, b).1 =~= client_run(p, a).1);
    } else {
        assert((a + b).drop_last() =~= a + b.drop_last());
        assert((a + b).last() == b.last());
        lemma_run_concat(p, a, b.drop_last());
        let y = client_run(q, b.drop_last()).1;
        let z = client_step(client_run(q, b.drop_last()).0, b.last()).1;
        assert((client_run(p, a).1 + y).push(z) =~= client_run(p, a).1 + y.push(z));
    }
}

proof fn lemma_run_len(p: ClientPhase, events: Seq<ClientEvent>)
    ensures
        client_run(p, events).1.len() == events.len(),
    decreases events.len(),
{
    if events.len() > 0 {
        lemma_run_len(p, events.drop_last());
    }
}

proof fn lemma_run_one(p: ClientPhase, e: ClientEvent)
    ensures
        client_run(p, seq![e]).0 == client_step(p, e).0,
        client_run(p, seq![e]).1 == seq![client_step(p, e).1],
{
    let ev = seq![e];
    let none = Seq::<ClientEvent>::empty();
    assert(ev.drop_last() =~= none);
    assert(client_run(p, none).0 == p);
    assert(client_run(p, none).1 =~= Seq::<ClientAction>::empty());
    assert(ev.last() == e);
    assert(Seq::<ClientAction>::empty().push(client_step(p, e).1) =~= seq![client_step(p, e).1]);
}

proof fn lemma_aborted_stays(e: SBError, events: Seq<ClientEvent>)
    ensures
        client_run(ClientPhase::Aborted(e), events).0 == ClientPhase::Aborted(e),
        client_run(ClientPhase::Aborted(e), events).1 == idles(events.len()),
    decreases events.len(),
{
    if events.len() > 0 {
        lemma_aborted_stays(e, events.drop_last());
        assert(idles((events.len() - 1) as nat).push(ClientAction::Idle) =~= idles(events.len()));
    } else {
        assert(idles(0) =~= Seq::empty());
    }
}

proof fn lemma_authenticated_stays(p: ClientPhase, events: Seq<ClientEvent>)
    requires
        p == ClientPhase::OpeningChannel || p == ClientPhase::Syncing,
    ensures
        client_run(p, events).0 == ClientPhase::OpeningChannel || client_run(p, events).0
            == ClientPhase::Syncing,
        forall|i: int|
            0 <= i < events.len() ==> !(#[trigger] client_run(p, events).1[i] is Attempt),
    decreases events.len(),
{
    if events.len() > 0 {
        lemma_authenticated_stays(p, events.drop_last());
        lemma_run_len(p, events.drop_last());
        let prev = client_run(p, events.drop_last()).1;
        assert forall|i: int| 0 <= i < events.len() implies !(#[trigger] client_run(
            p,
            events,
        ).1[i] is Attempt) by {
            if i < events.len() - 1 {
                assert(client_run(p, events).1[i] == prev[i]);
            }
        }
    }
}

/// The phase in which `t` of `n` candidates have been handed out.
pub open spec fn authenticating(n: usize, t: usize) -> ClientPhase {
    ClientPhase::Authenticating { candidates: n, tried: t }
}

proof fn lemma_refusals(n: usize, t: usize, j: nat)
    requires
        1 <= t,
        t + j <= n,
    ensures
        client_run(authenticating(n, t), refusals(j)).0 == authenticating(n, (t + j) as usize),
        client_run(authenticating(n, t), refusals(j)).1 == attempts_from(t as nat, j),
    decreases j,
{
    let p = ClientPhase::Authenticating { candidates: n, tried: t };
    if j > 0 {
        assert(refusals(j).drop_last() =~= refusals((j - 1) as nat));
        lemma_refusals(n, t, (j - 1) as nat);
        assert(attempts_from(t as nat, (j - 1) as nat).push(ClientAction::Attempt((t + j - 1) as usize))
            =~= attempts_from(t as nat, j));
    } else {
        assert(attempts_from(t as nat, 0) =~= Seq::empty());
    }
}

proof fn lemma_trusted(n: usize)
    ensures
        n == 0 ==> client_run(ClientPhase::VerifyingHostKey, trusted_with(n)).0
            == ClientPhase::Aborted(SBError::AuthenticationFailed),
        n > 0 ==> client_run(ClientPhase::VerifyingHostKey, trusted_with(n)).0 == authenticating(
            n,
            1,
        ),
        client_run(ClientPhase::VerifyingHostKey, trusted_with(n)).1 == if n == 0 {
            seq![ClientAction::ResolveCandidates, ClientAction::Abort(SBError::AuthenticationFailed)]
        } else {
            seq![ClientAction::ResolveCandidates, ClientAction::Attempt(0)]
        },
{
    let h = seq![ClientEvent::HostKeyAnswer(Some(true))];
    let c = seq![ClientEvent::CandidatesResolved(n)];
    assert(h + c =~= trusted_with(n));
    lemma_run_one(ClientPhase::VerifyingHostKey, ClientEvent::HostKeyAnswer(Some(true)));
    lemma_run_one(ClientPhase::ResolvingCandidates, ClientEvent::CandidatesResolved(n));
    lemma_run_concat(ClientPhase::VerifyingHostKey, h, c);
    assert(client_run(ClientPhase::VerifyingHostKey, h + c).1 =~= if n == 0 {
        seq![ClientAction::ResolveCandidates, ClientAction::Abort(SBError::AuthenticationFailed)]
    } else {
        seq![ClientAction::ResolveCandidates, ClientAction::Attempt(0)]
    });
}

/// With `n` candidates of which the `k`-th is the first that the server
/// accepts, exactly `k` attempts are made, with the first `k` candidates in
/// order, and then the channel is opened: whatever happens afterwards, no
/// further attempt is made.
pub proof fn lemma_first_success_ends_attempts(n: usize, k: usize, rest: Seq<ClientEvent>)
    requires
        1 <= k <= n,
    ensures
        ({
            let acts = client_run(
                ClientPhase::VerifyingHostKey,
                trusted_with(n) + refusals((k - 1) as nat) + seq![ClientEvent::AttemptFinished(true)]
                    + rest,
            ).1;
            &&& acts.len() == k + 2 + rest.len()
            &&& acts.subrange(0, k + 2) == seq![ClientAction::ResolveCandidates] + attempts_from(
                0,
                k as nat,
            ) + seq![ClientAction::OpenChannel]
            &&& forall|i: int| k + 2 <= i < acts.len() ==> !(#[trigger] acts[i] is Attempt)
        }),
{
    let start = ClientPhase::VerifyingHostKey;
    let a = trusted_with(n);
    let b = refusals((k - 1) as nat);
    let c = seq![ClientEvent::AttemptFinished(true)];
    lemma_trusted(n);
    let p1 = ClientPhase::Authenticating { candidates: n, tried: 1 };
    lemma_refusals(n, 1, (k - 1) as nat);
    lemma_run_concat(start, a, b);
    let p2 = ClientPhase::Authenticating { candidates: n, tried: k };
    lemma_run_one(p2, ClientEvent::AttemptFinished(true));
    lemma_run_concat(start, a + b, c);
    lemma_authenticated_stays(ClientPhase::OpeningChannel, rest);
    lemma_run_concat(start, a + b + c, rest);
    lemma_run_len(ClientPhase::OpeningChannel, rest);
    let head = client_run(start, a + b + c).1;
    assert(head =~= seq![ClientAction::ResolveCandidates] + attempts_from(0, k as nat) + seq![
        ClientAction::OpenChannel,
    ]);
    let acts = client_run(start, a + b + c + rest).1;
    assert(acts.subrange(0, k + 2) =~= head);
    assert forall|i: int| k + 2 <= i < acts.len() implies !(#[trigger] acts[i] is Attempt) by {
        assert(acts[i] == client_run(ClientPhase::OpeningChannel, rest).1[i - k - 2]);
    }
}

/// When every one of `n` candidates is refused, each is tried once, in
/// order, and the attempt ends with an authentication failure: no channel is
/// ever opened.
pub proof fn lemma_all_refused_fails(n: usize, rest: Seq<ClientEvent>)
    requires
        n >= 1,
    ensures
        ({
            let run = client_run(
                ClientPhase::VerifyingHostKey,
                trusted_with(n) + refusals(n as nat) + rest,
            );
            &&& run.0 == ClientPhase::Aborted(SBError::AuthenticationFailed)
            &&& run.1 == seq![ClientAction::ResolveCandidates] + attempts_from(0, n as nat) + seq![
                ClientAction::Abort(SBError::AuthenticationFailed),
            ] + idles(rest.len())
        }),
{
    let start = ClientPhase::VerifyingHostKey;
    let a = trusted_with(n);
    let b = refusals((n - 1) as nat);
    let c = seq![ClientEvent::AttemptFinished(false)];
    assert(refusals(n as nat) =~= b + c);
    assert(a + refusals(n as nat) + rest =~= a + b + c + rest);
    lemma_trusted(n);
    lemma_refusals(n, 1, (n - 1) as nat);
    lemma_run_concat(start, a, b);
    let p2 = ClientPhase::Authenticating { candidates: n, tried: n };
    lemma_run_one(p2, ClientEvent::AttemptFinished(false));
    lemma_run_concat(start, a + b, c);
    lemma_aborted_stays(SBError::AuthenticationFailed, rest);
    lemma_run_concat(start, a + b + c, rest);
    assert(client_run(start, a + b + c + rest).1 =~= seq![ClientAction::ResolveCandidates]
        + attempts_from(0, n as nat) + seq![ClientAction::Abort(SBError::AuthenticationFailed)]
        + idles(rest.len()));
}

/// With no candidate at all, the attempt fails at once with an
/// authentication failure: no identity is tried and no channel is opened.
pub proof fn lemma_no_candidates_fails(rest: Seq<ClientEvent>)
    ensures
        ({
            let run = client_run(ClientPhase::VerifyingHostKey, trusted_with(0) + rest);
            &&& run.0 == ClientPhase::Aborted(SBError::AuthenticationFailed)
            &&& run.1 == seq![
                ClientAction::ResolveCandidates,
                ClientAction::Abort(SBError::AuthenticationFailed),
            ] + idles(rest.len())
        }),
{
    lemma_trusted(0);
    lemma_aborted_stays(SBError::AuthenticationFailed, rest);
    lemma_run_concat(ClientPhase::VerifyingHostKey, trusted_with(0), rest);
}

/// A host key that the user does not trust ends the attempt before any
/// authentication: nothing is requested after the abort.
pub proof fn lemma_declined_host_key_aborts(rest: Seq<ClientEvent>)
    ensures
        ({
            let run = client_run(
                ClientPhase::VerifyingHostKey,
                seq![ClientEvent::HostKeyAnswer(Some(false))] + rest,
            );
            &&& run.0 == ClientPhase::Aborted(SBError::AuthenticationRejected)
            &&& run.1 == seq![ClientAction::Abort(SBError::AuthenticationRejected)] + idles(
                rest.len(),
            )
        }),
{
    let a = seq![ClientEvent::HostKeyAnswer(Some(false))];
    lemma_run_one(ClientPhase::VerifyingHostKey, ClientEvent::HostKeyAnswer(Some(false)));
    lemma_aborted_stays(SBError::AuthenticationRejected, rest);
    lemma_run_concat(ClientPhase::VerifyingHostKey, a, rest);
}

/// A client connection, from the host-key check to the open channel: each
/// candidate identity is tried at most once, in order, stopping at the first
/// that the server accepts, and no channel is opened unauthenticated.
pub struct SSHBeamClient {
    phase: ClientPhase,
}

impl View for SSHBeamClient {
    type V = ClientPhase;

    closed spec fn view(&self) -> ClientPhase {
        self.phase
    }
}

impl SSHBeamClient {
    pub fn new() -> (r: Self)
        ensures
            r@ == ClientPhase::VerifyingHostKey,
    {
        SSHBeamClient { phase: ClientPhase::VerifyingHostKey }
    }

    pub fn phase(&self) -> (r: ClientPhase)
        ensures
            r == self@,
    {
        self.phase
    }

    /// Takes the next event of the connection and says what to do.
    pub fn step(&mut self, e: ClientEvent) -> (r: ClientAction)
        ensures
            (final(self)@, r) == client_step(old(self)@, e),
    {
        let (p, a) = match self.phase {
            ClientPhase::VerifyingHostKey => match e {
                ClientEvent::HostKeyAnswer(None) => (
                    ClientPhase::Aborted(SBError::ConfigurationError),
                    ClientAction::Abort(SBError::ConfigurationError),
                ),
                ClientEvent::HostKeyAnswer(Some(false)) => (
                    ClientPhase::Aborted(SBError::AuthenticationRejected),
                    ClientAction::Abort(SBError::AuthenticationRejected),
                ),
                ClientEvent::HostKeyAnswer(Some(true)) => (
                    ClientPhase::ResolvingCandidates,
                    ClientAction::ResolveCandidates,
                ),
                _ => (self.phase, ClientAction::Idle),
            },
            ClientPhase::ResolvingCandidates => match e {
                ClientEvent::CandidatesResolved(n) => if n == 0 {
                    (
                        ClientPhase::Aborted(SBError::AuthenticationFailed),
                        ClientAction::Abort(SBError::AuthenticationFailed),
                    )
                } else {
                    (
                        ClientPhase::Authenticating { candidates: n, tried: 1 },
                        ClientAction::Attempt(0),
                    )
                },
                _ => (self.phase, ClientAction::Idle),
            },
            ClientPhase::Authenticating { candidates, tried } => match e {
                ClientEvent::AttemptFinished(accepted) => if accepted {
                    (ClientPhase::OpeningChannel, ClientAction::OpenChannel)
                } else if tried < candidates {
                    (
                        ClientPhase::Authenticating { candidates, tried: tried + 1 },
                        ClientAction::Attempt(tried),
                    )
                } else {
                    (
                        ClientPhase::Aborted(SBError::AuthenticationFailed),
                        ClientAction::Abort(SBError::AuthenticationFailed),
                    )
                },
                _ => (self.phase, ClientAction::Idle),
            },
            ClientPhase::OpeningChannel => match e {
                ClientEvent::ChannelOpened => (ClientPhase::Syncing, ClientAction::StartSync),
                _ => (self.phase, ClientAction::Idle),
            },
            _ => (self.phase, ClientAction::Idle),
        };
        self.phase = p;
        a
    }
}

} // verus!
