use vstd::prelude::*;
use crate::channel::inbound_text;
use crate::error::SBError;
use crate::keys::{authorized_keys_of, AuthorizedKeySet};
use vstd::utf8::{decode_utf8, valid_utf8};

verus! {

/// The server's answer to a presented public key.
#[derive(Debug, Clone, Copy, PartialEq, Eq, Structural)]
pub enum Auth {
    Accept,
    Reject,
}

/// The keys a server accepts, given its authorized-keys text, or `None`
/// when that text could not be read.
pub open spec fn server_keys(text: Option<Seq<char>>) -> Seq<Seq<u8>> {
    match text {
        Some(t) => authorized_keys_of(t),
        None => Seq::empty(),
    }
}

/// Whether a server holding `keys` accepts a presented key.
pub open spec fn accepts(keys: Seq<Seq<u8>>, key: Seq<u8>) -> bool {
    keys.contains(key)
}

/// A server whose authorized-keys text could not be read still starts, and
/// then rejects every key presented to it.
pub proof fn lemma_unreadable_keys_reject_all(key: Seq<u8>)
    ensures
        server_keys(None) == Seq::<Seq<u8>>::empty(),
        !accepts(server_keys(None), key),
{
}

/// The server: the keys it accepts, fixed when it starts and shared by all
/// its connections.
pub struct SSHBeamServer {
    authorized_keys: AuthorizedKeySet,
}

impl View for SSHBeamServer {
    type V = Seq<Seq<u8>>;

    closed spec fn view(&self) -> Seq<Seq<u8>> {
        self.authorized_keys@
    }
}

impl SSHBeamServer {
    /// Starts from the authorized-keys text, or from `None` when it could
    /// not be read: the server then accepts no one.
    pub fn new(authorized_keys_text: Option<&str>) -> (r: Self)
        ensures
            r@ == server_keys(
                match authorized_keys_text {
                    Some(t) => Some(t@),
                    None => None,
                },
            ),
    {
        let authorized_keys = match authorized_keys_text {
            Some(t) => AuthorizedKeySet::parse(t),
            None => AuthorizedKeySet::empty(),
        };
        SSHBeamServer { authorized_keys }
    }

    pub fn authorized_keys(&self) -> (r: &AuthorizedKeySet)
        ensures
            r@ == self@,
    {
        &self.authorized_keys
    }

    /// Decides on a key presented by a connecting client, in SSH wire form.
    pub fn auth_publickey(&self, key: &[u8]) -> (r: Auth)
        ensures
            r == Auth::Accept <==> accepts(self@, key@),
            r == Auth::Reject <==> !accepts(self@, key@),
    {
        if self.authorized_keys.contains(key) {
            Auth::Accept
        } else {
            Auth::Reject
        }
    }
}

/// The server's side of one connection: channel and data handling happen
/// only after a key has been accepted, and at most one channel is opened.
pub struct ServerSession {
    authenticated: bool,
    channel_open: bool,
}

/// The state of a server connection: whether a key was accepted, and whether
/// its channel is open.
pub struct SessionView {
    pub authenticated: bool,
    pub channel_open: bool,
}

impl View for ServerSession {
    type V = SessionView;

    closed spec fn view(&self) -> SessionView {
        SessionView { authenticated: self.authenticated, channel_open: self.channel_open }
    }
}

impl ServerSession {
    pub fn new() -> (r: Self)
        ensures
            !r@.authenticated,
            !r@.channel_open,
    {
        ServerSession { authenticated: false, channel_open: false }
    }

    /// Decides on a presented key; once one is accepted, the connection
    /// stays authenticated.
    pub fn auth_publickey(&mut self, server: &SSHBeamServer, key: &[u8]) -> (r: Auth)
        ensures
            r == Auth::Accept <==> accepts(server@, key@),
            final(self)@.authenticated == (old(self)@.authenticated || r == Auth::Accept),
            final(self)@.channel_open == old(self)@.channel_open,
    {
        let r = server.auth_publickey(key);
        if r == Auth::Accept {
            self.authenticated = true;
        }
        r
    }

    /// A client asks for a session channel: it is granted, and the clipboard
    /// sync loop is to start on it, only on an authenticated connection that
    /// has no channel yet.
    pub fn channel_open_session(&mut self) -> (r: bool)
        ensures
            r == (old(self)@.authenticated && !old(self)@.channel_open),
            final(self)@.authenticated == old(self)@.authenticated,
            final(self)@.channel_open == (old(self)@.channel_open || r),
    {
        if self.authenticated && !self.channel_open {
            self.channel_open = true;
            true
        } else {
            false
        }
    }

    /// Bytes received on the channel: the text to write to the clipboard.
    pub fn data(&self, bytes: &[u8]) -> (r: Result<String, SBError>)
        ensures
            !self@.authenticated ==> r == Err::<String, SBError>(SBError::AuthenticationFailed),
            self@.authenticated && !self@.channel_open ==> r == Err::<String, SBError>(
                SBError::TransportError,
            ),
            self@.authenticated && self@.channel_open && valid_utf8(bytes@) ==> r is Ok
                && r->Ok_0@ == decode_utf8(bytes@),
            self@.authenticated && self@.channel_open && !valid_utf8(bytes@) ==> r == Err::<
                String,
                SBError,
            >(SBError::InvalidUtf8),
    {
        if !self.authenticated {
            Err(SBError::AuthenticationFailed)
        } else if !self.channel_open {
            Err(SBError::TransportError)
        } else {
            inbound_text(bytes)
        }
    }
}

} // verus!
