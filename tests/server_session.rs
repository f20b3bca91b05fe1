use sshbeam::channel::inbound_text;
use sshbeam::error::SBError;
use sshbeam::server::{Auth, SSHBeamServer, ServerSession};
use sshbeam::sync::{ClipboardSync, SyncAction};

fn key_blob(fill: u8) -> Vec<u8> {
    let mut b = vec![0u8, 0, 0, 11];
    b.extend_from_slice(b"ssh-ed25519");
    b.extend_from_slice(&[0, 0, 0, 32]);
    b.extend_from_slice(&[fill; 32]);
    b
}

fn server_with(fills: &[u8]) -> SSHBeamServer {
    let text: String = fills
        .iter()
        .map(|f| format!("ssh-ed25519 {} k{}\n", data_encoding::BASE64.encode(&key_blob(*f)), f))
        .collect();
    SSHBeamServer::new(Some(&text))
}

#[test]
fn unreadable_key_file_starts_and_rejects_everyone() {
    let server = SSHBeamServer::new(None);
    assert_eq!(server.authorized_keys().len(), 0);
    for fill in 0..4 {
        assert_eq!(server.auth_publickey(&key_blob(fill)), Auth::Reject);
    }
    let mut session = ServerSession::new();
    assert_eq!(session.auth_publickey(&server, &key_blob(1)), Auth::Reject);
    assert!(!session.channel_open_session());
}

#[test]
fn authorized_key_reaches_the_other_clipboard() {
    let server = server_with(&[1]);
    let mut session = ServerSession::new();
    assert_eq!(session.auth_publickey(&server, &key_blob(1)), Auth::Accept);
    assert!(session.channel_open_session());
    assert!(!session.channel_open_session());

    let mut client_sync = ClipboardSync::new();
    let sent = match client_sync.on_read(Some("hello".to_string())) {
        SyncAction::Send(c) => c,
        other => panic!("expected a send, got {:?}", other),
    };
    assert_eq!(session.data(sent.as_bytes()), Ok("hello".to_string()));
}

#[test]
fn unknown_key_is_rejected_and_no_channel_opens() {
    let server = server_with(&[1]);
    let mut session = ServerSession::new();
    assert_eq!(session.auth_publickey(&server, &key_blob(2)), Auth::Reject);
    assert!(!session.channel_open_session());
    assert_eq!(session.data(b"hello"), Err(SBError::AuthenticationFailed));
}

#[test]
fn data_before_channel_is_refused() {
    let server = server_with(&[1, 2]);
    let mut session = ServerSession::new();
    assert_eq!(session.auth_publickey(&server, &key_blob(2)), Auth::Accept);
    assert_eq!(session.data(b"hi"), Err(SBError::TransportError));
}

#[test]
fn invalid_utf8_fails_the_exchange() {
    let server = server_with(&[1]);
    let mut session = ServerSession::new();
    session.auth_publickey(&server, &key_blob(1));
    session.channel_open_session();
    assert_eq!(session.data(&[0x66, 0xff, 0x66]), Err(SBError::InvalidUtf8));
    assert_eq!(inbound_text(&[0xc3]), Err(SBError::InvalidUtf8));
}

#[test]
fn inbound_bytes_decode_as_utf8() {
    assert_eq!(inbound_text("h\u{e9}llo \u{1f600}".as_bytes()), Ok("h\u{e9}llo \u{1f600}".to_string()));
    assert_eq!(inbound_text(&[0x68, 0xc3, 0xa9]), Ok("h\u{e9}".to_string()));
    assert_eq!(inbound_text(&[]), Ok(String::new()));
}
