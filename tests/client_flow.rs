use sshbeam::client::{ClientAction, ClientEvent, ClientPhase, SSHBeamClient};
use sshbeam::error::SBError;

fn run(events: &[ClientEvent]) -> (SSHBeamClient, Vec<ClientAction>) {
    let mut client = SSHBeamClient::new();
    let actions = events.iter().map(|e| client.step(*e)).collect();
    (client, actions)
}

#[test]
fn first_success_at_k_makes_exactly_k_attempts() {
    let (client, actions) = run(&[
        ClientEvent::HostKeyAnswer(Some(true)),
        ClientEvent::CandidatesResolved(4),
        ClientEvent::AttemptFinished(false),
        ClientEvent::AttemptFinished(true),
        ClientEvent::AttemptFinished(false),
        ClientEvent::ChannelOpened,
    ]);
    assert_eq!(
        actions,
        vec![
            ClientAction::ResolveCandidates,
            ClientAction::Attempt(0),
            ClientAction::Attempt(1),
            ClientAction::OpenChannel,
            ClientAction::Idle,
            ClientAction::StartSync,
        ]
    );
    assert_eq!(client.phase(), ClientPhase::Syncing);
}

#[test]
fn first_candidate_accepted() {
    let (client, actions) = run(&[
        ClientEvent::HostKeyAnswer(Some(true)),
        ClientEvent::CandidatesResolved(1),
        ClientEvent::AttemptFinished(true),
    ]);
    assert_eq!(
        actions,
        vec![ClientAction::ResolveCandidates, ClientAction::Attempt(0), ClientAction::OpenChannel]
    );
    assert_eq!(client.phase(), ClientPhase::OpeningChannel);
}

#[test]
fn no_candidates_fails_at_once() {
    let (client, actions) = run(&[
        ClientEvent::HostKeyAnswer(Some(true)),
        ClientEvent::CandidatesResolved(0),
        ClientEvent::AttemptFinished(true),
        ClientEvent::ChannelOpened,
    ]);
    assert_eq!(
        actions,
        vec![
            ClientAction::ResolveCandidates,
            ClientAction::Abort(SBError::AuthenticationFailed),
            ClientAction::Idle,
            ClientAction::Idle,
        ]
    );
    assert_eq!(client.phase(), ClientPhase::Aborted(SBError::AuthenticationFailed));
}

#[test]
fn all_candidates_refused_fails_without_channel() {
    let (client, actions) = run(&[
        ClientEvent::HostKeyAnswer(Some(true)),
        ClientEvent::CandidatesResolved(2),
        ClientEvent::AttemptFinished(false),
        ClientEvent::AttemptFinished(false),
        ClientEvent::ChannelOpened,
    ]);
    assert_eq!(
        actions,
        vec![
            ClientAction::ResolveCandidates,
            ClientAction::Attempt(0),
            ClientAction::Attempt(1),
            ClientAction::Abort(SBError::AuthenticationFailed),
            ClientAction::Idle,
        ]
    );
    assert_eq!(client.phase(), ClientPhase::Aborted(SBError::AuthenticationFailed));
}

#[test]
fn declined_host_key_aborts_before_authentication() {
    let (client, actions) = run(&[
        ClientEvent::HostKeyAnswer(Some(false)),
        ClientEvent::CandidatesResolved(3),
        ClientEvent::AttemptFinished(true),
    ]);
    assert_eq!(
        actions,
        vec![
            ClientAction::Abort(SBError::AuthenticationRejected),
            ClientAction::Idle,
            ClientAction::Idle,
        ]
    );
    assert_eq!(client.phase(), ClientPhase::Aborted(SBError::AuthenticationRejected));
}

#[test]
fn unavailable_prompt_is_a_configuration_error() {
    let (_, actions) = run(&[ClientEvent::HostKeyAnswer(None)]);
    assert_eq!(actions, vec![ClientAction::Abort(SBError::ConfigurationError)]);
}

#[test]
fn events_out_of_phase_are_ignored() {
    let (client, actions) = run(&[
        ClientEvent::CandidatesResolved(2),
        ClientEvent::AttemptFinished(true),
        ClientEvent::ChannelOpened,
    ]);
    assert_eq!(actions, vec![ClientAction::Idle, ClientAction::Idle, ClientAction::Idle]);
    assert_eq!(client.phase(), ClientPhase::VerifyingHostKey);
}
