use tdswire::frame::unframe_message;
use tdswire::handshake::{
    encode_prelogin_reply, Auth, Config, HandshakeError, HandshakeState, Negotiator,
};
use tdswire::tokens::Token;

fn config() -> Config {
    Config {
        database: b"FakeAdventureWorks".to_vec(),
        auth: Auth::Credentials { username: b"developer".to_vec(), password: b"developer".to_vec() },
        client_version: 0x74000004,
    }
}

#[test]
fn handshake_reaches_ready() {
    let mut neg = Negotiator::new(config());
    let prelogin = neg.start().unwrap();
    // The pre-login message is a framed packet the caller writes out.
    let (_, payload, _) = unframe_message(&prelogin).unwrap();
    assert_eq!(payload.len(), 4);
    assert_eq!(neg.state, HandshakeState::PreLoginSent);

    let reply = encode_prelogin_reply(0x74000004, false);
    let required = neg.on_prelogin_reply(&reply).unwrap();
    assert!(!required);
    assert_eq!(neg.state, HandshakeState::PreLoginDone { encrypt_required: false });

    let login = neg.send_login(false).unwrap();
    assert!(!login.is_empty());
    assert_eq!(neg.state, HandshakeState::LoginSent);

    let tokens = vec![
        Token::EnvChange { database: b"FakeAdventureWorks".to_vec() },
        Token::LoginAck { version: 0x74000004 },
        Token::Done { rows_affected: 0, return_code: None },
    ];
    neg.on_login_reply(&tokens).unwrap();
    assert_eq!(neg.state, HandshakeState::Ready);
    assert_eq!(neg.env().database, b"FakeAdventureWorks".to_vec());
    assert_eq!(neg.env().server_version, 0x74000004);
}

#[test]
fn encryption_demand_without_upgrade_fails_before_login() {
    let mut neg = Negotiator::new(config());
    let _ = neg.start().unwrap();
    let reply = encode_prelogin_reply(0x74000004, true);
    let required = neg.on_prelogin_reply(&reply).unwrap();
    assert!(required);

    // The caller did not upgrade the stream: the negotiator fails and
    // produces no login bytes at all.
    let r = neg.send_login(false);
    assert_eq!(r, Err(HandshakeError::EncryptionRequired));
    assert_eq!(neg.state, HandshakeState::Failed);

    // Terminal: even an upgraded retry is refused.
    assert_eq!(neg.send_login(true), Err(HandshakeError::OutOfOrder));
    assert_eq!(neg.state, HandshakeState::Failed);
}

#[test]
fn encryption_demand_with_upgrade_proceeds() {
    let mut neg = Negotiator::new(config());
    let _ = neg.start().unwrap();
    let reply = encode_prelogin_reply(0x74000004, true);
    assert!(neg.on_prelogin_reply(&reply).unwrap());
    let login = neg.send_login(true).unwrap();
    assert!(!login.is_empty());
    assert_eq!(neg.state, HandshakeState::LoginSent);
}

#[test]
fn server_error_token_refuses_login() {
    let mut neg = Negotiator::new(config());
    let _ = neg.start().unwrap();
    let reply = encode_prelogin_reply(1, false);
    let _ = neg.on_prelogin_reply(&reply).unwrap();
    let _ = neg.send_login(false).unwrap();
    let tokens = vec![Token::Error {
        severity: 14,
        line: 1,
        message: b"Login failed for user 'developer'.".to_vec(),
    }];
    assert_eq!(neg.on_login_reply(&tokens), Err(HandshakeError::ServerRefused));
    assert_eq!(neg.state, HandshakeState::Failed);
}

#[test]
fn missing_login_ack_is_a_protocol_failure() {
    let mut neg = Negotiator::new(config());
    let _ = neg.start().unwrap();
    let reply = encode_prelogin_reply(1, false);
    let _ = neg.on_prelogin_reply(&reply).unwrap();
    let _ = neg.send_login(false).unwrap();
    let tokens = vec![Token::Done { rows_affected: 0, return_code: None }];
    assert_eq!(neg.on_login_reply(&tokens), Err(HandshakeError::ProtocolFailure));
    assert_eq!(neg.state, HandshakeState::Failed);
}

#[test]
fn malformed_prelogin_reply_is_terminal() {
    let mut neg = Negotiator::new(config());
    let _ = neg.start().unwrap();
    assert_eq!(
        neg.on_prelogin_reply(&[1, 2, 3]),
        Err(HandshakeError::ProtocolFailure)
    );
    assert_eq!(neg.state, HandshakeState::Failed);
}

#[test]
fn steps_out_of_order_are_refused_without_state_change() {
    let mut neg = Negotiator::new(config());
    assert_eq!(neg.send_login(true), Err(HandshakeError::OutOfOrder));
    assert_eq!(neg.state, HandshakeState::Disconnected);
    assert_eq!(neg.on_prelogin_reply(&[0; 5]), Err(HandshakeError::OutOfOrder));
    assert_eq!(neg.state, HandshakeState::Disconnected);
    let _ = neg.start().unwrap();
    assert_eq!(neg.start(), Err(HandshakeError::OutOfOrder));
}
