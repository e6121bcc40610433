//! The pre-login / login negotiation state machine.
//!
//! `Disconnected → PreLoginSent → PreLoginDone → LoginSent → Ready`,
//! with `Failed` terminal from any stage. The pre-login exchange trades
//! versions and encryption demands; when the server requires
//! encryption, the login message is produced only after the caller has
//! upgraded the stream — otherwise the negotiator fails *before* any
//! login bytes exist, since the protocol sends credentials in the
//! clear. A server error or a malformed token during the handshake is
//! terminal: the caller must reconnect; partial-success retry is not
//! supported.
//!
//! The negotiator performs no I/O: each step returns the exact framed
//! bytes to write, and is handed the unframed payloads read back.

use vstd::prelude::*;
use vstd::bytes::{
    spec_u32_to_le_bytes, spec_u32_from_le_bytes, lemma_auto_spec_u32_to_from_le_bytes,
};
use vstd::slice::{slice_to_vec, slice_index_get};
use crate::bytes::{put_u16, put_u32};
use crate::frame::{frame_message, enc_packets, PT_PRELOGIN, PT_LOGIN};
use crate::tokens::{Token, TokModel, toks_view};

verus! {

/// How the session authenticates.
#[derive(Debug, PartialEq, Eq)]
pub enum Auth {
    /// An opaque token obtained from the host's credential provider.
    Integrated(Vec<u8>),
    /// A username and password pair, protected only by transport
    /// encryption.
    Credentials { username: Vec<u8>, password: Vec<u8> },
}

/// Mathematical model of an authentication choice.
pub enum AuthModel {
    Integrated(Seq<u8>),
    Credentials { username: Seq<u8>, password: Seq<u8> },
}

impl View for Auth {
    type V = AuthModel;

    open spec fn view(&self) -> AuthModel {
        match self {
            Auth::Integrated(tok) => AuthModel::Integrated(tok@),
            Auth::Credentials { username, password } => AuthModel::Credentials {
                username: username@,
                password: password@,
            },
        }
    }
}

/// Connection configuration: immutable once the handshake starts.
#[derive(Debug, PartialEq, Eq)]
pub struct Config {
    /// Target database, as raw single-byte characters.
    pub database: Vec<u8>,
    pub auth: Auth,
    /// Protocol version the client offers.
    pub client_version: u32,
}

/// Mathematical model of a configuration.
pub struct ConfigModel {
    pub database: Seq<u8>,
    pub auth: AuthModel,
    pub client_version: u32,
}

impl View for Config {
    type V = ConfigModel;

    open spec fn view(&self) -> ConfigModel {
        ConfigModel {
            database: self.database@,
            auth: self.auth@,
            client_version: self.client_version,
        }
    }
}

/// Whether a configuration fits the login message's limits.
pub open spec fn config_valid(c: ConfigModel) -> bool {
    &&& c.database.len() <= 255
    &&& match c.auth {
        AuthModel::Integrated(tok) => tok.len() <= 65535,
        AuthModel::Credentials { username, password } => username.len() <= 255
            && password.len() <= 255,
    }
}

/// Session attributes captured from the login response.
#[derive(Debug, PartialEq, Eq)]
pub struct SessionEnv {
    /// Active database echoed by the server.
    pub database: Vec<u8>,
    /// Protocol version the server acknowledged.
    pub server_version: u32,
}

/// The stages of the handshake.
#[derive(Clone, Copy, Debug, PartialEq, Eq, Structural)]
pub enum HandshakeState {
    Disconnected,
    PreLoginSent,
    /// The pre-login reply arrived; login may be sent once the stream
    /// satisfies the server's encryption demand.
    PreLoginDone { encrypt_required: bool },
    LoginSent,
    /// Terminal success: the session may be opened.
    Ready,
    /// Terminal failure: tear the connection down and reconnect.
    Failed,
}

/// Why a handshake step was refused.
#[derive(Clone, Copy, Debug, PartialEq, Eq, Structural)]
pub enum HandshakeError {
    /// The step does not belong to the current stage; nothing changed.
    OutOfOrder,
    /// The server demands encryption and the stream was not upgraded;
    /// no login bytes were produced.
    EncryptionRequired,
    /// The configuration exceeds the login message's limits.
    InvalidConfig,
    /// A malformed or unexpected reply; the handshake is torn down.
    ProtocolFailure,
    /// The server answered the login with an error token.
    ServerRefused,
}

/// The client's pre-login message: offered version.
pub open spec fn enc_prelogin(version: u32) -> Seq<u8> {
    spec_u32_to_le_bytes(version)
}

/// The server's pre-login reply: its version and whether it requires
/// encryption before login. `None` unless exactly five bytes with a
/// boolean demand byte.
pub open spec fn dec_prelogin_reply(s: Seq<u8>) -> Option<(u32, bool)> {
    if s.len() == 5 && (s[4] == 0 || s[4] == 1) {
        Some((spec_u32_from_le_bytes(s.subrange(0, 4)), s[4] == 1))
    } else {
        None
    }
}

/// The login message: authentication, target database, client version.
pub open spec fn enc_login(c: ConfigModel) -> Seq<u8> {
    (match c.auth {
        AuthModel::Integrated(tok) => seq![0u8] + vstd::bytes::spec_u16_to_le_bytes(
            tok.len() as u16,
        ) + tok,
        AuthModel::Credentials { username, password } => seq![1u8, username.len() as u8]
            + username + seq![password.len() as u8] + password,
    }) + seq![c.database.len() as u8] + c.database + spec_u32_to_le_bytes(c.client_version)
}

/// How a login-response token stream ends.
pub enum LoginScan {
    /// Login acknowledged: active database and server version.
    Accepted(Seq<u8>, u32),
    /// The server answered with an error token.
    Refused,
    /// A token that cannot appear in a login response, or no
    /// acknowledgement at all.
    Invalid,
}

/// Scan a login response left to right, carrying the database and the
/// acknowledged version seen so far.
pub open spec fn scan_login(ts: Seq<TokModel>, db: Seq<u8>, ver: Option<u32>) -> LoginScan
    decreases ts.len(),
{
    if ts.len() == 0 {
        match ver {
            Some(v) => LoginScan::Accepted(db, v),
            None => LoginScan::Invalid,
        }
    } else {
        match ts[0] {
            TokModel::Error { .. } => LoginScan::Refused,
            TokModel::EnvChange { database } => scan_login(ts.drop_first(), database, ver),
            TokModel::LoginAck { version } => scan_login(ts.drop_first(), db, Some(version)),
            TokModel::Done { .. } => scan_login(ts.drop_first(), db, ver),
            _ => LoginScan::Invalid,
        }
    }
}

/// The handshake negotiator: owns the configuration, steps through the
/// stages, and captures the session environment on success.
#[derive(Debug)]
pub struct Negotiator {
    pub state: HandshakeState,
    pub config: Config,
    pub env: SessionEnv,
}

impl Negotiator {
    /// A fresh negotiator for one connection attempt.
    pub fn new(config: Config) -> (n: Negotiator)
        ensures
            n.state is Disconnected,
            n.config@ == config@,
    {
        Negotiator {
            state: HandshakeState::Disconnected,
            config,
            env: SessionEnv { database: Vec::new(), server_version: 0 },
        }
    }

    /// Produce the framed pre-login message. Valid only once, from
    /// `Disconnected`.
    pub fn start(&mut self) -> (r: Result<Vec<u8>, HandshakeError>)
        ensures
            (r is Ok) == (old(self).state is Disconnected),
            match r {
                Ok(bytes) => final(self).state is PreLoginSent && final(self).config
                    == old(self).config && final(self).env == old(self).env && bytes@
                    == enc_packets(PT_PRELOGIN, enc_prelogin(old(self).config@.client_version)),
                Err(e) => e == HandshakeError::OutOfOrder && *final(self) == *old(self),
            },
    {
        if !matches!(self.state, HandshakeState::Disconnected) {
            return Err(HandshakeError::OutOfOrder);
        }
        let mut msg: Vec<u8> = Vec::new();
        put_u32(&mut msg, self.config.client_version);
        proof {
            assert(msg@ =~= enc_prelogin(self.config@.client_version));
        }
        self.state = HandshakeState::PreLoginSent;
        Ok(frame_message(PT_PRELOGIN, &msg))
    }

    /// Consume the server's pre-login reply payload. Returns whether
    /// the server requires encryption before login. A malformed reply
    /// is terminal.
    pub fn on_prelogin_reply(&mut self, payload: &[u8]) -> (r: Result<bool, HandshakeError>)
        ensures
            final(self).config == old(self).config,
            (!(old(self).state is PreLoginSent)) ==> r == Err::<bool, HandshakeError>(
                HandshakeError::OutOfOrder,
            ) && *final(self) == *old(self),
            (old(self).state is PreLoginSent) ==> match dec_prelogin_reply(payload@) {
                Some(p) => r == Ok::<bool, HandshakeError>(p.1) && final(self).state == (
                HandshakeState::PreLoginDone { encrypt_required: p.1 }),
                None => r == Err::<bool, HandshakeError>(HandshakeError::ProtocolFailure)
                    && final(self).state is Failed,
            },
    {
        if !matches!(self.state, HandshakeState::PreLoginSent) {
            return Err(HandshakeError::OutOfOrder);
        }
        if payload.len() != 5 {
            self.state = HandshakeState::Failed;
            return Err(HandshakeError::ProtocolFailure);
        }
        let demand = *slice_index_get(payload, 4);
        if demand > 1 {
            self.state = HandshakeState::Failed;
            return Err(HandshakeError::ProtocolFailure);
        }
        let required = demand == 1;
        self.state = HandshakeState::PreLoginDone { encrypt_required: required };
        Ok(required)
    }

    /// Produce the framed login message. Valid only from
    /// `PreLoginDone`; when the server requires encryption and the
    /// caller has not upgraded the stream, the negotiator fails
    /// *before* any login bytes are produced.
    pub fn send_login(&mut self, stream_encrypted: bool) -> (r: Result<Vec<u8>, HandshakeError>)
        ensures
            final(self).config == old(self).config,
            (!(old(self).state matches HandshakeState::PreLoginDone { .. })) ==> r == Err::<
                Vec<u8>,
                HandshakeError,
            >(HandshakeError::OutOfOrder) && *final(self) == *old(self),
            old(self).state matches HandshakeState::PreLoginDone { encrypt_required } ==> {
                if encrypt_required && !stream_encrypted {
                    &&& r == Err::<Vec<u8>, HandshakeError>(HandshakeError::EncryptionRequired)
                    &&& final(self).state is Failed
                } else if !config_valid(old(self).config@) {
                    &&& r == Err::<Vec<u8>, HandshakeError>(HandshakeError::InvalidConfig)
                    &&& final(self).state is Failed
                } else {
                    &&& final(self).state is LoginSent
                    &&& match r {
                        Ok(bytes) => bytes@ == enc_packets(
                            PT_LOGIN,
                            enc_login(old(self).config@),
                        ),
                        Err(_) => false,
                    }
                }
            },
    {
        let encrypt_required = match self.state {
            HandshakeState::PreLoginDone { encrypt_required } => encrypt_required,
            _ => {
                return Err(HandshakeError::OutOfOrder);
            },
        };
        if encrypt_required && !stream_encrypted {
            self.state = HandshakeState::Failed;
            return Err(HandshakeError::EncryptionRequired);
        }
        let mut msg: Vec<u8> = Vec::new();
        match &self.config.auth {
            Auth::Integrated(tok) => {
                if tok.len() > 65535 {
                    self.state = HandshakeState::Failed;
                    return Err(HandshakeError::InvalidConfig);
                }
                msg.push(0);
                put_u16(&mut msg, tok.len() as u16);
                msg.extend_from_slice(tok.as_slice());
            },
            Auth::Credentials { username, password } => {
                if username.len() > 255 || password.len() > 255 {
                    self.state = HandshakeState::Failed;
                    return Err(HandshakeError::InvalidConfig);
                }
                msg.push(1);
                msg.push(username.len() as u8);
                msg.extend_from_slice(username.as_slice());
                msg.push(password.len() as u8);
                msg.extend_from_slice(password.as_slice());
            },
        }
        if self.config.database.len() > 255 {
            self.state = HandshakeState::Failed;
            return Err(HandshakeError::InvalidConfig);
        }
        msg.push(self.config.database.len() as u8);
        msg.extend_from_slice(self.config.database.as_slice());
        put_u32(&mut msg, self.config.client_version);
        proof {
            assert(msg@ =~= enc_login(self.config@));
        }
        self.state = HandshakeState::LoginSent;
        Ok(frame_message(PT_LOGIN, &msg))
    }

    /// Consume the decoded tokens of the login response. On success
    /// the session state they carry (active database, acknowledged
    /// version) is captured and the negotiator is `Ready`; an error
    /// token or an unexpected token is terminal.
    pub fn on_login_reply(&mut self, tokens: &Vec<Token>) -> (r: Result<(), HandshakeError>)
        ensures
            final(self).config == old(self).config,
            (!(old(self).state is LoginSent)) ==> r == Err::<(), HandshakeError>(
                HandshakeError::OutOfOrder,
            ) && *final(self) == *old(self),
            (old(self).state is LoginSent) ==> match scan_login(
                toks_view(tokens@),
                Seq::empty(),
                None,
            ) {
                LoginScan::Accepted(db, v) => r is Ok && final(self).state is Ready
                    && final(self).env.database@ == db && final(self).env.server_version == v,
                LoginScan::Refused => r == Err::<(), HandshakeError>(
                    HandshakeError::ServerRefused,
                ) && final(self).state is Failed,
                LoginScan::Invalid => r == Err::<(), HandshakeError>(
                    HandshakeError::ProtocolFailure,
                ) && final(self).state is Failed,
            },
    {
        if !matches!(self.state, HandshakeState::LoginSent) {
            return Err(HandshakeError::OutOfOrder);
        }
        let ghost tv = toks_view(tokens@);
        proof {
            assert(tv.len() == tokens@.len());
            assert forall|j: int| 0 <= j < tv.len() implies tv[j] == tokens@[j]@ by {
                assert(tv[j] == toks_view(tokens@)[j]);
            };
            assert(tv.skip(0) =~= tv);
        }
        let mut db: Vec<u8> = Vec::new();
        let mut ver: Option<u32> = None;
        let n = tokens.len();
        let mut i: usize = 0;
        while i < n
            invariant
                tv == toks_view(tokens@),
                n == tokens@.len() == tv.len(),
                forall|j: int| 0 <= j < tv.len() ==> #[trigger] tv[j] == tokens@[j]@,
                i <= n,
                scan_login(tv, Seq::empty(), None) == scan_login(
                    tv.skip(i as int),
                    db@,
                    ver,
                ),
                old(self).state is LoginSent,
                *self == *old(self),
            decreases n - i,
        {
            proof {
                assert(tv.skip(i as int)[0] == tv[i as int]);
                assert(tv.skip(i as int).drop_first() =~= tv.skip(i as int + 1));
            }
            match &tokens[i] {
                Token::Error { .. } => {
                    self.state = HandshakeState::Failed;
                    return Err(HandshakeError::ServerRefused);
                },
                Token::EnvChange { database } => {
                    db = slice_to_vec(database.as_slice());
                },
                Token::LoginAck { version } => {
                    ver = Some(*version);
                },
                Token::Done { .. } => {},
                _ => {
                    self.state = HandshakeState::Failed;
                    return Err(HandshakeError::ProtocolFailure);
                },
            }
            i += 1;
        }
        proof {
            assert(tv.skip(n as int) =~= Seq::<TokModel>::empty());
        }
        match ver {
            Some(v) => {
                self.env = SessionEnv { database: db, server_version: v };
                self.state = HandshakeState::Ready;
                Ok(())
            },
            None => {
                self.state = HandshakeState::Failed;
                Err(HandshakeError::ProtocolFailure)
            },
        }
    }

    /// The session environment captured by a successful handshake.
    pub fn env(&self) -> (e: &SessionEnv)
        ensures
            e == self.env,
    {
        &self.env
    }
}

/// Encode a pre-login reply as a server would: its version and whether
/// it requires encryption. The exact inverse of [`dec_prelogin_reply`].
pub fn encode_prelogin_reply(version: u32, encrypt_required: bool) -> (out: Vec<u8>)
    ensures
        dec_prelogin_reply(out@) == Some((version, encrypt_required)),
{
    let mut out: Vec<u8> = Vec::new();
    put_u32(&mut out, version);
    if encrypt_required {
        out.push(1);
    } else {
        out.push(0);
    }
    proof {
        lemma_auto_spec_u32_to_from_le_bytes();
        assert(out@.subrange(0, 4) =~= spec_u32_to_le_bytes(version));
        assert(out@.len() == 5);
    }
    out
}

} // verus!
