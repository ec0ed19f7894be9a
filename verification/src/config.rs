//! The server's configuration, and how a peer connection is set up from it.
use vstd::prelude::*;
use crate::transceivers::MediaKind;

verus! {

pub struct Config {
    pub app: AppConfig,
}

pub struct AppConfig {
    pub port: u16,
    pub log_dir: String,
    pub redis: String,
    pub nats: String,
    pub stun: String,
    pub turn: Option<String>,
    pub turn_user: Option<String>,
    pub turn_password: Option<String>,
    pub public_ip: Option<String>,
    pub auth: bool,
    pub debug: bool,
}

/// A codec that peer connections accept.
#[derive(Clone, Copy, Debug, PartialEq, Eq, Structural)]
pub struct Codec {
    pub kind: MediaKind,
    pub clock_rate: u32,
    pub channels: u16,
    pub payload_type: u8,
}

/// A TURN server and the credentials for it.
pub struct IceServer {
    pub url: String,
    pub username: String,
    pub credential: String,
}

/// How to set up a peer connection.
pub struct PeerSetup {
    /// VP8 video, then Opus audio.
    pub codecs: Vec<Codec>,
    /// ICE timeouts: disconnected, failed, keep-alive, in seconds.
    pub ice_timeouts_secs: (u64, u64, u64),
    /// The public addresses to announce as server-reflexive candidates.
    pub nat_ips: Vec<String>,
    pub ice_servers: Vec<IceServer>,
}

/// Why a peer connection cannot be set up.
#[derive(Clone, Copy, Debug, PartialEq, Eq, Structural)]
pub enum PeerSetupError {
    TurnUserMissing,
    TurnPasswordMissing,
}

impl PeerSetupError {
    pub fn message(&self) -> (r: String)
        ensures
            r@ == match self {
                PeerSetupError::TurnUserMissing => "TURN username not preset"@,
                PeerSetupError::TurnPasswordMissing => "TURN password not preset"@,
            },
    {
        match self {
            PeerSetupError::TurnUserMissing => "TURN username not preset".to_owned(),
            PeerSetupError::TurnPasswordMissing => "TURN password not preset".to_owned(),
        }
    }
}

pub open spec fn vp8_codec() -> Codec {
    Codec { kind: MediaKind::Video, clock_rate: 90000, channels: 0, payload_type: 96 }
}

pub open spec fn opus_codec() -> Codec {
    Codec { kind: MediaKind::Audio, clock_rate: 48000, channels: 2, payload_type: 111 }
}

pub open spec fn opt_view(o: Option<String>) -> Option<Seq<char>> {
    match o {
        Some(s) => Some(s@),
        None => None,
    }
}

/// The setup of a peer connection under `config`. A TURN server needs both a user name
/// and a password; the STUN server is not used.
pub fn peer_setup(config: &AppConfig) -> (r: Result<PeerSetup, PeerSetupError>)
    ensures
        config.turn is Some && config.turn_user is None ==> r == Err::<PeerSetup, PeerSetupError>(PeerSetupError::TurnUserMissing),
        config.turn is Some && config.turn_user is Some && config.turn_password is None
            ==> r == Err::<PeerSetup, PeerSetupError>(PeerSetupError::TurnPasswordMissing),
        !(config.turn is Some && (config.turn_user is None || config.turn_password is None)) ==> (r matches Ok(s) && {
            &&& s.codecs@ == seq![vp8_codec(), opus_codec()]
            &&& s.ice_timeouts_secs == (3u64, 6u64, 1u64)
            &&& s.nat_ips@.map_values(|x: String| x@) == match opt_view(config.public_ip) {
                Some(ip) => seq![ip],
                None => Seq::<Seq<char>>::empty(),
            }
            &&& match (opt_view(config.turn), opt_view(config.turn_user), opt_view(config.turn_password)) {
                (Some(url), Some(user), Some(pass)) => s.ice_servers@.len() == 1
                    && s.ice_servers@[0].url@ == url
                    && s.ice_servers@[0].username@ == user
                    && s.ice_servers@[0].credential@ == pass,
                _ => s.ice_servers@.len() == 0,
            }
        }),
{
    let mut codecs: Vec<Codec> = Vec::new();
    codecs.push(Codec { kind: MediaKind::Video, clock_rate: 90000, channels: 0, payload_type: 96 });
    codecs.push(Codec { kind: MediaKind::Audio, clock_rate: 48000, channels: 2, payload_type: 111 });
    let mut nat_ips: Vec<String> = Vec::new();
    match &config.public_ip {
        Some(ip) => nat_ips.push(ip.clone()),
        None => {},
    }
    let mut ice_servers: Vec<IceServer> = Vec::new();
    match &config.turn {
        Some(turn) => {
            let username = match &config.turn_user {
                Some(u) => u.clone(),
                None => return Err(PeerSetupError::TurnUserMissing),
            };
            let credential = match &config.turn_password {
                Some(p) => p.clone(),
                None => return Err(PeerSetupError::TurnPasswordMissing),
            };
            ice_servers.push(IceServer { url: turn.clone(), username, credential });
        },
        None => {},
    }
    assert(codecs@ =~= seq![vp8_codec(), opus_codec()]);
    assert(nat_ips@.map_values(|x: String| x@) =~= match opt_view(config.public_ip) {
        Some(ip) => seq![ip],
        None => Seq::<Seq<char>>::empty(),
    });
    Ok(PeerSetup { codecs, ice_timeouts_secs: (3, 6, 1), nat_ips, ice_servers })
}

}
