//! The key behind a node's identity.

use vstd::prelude::*;
use vstd::string::StringExecFns;

use crate::networking::hex;

verus! {

/// The peer identifier of a secp256k1 secret key, or the message about bytes that are
/// none.
pub uninterp spec fn secret_peer_text(key: Seq<u8>) -> Result<Seq<char>, Seq<char>>;

/// libp2p's `secp256k1::SecretKey::try_from_bytes`, with the key pair of the secret and
/// `PeerId::from_public_key`: the text of the peer identifier that the key gives.
#[verifier::external_body]
pub(crate) fn read_secret_peer(key: &[u8]) -> (r: Result<String, String>)
    ensures
        crate::ssz::view_outcome(r) == secret_peer_text(key@),
{
    let secret = libp2p::identity::secp256k1::SecretKey::try_from_bytes(key.to_vec()).map_err(
        |e| e.to_string(),
    )?;
    let pair = libp2p::identity::secp256k1::Keypair::from(secret);
    let public = libp2p::identity::Keypair::from(pair).public();
    Ok(libp2p::PeerId::from_public_key(&public).to_string())
}

/// What the outcome of parsing a key gives: the key with its peer, or the message.
pub open spec fn parsed_key(key: Seq<u8>, peer: Result<Seq<char>, Seq<char>>) -> Result<
    (Seq<u8>, Seq<char>),
    Seq<char>,
> {
    match peer {
        Ok(p) => Ok((key, p)),
        Err(m) => Err("failed to parse secp256k1 secret key: "@ + m),
    }
}

/// The key that a key file's text gives, with its peer identifier.
pub open spec fn node_key_of(raw: Seq<char>) -> Result<(Seq<u8>, Seq<char>), Seq<char>> {
    match hex::key_of(raw) {
        Err(m) => Err(m),
        Ok(key) => parsed_key(key, secret_peer_text(key)),
    }
}

/// The value of a key with its peer identifier, or of the message about it.
pub open spec fn key_outcome(r: Result<(Vec<u8>, String), String>) -> Result<
    (Seq<u8>, Seq<char>),
    Seq<char>,
> {
    match r {
        Ok(k) => Ok((k.0@, k.1@)),
        Err(m) => Err(m@),
    }
}

/// Puts a key and the outcome of parsing it together.
pub fn with_peer(key: Vec<u8>, peer: Result<String, String>) -> (r: Result<
    (Vec<u8>, String),
    String,
>)
    ensures
        key_outcome(r) == parsed_key(key@, crate::ssz::view_outcome(peer)),
{
    match peer {
        Ok(p) => Ok((key, p)),
        Err(m) => {
            let mut s: String = "failed to parse secp256k1 secret key: ".to_string();
            s.append(m.as_str());
            Err(s)
        },
    }
}

/// Reads the text of a key file: a 32-byte secp256k1 secret key in hexadecimal. The
/// answer is the key and the peer identifier that it gives.
pub fn read_node_key(raw: &str) -> (r: Result<(Vec<u8>, String), String>)
    ensures
        key_outcome(r) == node_key_of(raw@),
{
    match hex::decode_hex_key(raw) {
        Err(m) => Err(m),
        Ok(key) => {
            let peer = read_secret_peer(key.as_slice());
            with_peer(key, peer)
        },
    }
}

/// The identity that a node takes.
#[derive(Clone, Debug, PartialEq, Eq)]
pub enum NodeIdentity {
    /// That of a key from a file.
    Stored {
        /// The secret key.
        key: Vec<u8>,
        /// Its peer identifier.
        peer: String,
    },
    /// That of a fresh key, because of a fault with the key file where there is one.
    Ephemeral {
        /// What is wrong with the key file.
        fault: Option<String>,
    },
}

/// The value of a [`NodeIdentity`].
#[verifier::ext_equal]
pub enum IdentityModel {
    Stored { key: Seq<u8>, peer: Seq<char> },
    Ephemeral { fault: Option<Seq<char>> },
}

impl View for NodeIdentity {
    type V = IdentityModel;

    open spec fn view(&self) -> IdentityModel {
        match *self {
            NodeIdentity::Stored { key, peer } => IdentityModel::Stored { key: key@, peer: peer@ },
            NodeIdentity::Ephemeral { fault } => IdentityModel::Ephemeral {
                fault: match fault {
                    Some(m) => Some(m@),
                    None => None,
                },
            },
        }
    }
}

/// The identity for what a key file gave. Without a key file, and where it could not be
/// read or parsed, the identity is ephemeral.
pub open spec fn identity_of(file: Option<Result<Seq<char>, Seq<char>>>) -> IdentityModel {
    match file {
        None => IdentityModel::Ephemeral { fault: None },
        Some(Err(m)) => IdentityModel::Ephemeral { fault: Some(m) },
        Some(Ok(raw)) => match node_key_of(raw) {
            Ok((key, peer)) => IdentityModel::Stored { key, peer },
            Err(m) => IdentityModel::Ephemeral { fault: Some(m) },
        },
    }
}

/// The value of what reading a key file gave, if there is one.
pub open spec fn file_outcome(file: Option<Result<String, String>>) -> Option<
    Result<Seq<char>, Seq<char>>,
> {
    match file {
        None => None,
        Some(Ok(raw)) => Some(Ok(raw@)),
        Some(Err(m)) => Some(Err(m@)),
    }
}

/// Chooses the identity, given the key file's text or the message about reading it.
pub fn choose_identity(file: Option<Result<String, String>>) -> (r: NodeIdentity)
    ensures
        r@ == identity_of(file_outcome(file)),
{
    match file {
        None => NodeIdentity::Ephemeral { fault: None },
        Some(Err(m)) => NodeIdentity::Ephemeral { fault: Some(m) },
        Some(Ok(raw)) => match read_node_key(raw.as_str()) {
            Ok((key, peer)) => NodeIdentity::Stored { key, peer },
            Err(m) => NodeIdentity::Ephemeral { fault: Some(m) },
        },
    }
}

} // verus!
