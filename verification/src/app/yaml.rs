//! What the node reads from YAML documents, node records and raw text.

use vstd::prelude::*;

use crate::networking::discovery;

verus! {

/// The message about a text that is no YAML document, as `serde_yaml` gives it.
pub uninterp spec fn yaml_fault(s: Seq<char>) -> Option<Seq<char>>;

/// The unsigned number that a YAML document holds under a key of its top mapping.
pub uninterp spec fn yaml_number(s: Seq<char>, key: Seq<char>) -> Option<u64>;

/// The sequence that a YAML document holds under a key of its top mapping: for
/// each item its text, if it is a string.
pub uninterp spec fn yaml_texts(s: Seq<char>, key: Seq<char>) -> Option<Seq<Option<Seq<char>>>>;

/// The top sequence of a YAML document. An item that is a string, or a mapping with
/// a string under the key, gives its text; another mapping gives `Some(None)`, and
/// anything else `None`.
pub uninterp spec fn yaml_items(s: Seq<char>, key: Seq<char>) -> Option<
    Seq<Option<Option<Seq<char>>>>,
>;

/// The lists of numbers that a YAML document holds by name, in the order of the
/// names.
pub uninterp spec fn yaml_number_lists(s: Seq<char>) -> Result<
    Seq<(Seq<char>, Seq<u64>)>,
    Seq<char>,
>;

/// What a node record holds: its IPv4 address, the bytes of its `quic` entry, its
/// UDP port for IPv4 and its compressed public key.
pub uninterp spec fn enr_record(s: Seq<char>) -> Result<
    (Option<Seq<u8>>, Option<Seq<u8>>, Option<u16>, Seq<u8>),
    Seq<char>,
>;

/// The peer identifier of a compressed secp256k1 public key.
pub uninterp spec fn peer_text(key: Seq<u8>) -> Result<Seq<char>, Seq<char>>;

/// The message about bytes that are no UTF-8.
pub uninterp spec fn utf8_fault(b: Seq<u8>) -> Seq<char>;

/// The texts of a list that may be missing.
pub open spec fn texts_view(r: Option<Vec<Option<String>>>) -> Option<Seq<Option<Seq<char>>>> {
    match r {
        Some(v) => Some(discovery::option_texts(v@)),
        None => None,
    }
}

/// The text of an item.
pub open spec fn item_view(e: Option<Option<String>>) -> Option<Option<Seq<char>>> {
    match e {
        Some(t) => Some(discovery::option_text(t)),
        None => None,
    }
}

/// The texts of a list of items.
pub open spec fn item_views(v: Seq<Option<Option<String>>>) -> Seq<Option<Option<Seq<char>>>> {
    v.map_values(|e: Option<Option<String>>| item_view(e))
}

/// The texts of a list of items that may be missing.
pub open spec fn items_view(r: Option<Vec<Option<Option<String>>>>) -> Option<
    Seq<Option<Option<Seq<char>>>>,
> {
    match r {
        Some(v) => Some(item_views(v@)),
        None => None,
    }
}

/// Lists of numbers by name.
pub open spec fn list_views(v: Seq<(String, Vec<u64>)>) -> Seq<(Seq<char>, Seq<u64>)> {
    v.map_values(|e: (String, Vec<u64>)| (e.0@, e.1@))
}

/// Lists of numbers by name, or a message.
pub open spec fn lists_view(r: Result<Vec<(String, Vec<u64>)>, String>) -> Result<
    Seq<(Seq<char>, Seq<u64>)>,
    Seq<char>,
> {
    match r {
        Ok(v) => Ok(list_views(v@)),
        Err(e) => Err(e@),
    }
}

/// What a node record holds.
#[derive(Clone, Debug)]
pub struct EnrRecord {
    /// IPv4 address.
    pub ip4: Option<[u8; 4]>,
    /// Bytes of the `quic` entry.
    pub quic: Option<Vec<u8>>,
    /// UDP port for IPv4.
    pub udp4: Option<u16>,
    /// Compressed public key.
    pub public_key: Vec<u8>,
}

impl View for EnrRecord {
    type V = (Option<Seq<u8>>, Option<Seq<u8>>, Option<u16>, Seq<u8>);

    open spec fn view(&self) -> (Option<Seq<u8>>, Option<Seq<u8>>, Option<u16>, Seq<u8>) {
        (
            match self.ip4 {
                Some(a) => Some(a@),
                None => None,
            },
            match self.quic {
                Some(b) => Some(b@),
                None => None,
            },
            self.udp4,
            self.public_key@,
        )
    }
}

/// `serde_yaml::from_str`: the message about a text that is no YAML document.
#[verifier::external_body]
pub(crate) fn read_yaml_fault(s: &str) -> (r: Option<String>)
    ensures
        discovery::option_text(r) == yaml_fault(s@),
{
    serde_yaml::from_str::<serde_yaml::Value>(s).err().map(|e| e.to_string())
}

/// `serde_yaml::from_str` with `Value::get` and `Value::as_u64`: the number under a
/// key of the top mapping.
#[verifier::external_body]
pub(crate) fn read_yaml_number(s: &str, key: &str) -> (r: Option<u64>)
    ensures
        r == yaml_number(s@, key@),
{
    let doc = serde_yaml::from_str::<serde_yaml::Value>(s).ok()?;
    doc.get(key)?.as_u64()
}

/// `serde_yaml::from_str` with `Value::get`, `Value::as_sequence` and
/// `Value::as_str`: the strings of the sequence under a key of the top mapping.
#[verifier::external_body]
pub(crate) fn read_yaml_texts(s: &str, key: &str) -> (r: Option<Vec<Option<String>>>)
    ensures
        texts_view(r) == yaml_texts(s@, key@),
{
    let doc = serde_yaml::from_str::<serde_yaml::Value>(s).ok()?;
    let items = doc.get(key)?.as_sequence()?;
    Some(items.iter().map(|e| e.as_str().map(|t| t.to_string())).collect())
}

/// `serde_yaml::from_str` with `Value::as_sequence`: the items of the top sequence. An
/// item is its string, the string under the key of its mapping, if there is one, or
/// neither of them.
#[verifier::external_body]
pub(crate) fn read_yaml_items(s: &str, key: &str) -> (r: Option<Vec<Option<Option<String>>>>)
    ensures
        items_view(r) == yaml_items(s@, key@),
{
    let doc = serde_yaml::from_str::<serde_yaml::Value>(s).ok()?;
    let items = doc.as_sequence()?;
    Some(
        items.iter().map(
            |e| match e {
                serde_yaml::Value::String(t) => Some(Some(t.clone())),
                serde_yaml::Value::Mapping(m) => Some(
                    m.get(key).and_then(|t| t.as_str()).map(|t| t.to_string()),
                ),
                _ => None,
            },
        ).collect(),
    )
}

/// `serde_yaml::from_str` into a `BTreeMap<String, Vec<u64>>`: the lists of numbers
/// by name, in the order of the names.
#[verifier::external_body]
pub(crate) fn read_yaml_number_lists(s: &str) -> (r: Result<Vec<(String, Vec<u64>)>, String>)
    ensures
        lists_view(r) == yaml_number_lists(s@),
{
    serde_yaml::from_str::<std::collections::BTreeMap<String, Vec<u64>>>(s).map(
        |m| m.into_iter().collect(),
    ).map_err(|e| e.to_string())
}

/// `enr::Enr`'s `FromStr` with the record's getters `ip4`, `get`, `udp4` and
/// `public_key`: what a node record in its textual form holds.
#[verifier::external_body]
pub(crate) fn read_enr(s: &str) -> (r: Result<EnrRecord, String>)
    ensures
        crate::ssz::view_outcome(r) == enr_record(s@),
{
    let record: enr::Enr<enr::k256::ecdsa::SigningKey> = s.parse()?;
    let key = record.public_key();
    Ok(
        EnrRecord {
            ip4: record.ip4().map(|ip| ip.octets()),
            quic: record.get("quic").map(|b| b.to_vec()),
            udp4: record.udp4(),
            public_key: enr::EnrPublicKey::encode(&key).to_vec(),
        },
    )
}

/// libp2p's `secp256k1::PublicKey::try_from_bytes` and `PeerId::from_public_key`:
/// the text of the peer identifier of a public key.
#[verifier::external_body]
pub(crate) fn read_peer(key: &[u8]) -> (r: Result<String, String>)
    ensures
        crate::ssz::view_outcome(r) == peer_text(key@),
{
    let key = libp2p::identity::secp256k1::PublicKey::try_from_bytes(key).map_err(
        |e| e.to_string(),
    )?;
    Ok(libp2p::PeerId::from_public_key(&key.into()).to_string())
}

/// `std::str::from_utf8`: the text that bytes encode, or the message about bytes
/// that are no UTF-8.
#[verifier::external_body]
pub(crate) fn read_utf8(b: &[u8]) -> (r: Result<String, String>)
    ensures
        r is Ok == vstd::utf8::valid_utf8(b@),
        r is Ok ==> r->Ok_0@ == vstd::utf8::decode_utf8(b@),
        r is Err ==> r->Err_0@ == utf8_fault(b@),
{
    std::str::from_utf8(b).map(|s| s.to_string()).map_err(|e| e.to_string())
}

} // verus!
