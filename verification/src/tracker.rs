//! What is said to the tracker and what it answers.

use crate::error::Error;
use crate::grammar::field;
use crate::peer::{Peers, PeersVisitor};
use crate::torrent::{as_size, size_from, Torrent};
use crate::value::{BenCode, BenValue};
use vstd::prelude::*;
use vstd::slice::slice_subrange;
use vstd::string::StringExecFns;

verus! {

/// The key `interval`.
pub open spec fn key_interval() -> Seq<u8> {
    seq![105u8, 110u8, 116u8, 101u8, 114u8, 118u8, 97u8, 108u8]
}

/// The key `peers`.
pub open spec fn key_peers() -> Seq<u8> {
    seq![112u8, 101u8, 101u8, 114u8, 115u8]
}

/// The key `interval`.
pub fn interval_key() -> (key: Vec<u8>)
    ensures
        key@ == key_interval(),
{
    let key: Vec<u8> = vec![105u8, 110u8, 116u8, 101u8, 114u8, 118u8, 97u8, 108u8];
    key
}

/// The key `peers`.
pub fn peers_key() -> (key: Vec<u8>)
    ensures
        key@ == key_peers(),
{
    let key: Vec<u8> = vec![112u8, 101u8, 101u8, 114u8, 115u8];
    key
}

/// The hexadecimal digit, in lower case, of a number below sixteen.
pub open spec fn hex_digit(n: int) -> char {
    if n < 10 {
        ((48 + n) as u8) as char
    } else {
        ((87 + n) as u8) as char
    }
}

/// The bytes `data` in hexadecimal: two digits in lower case for each byte.
pub open spec fn hex_text(data: Seq<u8>) -> Seq<char>
    decreases data.len(),
{
    if data.len() == 0 {
        Seq::empty()
    } else {
        hex_text(data.drop_last()) + seq![
            hex_digit(data.last() as int / 16),
            hex_digit(data.last() as int % 16),
        ]
    }
}

/// The bytes `data` as they stand in a URL: a percent sign and two
/// hexadecimal digits for each byte.
pub open spec fn percent_encoded(data: Seq<u8>) -> Seq<char>
    decreases data.len(),
{
    if data.len() == 0 {
        Seq::empty()
    } else {
        percent_encoded(data.drop_last()) + seq!['%'] + hex_text(seq![data.last()])
    }
}

/// `hex::encode`: the bytes `data` in hexadecimal, two digits in lower case
/// for each byte.
#[verifier::external_body]
pub(crate) fn hex_encode(data: &[u8]) -> (text: String)
    ensures
        text@ == hex_text(data@),
{
    hex::encode(data)
}

/// The part of the query of a tracker URL that names the torrent: the text
/// `&info_hash=` and the digest, each byte as a percent sign and two
/// hexadecimal digits.
pub fn info_hash_query(info_hash: &[u8; 20]) -> (query: String)
    ensures
        query@ == "&info_hash="@ + percent_encoded(info_hash@),
{
    let mut query = String::from_str("&info_hash=");
    let bytes = info_hash.as_slice();
    let mut i: usize = 0;
    while i < 20
        invariant
            i <= 20,
            bytes@ == info_hash@,
            query@ == "&info_hash="@ + percent_encoded(info_hash@.take(i as int)),
        decreases 20 - i,
    {
        let digits = hex_encode(slice_subrange(bytes, i, i + 1));
        proof {
            reveal_strlit("%");
            assert(info_hash@.take(i + 1).drop_last() =~= info_hash@.take(i as int));
            assert(bytes@.subrange(i as int, i + 1) =~= seq![info_hash@[i as int]]);
        }
        query.append("%");
        query.append(digits.as_str());
        i += 1;
    }
    assert(info_hash@.take(20) =~= info_hash@);
    query
}

/// What a client tells the tracker.
#[derive(Debug, Clone, PartialEq, Eq)]
pub struct TrackerRequest {
    /// The info hash of the torrent: twenty bytes, not their hexadecimal
    /// form.
    pub info_hash: [u8; 20],
    /// A unique identifier for the client: a text of length twenty.
    pub peer_id: String,
    /// The port the client is listening on.
    pub port: u16,
    /// The total amount uploaded so far.
    pub uploaded: usize,
    /// The total amount downloaded so far.
    pub downloaded: usize,
    /// The number of bytes left to download.
    pub left: usize,
    /// Whether the peer list should use the compact representation.
    pub compact: u8,
}

impl TrackerRequest {
    /// The first request for `torrent`: nothing was uploaded or downloaded
    /// yet, all of the content is left, the client listens on port 6881 and
    /// asks for the compact list of peers.
    pub fn for_torrent(torrent: &Torrent, peer_id: String) -> (request: Self)
        requires
            torrent.info.wf(),
        ensures
            request.info_hash@ == crate::digest::sha1_digest(
                crate::grammar::encode_value(crate::torrent::info_value(torrent.info)),
            ),
            request.peer_id == peer_id,
            request.port == 6881,
            request.uploaded == 0,
            request.downloaded == 0,
            request.left == torrent.info.keys.length_spec(),
            request.compact == 1,
    {
        TrackerRequest {
            info_hash: torrent.info_hash(),
            peer_id,
            port: 6881,
            uploaded: 0,
            downloaded: 0,
            left: torrent.info.total_length(),
            compact: 1,
        }
    }
}

/// What the tracker answers.
#[derive(Debug, Clone, PartialEq, Eq)]
pub struct TrackerResponse {
    /// How often the client should ask the tracker again, in seconds.
    pub interval: usize,
    /// The peers that the client can connect to.
    pub peers: Peers,
}

/// Whether the bencode value `v` is the answer of a tracker: a dictionary
/// with a size under `interval` and, under `peers`, a byte string whose length
/// is a multiple of six.
pub open spec fn valid_response(v: BenValue) -> bool {
    &&& field(v, key_interval()) matches Some(i) && as_size(i) is Some
    &&& field(v, key_peers()) matches Some(BenValue::Bytes(b)) && b.len() % 6 == 0
}

impl TrackerResponse {
    /// The answer that `value` describes. A value that does not describe one
    /// is malformed.
    pub fn from_bencode(value: &BenCode) -> (r: Result<TrackerResponse, Error>)
        ensures
            valid_response(value@) ==> (r matches Ok(response) && (field(value@, key_interval())
                matches Some(i) && as_size(i) == Some(response.interval as nat)) && field(
                value@,
                key_peers(),
            ) == Some(BenValue::Bytes(crate::peer::compact_form(response.peers.0@)))),
            !valid_response(value@) ==> (r matches Err(e) && e == Error::MalformedBencode),
    {
        let interval = match value.get(interval_key().as_slice()) {
            Some(i) => match size_from(i) {
                Some(interval) => interval,
                None => {
                    return Err(Error::MalformedBencode);
                },
            },
            None => {
                return Err(Error::MalformedBencode);
            },
        };
        let peers = match value.get(peers_key().as_slice()) {
            Some(BenCode::String(bytes)) => match (PeersVisitor {  }).visit_bytes(
                bytes.as_slice(),
            ) {
                Ok(peers) => peers,
                Err(e) => {
                    return Err(e);
                },
            },
            _ => {
                return Err(Error::MalformedBencode);
            },
        };
        Ok(TrackerResponse { interval, peers })
    }
}

} // verus!
