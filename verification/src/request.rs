//! The announce to a tracker: what is asked, and the peers in its answer.

use crate::text::{decimal, percent_hex, to_decimal};
use crate::torrent::TorrentInfo;
use vstd::prelude::*;
use vstd::string::StringExecFns;

verus! {

/// The peer id this client announces itself with.
pub const PEER_ID: &'static str = "00112233445566778899";

/// The port this client announces.
pub const PORT: u16 = 6881;

/// What a client tells a tracker about itself and its download.
#[derive(Debug, Clone, PartialEq, Eq)]
pub struct TrackerRequest {
    /// The info hash, percent-encoded: it goes into the URL as it is.
    pub info_hash: String,
    pub peer_id: String,
    pub port: u16,
    pub uploaded: u64,
    pub downloaded: u64,
    pub left: u64,
    pub compact: u8,
}

/// What a tracker answers: how long to wait before asking again, and the
/// peers in compact form, six bytes each.
#[derive(Debug, Clone, PartialEq, Eq)]
pub struct TrackerResponse {
    pub interval: u64,
    pub peers: Vec<u8>,
}

/// The URL of an announce: the tracker's URL, then the info hash as the
/// first parameter of the query.
pub open spec fn announce_text(tracker_url: Seq<char>, info_hash: Seq<char>) -> Seq<char> {
    tracker_url + "?info_hash="@ + info_hash
}

/// A compact peer as text: the four bytes of its address in decimal with
/// dots between them, a colon, and its port, two bytes big-endian.
pub open spec fn peer_text(peer: Seq<u8>) -> Seq<char>
    recommends
        peer.len() == 6,
{
    decimal(peer[0] as nat) + seq!['.'] + decimal(peer[1] as nat) + seq!['.'] + decimal(
        peer[2] as nat,
    ) + seq!['.'] + decimal(peer[3] as nat) + seq![':'] + decimal(
        (peer[4] * 256 + peer[5]) as nat,
    )
}

impl TrackerRequest {
    /// The announce of a download that has not begun: nothing up, nothing
    /// down, the whole content left, and peers wanted in compact form.
    pub fn new(meta: &TorrentInfo) -> (request: TrackerRequest)
        ensures
            request.info_hash@ == percent_hex(meta.info_hash()),
            request.peer_id@ == PEER_ID@,
            request.port == 6881,
            request.uploaded == 0,
            request.downloaded == 0,
            request.left == meta.length,
            request.compact == 1,
    {
        TrackerRequest {
            info_hash: meta.url_encoded_hash(),
            peer_id: String::from_str(PEER_ID),
            port: PORT,
            uploaded: 0,
            downloaded: 0,
            left: meta.length as u64,
            compact: 1,
        }
    }

    /// The URL to fetch, before the parameters that `query` lists are added.
    pub fn announce_url(&self, tracker_url: &str) -> (url: String)
        ensures
            url@ == announce_text(tracker_url@, self.info_hash@),
    {
        let mut url = String::from_str(tracker_url);
        url.append("?info_hash=");
        url.append(self.info_hash.as_str());
        url
    }

    /// The parameters of the query after the info hash, names and values, in
    /// the order in which they are sent.
    pub fn query(&self) -> (pairs: Vec<(String, String)>)
        ensures
            pairs@.len() == 6,
            pairs@[0].0@ == "peer_id"@ && pairs@[0].1@ == self.peer_id@,
            pairs@[1].0@ == "port"@ && pairs@[1].1@ == decimal(self.port as nat),
            pairs@[2].0@ == "uploaded"@ && pairs@[2].1@ == decimal(self.uploaded as nat),
            pairs@[3].0@ == "downloaded"@ && pairs@[3].1@ == decimal(self.downloaded as nat),
            pairs@[4].0@ == "left"@ && pairs@[4].1@ == decimal(self.left as nat),
            pairs@[5].0@ == "compact"@ && pairs@[5].1@ == decimal(self.compact as nat),
    {
        let mut pairs: Vec<(String, String)> = Vec::new();
        pairs.push((String::from_str("peer_id"), self.peer_id.clone()));
        pairs.push((String::from_str("port"), to_decimal(self.port as u64)));
        pairs.push((String::from_str("uploaded"), to_decimal(self.uploaded)));
        pairs.push((String::from_str("downloaded"), to_decimal(self.downloaded)));
        pairs.push((String::from_str("left"), to_decimal(self.left)));
        pairs.push((String::from_str("compact"), to_decimal(self.compact as u64)));
        pairs
    }
}

impl Default for TrackerResponse {
    fn default() -> (response: TrackerResponse)
        ensures
            response.interval == 0,
            response.peers@.len() == 0,
    {
        TrackerResponse { interval: 0, peers: Vec::new() }
    }
}

impl TrackerResponse {
    /// Whether the peers are whole: six bytes each, none cut short.
    pub open spec fn wf(&self) -> bool {
        self.peers@.len() % 6 == 0
    }

    /// Checks that the peers are whole.
    pub fn is_valid(&self) -> (valid: bool)
        ensures
            valid == self.wf(),
    {
        self.peers.len() % 6 == 0
    }

    /// The peers as `address:port`, in the order of the answer.
    pub fn format_peers(&self) -> (list: Vec<String>)
        requires
            self.wf(),
        ensures
            list@.len() == self.peers@.len() / 6,
            forall|i: int|
                0 <= i < list@.len() ==> (#[trigger] list@[i])@ == peer_text(
                    self.peers@.subrange(6 * i, 6 * i + 6),
                ),
    {
        proof {
            reveal_strlit(".");
            reveal_strlit(":");
        }
        let mut list: Vec<String> = Vec::new();
        let total = self.peers.len();
        let count = total / 6;
        let mut i: usize = 0;
        while i < count
            invariant
                "."@ == seq!['.'],
                ":"@ == seq![':'],
                total == self.peers@.len(),
                total % 6 == 0,
                count == total / 6,
                i <= count,
                list@.len() == i,
                forall|k: int|
                    0 <= k < i ==> (#[trigger] list@[k])@ == peer_text(
                        self.peers@.subrange(6 * k, 6 * k + 6),
                    ),
            decreases count - i,
        {
            let at = 6 * i;
            let ghost peer = self.peers@.subrange(6 * i, 6 * i + 6);
            let port: u16 = self.peers[at + 4] as u16 * 256 + self.peers[at + 5] as u16;
            let mut text = to_decimal(self.peers[at] as u64);
            text.append(".");
            text.append(to_decimal(self.peers[at + 1] as u64).as_str());
            text.append(".");
            text.append(to_decimal(self.peers[at + 2] as u64).as_str());
            text.append(".");
            text.append(to_decimal(self.peers[at + 3] as u64).as_str());
            text.append(":");
            text.append(to_decimal(port as u64).as_str());
            assert(text@ =~= peer_text(peer));
            list.push(text);
            i += 1;
        }
        list
    }
}

} // verus!
