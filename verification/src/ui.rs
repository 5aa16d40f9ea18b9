//! The bookkeeping behind the peer windows of the desktop UI: which
//! connection requests are waiting, which remote peers are connected,
//! and the recent timing figures shown for a stream.
use crate::media::{StageStatistics, Statistics};
use crate::signal::{ConnectionId, PeerId};
use std::collections::HashMap;
use std::collections::VecDeque;
use vstd::prelude::*;
use vstd::std_specs::iter::IteratorSpec;

verus! {

broadcast use vstd::std_specs::hash::group_hash_axioms;

#[derive(Clone, Copy, Debug, PartialEq, Eq, Structural)]
pub enum Visible {
    No,
    Yes,
}

impl Default for Visible {
    fn default() -> (v: Visible)
        ensures
            v == Visible::Yes,
    {
        Visible::Yes
    }
}

#[derive(Clone, Copy, Debug, PartialEq, Eq, Structural)]
pub enum ShouldRemove {
    Yes,
    No,
}

/// What is known of the stream being shown. Times are nanoseconds:
/// `start_time` by the local monotonic clock when the frame was shown,
/// `start_timestamp` and `time` by the sender's clock.
#[derive(Clone, Copy, Debug, PartialEq, Eq, Structural)]
pub struct PeerMediaState {
    pub start_time: u64,
    pub start_timestamp: u64,
    pub time: u64,
    pub statistics: Statistics,
}

/// Where the time of one frame went, in nanoseconds.
#[derive(Clone, Copy, Debug, PartialEq, Eq, Structural)]
pub struct FrameTimeline {
    pub conversion: u64,
    pub encode: u64,
    pub network: u64,
    pub decode: u64,
    pub total: u64,
    pub gap: u64,
}

/// How many frame timelines are kept.
pub const MAX_FRAME_TIMELINES: usize = 10;

/// The distance between two instants.
pub open spec fn abs_diff(a: u64, b: u64) -> u64 {
    if a >= b {
        (a - b) as u64
    } else {
        (b - a) as u64
    }
}

/// How far the display is from the sender's clock: the difference between
/// the time since the stream started here and the stream time there.
pub fn frame_delay(elapsed: u64, media_time: u64) -> (d: u64)
    ensures
        d == abs_diff(elapsed, media_time),
{
    let a = elapsed.saturating_sub(media_time);
    let b = media_time.saturating_sub(elapsed);
    if a >= b {
        a
    } else {
        b
    }
}

/// Keeps the last `framerate` sets of statistics (about one second): the
/// new set goes at the back, and when that makes the window longer than
/// `framerate`, the oldest set goes.
pub fn push_statistics(window: &mut VecDeque<Statistics>, stats: Statistics, framerate: u32)
    ensures
        old(window)@.len() + 1 > framerate ==> final(window)@ == old(window)@.push(stats).drop_first(),
        old(window)@.len() + 1 <= framerate ==> final(window)@ == old(window)@.push(stats),
{
    window.push_back(stats);
    if window.len() > framerate as usize {
        let _ = window.pop_front();
    }
}

pub open spec fn stage_time(s: Option<StageStatistics>) -> u64 {
    match s {
        Some(st) => st.time,
        None => 0,
    }
}

/// The network time of a frame: from the end of encoding to the start of
/// decoding, when both are known and in that order.
pub open spec fn spec_network_time(stats: Statistics) -> Option<u64> {
    match (stats.encode, stats.decode) {
        (Some(e), Some(d)) => if d.start_time >= e.end_time {
            Some((d.start_time - e.end_time) as u64)
        } else {
            None
        },
        _ => None,
    }
}

/// The timeline of a frame whose whole delay was `total`.
pub open spec fn spec_timeline(stats: Statistics, network: u64, total: u64) -> FrameTimeline {
    let known = stage_time(stats.convert) + stage_time(stats.encode) + network + stage_time(
        stats.decode,
    );
    FrameTimeline {
        conversion: stage_time(stats.convert),
        encode: stage_time(stats.encode),
        network: network,
        decode: stage_time(stats.decode),
        total: total,
        gap: if total >= known {
            (total - known) as u64
        } else {
            0
        },
    }
}

/// Adds the timeline of a frame at the front, keeping the last ten; a
/// frame without a known network time adds nothing. Returns the network
/// time.
pub fn update_frame_timeline(timelines: &mut VecDeque<FrameTimeline>, stats: Statistics, total: u64) -> (network: Option<u64>)
    requires
        old(timelines)@.len() <= MAX_FRAME_TIMELINES,
    ensures
        network == spec_network_time(stats),
        final(timelines)@.len() <= MAX_FRAME_TIMELINES,
        network is None ==> final(timelines)@ == old(timelines)@,
        network matches Some(n) ==> {
            let added = seq![spec_timeline(stats, n, total)] + old(timelines)@;
            final(timelines)@ == if added.len() > MAX_FRAME_TIMELINES {
                added.drop_last()
            } else {
                added
            }
        },
{
    let network = match (stats.encode, stats.decode) {
        (Some(e), Some(d)) => if d.start_time >= e.end_time {
            Some(d.start_time - e.end_time)
        } else {
            None
        },
        _ => None,
    };
    match network {
        None => None,
        Some(n) => {
            let conversion = match stats.convert {
                Some(c) => c.time,
                None => 0,
            };
            let encode = match stats.encode {
                Some(e) => e.time,
                None => 0,
            };
            let decode = match stats.decode {
                Some(d) => d.time,
                None => 0,
            };
            let known: u128 = conversion as u128 + encode as u128 + n as u128 + decode as u128;
            let gap: u64 = if total as u128 >= known {
                (total as u128 - known) as u64
            } else {
                0
            };
            let t = FrameTimeline { conversion, encode, network: n, decode, total, gap };
            assert(t == spec_timeline(stats, n, total));
            let ghost before = timelines@;
            timelines.push_front(t);
            assert(timelines@ == seq![t] + before);
            if timelines.len() > MAX_FRAME_TIMELINES {
                let _ = timelines.pop_back();
            }
            Some(n)
        },
    }
}

/// A pipeline stage whose timings are shown.
#[derive(Clone, Copy, Debug, PartialEq, Eq, Structural)]
pub enum Stage {
    Encode,
    Decode,
    Convert,
}

pub open spec fn stage_of(s: Statistics, stage: Stage) -> Option<StageStatistics> {
    match stage {
        Stage::Encode => s.encode,
        Stage::Decode => s.decode,
        Stage::Convert => s.convert,
    }
}

/// The summed time of `stage` over the frames of `w` that went through
/// it, and how many did.
pub open spec fn stage_totals(w: Seq<Statistics>, stage: Stage) -> (int, int)
    decreases w.len(),
{
    if w.len() == 0 {
        (0, 0)
    } else {
        let r = stage_totals(w.drop_last(), stage);
        match stage_of(w.last(), stage) {
            Some(st) => (r.0 + st.time, r.1 + 1),
            None => r,
        }
    }
}

proof fn lemma_stage_totals_bounds(w: Seq<Statistics>, stage: Stage)
    ensures
        0 <= stage_totals(w, stage).0 <= w.len() * 0xffff_ffff_ffff_ffffint,
        0 <= stage_totals(w, stage).1 <= w.len(),
    decreases w.len(),
{
    if w.len() > 0 {
        lemma_stage_totals_bounds(w.drop_last(), stage);
        assert((w.len() - 1) * 0xffff_ffff_ffff_ffffint + 0xffff_ffff_ffff_ffffint == w.len()
            * 0xffff_ffff_ffff_ffffint) by (nonlinear_arith);
    }
}

/// What the average time of a stage over the window is made of: the
/// summed time in nanoseconds and the number of frames that had the stage.
pub fn stage_time_totals(window: &VecDeque<Statistics>, stage: Stage) -> (r: (u128, usize))
    ensures
        r.0 == stage_totals(window@, stage).0,
        r.1 == stage_totals(window@, stage).1,
{
    let mut total: u128 = 0;
    let mut count: usize = 0;
    let mut i: usize = 0;
    while i < window.len()
        invariant
            i <= window@.len(),
            total == stage_totals(window@.take(i as int), stage).0,
            count == stage_totals(window@.take(i as int), stage).1,
        decreases window@.len() - i,
    {
        let s: Statistics = window[i];
        proof {
            assert(window@.take(i + 1).drop_last() =~= window@.take(i as int));
            assert(window@.take(i + 1).last() == s);
            lemma_stage_totals_bounds(window@.take(i + 1), stage);
            assert((i + 1) * 0xffff_ffff_ffff_ffffint <= 0xffff_ffff_ffff_ffff_ffff_ffff_ffff_ffffint)
                by (nonlinear_arith)
                requires
                    i < 0xffff_ffff_ffff_ffffint,
            ;
        }
        let part = match stage {
            Stage::Encode => s.encode,
            Stage::Decode => s.decode,
            Stage::Convert => s.convert,
        };
        match part {
            Some(st) => {
                total = total + st.time as u128;
                count = count + 1;
            },
            None => {},
        }
        i = i + 1;
    }
    assert(window@.take(i as int) =~= window@);
    (total, count)
}

// ---------------------------------------------------------------------------
// Connection requests of a UI peer
// ---------------------------------------------------------------------------

/// Some pending request from `peer`, if there is one; which one, when
/// there are several, depends on the map's order.
pub fn request_from(requests: &HashMap<ConnectionId, PeerId>, peer: &PeerId) -> (r: Option<ConnectionId>)
    ensures
        r matches Some(c) ==> requests@.contains_key(c) && requests@[c]@ == peer@,
        r is None ==> forall|c: u128| #[trigger] requests@.contains_key(c) ==> requests@[c]@ != peer@,
{
    let ghost keys = vstd::std_specs::hash::spec_keys_iter(requests).remaining();
    for c in it: requests.keys()
        invariant
            it.seq() == keys,
            keys.unref().to_set() == requests@.dom(),
            forall|j: int| 0 <= j < it.index() ==> requests@[*keys[j]]@ != peer@,
    {
        match requests.get(c) {
            Some(p) => {
                if *p == *peer {
                    return Some(*c);
                }
            },
            None => {},
        }
    }
    proof {
        assert forall|c: u128| #[trigger] requests@.contains_key(c) implies requests@[c]@ != peer@ by {
            assert(keys.unref().to_set().contains(c));
            let j = choose|j: int| 0 <= j < keys.unref().len() && keys.unref()[j] == c;
            assert(*keys[j] == c);
        }
    }
    None
}

/// The connection bookkeeping of one peer of the UI: requests that came
/// in by connection id, the remote peers connected to, and the last
/// request seen.
pub struct UIPeerBook {
    pub last_connection_request: Option<ConnectionId>,
    pub connection_peer_id: HashMap<ConnectionId, PeerId>,
    pub remote_peers: Vec<PeerId>,
}

pub open spec fn ids_of(s: Seq<PeerId>) -> Set<Seq<char>> {
    Set::new(|p: Seq<char>| exists|i: int| 0 <= i < s.len() && (#[trigger] s[i])@ == p)
}

impl UIPeerBook {
    pub fn new() -> (b: UIPeerBook)
        ensures
            b.last_connection_request is None,
            b.connection_peer_id@ == Map::<u128, PeerId>::empty(),
            b.remote_peers@ == Seq::<PeerId>::empty(),
    {
        UIPeerBook {
            last_connection_request: None,
            connection_peer_id: HashMap::new(),
            remote_peers: Vec::new(),
        }
    }

    /// A connection request came in: it is remembered under its id and is
    /// the last one seen.
    pub fn handle_connection_request(&mut self, peer_id: PeerId, connection_id: ConnectionId)
        ensures
            final(self).last_connection_request == Some(connection_id),
            final(self).connection_peer_id@ == old(self).connection_peer_id@.insert(
                connection_id,
                peer_id,
            ),
            final(self).remote_peers == old(self).remote_peers,
    {
        self.last_connection_request = Some(connection_id);
        self.connection_peer_id.insert(connection_id, peer_id);
    }

    /// Accepting `peer_id`: takes out a pending request from it and hands
    /// back its id; with none, nothing changes.
    pub fn take_request_from(&mut self, peer_id: &PeerId) -> (r: Option<ConnectionId>)
        ensures
            final(self).remote_peers == old(self).remote_peers,
            final(self).last_connection_request == old(self).last_connection_request,
            r matches Some(c) ==> old(self).connection_peer_id@.contains_key(c)
                && old(self).connection_peer_id@[c]@ == peer_id@
                && final(self).connection_peer_id@ == old(self).connection_peer_id@.remove(c),
            r is None ==> final(self).connection_peer_id@ == old(self).connection_peer_id@
                && forall|c: u128| #[trigger] old(self).connection_peer_id@.contains_key(c) ==> old(
                self,
            ).connection_peer_id@[c]@ != peer_id@,
    {
        match request_from(&self.connection_peer_id, peer_id) {
            Some(c) => {
                let _ = self.connection_peer_id.remove(&c);
                Some(c)
            },
            None => None,
        }
    }

    /// A connection to `peer_id` is up; a peer already listed is not
    /// listed again.
    pub fn add_remote_peer(&mut self, peer_id: PeerId)
        ensures
            final(self).remote_peers@ == (if ids_of(old(self).remote_peers@).contains(peer_id@) {
                old(self).remote_peers@
            } else {
                old(self).remote_peers@.push(peer_id)
            }),
            final(self).connection_peer_id == old(self).connection_peer_id,
            final(self).last_connection_request == old(self).last_connection_request,
    {
        if !self.has_remote_peer(&peer_id) {
            self.remote_peers.push(peer_id);
        }
    }

    /// Whether signalling messages, stream requests and media for
    /// `peer_id` have a connection to go to; those for other peers are
    /// dropped.
    pub fn has_remote_peer(&self, peer_id: &PeerId) -> (r: bool)
        ensures
            r == ids_of(self.remote_peers@).contains(peer_id@),
    {
        let mut i: usize = 0;
        while i < self.remote_peers.len()
            invariant
                i <= self.remote_peers@.len(),
                forall|j: int| 0 <= j < i ==> (#[trigger] self.remote_peers@[j])@ != peer_id@,
            decreases self.remote_peers.len() - i,
        {
            if self.remote_peers[i] == *peer_id {
                assert(ids_of(self.remote_peers@).contains(self.remote_peers@[i as int]@));
                return true;
            }
            i = i + 1;
        }
        false
    }
}

} // verus!
