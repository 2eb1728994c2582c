//! The SFU channel registry and the decisions of its command dispatch:
//! channels own peers, peers own transports, producers and consumers, and
//! every inbound command becomes a checked, exact transition on that tree.
//! The native media worker performs the media work; the registry decides
//! what may happen and records what did.

use vstd::prelude::*;

verus! {

/// A consumer as the registry sees it: its id and whether it stands
/// paused.
#[derive(PartialEq, Eq, Structural, Clone, Copy)]
pub struct ConsumerEntry {
    pub consumer_id: u64,
    pub paused: bool,
}

/// Mathematical model of a peer.
#[verifier::ext_equal]
pub ghost struct PeerV {
    pub peer_id: u64,
    pub deaf: bool,
    pub transports: Seq<u64>,
    pub producers: Seq<u64>,
    pub consumers: Seq<ConsumerEntry>,
}

/// One participant in a channel, owner of its transports and media
/// objects.
pub struct PeerEntry {
    pub peer_id: u64,
    pub deaf: bool,
    pub transports: Vec<u64>,
    pub producers: Vec<u64>,
    pub consumers: Vec<ConsumerEntry>,
}

impl View for PeerEntry {
    type V = PeerV;

    open spec fn view(&self) -> PeerV {
        PeerV {
            peer_id: self.peer_id,
            deaf: self.deaf,
            transports: self.transports@,
            producers: self.producers@,
            consumers: self.consumers@,
        }
    }
}

/// Mathematical model of a channel.
#[verifier::ext_equal]
pub ghost struct ChannelV {
    pub channel_id: u64,
    pub peers: Seq<PeerV>,
}

/// A channel: a router context with its peers.
pub struct ChannelEntry {
    pub channel_id: u64,
    pub peers: Vec<PeerEntry>,
}

impl View for ChannelEntry {
    type V = ChannelV;

    open spec fn view(&self) -> ChannelV {
        ChannelV { channel_id: self.channel_id, peers: self.peers@.map_values(|p: PeerEntry| p@) }
    }
}

/// The whole registry: every channel of the process.
pub struct SfuState {
    pub channels: Vec<ChannelEntry>,
}

/// Why a command was refused.
#[derive(Debug, PartialEq, Eq, Structural)]
pub enum SfuError {
    /// The named channel does not exist.
    NoSuchChannel,
    /// The named peer is not in the channel.
    NoSuchPeer,
    /// The named transport is not owned by the peer.
    NoSuchTransport,
    /// The router cannot consume the producer with the offered
    /// capabilities.
    CannotConsume,
    /// A channel under that id already exists.
    DuplicateChannel,
    /// The announce address is a loopback or unspecified one.
    BadAnnounceIp,
}

/// Index of the first peer with `id`, or `-1`.
pub open spec fn find_peer(peers: Seq<PeerV>, id: u64) -> int
    decreases peers.len(),
{
    if peers.len() == 0 {
        -1
    } else if peers.first().peer_id == id {
        0
    } else {
        let r = find_peer(peers.drop_first(), id);
        if r < 0 {
            -1
        } else {
            r + 1
        }
    }
}

/// Whether the channel holds a peer with `id`.
pub open spec fn has_peer(c: ChannelV, id: u64) -> bool {
    find_peer(c.peers, id) >= 0
}

pub proof fn lemma_find_peer_bounds(peers: Seq<PeerV>, id: u64)
    ensures
        -1 <= find_peer(peers, id) < peers.len(),
        find_peer(peers, id) >= 0 ==> peers[find_peer(peers, id)].peer_id == id,
        find_peer(peers, id) < 0 ==> forall|j: int|
            0 <= j < peers.len() ==> peers[j].peer_id != id,
    decreases peers.len(),
{
    if peers.len() > 0 && peers.first().peer_id != id {
        lemma_find_peer_bounds(peers.drop_first(), id);
        if find_peer(peers, id) < 0 {
            assert forall|j: int| 0 <= j < peers.len() implies peers[j].peer_id != id by {
                if j > 0 {
                    assert(peers.drop_first()[j - 1].peer_id != id);
                }
            }
        }
    }
}

pub proof fn lemma_find_peer_is(peers: Seq<PeerV>, id: u64, i: int)
    requires
        -1 <= i < peers.len(),
        i >= 0 ==> peers[i].peer_id == id,
        forall|j: int| 0 <= j < i ==> peers[j].peer_id != id,
        i < 0 ==> forall|j: int| 0 <= j < peers.len() ==> peers[j].peer_id != id,
    ensures
        find_peer(peers, id) == i,
    decreases peers.len(),
{
    if peers.len() > 0 && peers.first().peer_id != id {
        assert forall|j: int| 0 <= j < i - 1 implies peers.drop_first()[j].peer_id != id by {
            assert(peers[j + 1].peer_id != id);
        }
        if i < 0 {
            assert forall|j: int|
                0 <= j < peers.drop_first().len() implies peers.drop_first()[j].peer_id
                != id by {
                assert(peers[j + 1].peer_id != id);
            }
            lemma_find_peer_is(peers.drop_first(), id, -1);
        } else {
            lemma_find_peer_is(peers.drop_first(), id, i - 1);
        }
    }
}

/// Index of the first occurrence of `id`, or `-1`.
pub open spec fn find_u64(s: Seq<u64>, id: u64) -> int
    decreases s.len(),
{
    if s.len() == 0 {
        -1
    } else if s.first() == id {
        0
    } else {
        let r = find_u64(s.drop_first(), id);
        if r < 0 {
            -1
        } else {
            r + 1
        }
    }
}

pub proof fn lemma_find_u64_is(s: Seq<u64>, id: u64, i: int)
    requires
        -1 <= i < s.len(),
        i >= 0 ==> s[i] == id,
        forall|j: int| 0 <= j < i ==> s[j] != id,
        i < 0 ==> forall|j: int| 0 <= j < s.len() ==> s[j] != id,
    ensures
        find_u64(s, id) == i,
    decreases s.len(),
{
    if s.len() > 0 && s.first() != id {
        assert forall|j: int| 0 <= j < i - 1 implies s.drop_first()[j] != id by {
            assert(s[j + 1] != id);
        }
        if i < 0 {
            assert forall|j: int| 0 <= j < s.drop_first().len() implies s.drop_first()[j]
                != id by {
                assert(s[j + 1] != id);
            }
            lemma_find_u64_is(s.drop_first(), id, -1);
        } else {
            lemma_find_u64_is(s.drop_first(), id, i - 1);
        }
    }
}

/// Finds a consumer's position in a peer's map.
fn consumer_pos(cs: &Vec<ConsumerEntry>, id: u64) -> (r: Option<usize>)
    ensures
        match r {
            Some(t) => t < cs@.len() && find_consumer(cs@, id) == t,
            None => find_consumer(cs@, id) < 0,
        },
{
    let mut k: usize = 0;
    while k < cs.len()
        invariant
            k <= cs@.len(),
            forall|j: int| 0 <= j < k ==> cs@[j].consumer_id != id,
        decreases cs@.len() - k,
    {
        if cs[k].consumer_id == id {
            proof {
                assert(cs@[k as int].consumer_id == id);
                lemma_find_consumer_is(cs@, id, k as int);
            }
            return Some(k);
        }
        proof {
            assert(cs@[k as int].consumer_id != id);
        }
        k += 1;
    }
    proof {
        lemma_find_consumer_is(cs@, id, -1);
    }
    None
}

/// Index of the first consumer with `id`, or `-1`.
pub open spec fn find_consumer(s: Seq<ConsumerEntry>, id: u64) -> int
    decreases s.len(),
{
    if s.len() == 0 {
        -1
    } else if s.first().consumer_id == id {
        0
    } else {
        let r = find_consumer(s.drop_first(), id);
        if r < 0 {
            -1
        } else {
            r + 1
        }
    }
}

pub proof fn lemma_find_consumer_is(s: Seq<ConsumerEntry>, id: u64, i: int)
    requires
        -1 <= i < s.len(),
        i >= 0 ==> s[i].consumer_id == id,
        forall|j: int| 0 <= j < i ==> s[j].consumer_id != id,
        i < 0 ==> forall|j: int| 0 <= j < s.len() ==> s[j].consumer_id != id,
    ensures
        find_consumer(s, id) == i,
    decreases s.len(),
{
    if s.len() > 0 && s.first().consumer_id != id {
        assert forall|j: int| 0 <= j < i - 1 implies s.drop_first()[j].consumer_id != id by {
            assert(s[j + 1].consumer_id != id);
        }
        if i < 0 {
            assert forall|j: int| 0 <= j < s.drop_first().len() implies s.drop_first()[
                j
            ].consumer_id != id by {
                assert(s[j + 1].consumer_id != id);
            }
            lemma_find_consumer_is(s.drop_first(), id, -1);
        } else {
            lemma_find_consumer_is(s.drop_first(), id, i - 1);
        }
    }
}

/// Peer ids are unique within a channel.
pub open spec fn wf_peers(peers: Seq<PeerV>) -> bool {
    forall|i: int, j: int|
        0 <= i < j < peers.len() ==> peers[i].peer_id != peers[j].peer_id
}

/// A peer as it is born: not deaf, owning nothing.
pub open spec fn fresh_peer(id: u64) -> PeerV {
    PeerV {
        peer_id: id,
        deaf: false,
        transports: Seq::empty(),
        producers: Seq::empty(),
        consumers: Seq::empty(),
    }
}

/// Finds a peer's position in the channel.
fn peer_index(peers: &Vec<PeerEntry>, id: u64) -> (r: Option<usize>)
    ensures
        match r {
            Some(i) => i < peers@.len() && find_peer(peers@.map_values(|p: PeerEntry| p@), id)
                == i,
            None => find_peer(peers@.map_values(|p: PeerEntry| p@), id) < 0,
        },
{
    let ghost pv = peers@.map_values(|p: PeerEntry| p@);
    let mut i: usize = 0;
    while i < peers.len()
        invariant
            i <= peers@.len(),
            pv == peers@.map_values(|p: PeerEntry| p@),
            forall|j: int| 0 <= j < i ==> pv[j].peer_id != id,
        decreases peers@.len() - i,
    {
        if peers[i].peer_id == id {
            proof {
                assert(pv[i as int].peer_id == id);
                lemma_find_peer_is(pv, id, i as int);
            }
            return Some(i);
        }
        proof {
            assert(pv[i as int].peer_id != id);
        }
        i += 1;
    }
    proof {
        lemma_find_peer_is(pv, id, -1);
    }
    None
}

/// Removes the first occurrence of `id`, if any.
fn remove_id(v: &mut Vec<u64>, id: u64)
    ensures
        find_u64(old(v)@, id) < 0 ==> final(v)@ == old(v)@,
        find_u64(old(v)@, id) >= 0 ==> final(v)@ == old(v)@.remove(find_u64(old(v)@, id)),
{
    let mut i: usize = 0;
    while i < v.len()
        invariant
            i <= v@.len(),
            v@ == old(v)@,
            forall|j: int| 0 <= j < i ==> v@[j] != id,
        decreases v@.len() - i,
    {
        if v[i] == id {
            proof {
                assert(v@[i as int] == id);
                lemma_find_u64_is(v@, id, i as int);
            }
            v.remove(i);
            return;
        }
        proof {
            assert(v@[i as int] != id);
        }
        i += 1;
    }
    proof {
        lemma_find_u64_is(v@, id, -1);
    }
}

/// A peer with its hearing set: deafening pauses every consumer it owns,
/// undeafening resumes them all.
pub open spec fn deafen_peer_spec(p: PeerV, deafen: bool) -> PeerV {
    PeerV {
        deaf: deafen,
        consumers: p.consumers.map_values(
            |c: ConsumerEntry| ConsumerEntry { consumer_id: c.consumer_id, paused: deafen },
        ),
        ..p
    }
}

/// Deafening and then undeafening a peer leaves every consumer resumed,
/// whatever each was before.
pub proof fn lemma_deafen_round_trip(p: PeerV)
    ensures
        deafen_peer_spec(deafen_peer_spec(p, true), false).consumers.len() == p.consumers.len(),
        forall|i: int|
            0 <= i < p.consumers.len() ==> !deafen_peer_spec(
                deafen_peer_spec(p, true),
                false,
            ).consumers[i].paused,
        forall|i: int|
            0 <= i < p.consumers.len() ==> deafen_peer_spec(
                deafen_peer_spec(p, true),
                false,
            ).consumers[i].consumer_id == p.consumers[i].consumer_id,
{
}

/// The peers a broadcast from `from` reaches: every peer of the channel
/// but the sender, in channel order.
pub open spec fn broadcast_targets_spec(peers: Seq<PeerV>, from: u64) -> Seq<u64>
    decreases peers.len(),
{
    if peers.len() == 0 {
        Seq::empty()
    } else {
        (if peers.first().peer_id == from {
            Seq::empty()
        } else {
            seq![peers.first().peer_id]
        }) + broadcast_targets_spec(peers.drop_first(), from)
    }
}

/// A broadcast reaches exactly the other peers: every peer of the channel
/// except the sender is a target, and, with peer ids unique, no target
/// repeats.
pub proof fn lemma_broadcast_exact(peers: Seq<PeerV>, from: u64, x: u64)
    ensures
        broadcast_targets_spec(peers, from).contains(x) <==> (x != from && exists|i: int|
            0 <= i < peers.len() && peers[i].peer_id == x),
    decreases peers.len(),
{
    let t = broadcast_targets_spec(peers, from);
    if peers.len() > 0 {
        lemma_broadcast_exact(peers.drop_first(), from, x);
        let rest = broadcast_targets_spec(peers.drop_first(), from);
        if t.contains(x) {
            if peers.first().peer_id != from && x == peers.first().peer_id {
                assert(peers[0].peer_id == x);
            } else {
                let k = choose|k: int| 0 <= k < t.len() && t[k] == x;
                let head = (if peers.first().peer_id == from {
                    Seq::<u64>::empty()
                } else {
                    seq![peers.first().peer_id]
                });
                assert(rest[k - head.len()] == x);
                assert(rest.contains(x));
                let i = choose|i: int|
                    0 <= i < peers.drop_first().len() && peers.drop_first()[i].peer_id == x;
                assert(peers[i + 1].peer_id == x);
            }
        }
        if x != from && exists|i: int| 0 <= i < peers.len() && peers[i].peer_id == x {
            let i = choose|i: int| 0 <= i < peers.len() && peers[i].peer_id == x;
            if i == 0 {
                assert(t[0] == x);
            } else {
                assert(peers.drop_first()[i - 1].peer_id == x);
                assert(rest.contains(x));
                let k = choose|k: int| 0 <= k < rest.len() && rest[k] == x;
                let head = (if peers.first().peer_id == from {
                    Seq::<u64>::empty()
                } else {
                    seq![peers.first().peer_id]
                });
                assert(t[k + head.len()] == x);
            }
        }
    }
}

/// With unique peer ids, no broadcast target repeats.
pub proof fn lemma_broadcast_no_repeat(peers: Seq<PeerV>, from: u64)
    requires
        wf_peers(peers),
    ensures
        forall|i: int, j: int|
            0 <= i < j < broadcast_targets_spec(peers, from).len()
                ==> broadcast_targets_spec(peers, from)[i] != broadcast_targets_spec(
                peers,
                from,
            )[j],
    decreases peers.len(),
{
    let t = broadcast_targets_spec(peers, from);
    if peers.len() > 0 {
        let rest_peers = peers.drop_first();
        assert forall|a: int, b: int|
            0 <= a < b < rest_peers.len() implies rest_peers[a].peer_id != rest_peers[
            b
        ].peer_id by {
            assert(peers[a + 1].peer_id != peers[b + 1].peer_id);
        }
        lemma_broadcast_no_repeat(rest_peers, from);
        let rest = broadcast_targets_spec(rest_peers, from);
        if peers.first().peer_id != from {
            assert forall|j: int| 0 <= j < rest.len() implies rest[j]
                != peers.first().peer_id by {
                lemma_broadcast_exact(rest_peers, from, rest[j]);
                assert(rest.contains(rest[j]));
                let i = choose|i: int|
                    0 <= i < rest_peers.len() && rest_peers[i].peer_id == rest[j];
                assert(peers[i + 1].peer_id == rest[j]);
                assert(peers[0].peer_id != peers[i + 1].peer_id);
            }
        }
    }
}

/// All producers of all peers, each tagged with its peer.
pub open spec fn producers_of(peers: Seq<PeerV>) -> Seq<(u64, u64)>
    decreases peers.len(),
{
    if peers.len() == 0 {
        Seq::empty()
    } else {
        peers.first().producers.map_values(
            |q: u64| (peers.first().peer_id, q),
        ) + producers_of(peers.drop_first())
    }
}

/// The producer listing is exact: a pair stands in it precisely when that
/// peer currently holds that producer.
pub proof fn lemma_producers_exact(peers: Seq<PeerV>, p: u64, q: u64)
    ensures
        producers_of(peers).contains((p, q)) <==> exists|i: int|
            0 <= i < peers.len() && peers[i].peer_id == p && peers[i].producers.contains(q),
    decreases peers.len(),
{
    let t = producers_of(peers);
    if peers.len() > 0 {
        lemma_producers_exact(peers.drop_first(), p, q);
        let head = peers.first().producers.map_values(|x: u64| (peers.first().peer_id, x));
        let rest = producers_of(peers.drop_first());
        if t.contains((p, q)) {
            let k = choose|k: int| 0 <= k < t.len() && t[k] == (p, q);
            if k < head.len() {
                assert(head[k] == (p, q));
                assert(peers[0].producers[k] == q);
                assert(peers[0].producers.contains(q));
            } else {
                assert(rest[k - head.len()] == (p, q));
                assert(rest.contains((p, q)));
                let i = choose|i: int|
                    0 <= i < peers.drop_first().len() && peers.drop_first()[i].peer_id == p
                        && peers.drop_first()[i].producers.contains(q);
                assert(peers[i + 1].peer_id == p && peers[i + 1].producers.contains(q));
            }
        }
        if exists|i: int|
            0 <= i < peers.len() && peers[i].peer_id == p && peers[i].producers.contains(q) {
            let i = choose|i: int|
                0 <= i < peers.len() && peers[i].peer_id == p && peers[i].producers.contains(q);
            if i == 0 {
                let k = choose|k: int|
                    0 <= k < peers[0].producers.len() && peers[0].producers[k] == q;
                assert(head[k] == (p, q));
                assert(t[k] == (p, q));
            } else {
                assert(peers.drop_first()[i - 1].peer_id == p && peers.drop_first()[
                    i - 1
                ].producers.contains(q));
                assert(rest.contains((p, q)));
                let k = choose|k: int| 0 <= k < rest.len() && rest[k] == (p, q);
                assert(t[k + head.len()] == (p, q));
            }
        }
    }
}

impl ChannelEntry {
    /// Allocates a peer record under `peer`: fresh and hearing, replacing
    /// any record that already sat under that id.
    pub fn add_peer(&mut self, peer: u64)
        ensures
            find_peer(old(self)@.peers, peer) < 0 ==> final(self)@.peers == old(
                self,
            )@.peers.push(fresh_peer(peer)),
            find_peer(old(self)@.peers, peer) >= 0 ==> final(self)@.peers == old(
                self,
            )@.peers.update(find_peer(old(self)@.peers, peer), fresh_peer(peer)),
            final(self)@.channel_id == old(self)@.channel_id,
    {
        let fresh = PeerEntry {
            peer_id: peer,
            deaf: false,
            transports: Vec::new(),
            producers: Vec::new(),
            consumers: Vec::new(),
        };
        proof {
            assert(fresh@ =~~= fresh_peer(peer));
        }
        match peer_index(&self.peers, peer) {
            Some(i) => {
                self.peers[i] = fresh;
                proof {
                    assert(self@.peers =~= old(self)@.peers.update(
                        find_peer(old(self)@.peers, peer),
                        fresh_peer(peer),
                    ));
                }
            },
            None => {
                self.peers.push(fresh);
                proof {
                    assert(self@.peers =~= old(self)@.peers.push(fresh_peer(peer)));
                }
            },
        }
    }

    /// Removes the peer record under `peer`, with everything it owns; a
    /// peer never added is silently already gone.
    pub fn remove_peer(&mut self, peer: u64)
        ensures
            find_peer(old(self)@.peers, peer) < 0 ==> final(self)@ == old(self)@,
            find_peer(old(self)@.peers, peer) >= 0 ==> final(self)@.peers == old(
                self,
            )@.peers.remove(find_peer(old(self)@.peers, peer)),
            final(self)@.channel_id == old(self)@.channel_id,
    {
        match peer_index(&self.peers, peer) {
            Some(i) => {
                self.peers.remove(i);
                proof {
                    assert(self@.peers =~= old(self)@.peers.remove(
                        find_peer(old(self)@.peers, peer),
                    ));
                }
            },
            None => {
                proof {
                    assert(self@ =~~= old(self)@);
                }
            },
        }
    }

    /// Removes a transport from a peer; its media objects die with it on
    /// the worker's side and are reported back as closures.
    pub fn remove_transport(&mut self, peer: u64, transport_id: u64) -> (r: Result<
        (),
        SfuError,
    >)
        ensures
            match r {
                Ok(()) => {
                    &&& find_peer(old(self)@.peers, peer) >= 0
                    &&& {
                        let i = find_peer(old(self)@.peers, peer);
                        let p = old(self)@.peers[i];
                        let t = find_u64(p.transports, transport_id);
                        final(self)@.peers == old(self)@.peers.update(
                            i,
                            PeerV {
                                transports: if t < 0 {
                                    p.transports
                                } else {
                                    p.transports.remove(t)
                                },
                                ..p
                            },
                        )
                    }
                    &&& final(self)@.channel_id == old(self)@.channel_id
                },
                Err(e) => {
                    &&& e == SfuError::NoSuchPeer
                    &&& find_peer(old(self)@.peers, peer) < 0
                    &&& final(self)@ == old(self)@
                },
            },
    {
        let i = match peer_index(&self.peers, peer) {
            Some(i) => i,
            None => {
                proof {
                    assert(self@ =~~= old(self)@);
                }
                return Err(SfuError::NoSuchPeer);
            },
        };
        remove_id(&mut self.peers[i].transports, transport_id);
        proof {
            let idx = find_peer(old(self)@.peers, peer);
            let p = old(self)@.peers[idx];
            let t = find_u64(p.transports, transport_id);
            assert(self@.peers =~= old(self)@.peers.update(
                idx,
                PeerV {
                    transports: if t < 0 {
                        p.transports
                    } else {
                        p.transports.remove(t)
                    },
                    ..p
                },
            ));
        }
        Ok(())
    }

    /// Sets whether a peer is deaf; every consumer it owns is paused or
    /// resumed with it, and their ids are handed back so the worker can be
    /// told.
    pub fn set_deafen_peer(&mut self, peer: u64, deafen: bool) -> (r: Result<Vec<u64>, SfuError>)
        ensures
            match r {
                Ok(ids) => {
                    &&& find_peer(old(self)@.peers, peer) >= 0
                    &&& {
                        let i = find_peer(old(self)@.peers, peer);
                        let p = old(self)@.peers[i];
                        &&& final(self)@.peers == old(self)@.peers.update(
                            i,
                            deafen_peer_spec(p, deafen),
                        )
                        &&& ids@ == p.consumers.map_values(|c: ConsumerEntry| c.consumer_id)
                    }
                    &&& final(self)@.channel_id == old(self)@.channel_id
                },
                Err(e) => {
                    &&& e == SfuError::NoSuchPeer
                    &&& find_peer(old(self)@.peers, peer) < 0
                    &&& final(self)@ == old(self)@
                },
            },
    {
        let i = match peer_index(&self.peers, peer) {
            Some(i) => i,
            None => {
                proof {
                    assert(self@ =~~= old(self)@);
                }
                return Err(SfuError::NoSuchPeer);
            },
        };
        self.peers[i].deaf = deafen;
        let mut ids: Vec<u64> = Vec::new();
        let n = self.peers[i].consumers.len();
        let mut k: usize = 0;
        let ghost before = old(self)@.peers[i as int].consumers;
        proof {
            assert(ids@ =~= before.take(0).map_values(|c: ConsumerEntry| c.consumer_id));
        }
        while k < n
            invariant
                k <= n,
                i < self.peers@.len(),
                n == self.peers@[i as int].consumers@.len(),
                n == before.len(),
                forall|j: int|
                    k <= j < n ==> self.peers@[i as int].consumers@[j] == before[j],
                forall|j: int|
                    0 <= j < k ==> self.peers@[i as int].consumers@[j] == (ConsumerEntry {
                        consumer_id: before[j].consumer_id,
                        paused: deafen,
                    }),
                ids@ == before.take(k as int).map_values(|c: ConsumerEntry| c.consumer_id),
                self.peers@[i as int].peer_id == old(self)@.peers[i as int].peer_id,
                self.peers@[i as int].deaf == deafen,
                self.peers@[i as int].transports@ == old(self)@.peers[i as int].transports,
                self.peers@[i as int].producers@ == old(self)@.peers[i as int].producers,
                forall|j: int|
                    0 <= j < self.peers@.len() && j != i ==> self.peers@[j] == old(
                        self,
                    ).peers@[j],
                self.peers@.len() == old(self).peers@.len(),
                self.channel_id == old(self).channel_id,
            decreases n - k,
        {
            let id = self.peers[i].consumers[k].consumer_id;
            ids.push(id);
            self.peers[i].consumers[k] = ConsumerEntry { consumer_id: id, paused: deafen };
            proof {
                assert(before.take(k + 1).map_values(|c: ConsumerEntry| c.consumer_id)
                    =~= before.take(k as int).map_values(
                    |c: ConsumerEntry| c.consumer_id,
                ).push(before[k as int].consumer_id));
                assert(ids@ =~= before.take(k + 1).map_values(
                    |c: ConsumerEntry| c.consumer_id,
                ));
            }
            k += 1;
        }
        proof {
            assert(before.take(k as int) =~= before);
            let idx = find_peer(old(self)@.peers, peer);
            let p = old(self)@.peers[idx];
            assert(self.peers@[i as int]@.consumers =~= deafen_peer_spec(p, deafen).consumers);
            assert(self.peers@[i as int]@ =~~= deafen_peer_spec(p, deafen));
            assert(self@.peers =~= old(self)@.peers.update(idx, deafen_peer_spec(p, deafen)));
        }
        Ok(ids)
    }

    /// Checks a transport-creation request: the peer must exist and the
    /// announce address must be one a browser could connect to.  Only then
    /// may the worker be asked.
    pub fn create_transport_check(&self, peer: u64, announce_ok: bool) -> (r: Result<
        (),
        SfuError,
    >)
        ensures
            match r {
                Ok(()) => has_peer(self@, peer) && announce_ok,
                Err(e) => {
                    &&& (e == SfuError::NoSuchPeer || e == SfuError::BadAnnounceIp)
                    &&& (e == SfuError::NoSuchPeer <==> !has_peer(self@, peer))
                    &&& (e == SfuError::BadAnnounceIp <==> has_peer(self@, peer)
                        && !announce_ok)
                },
            },
    {
        match peer_index(&self.peers, peer) {
            Some(_) => {
                if !announce_ok {
                    Err(SfuError::BadAnnounceIp)
                } else {
                    Ok(())
                }
            },
            None => Err(SfuError::NoSuchPeer),
        }
    }

    /// Records a transport the worker created for a peer.
    pub fn create_transport_complete(&mut self, peer: u64, transport_id: u64) -> (r: Result<
        (),
        SfuError,
    >)
        ensures
            match r {
                Ok(()) => {
                    &&& find_peer(old(self)@.peers, peer) >= 0
                    &&& {
                        let i = find_peer(old(self)@.peers, peer);
                        let p = old(self)@.peers[i];
                        final(self)@.peers == old(self)@.peers.update(
                            i,
                            PeerV { transports: p.transports.push(transport_id), ..p },
                        )
                    }
                    &&& final(self)@.channel_id == old(self)@.channel_id
                },
                Err(e) => {
                    &&& e == SfuError::NoSuchPeer
                    &&& find_peer(old(self)@.peers, peer) < 0
                    &&& final(self)@ == old(self)@
                },
            },
    {
        let i = match peer_index(&self.peers, peer) {
            Some(i) => i,
            None => {
                proof {
                    assert(self@ =~~= old(self)@);
                }
                return Err(SfuError::NoSuchPeer);
            },
        };
        self.peers[i].transports.push(transport_id);
        proof {
            let idx = find_peer(old(self)@.peers, peer);
            let p = old(self)@.peers[idx];
            assert(self@.peers =~= old(self)@.peers.update(
                idx,
                PeerV { transports: p.transports.push(transport_id), ..p },
            ));
        }
        Ok(())
    }

    /// Whether a peer owns a transport.
    fn peer_has_transport(&self, i: usize, transport_id: u64) -> (r: bool)
        requires
            i < self@.peers.len(),
        ensures
            r == (find_u64(self@.peers[i as int].transports, transport_id) >= 0),
    {
        let ts = &self.peers[i].transports;
        let mut k: usize = 0;
        while k < ts.len()
            invariant
                k <= ts@.len(),
                ts@ == self@.peers[i as int].transports,
                forall|j: int| 0 <= j < k ==> ts@[j] != transport_id,
            decreases ts@.len() - k,
        {
            if ts[k] == transport_id {
                proof {
                    assert(ts@[k as int] == transport_id);
                    lemma_find_u64_is(ts@, transport_id, k as int);
                }
                return true;
            }
            proof {
                assert(ts@[k as int] != transport_id);
            }
            k += 1;
        }
        proof {
            lemma_find_u64_is(ts@, transport_id, -1);
        }
        false
    }

    /// Checks a produce or connect request: the peer must exist and own
    /// the named transport.
    pub fn transport_check(&self, peer: u64, transport_id: u64) -> (r: Result<(), SfuError>)
        ensures
            match r {
                Ok(()) => find_peer(self@.peers, peer) >= 0 && find_u64(
                    self@.peers[find_peer(self@.peers, peer)].transports,
                    transport_id,
                ) >= 0,
                Err(e) => {
                    &&& (e == SfuError::NoSuchPeer <==> !has_peer(self@, peer))
                    &&& (e == SfuError::NoSuchTransport <==> has_peer(self@, peer) && find_u64(
                        self@.peers[find_peer(self@.peers, peer)].transports,
                        transport_id,
                    ) < 0)
                    &&& (e == SfuError::NoSuchPeer || e == SfuError::NoSuchTransport)
                },
            },
    {
        match peer_index(&self.peers, peer) {
            Some(i) => {
                if self.peer_has_transport(i, transport_id) {
                    Ok(())
                } else {
                    Err(SfuError::NoSuchTransport)
                }
            },
            None => Err(SfuError::NoSuchPeer),
        }
    }

    /// Checks a consume request: the router must be able to consume, and
    /// the peer must exist and own the consuming transport.  The router's
    /// answer arrives as `router_can_consume`; on refusal nothing is asked
    /// of the worker.
    pub fn consume_check(&self, peer: u64, transport_id: u64, router_can_consume: bool) -> (r:
        Result<(), SfuError>)
        ensures
            match r {
                Ok(()) => router_can_consume && has_peer(self@, peer) && find_u64(
                    self@.peers[find_peer(self@.peers, peer)].transports,
                    transport_id,
                ) >= 0,
                Err(e) => {
                    &&& (e == SfuError::CannotConsume <==> !router_can_consume)
                    &&& (e == SfuError::NoSuchPeer <==> router_can_consume && !has_peer(
                        self@,
                        peer,
                    ))
                    &&& (e == SfuError::NoSuchTransport <==> router_can_consume && has_peer(
                        self@,
                        peer,
                    ) && find_u64(
                        self@.peers[find_peer(self@.peers, peer)].transports,
                        transport_id,
                    ) < 0)
                },
            },
    {
        if !router_can_consume {
            return Err(SfuError::CannotConsume);
        }
        self.transport_check(peer, transport_id)
    }

    /// Records a consumer the worker created: it enters the peer's map
    /// paused exactly when the peer is deaf at this moment.
    pub fn consume_complete(&mut self, peer: u64, consumer_id: u64) -> (r: Result<
        bool,
        SfuError,
    >)
        ensures
            match r {
                Ok(pause_now) => {
                    &&& find_peer(old(self)@.peers, peer) >= 0
                    &&& {
                        let i = find_peer(old(self)@.peers, peer);
                        let p = old(self)@.peers[i];
                        &&& pause_now == p.deaf
                        &&& final(self)@.peers == old(self)@.peers.update(
                            i,
                            PeerV {
                                consumers: p.consumers.push(
                                    ConsumerEntry { consumer_id, paused: p.deaf },
                                ),
                                ..p
                            },
                        )
                    }
                    &&& final(self)@.channel_id == old(self)@.channel_id
                },
                Err(e) => {
                    &&& e == SfuError::NoSuchPeer
                    &&& find_peer(old(self)@.peers, peer) < 0
                    &&& final(self)@ == old(self)@
                },
            },
    {
        let i = match peer_index(&self.peers, peer) {
            Some(i) => i,
            None => {
                proof {
                    assert(self@ =~~= old(self)@);
                }
                return Err(SfuError::NoSuchPeer);
            },
        };
        let deaf = self.peers[i].deaf;
        self.peers[i].consumers.push(ConsumerEntry { consumer_id, paused: deaf });
        proof {
            let idx = find_peer(old(self)@.peers, peer);
            let p = old(self)@.peers[idx];
            assert(self@.peers =~= old(self)@.peers.update(
                idx,
                PeerV {
                    consumers: p.consumers.push(ConsumerEntry { consumer_id, paused: p.deaf }),
                    ..p
                },
            ));
        }
        Ok(deaf)
    }

    /// Records a producer the worker created and names the peers the
    /// new-producer broadcast must reach: everyone in the channel but the
    /// producer, each exactly once.
    pub fn produce_complete(&mut self, peer: u64, producer_id: u64) -> (r: Result<
        Vec<u64>,
        SfuError,
    >)
        ensures
            match r {
                Ok(targets) => {
                    &&& find_peer(old(self)@.peers, peer) >= 0
                    &&& {
                        let i = find_peer(old(self)@.peers, peer);
                        let p = old(self)@.peers[i];
                        final(self)@.peers == old(self)@.peers.update(
                            i,
                            PeerV { producers: p.producers.push(producer_id), ..p },
                        )
                    }
                    &&& targets@ == broadcast_targets_spec(old(self)@.peers, peer)
                    &&& final(self)@.channel_id == old(self)@.channel_id
                },
                Err(e) => {
                    &&& e == SfuError::NoSuchPeer
                    &&& find_peer(old(self)@.peers, peer) < 0
                    &&& final(self)@ == old(self)@
                },
            },
    {
        let i = match peer_index(&self.peers, peer) {
            Some(i) => i,
            None => {
                proof {
                    assert(self@ =~~= old(self)@);
                }
                return Err(SfuError::NoSuchPeer);
            },
        };
        self.peers[i].producers.push(producer_id);
        proof {
            let idx = find_peer(old(self)@.peers, peer);
            let p = old(self)@.peers[idx];
            assert(self@.peers =~= old(self)@.peers.update(
                idx,
                PeerV { producers: p.producers.push(producer_id), ..p },
            ));
        }
        let targets = self.broadcast_targets(peer);
        proof {
            assert(broadcast_targets_spec(self@.peers, peer) =~= broadcast_targets_spec(
                old(self)@.peers,
                peer,
            )) by {
                lemma_broadcast_same_ids(self@.peers, old(self)@.peers, peer);
            }
        }
        Ok(targets)
    }

    /// Drops a closed producer from its peer's map.
    pub fn producer_closed(&mut self, peer: u64, producer_id: u64) -> (r: Result<(), SfuError>)
        ensures
            match r {
                Ok(()) => {
                    &&& find_peer(old(self)@.peers, peer) >= 0
                    &&& {
                        let i = find_peer(old(self)@.peers, peer);
                        let p = old(self)@.peers[i];
                        let t = find_u64(p.producers, producer_id);
                        final(self)@.peers == old(self)@.peers.update(
                            i,
                            PeerV {
                                producers: if t < 0 {
                                    p.producers
                                } else {
                                    p.producers.remove(t)
                                },
                                ..p
                            },
                        )
                    }
                    &&& final(self)@.channel_id == old(self)@.channel_id
                },
                Err(e) => {
                    &&& e == SfuError::NoSuchPeer
                    &&& find_peer(old(self)@.peers, peer) < 0
                    &&& final(self)@ == old(self)@
                },
            },
    {
        let i = match peer_index(&self.peers, peer) {
            Some(i) => i,
            None => {
                proof {
                    assert(self@ =~~= old(self)@);
                }
                return Err(SfuError::NoSuchPeer);
            },
        };
        remove_id(&mut self.peers[i].producers, producer_id);
        proof {
            let idx = find_peer(old(self)@.peers, peer);
            let p = old(self)@.peers[idx];
            let t = find_u64(p.producers, producer_id);
            assert(self@.peers =~= old(self)@.peers.update(
                idx,
                PeerV {
                    producers: if t < 0 {
                        p.producers
                    } else {
                        p.producers.remove(t)
                    },
                    ..p
                },
            ));
        }
        Ok(())
    }

    /// Drops a closed consumer from its peer's map.
    pub fn consumer_closed(&mut self, peer: u64, consumer_id: u64) -> (r: Result<(), SfuError>)
        ensures
            match r {
                Ok(()) => {
                    &&& find_peer(old(self)@.peers, peer) >= 0
                    &&& {
                        let i = find_peer(old(self)@.peers, peer);
                        let p = old(self)@.peers[i];
                        let t = find_consumer(p.consumers, consumer_id);
                        final(self)@.peers == old(self)@.peers.update(
                            i,
                            PeerV {
                                consumers: if t < 0 {
                                    p.consumers
                                } else {
                                    p.consumers.remove(t)
                                },
                                ..p
                            },
                        )
                    }
                    &&& final(self)@.channel_id == old(self)@.channel_id
                },
                Err(e) => {
                    &&& e == SfuError::NoSuchPeer
                    &&& find_peer(old(self)@.peers, peer) < 0
                    &&& final(self)@ == old(self)@
                },
            },
    {
        let i = match peer_index(&self.peers, peer) {
            Some(i) => i,
            None => {
                proof {
                    assert(self@ =~~= old(self)@);
                }
                return Err(SfuError::NoSuchPeer);
            },
        };
        let found = consumer_pos(&self.peers[i].consumers, consumer_id);
        match found {
            Some(t) => {
                self.peers[i].consumers.remove(t);
                proof {
                    let idx = find_peer(old(self)@.peers, peer);
                    let p = old(self)@.peers[idx];
                    let tt = find_consumer(p.consumers, consumer_id);
                    assert(self@.peers =~= old(self)@.peers.update(
                        idx,
                        PeerV { consumers: p.consumers.remove(tt), ..p },
                    ));
                }
            },
            None => {
                proof {
                    let idx = find_peer(old(self)@.peers, peer);
                    let p = old(self)@.peers[idx];
                    assert(self@.peers =~= old(self)@.peers.update(idx, PeerV { ..p }));
                }
            },
        }
        Ok(())
    }

    /// Names the peers a broadcast from `from` reaches.
    pub fn broadcast_targets(&self, from: u64) -> (r: Vec<u64>)
        ensures
            r@ == broadcast_targets_spec(self@.peers, from),
    {
        let ghost pv = self@.peers;
        let mut r: Vec<u64> = Vec::new();
        let mut i: usize = 0;
        proof {
            assert(r@ =~= Seq::<u64>::empty());
            assert(pv.skip(0) =~= pv);
        }
        while i < self.peers.len()
            invariant
                i <= self.peers@.len(),
                pv == self@.peers,
                broadcast_targets_spec(pv, from) == r@ + broadcast_targets_spec(
                    pv.skip(i as int),
                    from,
                ),
            decreases self.peers@.len() - i,
        {
            let ghost rest = pv.skip(i as int);
            proof {
                assert(rest.first() == pv[i as int]);
                assert(rest.drop_first() =~= pv.skip(i + 1));
            }
            if self.peers[i].peer_id != from {
                r.push(self.peers[i].peer_id);
            }
            i += 1;
        }
        proof {
            assert(broadcast_targets_spec(pv.skip(i as int), from) =~= Seq::<u64>::empty());
            assert(r@ =~= broadcast_targets_spec(pv, from));
        }
        r
    }

    /// Lists every producer of every peer in the channel, each tagged
    /// with its peer: exactly the producers the channel currently holds.
    pub fn get_producers(&self) -> (r: Vec<(u64, u64)>)
        ensures
            r@ == producers_of(self@.peers),
    {
        let ghost pv = self@.peers;
        let mut r: Vec<(u64, u64)> = Vec::new();
        let mut i: usize = 0;
        proof {
            assert(r@ =~= Seq::<(u64, u64)>::empty());
            assert(pv.skip(0) =~= pv);
        }
        while i < self.peers.len()
            invariant
                i <= self.peers@.len(),
                pv == self@.peers,
                producers_of(pv) == r@ + producers_of(pv.skip(i as int)),
            decreases self.peers@.len() - i,
        {
            let ghost rest = pv.skip(i as int);
            proof {
                assert(rest.first() == pv[i as int]);
                assert(rest.drop_first() =~= pv.skip(i + 1));
            }
            let peer_id = self.peers[i].peer_id;
            let qs = &self.peers[i].producers;
            let ghost emitted = r@;
            let mut k: usize = 0;
            while k < qs.len()
                invariant
                    k <= qs@.len(),
                    qs@ == pv[i as int].producers,
                    i < pv.len(),
                    peer_id == pv[i as int].peer_id,
                    r@ == emitted + qs@.take(k as int).map_values(|q: u64| (peer_id, q)),
                decreases qs@.len() - k,
            {
                r.push((peer_id, qs[k]));
                proof {
                    assert(qs@.take(k + 1).map_values(|q: u64| (peer_id, q)) =~= qs@.take(
                        k as int,
                    ).map_values(|q: u64| (peer_id, q)).push((peer_id, qs@[k as int])));
                    assert(r@ =~= emitted + qs@.take(k + 1).map_values(|q: u64| (peer_id, q)));
                }
                k += 1;
            }
            proof {
                assert(qs@.take(k as int) =~= qs@);
                assert(rest.first().producers.map_values(|q: u64| (rest.first().peer_id, q))
                    =~= qs@.map_values(|q: u64| (peer_id, q)));
            }
            i += 1;
        }
        proof {
            assert(producers_of(pv.skip(i as int)) =~= Seq::<(u64, u64)>::empty());
            assert(r@ =~= producers_of(pv));
        }
        r
    }
}

/// Broadcast targets depend only on the peers' ids: updating what a peer
/// owns moves no broadcast.
proof fn lemma_broadcast_same_ids(a: Seq<PeerV>, b: Seq<PeerV>, from: u64)
    requires
        a.len() == b.len(),
        forall|i: int| 0 <= i < a.len() ==> a[i].peer_id == b[i].peer_id,
    ensures
        broadcast_targets_spec(a, from) == broadcast_targets_spec(b, from),
    decreases a.len(),
{
    if a.len() > 0 {
        assert forall|i: int|
            0 <= i < a.drop_first().len() implies a.drop_first()[i].peer_id == b.drop_first()[
            i
        ].peer_id by {
            assert(a[i + 1].peer_id == b[i + 1].peer_id);
        }
        lemma_broadcast_same_ids(a.drop_first(), b.drop_first(), from);
        assert(broadcast_targets_spec(a, from) =~= broadcast_targets_spec(b, from));
    } else {
        assert(broadcast_targets_spec(a, from) =~= broadcast_targets_spec(b, from));
    }
}

/// Index of the first channel with `id`, or `-1`.
pub open spec fn find_channel(channels: Seq<ChannelV>, id: u64) -> int
    decreases channels.len(),
{
    if channels.len() == 0 {
        -1
    } else if channels.first().channel_id == id {
        0
    } else {
        let r = find_channel(channels.drop_first(), id);
        if r < 0 {
            -1
        } else {
            r + 1
        }
    }
}

proof fn lemma_find_channel_is(channels: Seq<ChannelV>, id: u64, i: int)
    requires
        -1 <= i < channels.len(),
        i >= 0 ==> channels[i].channel_id == id,
        forall|j: int| 0 <= j < i ==> channels[j].channel_id != id,
        i < 0 ==> forall|j: int| 0 <= j < channels.len() ==> channels[j].channel_id != id,
    ensures
        find_channel(channels, id) == i,
    decreases channels.len(),
{
    if channels.len() > 0 && channels.first().channel_id != id {
        assert forall|j: int| 0 <= j < i - 1 implies channels.drop_first()[j].channel_id
            != id by {
            assert(channels[j + 1].channel_id != id);
        }
        if i < 0 {
            assert forall|j: int|
                0 <= j < channels.drop_first().len() implies channels.drop_first()[
                j
            ].channel_id != id by {
                assert(channels[j + 1].channel_id != id);
            }
            lemma_find_channel_is(channels.drop_first(), id, -1);
        } else {
            lemma_find_channel_is(channels.drop_first(), id, i - 1);
        }
    }
}

impl SfuState {
    /// A registry with no channels.
    pub fn new() -> (r: SfuState)
        ensures
            r.channels@.len() == 0,
    {
        SfuState { channels: Vec::new() }
    }

    /// Finds a channel's position.
    pub fn channel_index(&self, id: u64) -> (r: Option<usize>)
        ensures
            match r {
                Some(i) => i < self.channels@.len() && find_channel(
                    self.channels@.map_values(|c: ChannelEntry| c@),
                    id,
                ) == i,
                None => find_channel(self.channels@.map_values(|c: ChannelEntry| c@), id) < 0,
            },
    {
        let ghost cv = self.channels@.map_values(|c: ChannelEntry| c@);
        let mut i: usize = 0;
        while i < self.channels.len()
            invariant
                i <= self.channels@.len(),
                cv == self.channels@.map_values(|c: ChannelEntry| c@),
                forall|j: int| 0 <= j < i ==> cv[j].channel_id != id,
            decreases self.channels@.len() - i,
        {
            if self.channels[i].channel_id == id {
                proof {
                    assert(cv[i as int].channel_id == id);
                    lemma_find_channel_is(cv, id, i as int);
                }
                return Some(i);
            }
            proof {
                assert(cv[i as int].channel_id != id);
            }
            i += 1;
        }
        proof {
            lemma_find_channel_is(cv, id, -1);
        }
        None
    }

    /// Allocates a peer record in a channel, as [`ChannelEntry::add_peer`]
    /// does; an unknown channel is refused.
    pub fn add_peer(&mut self, channel: u64, peer: u64) -> (r: Result<(), SfuError>)
        ensures
            match r {
                Ok(()) => ({
                    let cs = old(self).channels@.map_values(|c: ChannelEntry| c@);
                    let i = find_channel(cs, channel);
                    let cv = cs[i];
                    let p = find_peer(cv.peers, peer);
                    &&& i >= 0
                    &&& final(self).channels@.map_values(|c: ChannelEntry| c@) == cs.update(
                        i,
                        ChannelV {
                            channel_id: cv.channel_id,
                            peers: if p < 0 {
                                cv.peers.push(fresh_peer(peer))
                            } else {
                                cv.peers.update(p, fresh_peer(peer))
                            },
                        },
                    )
                }),
                Err(e) => {
                    &&& e == SfuError::NoSuchChannel
                    &&& find_channel(
                        old(self).channels@.map_values(|c: ChannelEntry| c@),
                        channel,
                    ) < 0
                    &&& *final(self) == *old(self)
                },
            },
    {
        let ghost cs = self.channels@.map_values(|c: ChannelEntry| c@);
        let idx = match self.channel_index(channel) {
            Some(i) => i,
            None => {
                return Err(SfuError::NoSuchChannel);
            },
        };
        self.channels[idx].add_peer(peer);
        proof {
            let i = find_channel(cs, channel);
            let cv = cs[i];
            let p = find_peer(cv.peers, peer);
            assert(self.channels@[idx as int]@ =~~= (ChannelV {
                channel_id: cv.channel_id,
                peers: if p < 0 {
                    cv.peers.push(fresh_peer(peer))
                } else {
                    cv.peers.update(p, fresh_peer(peer))
                },
            }));
            assert(self.channels@.map_values(|c: ChannelEntry| c@) =~= cs.update(
                i,
                self.channels@[idx as int]@,
            ));
        }
        Ok(())
    }

    /// Removes a peer from a channel, with everything it owns; an unknown
    /// channel is refused.
    pub fn remove_peer(&mut self, channel: u64, peer: u64) -> (r: Result<(), SfuError>)
        ensures
            match r {
                Ok(()) => ({
                    let cs = old(self).channels@.map_values(|c: ChannelEntry| c@);
                    let i = find_channel(cs, channel);
                    let cv = cs[i];
                    let p = find_peer(cv.peers, peer);
                    &&& i >= 0
                    &&& final(self).channels@.map_values(|c: ChannelEntry| c@) == cs.update(
                        i,
                        ChannelV {
                            channel_id: cv.channel_id,
                            peers: if p < 0 {
                                cv.peers
                            } else {
                                cv.peers.remove(p)
                            },
                        },
                    )
                }),
                Err(e) => {
                    &&& e == SfuError::NoSuchChannel
                    &&& find_channel(
                        old(self).channels@.map_values(|c: ChannelEntry| c@),
                        channel,
                    ) < 0
                    &&& *final(self) == *old(self)
                },
            },
    {
        let ghost cs = self.channels@.map_values(|c: ChannelEntry| c@);
        let idx = match self.channel_index(channel) {
            Some(i) => i,
            None => {
                return Err(SfuError::NoSuchChannel);
            },
        };
        self.channels[idx].remove_peer(peer);
        proof {
            let i = find_channel(cs, channel);
            let cv = cs[i];
            let p = find_peer(cv.peers, peer);
            assert(self.channels@[idx as int]@ =~~= (ChannelV {
                channel_id: cv.channel_id,
                peers: if p < 0 {
                    cv.peers
                } else {
                    cv.peers.remove(p)
                },
            }));
            assert(self.channels@.map_values(|c: ChannelEntry| c@) =~= cs.update(
                i,
                self.channels@[idx as int]@,
            ));
        }
        Ok(())
    }

    /// Removes a transport from a peer of a channel; unknown channels and
    /// peers are refused.
    pub fn remove_transport(&mut self, channel: u64, peer: u64, transport_id: u64) -> (r: Result<
        (),
        SfuError,
    >)
        ensures
            match r {
                Ok(()) => ({
                    let cs = old(self).channels@.map_values(|c: ChannelEntry| c@);
                    let i = find_channel(cs, channel);
                    let cv = cs[i];
                    let p = find_peer(cv.peers, peer);
                    let pv = cv.peers[p];
                    let t = find_u64(pv.transports, transport_id);
                    &&& i >= 0
                    &&& p >= 0
                    &&& final(self).channels@.map_values(|c: ChannelEntry| c@) == cs.update(
                        i,
                        ChannelV {
                            channel_id: cv.channel_id,
                            peers: cv.peers.update(
                                p,
                                PeerV {
                                    transports: if t < 0 {
                                        pv.transports
                                    } else {
                                        pv.transports.remove(t)
                                    },
                                    ..pv
                                },
                            ),
                        },
                    )
                }),
                Err(e) => {
                    &&& (e == SfuError::NoSuchChannel || e == SfuError::NoSuchPeer)
                    &&& (e == SfuError::NoSuchChannel <==> find_channel(
                        old(self).channels@.map_values(|c: ChannelEntry| c@),
                        channel,
                    ) < 0)
                    &&& final(self).channels@.map_values(|c: ChannelEntry| c@) == old(
                        self,
                    ).channels@.map_values(|c: ChannelEntry| c@)
                },
            },
    {
        let ghost cs = self.channels@.map_values(|c: ChannelEntry| c@);
        let idx = match self.channel_index(channel) {
            Some(i) => i,
            None => {
                return Err(SfuError::NoSuchChannel);
            },
        };
        match self.channels[idx].remove_transport(peer, transport_id) {
            Ok(()) => {},
            Err(e) => {
                proof {
                    assert(self.channels@.map_values(|c: ChannelEntry| c@) =~= old(
                        self,
                    ).channels@.map_values(|c: ChannelEntry| c@));
                }
                return Err(e);
            },
        }
        proof {
            let i = find_channel(cs, channel);
            let cv = cs[i];
            let p = find_peer(cv.peers, peer);
            let pv = cv.peers[p];
            let t = find_u64(pv.transports, transport_id);
            assert(self.channels@[idx as int]@ =~~= (ChannelV {
                channel_id: cv.channel_id,
                peers: cv.peers.update(
                    p,
                    PeerV {
                        transports: if t < 0 {
                            pv.transports
                        } else {
                            pv.transports.remove(t)
                        },
                        ..pv
                    },
                ),
            }));
            assert(self.channels@.map_values(|c: ChannelEntry| c@) =~= cs.update(
                i,
                self.channels@[idx as int]@,
            ));
        }
        Ok(())
    }

    /// Sets whether a peer of a channel is deaf, pausing or resuming every
    /// consumer it owns; the affected consumer ids come back.
    pub fn set_deafen_peer(&mut self, channel: u64, peer: u64, deafen: bool) -> (r: Result<
        Vec<u64>,
        SfuError,
    >)
        ensures
            match r {
                Ok(ids) => ({
                    let cs = old(self).channels@.map_values(|c: ChannelEntry| c@);
                    let i = find_channel(cs, channel);
                    let cv = cs[i];
                    let p = find_peer(cv.peers, peer);
                    &&& i >= 0
                    &&& p >= 0
                    &&& final(self).channels@.map_values(|c: ChannelEntry| c@) == cs.update(
                        i,
                        ChannelV {
                            channel_id: cv.channel_id,
                            peers: cv.peers.update(p, deafen_peer_spec(cv.peers[p], deafen)),
                        },
                    )
                    &&& ids@ == cs[i].peers[find_peer(cs[i].peers, peer)].consumers.map_values(
                        |c: ConsumerEntry| c.consumer_id,
                    )
                }),
                Err(e) => {
                    &&& (e == SfuError::NoSuchChannel || e == SfuError::NoSuchPeer)
                    &&& (e == SfuError::NoSuchChannel <==> find_channel(
                        old(self).channels@.map_values(|c: ChannelEntry| c@),
                        channel,
                    ) < 0)
                    &&& final(self).channels@.map_values(|c: ChannelEntry| c@) == old(
                        self,
                    ).channels@.map_values(|c: ChannelEntry| c@)
                },
            },
    {
        let ghost cs = self.channels@.map_values(|c: ChannelEntry| c@);
        let idx = match self.channel_index(channel) {
            Some(i) => i,
            None => {
                return Err(SfuError::NoSuchChannel);
            },
        };
        let ids = match self.channels[idx].set_deafen_peer(peer, deafen) {
            Ok(ids) => ids,
            Err(e) => {
                proof {
                    assert(self.channels@.map_values(|c: ChannelEntry| c@) =~= old(
                        self,
                    ).channels@.map_values(|c: ChannelEntry| c@));
                }
                return Err(e);
            },
        };
        proof {
            let i = find_channel(cs, channel);
            let cv = cs[i];
            let p = find_peer(cv.peers, peer);
            assert(self.channels@[idx as int]@ =~~= (ChannelV {
                channel_id: cv.channel_id,
                peers: cv.peers.update(p, deafen_peer_spec(cv.peers[p], deafen)),
            }));
            assert(self.channels@.map_values(|c: ChannelEntry| c@) =~= cs.update(
                i,
                self.channels@[idx as int]@,
            ));
        }
        Ok(ids)
    }

    /// Creates a channel under `id`, refusing a duplicate.
    pub fn new_channel(&mut self, id: u64) -> (r: Result<(), SfuError>)
        ensures
            match r {
                Ok(()) => {
                    &&& find_channel(old(self).channels@.map_values(|c: ChannelEntry| c@), id)
                        < 0
                    &&& final(self).channels@.map_values(|c: ChannelEntry| c@) == old(
                        self,
                    ).channels@.map_values(|c: ChannelEntry| c@).push(
                        ChannelV { channel_id: id, peers: Seq::empty() },
                    )
                },
                Err(e) => {
                    &&& e == SfuError::DuplicateChannel
                    &&& find_channel(old(self).channels@.map_values(|c: ChannelEntry| c@), id)
                        >= 0
                    &&& *final(self) == *old(self)
                },
            },
    {
        match self.channel_index(id) {
            Some(_) => Err(SfuError::DuplicateChannel),
            None => {
                self.channels.push(ChannelEntry { channel_id: id, peers: Vec::new() });
                proof {
                    let fresh = ChannelV { channel_id: id, peers: Seq::empty() };
                    assert(self.channels@.last()@ =~~= fresh);
                    assert(self.channels@.map_values(|c: ChannelEntry| c@) =~= old(
                        self,
                    ).channels@.map_values(|c: ChannelEntry| c@).push(fresh));
                }
                Ok(())
            },
        }
    }
}

} // verus!
