//! Peer discovery: DNS seeds and the peers that a node knows.

use crate::network::nodes_view;
use crate::network::Node;
use crate::network::NodeView;
use rand::seq::SliceRandom;
use vstd::prelude::*;
use vstd::seq_lib::to_multiset_contains;
use vstd::seq_lib::to_multiset_len;
use vstd::utf8::encode_utf8;

verus! {

/// A DNS seed: a host name that resolves to peers, and their port.
#[derive(Debug, Clone)]
pub struct DnsSeed {
    pub hostname: String,
    pub port: u16,
}

impl DnsSeed {
    /// A DNS seed with a host name and the port of its peers.
    pub fn new(hostname: String, port: u16) -> (seed: DnsSeed)
        ensures
            seed.hostname == hostname,
            seed.port == port,
    {
        DnsSeed { hostname, port }
    }
}

/// The DNS seeds of the main network.
pub fn mainnet_dns_seeds() -> (seeds: Vec<DnsSeed>)
    ensures
        seeds@.len() == 3,
        seeds@[0].hostname@ == "seeds1.trinitychain.io"@,
        seeds@[1].hostname@ == "seeds2.trinitychain.io"@,
        seeds@[2].hostname@ == "seeds3.trinitychain.io"@,
        forall|i: int| 0 <= i < 3 ==> (#[trigger] seeds@[i]).port == 8333,
{
    let mut seeds: Vec<DnsSeed> = Vec::new();
    seeds.push(DnsSeed::new("seeds1.trinitychain.io".to_owned(), 8333));
    seeds.push(DnsSeed::new("seeds2.trinitychain.io".to_owned(), 8333));
    seeds.push(DnsSeed::new("seeds3.trinitychain.io".to_owned(), 8333));
    seeds
}

/// The DNS seeds of the test network.
pub fn testnet_dns_seeds() -> (seeds: Vec<DnsSeed>)
    ensures
        seeds@.len() == 2,
        seeds@[0].hostname@ == "testnet-seeds1.trinitychain.io"@,
        seeds@[1].hostname@ == "testnet-seeds2.trinitychain.io"@,
        forall|i: int| 0 <= i < 2 ==> (#[trigger] seeds@[i]).port == 18333,
{
    let mut seeds: Vec<DnsSeed> = Vec::new();
    seeds.push(DnsSeed::new("testnet-seeds1.trinitychain.io".to_owned(), 18333));
    seeds.push(DnsSeed::new("testnet-seeds2.trinitychain.io".to_owned(), 18333));
    seeds
}

/// Whether a host name holds a colon; the address of such a host cannot
/// be taken apart into host and port again.
pub open spec fn has_colon(host: Seq<char>) -> bool {
    encode_utf8(host).contains(0x3au8)
}

/// Those of the peers whose address can be taken apart again, in their
/// order.
pub open spec fn connectable(peers: Seq<NodeView>) -> Seq<NodeView>
    decreases peers.len(),
{
    if peers.len() == 0 {
        peers
    } else if has_colon(peers.last().host) {
        connectable(peers.drop_last())
    } else {
        connectable(peers.drop_last()).push(peers.last())
    }
}

/// No peer occurs twice.
pub open spec fn peers_distinct(peers: Seq<NodeView>) -> bool {
    forall|i: int, j: int| 0 <= i < j < peers.len() ==> #[trigger] peers[i] != #[trigger] peers[j]
}

/// The peers with one more, unless it is among them already.
pub open spec fn with_peer(peers: Seq<NodeView>, peer: NodeView) -> Seq<NodeView> {
    if peers.contains(peer) {
        peers
    } else {
        peers.push(peer)
    }
}

/// The peers with every one of `more`, in their order, unless it is among
/// them already.
pub open spec fn with_peers(peers: Seq<NodeView>, more: Seq<NodeView>) -> Seq<NodeView>
    decreases more.len(),
{
    if more.len() == 0 {
        peers
    } else {
        with_peer(with_peers(peers, more.drop_last()), more.last())
    }
}

/// Those of `more` that are new to `peers`, each once, in their order.
pub open spec fn new_among(peers: Seq<NodeView>, more: Seq<NodeView>) -> Seq<NodeView>
    decreases more.len(),
{
    if more.len() == 0 {
        more
    } else if with_peers(peers, more.drop_last()).contains(more.last()) {
        new_among(peers, more.drop_last())
    } else {
        new_among(peers, more.drop_last()).push(more.last())
    }
}

proof fn lemma_with_peer_distinct(peers: Seq<NodeView>, peer: NodeView)
    requires
        peers_distinct(peers),
    ensures
        peers_distinct(with_peer(peers, peer)),
{
    if !peers.contains(peer) {
        let longer = peers.push(peer);
        assert forall|i: int, j: int| 0 <= i < j < longer.len() implies #[trigger] longer[i]
            != #[trigger] longer[j] by {
            assert(longer[i] == peers[i]);
            if j < peers.len() {
                assert(longer[j] == peers[j]);
            } else {
                assert(peers.contains(peers[i]));
            }
        }
    }
}

/// Shuffles the nodes with `rand::seq::SliceRandom::shuffle` and the
/// thread's random number generator. The shuffle swaps items, so the same
/// nodes come out, each as often as it went in; their order is anyone's
/// guess.
#[verifier::external_body]
fn shuffle_nodes(nodes: &mut Vec<Node>)
    ensures
        nodes_view(final(nodes)@).to_multiset() == nodes_view(old(nodes)@).to_multiset(),
{
    nodes.shuffle(&mut rand::thread_rng());
}

fn host_has_colon(host: &String) -> (found: bool)
    ensures
        found == has_colon(host@),
{
    let bytes = host.as_str().as_bytes();
    let mut i: usize = 0;
    while i < bytes.len()
        invariant
            i <= bytes.len(),
            bytes@ == encode_utf8(host@),
            forall|j: int| 0 <= j < i ==> bytes@[j] != 0x3au8,
        decreases bytes.len() - i,
    {
        if bytes[i] == 0x3a {
            return true;
        }
        i += 1;
    }
    false
}

fn same_node(a: &Node, b: &Node) -> (same: bool)
    ensures
        same == (a@ == b@),
{
    a.port == b.port && a.host == b.host
}

fn knows(peers: &Vec<Node>, peer: &Node) -> (found: bool)
    ensures
        found == nodes_view(peers@).contains(peer@),
{
    let ghost all = nodes_view(peers@);
    let mut i: usize = 0;
    while i < peers.len()
        invariant
            i <= peers.len(),
            all == nodes_view(peers@),
            forall|j: int| 0 <= j < i ==> all[j] != peer@,
        decreases peers.len() - i,
    {
        if same_node(&peers[i], peer) {
            assert(all[i as int] == peer@);
            return true;
        }
        i += 1;
    }
    false
}

fn clone_nodes(v: &Vec<Node>) -> (c: Vec<Node>)
    ensures
        c@ == v@,
{
    let mut out: Vec<Node> = Vec::new();
    let mut i: usize = 0;
    while i < v.len()
        invariant
            i <= v.len(),
            out@ == v@.subrange(0, i as int),
        decreases v.len() - i,
    {
        out.push(v[i].clone());
        assert(out@ =~= v@.subrange(0, i + 1));
        i += 1;
    }
    assert(out@ =~= v@);
    out
}

/// Peer discovery: the DNS seeds, the bootstrap peers, and the peers that
/// are known, each once.
#[derive(Debug)]
pub struct PeerDiscovery {
    dns_seeds: Vec<DnsSeed>,
    bootstrap_peers: Vec<Node>,
    known_peers: Vec<Node>,
}

impl PeerDiscovery {
    #[verifier::type_invariant]
    spec fn inv(&self) -> bool {
        peers_distinct(nodes_view(self.known_peers@))
    }

    /// The peers that are known, in the order in which they became known.
    pub closed spec fn known(&self) -> Seq<NodeView> {
        nodes_view(self.known_peers@)
    }

    /// The bootstrap peers, in the order in which they were added.
    pub closed spec fn bootstrap(&self) -> Seq<NodeView> {
        nodes_view(self.bootstrap_peers@)
    }

    /// The DNS seeds, in the order in which they were added.
    pub closed spec fn seeds(&self) -> Seq<DnsSeed> {
        self.dns_seeds@
    }

    /// A discovery that knows nothing yet.
    pub fn new() -> (discovery: PeerDiscovery)
        ensures
            discovery.known().len() == 0,
            discovery.bootstrap().len() == 0,
            discovery.seeds().len() == 0,
    {
        PeerDiscovery {
            dns_seeds: Vec::new(),
            bootstrap_peers: Vec::new(),
            known_peers: Vec::new(),
        }
    }

    /// Adds a DNS seed.
    pub fn add_dns_seed(&mut self, seed: DnsSeed)
        ensures
            final(self).seeds() == old(self).seeds().push(seed),
            final(self).known() == old(self).known(),
            final(self).bootstrap() == old(self).bootstrap(),
    {
        proof {
            use_type_invariant(&*self);
        }
        let mut seeds: Vec<DnsSeed> = Vec::new();
        core::mem::swap(&mut self.dns_seeds, &mut seeds);
        seeds.push(seed);
        self.dns_seeds = seeds;
    }

    /// The DNS seeds.
    pub fn dns_seeds(&self) -> (seeds: &Vec<DnsSeed>)
        ensures
            seeds@ == self.seeds(),
    {
        &self.dns_seeds
    }

    /// Adds a bootstrap peer: one to fall back on where the seeds yield
    /// nothing.
    pub fn add_bootstrap_peer(&mut self, peer: Node)
        ensures
            final(self).bootstrap() == old(self).bootstrap().push(peer@),
            final(self).known() == old(self).known(),
            final(self).seeds() == old(self).seeds(),
    {
        proof {
            use_type_invariant(&*self);
        }
        let ghost before = self.bootstrap();
        let mut peers: Vec<Node> = Vec::new();
        core::mem::swap(&mut self.bootstrap_peers, &mut peers);
        peers.push(peer);
        assert(nodes_view(peers@) =~= before.push(peer@));
        self.bootstrap_peers = peers;
    }

    /// Makes a peer known, unless it is known already.
    pub fn add_known_peer(&mut self, peer: Node)
        ensures
            final(self).known() == with_peer(old(self).known(), peer@),
            final(self).bootstrap() == old(self).bootstrap(),
            final(self).seeds() == old(self).seeds(),
    {
        proof {
            use_type_invariant(&*self);
            lemma_with_peer_distinct(self.known(), peer@);
        }
        if !knows(&self.known_peers, &peer) {
            let ghost before = self.known();
            let mut peers: Vec<Node> = Vec::new();
            assert(nodes_view(peers@) =~= Seq::<NodeView>::empty());
            core::mem::swap(&mut self.known_peers, &mut peers);
            peers.push(peer);
            assert(nodes_view(peers@) =~= before.push(peer@));
            self.known_peers = peers;
        }
    }

    /// The peers to start from: the bootstrap peers.
    pub fn get_known_peers(&self) -> (peers: Vec<Node>)
        ensures
            nodes_view(peers@) == self.bootstrap(),
    {
        clone_nodes(&self.bootstrap_peers)
    }

    /// The number of known peers.
    pub fn peer_count(&self) -> (count: usize)
        ensures
            count == self.known().len(),
            peers_distinct(self.known()),
    {
        proof {
            use_type_invariant(self);
        }
        self.known_peers.len()
    }

    /// Forgets all known peers.
    pub fn clear(&mut self)
        ensures
            final(self).known().len() == 0,
            final(self).bootstrap() == old(self).bootstrap(),
            final(self).seeds() == old(self).seeds(),
    {
        let none: Vec<Node> = Vec::new();
        assert(nodes_view(none@) =~= Seq::<NodeView>::empty());
        self.known_peers = none;
    }

    /// Takes in peers that were found, and hands back those of them that
    /// were not known before, each once.
    pub fn absorb(&mut self, found: &Vec<Node>) -> (fresh: Vec<Node>)
        ensures
            final(self).known() == with_peers(old(self).known(), nodes_view(found@)),
            nodes_view(fresh@) == new_among(old(self).known(), nodes_view(found@)),
            final(self).bootstrap() == old(self).bootstrap(),
            final(self).seeds() == old(self).seeds(),
    {
        let ghost start = self.known();
        let ghost all = nodes_view(found@);
        let mut fresh: Vec<Node> = Vec::new();
        let mut i: usize = 0;
        proof {
            assert(all.take(0) =~= Seq::<NodeView>::empty());
            assert(nodes_view(fresh@) =~= Seq::<NodeView>::empty());
        }
        while i < found.len()
            invariant
                i <= found.len(),
                all == nodes_view(found@),
                self.known() == with_peers(start, all.take(i as int)),
                nodes_view(fresh@) == new_among(start, all.take(i as int)),
                self.bootstrap() == old(self).bootstrap(),
                self.seeds() == old(self).seeds(),
            decreases found.len() - i,
        {
            proof {
                assert(all.take(i + 1).drop_last() =~= all.take(i as int));
                assert(all.take(i + 1).last() == found@[i as int]@);
            }
            if !knows(&self.known_peers, &found[i]) {
                let ghost before = nodes_view(fresh@);
                fresh.push(found[i].clone());
                assert(nodes_view(fresh@) =~= before.push(found@[i as int]@));
            }
            self.add_known_peer(found[i].clone());
            i += 1;
        }
        assert(all.take(i as int) =~= all);
        fresh
    }

    /// What a round of discovery yields: the peers that the DNS seeds
    /// resolved to and that were not known before; where there are none,
    /// the bootstrap peers that were not known before. All of them are
    /// known afterwards.
    pub fn discover_from(&mut self, resolved: &Vec<Node>) -> (discovered: Vec<Node>)
        ensures
            final(self).bootstrap() == old(self).bootstrap(),
            final(self).seeds() == old(self).seeds(),
            new_among(old(self).known(), nodes_view(resolved@)).len() > 0 ==> nodes_view(
                discovered@,
            ) == new_among(old(self).known(), nodes_view(resolved@)) && final(self).known()
                == with_peers(old(self).known(), nodes_view(resolved@)),
            new_among(old(self).known(), nodes_view(resolved@)).len() == 0 ==> nodes_view(
                discovered@,
            ) == new_among(
                with_peers(old(self).known(), nodes_view(resolved@)),
                old(self).bootstrap(),
            ) && final(self).known() == with_peers(
                with_peers(old(self).known(), nodes_view(resolved@)),
                old(self).bootstrap(),
            ),
    {
        let discovered = self.absorb(resolved);
        if discovered.len() > 0 {
            return discovered;
        }
        let fallback = clone_nodes(&self.bootstrap_peers);
        self.absorb(&fallback)
    }

    /// Up to `count` known peers in a random order, for connection
    /// attempts. A peer whose host name holds a colon is left out.
    pub fn get_random_peers(&self, count: usize) -> (peers: Vec<Node>)
        ensures
            peers@.len() == (if count <= connectable(self.known()).len() {
                count as int
            } else {
                connectable(self.known()).len() as int
            }),
            forall|i: int|
                0 <= i < peers@.len() ==> connectable(self.known()).contains(
                    #[trigger] nodes_view(peers@)[i],
                ),
    {
        let ghost all = self.known();
        let mut candidates: Vec<Node> = Vec::new();
        let mut i: usize = 0;
        proof {
            assert(all.take(0) =~= Seq::<NodeView>::empty());
            assert(nodes_view(candidates@) =~= Seq::<NodeView>::empty());
        }
        while i < self.known_peers.len()
            invariant
                i <= self.known_peers.len(),
                all == nodes_view(self.known_peers@),
                nodes_view(candidates@) == connectable(all.take(i as int)),
            decreases self.known_peers.len() - i,
        {
            proof {
                assert(all.take(i + 1).drop_last() =~= all.take(i as int));
                assert(all.take(i + 1).last() == self.known_peers@[i as int]@);
            }
            if !host_has_colon(&self.known_peers[i].host) {
                let ghost before = nodes_view(candidates@);
                candidates.push(self.known_peers[i].clone());
                assert(nodes_view(candidates@) =~= before.push(self.known_peers@[i as int]@));
            }
            i += 1;
        }
        assert(all.take(i as int) =~= all);
        let ghost usable = nodes_view(candidates@);
        shuffle_nodes(&mut candidates);
        let ghost shuffled = nodes_view(candidates@);
        proof {
            to_multiset_len(usable);
            to_multiset_len(shuffled);
        }
        if count < candidates.len() {
            candidates.truncate(count);
        }
        proof {
            let chosen = nodes_view(candidates@);
            assert forall|k: int| 0 <= k < chosen.len() implies usable.contains(
                #[trigger] chosen[k],
            ) by {
                assert(chosen[k] == shuffled[k]);
                assert(shuffled.contains(shuffled[k]));
                to_multiset_contains(shuffled, shuffled[k]);
                to_multiset_contains(usable, shuffled[k]);
            }
        }
        candidates
    }
}

impl Default for PeerDiscovery {
    fn default() -> (discovery: PeerDiscovery)
        ensures
            discovery.known().len() == 0,
            discovery.bootstrap().len() == 0,
            discovery.seeds().len() == 0,
    {
        PeerDiscovery::new()
    }
}

} // verus!
