use vstd::prelude::*;
use crate::config::{announced_address, public_address_or_default, Config};

verus! {

broadcast use vstd::string::group_string_axioms;

/// What the coordinator knows of another node.
///
/// `download_speed_bits` holds the IEEE-754 bit pattern of the measured
/// download speed in bytes per second; the table only carries it and resets
/// it to zero, the bit pattern of `0.0`.
#[derive(Debug)]
pub struct PeerInfo {
    pub node_id: String,
    pub addresses: Vec<String>,
    pub best_address: String,
    pub token: String,
    pub status: String,
    pub latency_ms: u64,
    pub download_speed_bits: u64,
    pub fail_count: u32,
    pub shareable: bool,
    pub active_connections: u32,
}

/// The plain contents of a `PeerInfo`.
pub struct PeerView {
    pub node_id: Seq<char>,
    pub addresses: Seq<Seq<char>>,
    pub best_address: Seq<char>,
    pub token: Seq<char>,
    pub status: Seq<char>,
    pub latency_ms: u64,
    pub download_speed_bits: u64,
    pub fail_count: u32,
    pub shareable: bool,
    pub active_connections: u32,
}

/// The texts of a list of strings.
pub open spec fn texts(v: Seq<String>) -> Seq<Seq<char>> {
    v.map_values(|s: String| s@)
}

impl View for PeerInfo {
    type V = PeerView;

    open spec fn view(&self) -> PeerView {
        PeerView {
            node_id: self.node_id@,
            addresses: texts(self.addresses@),
            best_address: self.best_address@,
            token: self.token@,
            status: self.status@,
            latency_ms: self.latency_ms,
            download_speed_bits: self.download_speed_bits,
            fail_count: self.fail_count,
            shareable: self.shareable,
            active_connections: self.active_connections,
        }
    }
}

/// Some entry of `v` spells `t`.
pub open spec fn has_text(v: Seq<String>, t: Seq<char>) -> bool {
    exists|k: int| 0 <= k < v.len() && (#[trigger] v[k])@ == t
}

/// Whether some entry of `v` spells the same text as `s`.
pub fn contains_string(v: &Vec<String>, s: &String) -> (b: bool)
    ensures
        b == has_text(v@, s@),
{
    let mut i: usize = 0;
    while i < v.len()
        invariant
            i <= v@.len(),
            forall|k: int| 0 <= k < i ==> (#[trigger] v@[k])@ != s@,
        decreases v@.len() - i,
    {
        if v[i] == *s {
            return true;
        }
        i = i + 1;
    }
    false
}

/// A copy of a list of strings.
pub fn clone_strings(v: &Vec<String>) -> (r: Vec<String>)
    ensures
        r@ == v@,
{
    let mut r: Vec<String> = Vec::new();
    let mut i: usize = 0;
    while i < v.len()
        invariant
            i <= v@.len(),
            r@ == v@.take(i as int),
        decreases v@.len() - i,
    {
        r.push(v[i].clone());
        assert(r@ =~= v@.take(i + 1));
        i = i + 1;
    }
    assert(v@.take(v@.len() as int) =~= v@);
    r
}

impl Clone for PeerInfo {
    fn clone(&self) -> (r: Self)
        ensures
            r@ == self@,
    {
        PeerInfo {
            node_id: self.node_id.clone(),
            addresses: clone_strings(&self.addresses),
            best_address: self.best_address.clone(),
            token: self.token.clone(),
            status: self.status.clone(),
            latency_ms: self.latency_ms,
            download_speed_bits: self.download_speed_bits,
            fail_count: self.fail_count,
            shareable: self.shareable,
            active_connections: self.active_connections,
        }
    }
}

/// The peers known to this node, each node id at most once, in the order in
/// which they were first met. A list rather than a concurrent map: such a map
/// changes its contents through shared references, which Verus takes to be
/// unchanging, so no contract could say what an insertion does.
pub struct PeerTable {
    peers: Vec<PeerInfo>,
}

/// No node id occurs twice.
pub open spec fn ids_unique(s: Seq<PeerView>) -> bool {
    forall|i: int, j: int| 0 <= i < s.len() && 0 <= j < s.len() && i != j ==> (#[trigger] s[i]).node_id != (#[trigger] s[j]).node_id
}

/// The plain contents of a list of peers.
pub open spec fn peer_views(v: Seq<PeerInfo>) -> Seq<PeerView> {
    v.map_values(|p: PeerInfo| p@)
}

/// Position of the peer with node id `id`.
pub open spec fn position_of(s: Seq<PeerView>, id: Seq<char>) -> Option<int>
    decreases s.len(),
{
    if s.len() == 0 {
        None
    } else {
        match position_of(s.drop_last(), id) {
            Some(i) => Some(i),
            None => if s.last().node_id == id { Some(s.len() - 1) } else { None },
        }
    }
}

/// What `position_of` means.
pub proof fn lemma_position_of(s: Seq<PeerView>, id: Seq<char>)
    ensures
        match position_of(s, id) {
            Some(i) => 0 <= i < s.len() && s[i].node_id == id && forall|j: int| 0 <= j < i ==> (#[trigger] s[j]).node_id != id,
            None => forall|j: int| 0 <= j < s.len() ==> (#[trigger] s[j]).node_id != id,
        },
    decreases s.len(),
{
    if s.len() > 0 {
        lemma_position_of(s.drop_last(), id);
        match position_of(s.drop_last(), id) {
            Some(i) => {
                assert(s[i] == s.drop_last()[i]);
                assert forall|j: int| 0 <= j < i implies (#[trigger] s[j]).node_id != id by {
                    assert(s[j] == s.drop_last()[j]);
                }
            },
            None => {
                assert forall|j: int| 0 <= j < s.len() - 1 implies (#[trigger] s[j]).node_id != id by {
                    assert(s[j] == s.drop_last()[j]);
                }
            },
        }
    }
}

impl View for PeerTable {
    type V = Seq<PeerView>;

    closed spec fn view(&self) -> Seq<PeerView> {
        peer_views(self.peers@)
    }
}

impl PeerTable {
    /// The table is well formed: no node id occurs twice.
    pub open spec fn wf(&self) -> bool {
        ids_unique(self@)
    }

    /// An empty table.
    pub fn new() -> (t: Self)
        ensures
            t@ == Seq::<PeerView>::empty(),
            t.wf(),
    {
        let t = PeerTable { peers: Vec::new() };
        assert(t@ =~= Seq::<PeerView>::empty());
        t
    }

    /// Number of peers.
    pub fn len(&self) -> (n: usize)
        ensures
            n == self@.len(),
    {
        self.peers.len()
    }

    /// The peer at position `i`.
    pub fn get(&self, i: usize) -> (p: &PeerInfo)
        requires
            i < self@.len(),
        ensures
            p@ == self@[i as int],
    {
        &self.peers[i]
    }

    /// Position of the peer with the given node id.
    pub fn lookup(&self, node_id: &str) -> (r: Option<usize>)
        ensures
            match r {
                Some(i) => position_of(self@, node_id@) == Some(i as int),
                None => position_of(self@, node_id@) is None,
            },
    {
        let id = node_id.to_owned();
        let ghost s = self@;
        let mut i: usize = 0;
        while i < self.peers.len()
            invariant
                id@ == node_id@,
                s == self@,
                s.len() == self.peers@.len(),
                i <= s.len(),
                position_of(s.take(i as int), node_id@) is None,
            decreases s.len() - i,
        {
            let ghost t = s.take(i + 1);
            assert(t.drop_last() =~= s.take(i as int));
            assert(t.last() == self.peers@[i as int]@);
            if self.peers[i].node_id == id {
                proof {
                    lemma_position_prefix(s, node_id@, i + 1);
                }
                return Some(i);
            }
            i = i + 1;
        }
        assert(s.take(s.len() as int) =~= s);
        None
    }

    /// Whether a peer with the given node id is known.
    pub fn contains(&self, node_id: &str) -> (b: bool)
        ensures
            b == position_of(self@, node_id@) is Some,
    {
        self.lookup(node_id).is_some()
    }
}

/// A match found within a prefix is the match of the whole sequence.
proof fn lemma_position_prefix(s: Seq<PeerView>, id: Seq<char>, k: int)
    requires
        0 <= k <= s.len(),
        position_of(s.take(k), id) is Some,
    ensures
        position_of(s, id) == position_of(s.take(k), id),
    decreases s.len() - k,
{
    if k < s.len() {
        let t = s.take(k + 1);
        assert(t.drop_last() =~= s.take(k));
        lemma_position_prefix(s, id, k + 1);
    } else {
        assert(s.take(k) =~= s);
    }
}

} // verus!

verus! {

/// Changing a peer without changing its node id keeps ids unique.
pub proof fn lemma_update_keeps_unique(s: Seq<PeerView>, i: int, p: PeerView)
    requires
        ids_unique(s),
        0 <= i < s.len(),
        p.node_id == s[i].node_id,
    ensures
        ids_unique(s.update(i, p)),
{
    let t = s.update(i, p);
    assert forall|a: int, b: int| 0 <= a < t.len() && 0 <= b < t.len() && a != b implies (#[trigger] t[a]).node_id
        != (#[trigger] t[b]).node_id by {
        assert(t[a].node_id == s[a].node_id);
        assert(t[b].node_id == s[b].node_id);
    }
}

/// Adding a peer whose node id is not yet known keeps ids unique.
pub proof fn lemma_push_keeps_unique(s: Seq<PeerView>, p: PeerView)
    requires
        ids_unique(s),
        position_of(s, p.node_id) is None,
    ensures
        ids_unique(s.push(p)),
{
    lemma_position_of(s, p.node_id);
    let t = s.push(p);
    assert forall|a: int, b: int| 0 <= a < t.len() && 0 <= b < t.len() && a != b implies (#[trigger] t[a]).node_id
        != (#[trigger] t[b]).node_id by {
        if a < s.len() && b < s.len() {
            assert(t[a] == s[a] && t[b] == s[b]);
        } else if a < s.len() {
            assert(t[a] == s[a]);
        } else {
            assert(t[b] == s[b]);
        }
    }
}

/// Removing a peer keeps ids unique.
pub proof fn lemma_remove_keeps_unique(s: Seq<PeerView>, i: int)
    requires
        ids_unique(s),
        0 <= i < s.len(),
    ensures
        ids_unique(s.remove(i)),
{
    let t = s.remove(i);
    assert forall|a: int, b: int| 0 <= a < t.len() && 0 <= b < t.len() && a != b implies (#[trigger] t[a]).node_id
        != (#[trigger] t[b]).node_id by {
        let a2 = if a < i { a } else { a + 1 };
        let b2 = if b < i { b } else { b + 1 };
        assert(t[a] == s[a2]);
        assert(t[b] == s[b2]);
    }
}

/// A list of strings spells `t` exactly when its texts contain `t`.
pub proof fn lemma_has_text(v: Seq<String>, t: Seq<char>)
    ensures
        has_text(v, t) == texts(v).contains(t),
{
    if has_text(v, t) {
        let k = choose|k: int| 0 <= k < v.len() && (#[trigger] v[k])@ == t;
        assert(texts(v)[k] == t);
    }
    if texts(v).contains(t) {
        let k = choose|k: int| 0 <= k < texts(v).len() && texts(v)[k] == t;
        assert(v[k]@ == t);
    }
}

/// The peer answers to the address `a`, as a known address or as its best one.
pub open spec fn knows_address(p: PeerView, a: Seq<char>) -> bool {
    p.addresses.contains(a) || p.best_address == a
}

/// `i` is the first peer answering to address `a`.
pub open spec fn first_knowing(s: Seq<PeerView>, a: Seq<char>, i: int) -> bool {
    &&& 0 <= i < s.len()
    &&& knows_address(s[i], a)
    &&& forall|j: int| 0 <= j < i ==> !knows_address(#[trigger] s[j], a)
}

/// A newly met peer: reachable at `addr`, nothing measured yet.
pub open spec fn new_peer(id: Seq<char>, addr: Seq<char>, token: Seq<char>, shareable: bool, status: Seq<char>) -> PeerView {
    PeerView {
        node_id: id,
        addresses: seq![addr],
        best_address: addr,
        token: token,
        status: status,
        latency_ms: 0,
        download_speed_bits: 0,
        fail_count: 0,
        shareable: shareable,
        active_connections: 0,
    }
}

/// The table after meeting node `id` at `addr`: a known node learns the
/// address (if new to it) and the sharing flag, keeping its token and
/// status; an unknown node is added at the end.
pub open spec fn upserted(s: Seq<PeerView>, id: Seq<char>, addr: Seq<char>, token: Seq<char>, shareable: bool, status: Seq<char>) -> Seq<PeerView> {
    match position_of(s, id) {
        Some(i) => s.update(
            i,
            PeerView {
                addresses: if s[i].addresses.contains(addr) { s[i].addresses } else { s[i].addresses.push(addr) },
                shareable: shareable,
                ..s[i]
            },
        ),
        None => s.push(new_peer(id, addr, token, shareable, status)),
    }
}

impl PeerTable {
    /// When some peer already answers to `address`, the first such peer takes
    /// the new sharing flag and `true` is returned; otherwise nothing changes.
    pub fn mark_known_address(&mut self, address: &String, shareable: bool) -> (found: bool)
        requires
            old(self).wf(),
        ensures
            final(self).wf(),
            found == exists|i: int| 0 <= i < old(self)@.len() && knows_address(#[trigger] old(self)@[i], address@),
            forall|i: int| #[trigger] first_knowing(old(self)@, address@, i) ==> final(self)@ == old(self)@.update(
                i,
                PeerView { shareable: shareable, ..old(self)@[i] },
            ),
            !found ==> final(self)@ == old(self)@,
    {
        let ghost s = self@;
        let mut i: usize = 0;
        while i < self.peers.len()
            invariant
                s == self@,
                s == old(self)@,
                ids_unique(s),
                s.len() == self.peers@.len(),
                i <= s.len(),
                forall|j: int| 0 <= j < i ==> !knows_address(#[trigger] s[j], address@),
            decreases s.len() - i,
        {
            let hit = contains_string(&self.peers[i].addresses, address) || self.peers[i].best_address == *address;
            proof {
                lemma_has_text(self.peers@[i as int].addresses@, address@);
                assert(s[i as int] == self.peers@[i as int]@);
            }
            if hit {
                self.peers[i].shareable = shareable;
                proof {
                    assert(self@ =~= s.update(i as int, PeerView { shareable: shareable, ..s[i as int] }));
                    lemma_update_keeps_unique(s, i as int, PeerView { shareable: shareable, ..s[i as int] });
                    assert forall|k: int| #[trigger] first_knowing(s, address@, k) implies k == i by {
                        if k < i {
                        } else if k > i {
                            assert(!knows_address(s[i as int], address@));
                        }
                    }
                }
                return true;
            }
            i = i + 1;
        }
        false
    }

    /// Records that node `node_id` was met at `address`, as `upserted` says.
    pub fn upsert(&mut self, node_id: String, address: String, token: String, shareable: bool, status: String)
        requires
            old(self).wf(),
        ensures
            final(self).wf(),
            final(self)@ == upserted(old(self)@, node_id@, address@, token@, shareable, status@),
    {
        let ghost s = self@;
        proof {
            lemma_position_of(s, node_id@);
        }
        match self.lookup(node_id.as_str()) {
            Some(i) => {
                let known = contains_string(&self.peers[i].addresses, &address);
                proof {
                    lemma_has_text(self.peers@[i as int].addresses@, address@);
                }
                if !known {
                    self.peers[i].addresses.push(address);
                }
                self.peers[i].shareable = shareable;
                proof {
                    let target = upserted(s, node_id@, address@, token@, shareable, status@);
                    assert(texts(self.peers@[i as int].addresses@) =~= target[i as int].addresses);
                    assert(self@ =~= target);
                    lemma_update_keeps_unique(s, i as int, target[i as int]);
                }
            },
            None => {
                let best = address.clone();
                let mut addresses: Vec<String> = Vec::new();
                addresses.push(address);
                let p = PeerInfo {
                    node_id,
                    addresses,
                    best_address: best,
                    token,
                    status,
                    latency_ms: 0,
                    download_speed_bits: 0,
                    fail_count: 0,
                    shareable,
                    active_connections: 0,
                };
                self.peers.push(p);
                proof {
                    assert(texts(p.addresses@) =~= seq![address@]);
                    assert(self@ =~= s.push(p@));
                    lemma_push_keeps_unique(s, p@);
                }
            },
        }
    }

    /// One more transfer with the peer, if it is known.
    pub fn inc_connection(&mut self, node_id: &str)
        requires
            old(self).wf(),
            position_of(old(self)@, node_id@) matches Some(i) ==> old(self)@[i].active_connections < u32::MAX,
        ensures
            final(self).wf(),
            final(self)@ == match position_of(old(self)@, node_id@) {
                Some(i) => old(self)@.update(i, PeerView { active_connections: (old(self)@[i].active_connections + 1) as u32, ..old(self)@[i] }),
                None => old(self)@,
            },
    {
        let ghost s = self@;
        proof {
            lemma_position_of(s, node_id@);
        }
        if let Some(i) = self.lookup(node_id) {
            assert(s[i as int] == self.peers@[i as int]@);
            self.peers[i].active_connections = self.peers[i].active_connections + 1;
            assert(self@ =~= s.update(i as int, PeerView { active_connections: (s[i as int].active_connections + 1) as u32, ..s[i as int] }));
            proof {
                lemma_update_keeps_unique(s, i as int, self@[i as int]);
            }
        }
    }

    /// One transfer fewer with the peer, if it is known and has any.
    pub fn dec_connection(&mut self, node_id: &str)
        requires
            old(self).wf(),
        ensures
            final(self).wf(),
            final(self)@ == match position_of(old(self)@, node_id@) {
                Some(i) => if old(self)@[i].active_connections > 0 {
                    old(self)@.update(i, PeerView { active_connections: (old(self)@[i].active_connections - 1) as u32, ..old(self)@[i] })
                } else {
                    old(self)@
                },
                None => old(self)@,
            },
    {
        let ghost s = self@;
        proof {
            lemma_position_of(s, node_id@);
        }
        if let Some(i) = self.lookup(node_id) {
            assert(s[i as int] == self.peers@[i as int]@);
            if self.peers[i].active_connections > 0 {
                self.peers[i].active_connections = self.peers[i].active_connections - 1;
                assert(self@ =~= s.update(i as int, PeerView { active_connections: (s[i as int].active_connections - 1) as u32, ..s[i as int] }));
                proof {
                    lemma_update_keeps_unique(s, i as int, self@[i as int]);
                }
            }
        }
    }

    /// The best address of the peer, or the empty text for an unknown node.
    pub fn best_address_of(&self, node_id: &str) -> (a: String)
        ensures
            a@ == match position_of(self@, node_id@) {
                Some(i) => self@[i].best_address,
                None => Seq::<char>::empty(),
            },
    {
        proof {
            lemma_position_of(self@, node_id@);
        }
        match self.lookup(node_id) {
            Some(i) => {
                assert(self@[i as int] == self.peers@[i as int]@);
                self.peers[i].best_address.clone()
            },
            None => String::new(),
        }
    }

    /// Replaces the measured speed of the peer at position `i`.
    pub fn set_speed_bits(&mut self, i: usize, bits: u64)
        requires
            old(self).wf(),
            i < old(self)@.len(),
        ensures
            final(self).wf(),
            final(self)@ == old(self)@.update(i as int, PeerView { download_speed_bits: bits, ..old(self)@[i as int] }),
    {
        let ghost s = self@;
        self.peers[i].download_speed_bits = bits;
        assert(self@ =~= s.update(i as int, PeerView { download_speed_bits: bits, ..s[i as int] }));
        proof {
            lemma_update_keeps_unique(s, i as int, self@[i as int]);
        }
    }
}

} // verus!

verus! {

/// The texts of a list of string pairs.
pub open spec fn pair_texts(v: Seq<(String, String)>) -> Seq<(Seq<char>, Seq<char>)> {
    v.map_values(|p: (String, String)| (p.0@, p.1@))
}

/// The peers satisfying `keep`, in order.
pub open spec fn filter_peers(s: Seq<PeerView>, keep: spec_fn(PeerView) -> bool) -> Seq<PeerView>
    decreases s.len(),
{
    if s.len() == 0 {
        Seq::empty()
    } else if keep(s.last()) {
        filter_peers(s.drop_last(), keep).push(s.last())
    } else {
        filter_peers(s.drop_last(), keep)
    }
}

/// The address pairs `pick` yields for the peers, in order, skipping peers it
/// yields nothing for.
pub open spec fn pick_pairs(s: Seq<PeerView>, pick: spec_fn(PeerView) -> Option<(Seq<char>, Seq<char>)>) -> Seq<(Seq<char>, Seq<char>)>
    decreases s.len(),
{
    if s.len() == 0 {
        Seq::empty()
    } else {
        match pick(s.last()) {
            Some(p) => pick_pairs(s.drop_last(), pick).push(p),
            None => pick_pairs(s.drop_last(), pick),
        }
    }
}

/// Where to reach a peer over gRPC, with its token: its best address, else
/// its first known address.
pub open spec fn grpc_target(p: PeerView) -> Option<(Seq<char>, Seq<char>)> {
    if p.best_address.len() > 0 {
        Some((p.best_address, p.token))
    } else if p.addresses.len() > 0 {
        Some((p.addresses[0], p.token))
    } else {
        None
    }
}

/// Where to ask a peer for its own peers: only its best address.
pub open spec fn discovery_target(p: PeerView) -> Option<(Seq<char>, Seq<char>)> {
    if p.best_address.len() > 0 { Some((p.best_address, p.token)) } else { None }
}

/// The peers this node tells a requester about: shareable ones other than
/// this node and the requester.
pub open spec fn shared_peer(me: Seq<char>, requester: Seq<char>) -> spec_fn(PeerView) -> bool {
    |p: PeerView| p.node_id != me && p.node_id != requester && p.shareable
}

/// The peers listed to a client: not the node asking, not one reachable at
/// this node's own address, and shareable unless the client is the owner.
pub open spec fn listed_peer(requester: Seq<char>, my_address: Seq<char>, is_admin: bool) -> spec_fn(PeerView) -> bool {
    |p: PeerView|
        p.node_id != requester && !(p.best_address == my_address || p.addresses.contains(my_address)) && (is_admin
            || p.shareable)
}

impl PeerTable {
    /// Node id and token of every peer, in order.
    pub fn ids_and_tokens(&self) -> (r: Vec<(String, String)>)
        ensures
            r@.len() == self@.len(),
            forall|i: int| 0 <= i < r@.len() ==> (#[trigger] r@[i]).0@ == self@[i].node_id && r@[i].1@ == self@[i].token,
    {
        let mut r: Vec<(String, String)> = Vec::new();
        let mut i: usize = 0;
        while i < self.peers.len()
            invariant
                i <= self.peers@.len(),
                self@.len() == self.peers@.len(),
                r@.len() == i,
                forall|j: int| 0 <= j < i ==> (#[trigger] r@[j]).0@ == self@[j].node_id && r@[j].1@ == self@[j].token,
            decreases self.peers@.len() - i,
        {
            assert(self@[i as int] == self.peers@[i as int]@);
            r.push((self.peers[i].node_id.clone(), self.peers[i].token.clone()));
            i = i + 1;
        }
        r
    }

    /// The gRPC address and token of every peer that has an address.
    pub fn grpc_targets(&self) -> (r: Vec<(String, String)>)
        ensures
            pair_texts(r@) == pick_pairs(self@, |p: PeerView| grpc_target(p)),
    {
        let ghost s = self@;
        let ghost pick = |p: PeerView| grpc_target(p);
        let mut r: Vec<(String, String)> = Vec::new();
        let mut i: usize = 0;
        while i < self.peers.len()
            invariant
                s == self@,
                pick == (|p: PeerView| grpc_target(p)),
                i <= self.peers@.len(),
                s.len() == self.peers@.len(),
                pair_texts(r@) == pick_pairs(s.take(i as int), pick),
            decreases self.peers@.len() - i,
        {
            let ghost t = s.take(i + 1);
            assert(t.drop_last() =~= s.take(i as int));
            assert(t.last() == self.peers@[i as int]@);
            let p = &self.peers[i];
            if !p.best_address.as_str().is_empty() {
                r.push((p.best_address.clone(), p.token.clone()));
            } else if p.addresses.len() > 0 {
                assert(t.last().addresses[0] == p.addresses@[0]@);
                r.push((p.addresses[0].clone(), p.token.clone()));
            }
            assert(pair_texts(r@) =~= pick_pairs(t, pick));
            i = i + 1;
        }
        assert(s.take(s.len() as int) =~= s);
        r
    }

    /// The best address and token of every peer that has a best address.
    pub fn discovery_targets(&self) -> (r: Vec<(String, String)>)
        ensures
            pair_texts(r@) == pick_pairs(self@, |p: PeerView| discovery_target(p)),
    {
        let ghost s = self@;
        let ghost pick = |p: PeerView| discovery_target(p);
        let mut r: Vec<(String, String)> = Vec::new();
        let mut i: usize = 0;
        while i < self.peers.len()
            invariant
                s == self@,
                pick == (|p: PeerView| discovery_target(p)),
                i <= self.peers@.len(),
                s.len() == self.peers@.len(),
                pair_texts(r@) == pick_pairs(s.take(i as int), pick),
            decreases self.peers@.len() - i,
        {
            let ghost t = s.take(i + 1);
            assert(t.drop_last() =~= s.take(i as int));
            assert(t.last() == self.peers@[i as int]@);
            let p = &self.peers[i];
            if !p.best_address.as_str().is_empty() {
                r.push((p.best_address.clone(), p.token.clone()));
            }
            assert(pair_texts(r@) =~= pick_pairs(t, pick));
            i = i + 1;
        }
        assert(s.take(s.len() as int) =~= s);
        r
    }

    /// The peers this node shares with `requester`; none when sharing is off.
    pub fn shared_with(&self, my_node_id: &str, requester: &str, share_node: bool) -> (r: Vec<PeerInfo>)
        ensures
            !share_node ==> r@.len() == 0,
            share_node ==> peer_views(r@) == filter_peers(self@, shared_peer(my_node_id@, requester@)),
    {
        let mut r: Vec<PeerInfo> = Vec::new();
        if !share_node {
            return r;
        }
        let me = my_node_id.to_owned();
        let req = requester.to_owned();
        let ghost s = self@;
        let ghost keep = shared_peer(my_node_id@, requester@);
        let mut i: usize = 0;
        while i < self.peers.len()
            invariant
                s == self@,
                keep == shared_peer(my_node_id@, requester@),
                me@ == my_node_id@,
                req@ == requester@,
                i <= self.peers@.len(),
                s.len() == self.peers@.len(),
                peer_views(r@) == filter_peers(s.take(i as int), keep),
            decreases self.peers@.len() - i,
        {
            let ghost t = s.take(i + 1);
            assert(t.drop_last() =~= s.take(i as int));
            assert(t.last() == self.peers@[i as int]@);
            let p = &self.peers[i];
            if p.node_id != me && p.node_id != req && p.shareable {
                r.push(p.clone());
            }
            assert(peer_views(r@) =~= filter_peers(t, keep));
            i = i + 1;
        }
        assert(s.take(s.len() as int) =~= s);
        r
    }

    /// The peers listed to a client: see `listed_peer`.
    pub fn listing(&self, requester: &str, my_address: &String, is_admin: bool) -> (r: Vec<PeerInfo>)
        ensures
            peer_views(r@) == filter_peers(self@, listed_peer(requester@, my_address@, is_admin)),
    {
        let mut r: Vec<PeerInfo> = Vec::new();
        let req = requester.to_owned();
        let ghost s = self@;
        let ghost keep = listed_peer(requester@, my_address@, is_admin);
        let mut i: usize = 0;
        while i < self.peers.len()
            invariant
                s == self@,
                keep == listed_peer(requester@, my_address@, is_admin),
                req@ == requester@,
                i <= self.peers@.len(),
                s.len() == self.peers@.len(),
                peer_views(r@) == filter_peers(s.take(i as int), keep),
            decreases self.peers@.len() - i,
        {
            let ghost t = s.take(i + 1);
            assert(t.drop_last() =~= s.take(i as int));
            assert(t.last() == self.peers@[i as int]@);
            let p = &self.peers[i];
            let mine = p.best_address == *my_address || contains_string(&p.addresses, my_address);
            proof {
                lemma_has_text(p.addresses@, my_address@);
            }
            if p.node_id != req && !mine && (is_admin || p.shareable) {
                r.push(p.clone());
            }
            assert(peer_views(r@) =~= filter_peers(t, keep));
            i = i + 1;
        }
        assert(s.take(s.len() as int) =~= s);
        r
    }

    /// The address at which to add a node learned from another peer: its
    /// first address, when it is neither this node nor already known.
    pub fn discovered_address(&self, my_node_id: &str, node_id: &String, addresses: &Vec<String>) -> (r: Option<String>)
        ensures
            r is Some <==> (node_id@ != my_node_id@ && position_of(self@, node_id@) is None && addresses@.len() > 0),
            r is Some ==> r->0@ == addresses@[0]@,
    {
        let me = my_node_id.to_owned();
        if *node_id != me && !self.contains(node_id.as_str()) && addresses.len() > 0 {
            Some(addresses[0].clone())
        } else {
            None
        }
    }
}

} // verus!

verus! {

/// A peer that failed more than this many probes in a row is forgotten.
pub const MAX_FAIL_COUNT: u32 = 30;

/// What probing one peer found: whether any of its addresses answered, the
/// fastest one and its latency, and the node id it answered with when that
/// differs from the one on record.
pub struct ProbeResult {
    pub node_id: String,
    pub online: bool,
    pub best_address: String,
    pub latency_ms: u64,
    pub discovered_id: Option<String>,
}

/// The plain contents of a `ProbeResult`.
pub struct ProbeView {
    pub node_id: Seq<char>,
    pub online: bool,
    pub best_address: Seq<char>,
    pub latency_ms: u64,
    pub discovered_id: Option<Seq<char>>,
}

impl View for ProbeResult {
    type V = ProbeView;

    open spec fn view(&self) -> ProbeView {
        ProbeView {
            node_id: self.node_id@,
            online: self.online,
            best_address: self.best_address@,
            latency_ms: self.latency_ms,
            discovered_id: match self.discovered_id {
                Some(d) => Some(d@),
                None => None,
            },
        }
    }
}

/// The peer after a probe: online peers record the fastest address and its
/// latency and clear their failures; offline peers lose latency and speed
/// and count one more failure.
pub open spec fn probed(p: PeerView, r: ProbeView) -> PeerView {
    if r.online {
        PeerView { status: "Online"@, latency_ms: r.latency_ms, best_address: r.best_address, fail_count: 0, ..p }
    } else {
        PeerView { status: "Offline"@, latency_ms: 0, download_speed_bits: 0, fail_count: (p.fail_count + 1) as u32, ..p }
    }
}

/// Some address answered.
pub open spec fn any_answer(lat: Seq<Option<u64>>) -> bool {
    exists|j: int| 0 <= j < lat.len() && (#[trigger] lat[j]) is Some
}

/// `i` is the fastest answer: the first address with the smallest measured
/// latency, a latency below `u64::MAX` (the bound the search starts from).
pub open spec fn is_fastest(lat: Seq<Option<u64>>, i: int) -> bool {
    &&& 0 <= i < lat.len()
    &&& lat[i] matches Some(l) && l < u64::MAX
    &&& forall|j: int| 0 <= j < i && (#[trigger] lat[j]) is Some ==> lat[j]->0 > lat[i]->0
    &&& forall|j: int| i < j < lat.len() && (#[trigger] lat[j]) is Some ==> lat[j]->0 >= lat[i]->0
}

/// The position of the fastest answer among the latencies measured for a
/// peer's addresses (`None` where an address did not answer).
pub fn fastest_answer(lat: &Vec<Option<u64>>) -> (r: Option<usize>)
    ensures
        r matches Some(i) ==> is_fastest(lat@, i as int),
        r is None ==> forall|j: int| 0 <= j < lat@.len() ==> (#[trigger] lat@[j]) is None || lat@[j]->0 == u64::MAX,
{
    let mut best: Option<usize> = None;
    let mut best_latency: u64 = u64::MAX;
    let mut k: usize = 0;
    while k < lat.len()
        invariant
            k <= lat@.len(),
            best is None ==> best_latency == u64::MAX,
            best is None ==> forall|j: int| 0 <= j < k ==> (#[trigger] lat@[j]) is None || lat@[j]->0 == u64::MAX,
            best matches Some(b) ==> {
                &&& b < k
                &&& lat@[b as int] == Some(best_latency)
                &&& best_latency < u64::MAX
                &&& forall|j: int| 0 <= j < b && (#[trigger] lat@[j]) is Some ==> lat@[j]->0 > best_latency
                &&& forall|j: int| b < j < k && (#[trigger] lat@[j]) is Some ==> lat@[j]->0 >= best_latency
            },
        decreases lat@.len() - k,
    {
        if let Some(l) = lat[k] {
            if l < best_latency {
                best_latency = l;
                best = Some(k);
            }
        }
        k = k + 1;
    }
    best
}

/// A probe of node `node_id` from the latencies measured at its addresses and
/// the id its fastest address answered with (if it was asked): online when
/// any address answered; the fastest address and its latency (the empty
/// address and `u64::MAX` when none qualifies); a discovered id only when it
/// differs from `node_id`.
pub fn summarize_probe(
    node_id: String,
    addresses: &Vec<String>,
    lat: &Vec<Option<u64>>,
    answered_id: Option<String>,
) -> (r: ProbeResult)
    requires
        addresses@.len() == lat@.len(),
    ensures
        r.node_id == node_id,
        r.online == any_answer(lat@),
        forall|i: int| #[trigger] is_fastest(lat@, i) ==> r.best_address@ == addresses@[i]@ && r.latency_ms == lat@[i]->0,
        (forall|i: int| !#[trigger] is_fastest(lat@, i)) ==> r.best_address@ == Seq::<char>::empty() && r.latency_ms == u64::MAX,
        r.discovered_id == match answered_id {
            Some(d) => if any_answer(lat@) && d@ != node_id@ { Some(d) } else { None },
            None => None,
        },
{
    let mut online = false;
    let mut k: usize = 0;
    while k < lat.len()
        invariant
            k <= lat@.len(),
            online == exists|j: int| 0 <= j < k && (#[trigger] lat@[j]) is Some,
        decreases lat@.len() - k,
    {
        if lat[k].is_some() {
            online = true;
        }
        k = k + 1;
    }
    let (best_address, latency_ms) = match fastest_answer(lat) {
        Some(i) => {
            proof {
                assert forall|k: int| #[trigger] is_fastest(lat@, k) implies k == i by {
                    if k < i {
                        assert(lat@[k] is Some);
                    } else if i < k {
                        assert(lat@[i as int] is Some);
                    }
                }
            }
            (addresses[i].clone(), lat[i].unwrap())
        },
        None => {
            proof {
                assert forall|k: int| !#[trigger] is_fastest(lat@, k) by {}
            }
            (String::new(), u64::MAX)
        },
    };
    let discovered_id = match answered_id {
        Some(d) => if online && d != node_id { Some(d) } else { None },
        None => None,
    };
    ProbeResult { node_id, online, best_address, latency_ms, discovered_id }
}

/// What a probe asks of the rest of the round: rename the peer to the id it
/// answered with, and whether to forget it.
pub struct ProbeOutcome {
    pub rename_to: Option<String>,
    pub forget: bool,
}

/// The table after recording one probe (unknown nodes are ignored).
pub open spec fn after_probe(s: Seq<PeerView>, r: ProbeView) -> Seq<PeerView> {
    match position_of(s, r.node_id) {
        Some(i) => s.update(i, probed(s[i], r)),
        None => s,
    }
}

/// The rename a probe asks for.
pub open spec fn probe_rename(s: Seq<PeerView>, r: ProbeView) -> Option<Seq<char>> {
    match position_of(s, r.node_id) {
        Some(i) => if r.online { r.discovered_id } else { None },
        None => None,
    }
}

/// Whether a probe asks to forget the peer.
pub open spec fn probe_forgets(s: Seq<PeerView>, r: ProbeView) -> bool {
    match position_of(s, r.node_id) {
        Some(i) => !r.online && s[i].fail_count + 1 > MAX_FAIL_COUNT,
        None => false,
    }
}

/// The table without the peer `id`.
pub open spec fn without(s: Seq<PeerView>, id: Seq<char>) -> Seq<PeerView> {
    match position_of(s, id) {
        Some(i) => s.remove(i),
        None => s,
    }
}

/// `extra` added to `base`, skipping texts already there, in order.
pub open spec fn merged(base: Seq<Seq<char>>, extra: Seq<Seq<char>>) -> Seq<Seq<char>>
    decreases extra.len(),
{
    if extra.len() == 0 {
        base
    } else {
        let m = merged(base, extra.drop_last());
        if m.contains(extra.last()) { m } else { m.push(extra.last()) }
    }
}

/// The table after learning that node `old` answers as `new`: when `new` is
/// this node, `old` is forgotten; otherwise the entry for `old` is taken out
/// and either folded into the entry for `new` (which learns its addresses,
/// comes online and clears its failures) or re-entered under `new`.
pub open spec fn renamed(s: Seq<PeerView>, old: Seq<char>, new: Seq<char>, me: Seq<char>) -> Seq<PeerView> {
    if new == me {
        without(s, old)
    } else {
        match position_of(s, old) {
            None => s,
            Some(i) => {
                let rest = s.remove(i);
                let p = s[i];
                match position_of(rest, new) {
                    Some(j) => rest.update(
                        j,
                        PeerView { addresses: merged(rest[j].addresses, p.addresses), status: "Online"@, fail_count: 0, ..rest[j] },
                    ),
                    None => rest.push(PeerView { node_id: new, ..p }),
                }
            },
        }
    }
}

proof fn lemma_remove_position(s: Seq<PeerView>, i: int, id: Seq<char>)
    requires
        0 <= i < s.len(),
    ensures
        s[i].node_id != id ==> (position_of(s.remove(i), id) is None <==> position_of(s, id) is None),
        s[i].node_id == id && ids_unique(s) ==> position_of(s.remove(i), id) is None,
{
    lemma_position_of(s, id);
    lemma_position_of(s.remove(i), id);
    let t = s.remove(i);
    if s[i].node_id != id {
        if position_of(s, id) is Some {
            let k = position_of(s, id)->0;
            if k < i { assert(t[k] == s[k]); } else { assert(t[k - 1] == s[k]); }
        }
        if position_of(t, id) is Some {
            let k = position_of(t, id)->0;
            if k < i { assert(t[k] == s[k]); } else { assert(t[k] == s[k + 1]); }
        }
    } else if ids_unique(s) {
        if position_of(t, id) is Some {
            let k = position_of(t, id)->0;
            if k < i { assert(t[k] == s[k]); } else { assert(t[k] == s[k + 1]); }
        }
    }
}

impl PeerTable {
    /// Forgets the peer `node_id`, handing back its entry if it was known.
    pub fn remove_peer(&mut self, node_id: &str) -> (r: Option<PeerInfo>)
        requires
            old(self).wf(),
        ensures
            final(self).wf(),
            final(self)@ == without(old(self)@, node_id@),
            r is Some <==> position_of(old(self)@, node_id@) is Some,
            r is Some ==> r->0@ == old(self)@[position_of(old(self)@, node_id@)->0],
    {
        let ghost s = self@;
        proof {
            lemma_position_of(s, node_id@);
        }
        match self.lookup(node_id) {
            Some(i) => {
                assert(s[i as int] == self.peers@[i as int]@);
                let p = self.peers.remove(i);
                proof {
                    assert(self@ =~= s.remove(i as int));
                    lemma_remove_keeps_unique(s, i as int);
                }
                Some(p)
            },
            None => None,
        }
    }

    /// Records one probe and says what it asks of the rest of the round.
    pub fn record_probe(&mut self, r: &ProbeResult) -> (o: ProbeOutcome)
        requires
            old(self).wf(),
            position_of(old(self)@, r@.node_id) matches Some(i) ==> old(self)@[i].fail_count < u32::MAX,
        ensures
            final(self).wf(),
            final(self)@ == after_probe(old(self)@, r@),
            match o.rename_to {
                Some(n) => probe_rename(old(self)@, r@) == Some(n@),
                None => probe_rename(old(self)@, r@) is None,
            },
            o.forget == probe_forgets(old(self)@, r@),
    {
        let ghost s = self@;
        proof {
            lemma_position_of(s, r@.node_id);
        }
        match self.lookup(r.node_id.as_str()) {
            Some(i) => {
                assert(s[i as int] == self.peers@[i as int]@);
                if r.online {
                    self.peers[i].status = "Online".to_owned();
                    self.peers[i].latency_ms = r.latency_ms;
                    self.peers[i].best_address = r.best_address.clone();
                    self.peers[i].fail_count = 0;
                    proof {
                        assert(self@ =~= s.update(i as int, probed(s[i as int], r@)));
                        lemma_update_keeps_unique(s, i as int, probed(s[i as int], r@));
                    }
                    let rename_to = match &r.discovered_id {
                        Some(d) => Some(d.clone()),
                        None => None,
                    };
                    ProbeOutcome { rename_to, forget: false }
                } else {
                    self.peers[i].status = "Offline".to_owned();
                    self.peers[i].latency_ms = 0;
                    self.peers[i].download_speed_bits = 0;
                    self.peers[i].fail_count = self.peers[i].fail_count + 1;
                    let forget = self.peers[i].fail_count > MAX_FAIL_COUNT;
                    proof {
                        assert(self@ =~= s.update(i as int, probed(s[i as int], r@)));
                        lemma_update_keeps_unique(s, i as int, probed(s[i as int], r@));
                    }
                    ProbeOutcome { rename_to: None, forget }
                }
            },
            None => ProbeOutcome { rename_to: None, forget: false },
        }
    }

    /// Applies the news that node `old_id` answers as `new_id`, as `renamed`
    /// says.
    pub fn rename_peer(&mut self, old_id: &str, new_id: &String, my_node_id: &str)
        requires
            old(self).wf(),
        ensures
            final(self).wf(),
            final(self)@ == renamed(old(self)@, old_id@, new_id@, my_node_id@),
    {
        let ghost s = self@;
        let me = my_node_id.to_owned();
        if *new_id == me {
            let _ = self.remove_peer(old_id);
            return;
        }
        proof {
            lemma_position_of(s, old_id@);
        }
        match self.remove_peer(old_id) {
            None => {},
            Some(mut p) => {
                let ghost i = position_of(s, old_id@)->0;
                let ghost rest = self@;
                assert(rest == s.remove(i));
                proof {
                    lemma_position_of(rest, new_id@);
                }
                match self.lookup(new_id.as_str()) {
                    Some(j) => {
                        assert(rest[j as int] == self.peers@[j as int]@);
                        let ghost base = rest[j as int].addresses;
                        let mut k: usize = 0;
                        while k < p.addresses.len()
                            invariant
                                rest == s.remove(i),
                                j < self.peers@.len(),
                                self.peers@.len() == rest.len(),
                                k <= p.addresses@.len(),
                                forall|x: int| 0 <= x < rest.len() && x != j ==> #[trigger] self.peers@[x]@ == rest[x],
                                self.peers@[j as int]@ == (PeerView { addresses: self.peers@[j as int]@.addresses, ..rest[j as int] }),
                                texts(self.peers@[j as int].addresses@) == merged(base, texts(p.addresses@).take(k as int)),
                            decreases p.addresses@.len() - k,
                        {
                            let ghost extra = texts(p.addresses@).take(k + 1);
                            assert(extra.drop_last() =~= texts(p.addresses@).take(k as int));
                            assert(extra.last() == p.addresses@[k as int]@);
                            let known = contains_string(&self.peers[j].addresses, &p.addresses[k]);
                            proof {
                                lemma_has_text(self.peers@[j as int].addresses@, p.addresses@[k as int]@);
                            }
                            if !known {
                                let a = p.addresses[k].clone();
                                self.peers[j].addresses.push(a);
                                assert(texts(self.peers@[j as int].addresses@) =~= merged(base, extra));
                            }
                            k = k + 1;
                        }
                        assert(texts(p.addresses@).take(p.addresses@.len() as int) =~= texts(p.addresses@));
                        assert(p@ == s[i]);
                        self.peers[j].status = "Online".to_owned();
                        self.peers[j].fail_count = 0;
                        proof {
                            let target = renamed(s, old_id@, new_id@, my_node_id@);
                            assert(self@ =~= target);
                            lemma_remove_keeps_unique(s, i);
                            lemma_update_keeps_unique(rest, j as int, target[j as int]);
                        }
                    },
                    None => {
                        p.node_id = new_id.clone();
                        self.peers.push(p);
                        proof {
                            let target = renamed(s, old_id@, new_id@, my_node_id@);
                            assert(self@ =~= target);
                            lemma_remove_keeps_unique(s, i);
                            lemma_push_keeps_unique(rest, PeerView { node_id: new_id@, ..s[i] });
                        }
                    },
                }
            },
        }
    }
}

} // verus!

verus! {

/// The plain contents of a list of probe results.
pub open spec fn probe_views(v: Seq<ProbeResult>) -> Seq<ProbeView> {
    v.map_values(|r: ProbeResult| r@)
}

/// The table after recording each probe in turn.
pub open spec fn probes_applied(s: Seq<PeerView>, rs: Seq<ProbeView>) -> Seq<PeerView>
    decreases rs.len(),
{
    if rs.len() == 0 { s } else { after_probe(probes_applied(s, rs.drop_last()), rs.last()) }
}

/// The renames the probes ask for, in order, as (old id, new id).
pub open spec fn round_renames(s: Seq<PeerView>, rs: Seq<ProbeView>) -> Seq<(Seq<char>, Seq<char>)>
    decreases rs.len(),
{
    if rs.len() == 0 {
        Seq::empty()
    } else {
        let base = round_renames(s, rs.drop_last());
        match probe_rename(probes_applied(s, rs.drop_last()), rs.last()) {
            Some(n) => base.push((rs.last().node_id, n)),
            None => base,
        }
    }
}

/// The node ids the probes ask to forget, in order.
pub open spec fn round_forgets(s: Seq<PeerView>, rs: Seq<ProbeView>) -> Seq<Seq<char>>
    decreases rs.len(),
{
    if rs.len() == 0 {
        Seq::empty()
    } else {
        let base = round_forgets(s, rs.drop_last());
        if probe_forgets(probes_applied(s, rs.drop_last()), rs.last()) { base.push(rs.last().node_id) } else { base }
    }
}

/// The table after each rename in turn.
pub open spec fn renames_applied(s: Seq<PeerView>, list: Seq<(Seq<char>, Seq<char>)>, me: Seq<char>) -> Seq<PeerView>
    decreases list.len(),
{
    if list.len() == 0 {
        s
    } else {
        renamed(renames_applied(s, list.drop_last(), me), list.last().0, list.last().1, me)
    }
}

/// The table without each of the given node ids.
pub open spec fn forgets_applied(s: Seq<PeerView>, ids: Seq<Seq<char>>) -> Seq<PeerView>
    decreases ids.len(),
{
    if ids.len() == 0 { s } else { without(forgets_applied(s, ids.drop_last()), ids.last()) }
}

/// One health round after probing: record every probe, then apply the
/// renames they asked for, then forget the peers that failed too often.
pub open spec fn health_round(s: Seq<PeerView>, rs: Seq<ProbeView>, me: Seq<char>) -> Seq<PeerView> {
    forgets_applied(renames_applied(probes_applied(s, rs), round_renames(s, rs), me), round_forgets(s, rs))
}

/// How many of the probes name node `id`.
pub open spec fn probes_naming(rs: Seq<ProbeView>, id: Seq<char>) -> nat
    decreases rs.len(),
{
    if rs.len() == 0 {
        0
    } else {
        probes_naming(rs.drop_first(), id) + if rs[0].node_id == id { 1nat } else { 0nat }
    }
}

/// Every peer's failure count can grow once for each probe naming it
/// without overflowing.
pub open spec fn fail_room(s: Seq<PeerView>, rs: Seq<ProbeView>) -> bool {
    forall|i: int| 0 <= i < s.len() ==> (#[trigger] s[i]).fail_count + probes_naming(rs, s[i].node_id) <= u32::MAX
}

proof fn lemma_probe_uses_room(s: Seq<PeerView>, rs: Seq<ProbeView>)
    requires
        ids_unique(s),
        rs.len() > 0,
        fail_room(s, rs),
    ensures
        position_of(s, rs[0].node_id) matches Some(i) ==> s[i].fail_count < u32::MAX,
        fail_room(after_probe(s, rs[0]), rs.drop_first()),
{
    let r = rs[0];
    lemma_position_of(s, r.node_id);
    let t = after_probe(s, r);
    assert forall|i: int| 0 <= i < t.len() implies (#[trigger] t[i]).fail_count + probes_naming(rs.drop_first(), t[i].node_id)
        <= u32::MAX by {
        assert(s[i].fail_count + probes_naming(rs, s[i].node_id) <= u32::MAX);
        assert(t[i].node_id == s[i].node_id);
        match position_of(s, r.node_id) {
            Some(p) => {
                if i != p {
                    assert(s[i].node_id != s[p].node_id);
                }
            },
            None => {},
        }
    }
}

impl PeerTable {
    /// Applies one health round given the probe results, as `health_round`
    /// says.
    pub fn apply_health_round(&mut self, results: &Vec<ProbeResult>, my_node_id: &str)
        requires
            old(self).wf(),
            fail_room(old(self)@, probe_views(results@)),
        ensures
            final(self).wf(),
            final(self)@ == health_round(old(self)@, probe_views(results@), my_node_id@),
    {
        let ghost s = self@;
        let ghost rs = probe_views(results@);
        let mut renames: Vec<(String, String)> = Vec::new();
        let mut forgets: Vec<String> = Vec::new();
        let mut k: usize = 0;
        assert(rs.skip(0) =~= rs);
        while k < results.len()
            invariant
                s == old(self)@,
                rs == probe_views(results@),
                k <= results@.len(),
                self.wf(),
                self@ == probes_applied(s, rs.take(k as int)),
                fail_room(self@, rs.skip(k as int)),
                pair_texts(renames@) == round_renames(s, rs.take(k as int)),
                forgets@.map_values(|x: String| x@) == round_forgets(s, rs.take(k as int)),
            decreases results@.len() - k,
        {
            let ghost t = rs.take(k + 1);
            assert(t.drop_last() =~= rs.take(k as int));
            assert(t.last() == results@[k as int]@);
            proof {
                lemma_position_of(self@, results@[k as int]@.node_id);
                assert(rs.skip(k as int)[0] == results@[k as int]@);
                assert(rs.skip(k as int).drop_first() =~= rs.skip(k + 1));
                lemma_probe_uses_room(self@, rs.skip(k as int));
            }
            let o = self.record_probe(&results[k]);
            match o.rename_to {
                Some(n) => {
                    renames.push((results[k].node_id.clone(), n));
                },
                None => {},
            }
            if o.forget {
                forgets.push(results[k].node_id.clone());
            }
            assert(pair_texts(renames@) =~= round_renames(s, t));
            assert(forgets@.map_values(|x: String| x@) =~= round_forgets(s, t));
            k = k + 1;
        }
        assert(rs.take(results@.len() as int) =~= rs);
        let ghost probed_table = self@;
        let ghost list = round_renames(s, rs);
        let mut m: usize = 0;
        while m < renames.len()
            invariant
                list == pair_texts(renames@),
                m <= renames@.len(),
                self.wf(),
                self@ == renames_applied(probed_table, list.take(m as int), my_node_id@),
            decreases renames@.len() - m,
        {
            let ghost t = list.take(m + 1);
            assert(t.drop_last() =~= list.take(m as int));
            assert(t.last() == (renames@[m as int].0@, renames@[m as int].1@));
            self.rename_peer(renames[m].0.as_str(), &renames[m].1, my_node_id);
            m = m + 1;
        }
        assert(list.take(renames@.len() as int) =~= list);
        let ghost renamed_table = self@;
        let ghost ids = round_forgets(s, rs);
        let mut q: usize = 0;
        while q < forgets.len()
            invariant
                ids == forgets@.map_values(|x: String| x@),
                q <= forgets@.len(),
                self.wf(),
                self@ == forgets_applied(renamed_table, ids.take(q as int)),
            decreases forgets@.len() - q,
        {
            let ghost t = ids.take(q + 1);
            assert(t.drop_last() =~= ids.take(q as int));
            assert(t.last() == forgets@[q as int]@);
            let _ = self.remove_peer(forgets[q].as_str());
            q = q + 1;
        }
        assert(ids.take(forgets@.len() as int) =~= ids);
    }
}

} // verus!

verus! {

/// How a node appears in a task's per-peer speeds: `Local` for this node;
/// for a known peer its best address, else its first address, else its id;
/// the id itself for an unknown node.
pub open spec fn peer_label_text(s: Seq<PeerView>, node_id: Seq<char>, me: Seq<char>) -> Seq<char> {
    if node_id == me {
        "Local"@
    } else {
        match position_of(s, node_id) {
            Some(i) => if s[i].best_address.len() > 0 {
                s[i].best_address
            } else if s[i].addresses.len() > 0 {
                s[i].addresses[0]
            } else {
                node_id
            },
            None => node_id,
        }
    }
}

impl PeerTable {
    /// How a node appears in a task's per-peer speeds.
    pub fn peer_label(&self, node_id: &String, my_node_id: &str) -> (s: String)
        ensures
            s@ == peer_label_text(self@, node_id@, my_node_id@),
    {
        if *node_id == my_node_id.to_owned() {
            return "Local".to_owned();
        }
        proof {
            lemma_position_of(self@, node_id@);
        }
        match self.lookup(node_id.as_str()) {
            Some(i) => {
                let p = &self.peers[i];
                assert(self@[i as int] == p@);
                if !p.best_address.as_str().is_empty() {
                    p.best_address.clone()
                } else if p.addresses.len() > 0 {
                    p.addresses[0].clone()
                } else {
                    node_id.clone()
                }
            },
            None => node_id.clone(),
        }
    }
}

} // verus!

verus! {

/// Law of meeting a peer: afterwards the node is known exactly once, it
/// answers to the address it was met at (so meeting that address again only
/// updates it), and every other peer is as it was.
pub proof fn lemma_met_peer_is_known(
    s: Seq<PeerView>,
    id: Seq<char>,
    addr: Seq<char>,
    token: Seq<char>,
    shareable: bool,
    status: Seq<char>,
)
    requires
        ids_unique(s),
    ensures
        ({
            let t = upserted(s, id, addr, token, shareable, status);
            &&& ids_unique(t)
            &&& position_of(t, id) is Some
            &&& knows_address(t[position_of(t, id)->0], addr)
            &&& t[position_of(t, id)->0].shareable == shareable
            &&& forall|j: int| 0 <= j < s.len() && s[j].node_id != id ==> #[trigger] t[j] == s[j]
        }),
{
    lemma_position_of(s, id);
    let t = upserted(s, id, addr, token, shareable, status);
    match position_of(s, id) {
        Some(i) => {
            let p = PeerView {
                addresses: if s[i].addresses.contains(addr) { s[i].addresses } else { s[i].addresses.push(addr) },
                shareable: shareable,
                ..s[i]
            };
            lemma_update_keeps_unique(s, i, p);
            lemma_position_of(t, id);
            assert(t[i].node_id == id);
            if !s[i].addresses.contains(addr) {
                assert(p.addresses[p.addresses.len() - 1] == addr);
            }
        },
        None => {
            lemma_push_keeps_unique(s, new_peer(id, addr, token, shareable, status));
            lemma_position_of(t, id);
            assert(t[s.len() as int].node_id == id);
            assert(new_peer(id, addr, token, shareable, status).addresses[0] == addr);
        },
    }
    lemma_position_of(t, id);
}

} // verus!

verus! {

proof fn lemma_probes_keep_unique(s: Seq<PeerView>, rs: Seq<ProbeView>)
    requires
        ids_unique(s),
    ensures
        ids_unique(probes_applied(s, rs)),
    decreases rs.len(),
{
    if rs.len() > 0 {
        let t = probes_applied(s, rs.drop_last());
        lemma_probes_keep_unique(s, rs.drop_last());
        lemma_position_of(t, rs.last().node_id);
        if let Some(i) = position_of(t, rs.last().node_id) {
            lemma_update_keeps_unique(t, i, probed(t[i], rs.last()));
        }
    }
}

proof fn lemma_renamed_keeps_unique(s: Seq<PeerView>, old: Seq<char>, new: Seq<char>, me: Seq<char>)
    requires
        ids_unique(s),
    ensures
        ids_unique(renamed(s, old, new, me)),
{
    lemma_position_of(s, old);
    if let Some(i) = position_of(s, old) {
        lemma_remove_keeps_unique(s, i);
        if new != me {
            let rest = s.remove(i);
            lemma_position_of(rest, new);
            match position_of(rest, new) {
                Some(j) => {
                    let p = s[i];
                    lemma_update_keeps_unique(
                        rest,
                        j,
                        PeerView { addresses: merged(rest[j].addresses, p.addresses), status: "Online"@, fail_count: 0, ..rest[j] },
                    );
                },
                None => {
                    lemma_push_keeps_unique(rest, PeerView { node_id: new, ..s[i] });
                },
            }
        }
    }
}

proof fn lemma_renames_keep_unique(s: Seq<PeerView>, list: Seq<(Seq<char>, Seq<char>)>, me: Seq<char>)
    requires
        ids_unique(s),
    ensures
        ids_unique(renames_applied(s, list, me)),
    decreases list.len(),
{
    if list.len() > 0 {
        lemma_renames_keep_unique(s, list.drop_last(), me);
        lemma_renamed_keeps_unique(renames_applied(s, list.drop_last(), me), list.last().0, list.last().1, me);
    }
}

proof fn lemma_forgets_remove(t: Seq<PeerView>, ids: Seq<Seq<char>>, x: Seq<char>)
    requires
        ids_unique(t),
    ensures
        ids_unique(forgets_applied(t, ids)),
        ids.contains(x) ==> position_of(forgets_applied(t, ids), x) is None,
    decreases ids.len(),
{
    if ids.len() > 0 {
        let f = forgets_applied(t, ids.drop_last());
        lemma_forgets_remove(t, ids.drop_last(), x);
        lemma_position_of(f, ids.last());
        if let Some(i) = position_of(f, ids.last()) {
            lemma_remove_keeps_unique(f, i);
            lemma_remove_position(f, i, x);
        }
        if ids.contains(x) && ids.last() != x {
            let k = choose|k: int| 0 <= k < ids.len() && ids[k] == x;
            assert(ids.drop_last()[k] == x);
        }
    }
}

proof fn lemma_round_forgets_has(s: Seq<PeerView>, rs: Seq<ProbeView>, k: int)
    requires
        0 <= k < rs.len(),
        probe_forgets(probes_applied(s, rs.take(k)), rs[k]),
    ensures
        round_forgets(s, rs).contains(rs[k].node_id),
    decreases rs.len(),
{
    let d = rs.drop_last();
    if k == rs.len() - 1 {
        assert(d =~= rs.take(k));
        assert(round_forgets(s, rs) == round_forgets(s, d).push(rs[k].node_id));
        assert(round_forgets(s, rs)[round_forgets(s, d).len() as int] == rs[k].node_id);
    } else {
        assert(d.take(k) =~= rs.take(k));
        assert(d[k] == rs[k]);
        lemma_round_forgets_has(s, d, k);
        let base = round_forgets(s, d);
        let j = choose|j: int| 0 <= j < base.len() && base[j] == rs[k].node_id;
        assert(round_forgets(s, rs)[j] == base[j]);
    }
}

/// Law of the health round: a peer whose probe fails while it has already
/// failed `MAX_FAIL_COUNT` probes in a row is no longer in the table once the
/// round is over, whatever else the round did.
pub proof fn lemma_failing_peer_is_forgotten(s: Seq<PeerView>, rs: Seq<ProbeView>, me: Seq<char>, k: int)
    requires
        ids_unique(s),
        0 <= k < rs.len(),
        !rs[k].online,
        position_of(probes_applied(s, rs.take(k)), rs[k].node_id) matches Some(i)
            && probes_applied(s, rs.take(k))[i].fail_count >= MAX_FAIL_COUNT,
    ensures
        position_of(health_round(s, rs, me), rs[k].node_id) is None,
{
    lemma_round_forgets_has(s, rs, k);
    lemma_probes_keep_unique(s, rs);
    let p = probes_applied(s, rs);
    lemma_renames_keep_unique(p, round_renames(s, rs), me);
    lemma_forgets_remove(renames_applied(p, round_renames(s, rs), me), round_forgets(s, rs), rs[k].node_id);
}

} // verus!

verus! {

/// The entry a node lists for itself.
pub struct SelfEntry {
    pub node_id: String,
    pub best_address: String,
    pub token: String,
    pub shareable: bool,
    pub speed_limit_kb: u32,
}

/// What a client asking for the peer list is shown: this node's own entry
/// (absent when nothing is shown), the peers, and the speed limit shown with
/// each peer.
pub struct PeerListing {
    pub me: Option<SelfEntry>,
    pub peers: Vec<PeerInfo>,
    pub peer_speed_limit_kb: u32,
}

impl PeerTable {
    /// The peer list shown to a client. A client that is not the owner gets
    /// nothing when the node does not share its peers. Otherwise the node's
    /// own entry comes first (its announced address, its token, whether it
    /// is shareable, its global speed limit), then the peers that `listing`
    /// shows.
    pub fn list_for_client(
        &self,
        config: &Config,
        requester: &str,
        is_admin: bool,
        my_node_id: &String,
        my_token: &String,
    ) -> (r: PeerListing)
        ensures
            r.peer_speed_limit_kb == match config.peer_speed_limit_kb { Some(k) => k, None => 0 },
            !is_admin && config.share_node == Some(false) ==> r.me is None && r.peers@.len() == 0,
            !(!is_admin && config.share_node == Some(false)) ==> {
                let addr = announced_address(config.public_address, config.grpc_port);
                &&& r.me matches Some(m) && m.node_id@ == my_node_id@ && m.token@ == my_token@ && m.best_address@ == addr
                    && m.shareable == (config.shareable != Some(false))
                    && m.speed_limit_kb == match config.global_speed_limit_kb { Some(k) => k, None => 0 }
                &&& peer_views(r.peers@) == filter_peers(self@, listed_peer(requester@, addr, is_admin))
            },
    {
        let peer_speed_limit_kb = match config.peer_speed_limit_kb {
            Some(k) => k,
            None => 0,
        };
        let share_node = match config.share_node {
            Some(b) => b,
            None => true,
        };
        if !is_admin && !share_node {
            return PeerListing { me: None, peers: Vec::new(), peer_speed_limit_kb };
        }
        let addr = public_address_or_default(&config.public_address, config.grpc_port);
        let me = SelfEntry {
            node_id: my_node_id.clone(),
            best_address: addr.clone(),
            token: my_token.clone(),
            shareable: match config.shareable {
                Some(b) => b,
                None => true,
            },
            speed_limit_kb: match config.global_speed_limit_kb {
                Some(k) => k,
                None => 0,
            },
        };
        let peers = self.listing(requester, &addr, is_admin);
        PeerListing { me: Some(me), peers, peer_speed_limit_kb }
    }
}

} // verus!

verus! {

/// Law of a probe: a known peer that answers is online at the measured
/// latency and fastest address with no failures counted; one that does not
/// answer is offline with no latency or speed and one more failure (while the
/// count can grow). Every
/// other peer, and the table's length, stay as they were; a probe of an
/// unknown node changes nothing.
pub proof fn lemma_probe_effect(s: Seq<PeerView>, r: ProbeView)
    ensures
        after_probe(s, r).len() == s.len(),
        position_of(s, r.node_id) is None ==> after_probe(s, r) == s,
        position_of(s, r.node_id) matches Some(i) ==> {
            let t = after_probe(s, r);
            &&& t[i].node_id == s[i].node_id
            &&& forall|j: int| 0 <= j < s.len() && j != i ==> #[trigger] t[j] == s[j]
            &&& r.online ==> t[i].fail_count == 0 && t[i].status == "Online"@ && t[i].latency_ms == r.latency_ms
                && t[i].best_address == r.best_address
            &&& !r.online ==> t[i].status == "Offline"@ && t[i].latency_ms == 0 && t[i].download_speed_bits == 0
            &&& !r.online && s[i].fail_count < u32::MAX ==> t[i].fail_count == s[i].fail_count + 1
        },
{
    lemma_position_of(s, r.node_id);
}

proof fn lemma_filter_peers_members(s: Seq<PeerView>, keep: spec_fn(PeerView) -> bool)
    ensures
        forall|k: int| 0 <= k < filter_peers(s, keep).len() ==> keep(#[trigger] filter_peers(s, keep)[k]) && s.contains(filter_peers(s, keep)[k]),
        forall|k: int| 0 <= k < s.len() && keep(#[trigger] s[k]) ==> filter_peers(s, keep).contains(s[k]),
    decreases s.len(),
{
    if s.len() > 0 {
        let d = s.drop_last();
        lemma_filter_peers_members(d, keep);
        let f = filter_peers(s, keep);
        let fd = filter_peers(d, keep);
        assert forall|k: int| 0 <= k < f.len() implies keep(#[trigger] f[k]) && s.contains(f[k]) by {
            if k < fd.len() {
                assert(f[k] == fd[k]);
                let j = choose|j: int| 0 <= j < d.len() && d[j] == fd[k];
                assert(s[j] == d[j]);
            } else {
                assert(f[k] == s.last());
                assert(s[s.len() - 1] == s.last());
            }
        }
        assert forall|k: int| 0 <= k < s.len() && keep(#[trigger] s[k]) implies f.contains(s[k]) by {
            if k < s.len() - 1 {
                assert(d[k] == s[k]);
                let j = choose|j: int| 0 <= j < fd.len() && fd[j] == d[k];
                assert(f[j] == fd[j]);
            } else {
                assert(f[f.len() - 1] == s.last());
            }
        }
    }
}

/// Law of the client listing: every listed peer is a known peer that is not
/// the requester, that answers neither at this node's own address as its best
/// address nor among its known addresses, and that is shareable unless the
/// owner asks; and every known peer meeting those conditions is listed.
pub proof fn lemma_listing_hides_self_and_requester(s: Seq<PeerView>, requester: Seq<char>, my_address: Seq<char>, is_admin: bool)
    ensures
        forall|k: int| 0 <= k < filter_peers(s, listed_peer(requester, my_address, is_admin)).len() ==> {
            let p = #[trigger] filter_peers(s, listed_peer(requester, my_address, is_admin))[k];
            &&& s.contains(p)
            &&& p.node_id != requester
            &&& p.best_address != my_address
            &&& !p.addresses.contains(my_address)
            &&& (is_admin || p.shareable)
        },
        forall|k: int|
            0 <= k < s.len() && s[k].node_id != requester && s[k].best_address != my_address && !s[k].addresses.contains(
                my_address,
            ) && (is_admin || s[k].shareable) ==> filter_peers(s, listed_peer(requester, my_address, is_admin)).contains(
                #[trigger] s[k],
            ),
{
    let keep = listed_peer(requester, my_address, is_admin);
    lemma_filter_peers_members(s, keep);
    assert forall|k: int|
        0 <= k < s.len() && s[k].node_id != requester && s[k].best_address != my_address && !s[k].addresses.contains(
            my_address,
        ) && (is_admin || s[k].shareable) implies filter_peers(s, keep).contains(#[trigger] s[k]) by {
        assert(keep(s[k]));
    }
}

} // verus!
