//! Which mounts pass events on to each other, and which mounts are in use.

use vstd::prelude::*;
use vstd::string::*;

use crate::seqs;
use crate::text;
use crate::vfs::MountInUseTag;

verus! {

/// A group of mounts among which mounting and unmounting is passed on, by its number.
#[derive(Clone, Copy, Debug, PartialEq, Eq, Structural)]
pub struct PeerGroup(pub u64);

/// How a mount takes part in passing events on.
#[derive(Clone, Copy, Debug, PartialEq, Eq, Structural)]
pub enum MountPropagation {
    Private,
    Shared(PeerGroup),
    Slave(PeerGroup),
    Unbindable,
}

impl MountPropagation {
    /// Whether events are passed on and received.
    pub fn is_shared(&self) -> (r: bool)
        ensures
            r == (self is Shared),
    {
        matches!(self, MountPropagation::Shared(_))
    }

    /// Whether events are only received.
    pub fn is_slave(&self) -> (r: bool)
        ensures
            r == (self is Slave),
    {
        matches!(self, MountPropagation::Slave(_))
    }

    /// Whether the mount takes no part.
    pub fn is_private(&self) -> (r: bool)
        ensures
            r == (self is Private),
    {
        matches!(self, MountPropagation::Private)
    }

    /// Whether the mount takes no part and cannot be bound elsewhere.
    pub fn is_unbindable(&self) -> (r: bool)
        ensures
            r == (self is Unbindable),
    {
        matches!(self, MountPropagation::Unbindable)
    }

    /// The group that the mount shares events with.
    pub fn shared_group(&self) -> (group: Option<PeerGroup>)
        ensures
            group == (match *self {
                MountPropagation::Shared(g) => Some(g),
                _ => None,
            }),
    {
        match self {
            MountPropagation::Shared(g) => Some(*g),
            _ => None,
        }
    }

    /// The group that the mount receives events from.
    pub fn slave_group(&self) -> (group: Option<PeerGroup>)
        ensures
            group == (match *self {
                MountPropagation::Slave(g) => Some(g),
                _ => None,
            }),
    {
        match self {
            MountPropagation::Slave(g) => Some(*g),
            _ => None,
        }
    }
}

/// A mount's place in a group: the table and the path where it is mounted, and whether
/// it only receives.
pub struct Peer {
    pub group: PeerGroup,
    pub table: u64,
    pub path: String,
    pub slave: bool,
}

/// A mount's place in a group.
pub struct PeerView {
    pub group: PeerGroup,
    pub table: u64,
    pub path: Seq<char>,
    pub slave: bool,
}

impl View for Peer {
    type V = PeerView;

    open spec fn view(&self) -> PeerView {
        PeerView { group: self.group, table: self.table, path: self.path@, slave: self.slave }
    }
}

/// What all mount tables have in common: the places in the groups, in the order in
/// which they were taken, the in-use tags, and the number of the next new group.
pub struct MountRegistry {
    pub peers: Vec<Peer>,
    pub tags: Vec<MountInUseTag>,
    pub next_group: u64,
}

/// What all mount tables have in common.
#[verifier::ext_equal]
pub struct RegistryView {
    pub peers: Seq<PeerView>,
    pub tags: Seq<MountInUseTag>,
    pub next_group: u64,
}

impl View for MountRegistry {
    type V = RegistryView;

    open spec fn view(&self) -> RegistryView {
        RegistryView {
            peers: self.peers@.map_values(|p: Peer| p@),
            tags: self.tags@,
            next_group: self.next_group,
        }
    }
}

/// The place in a group that a mount with this propagation has.
pub open spec fn place(prop: MountPropagation, table: u64, path: Seq<char>) -> Option<PeerView> {
    match prop {
        MountPropagation::Shared(group) => Some(PeerView { group, table, path, slave: false }),
        MountPropagation::Slave(group) => Some(PeerView { group, table, path, slave: true }),
        _ => None,
    }
}

/// The places once the mount has taken its own. It is not taken twice.
pub open spec fn joined(
    peers: Seq<PeerView>,
    prop: MountPropagation,
    table: u64,
    path: Seq<char>,
) -> Seq<PeerView> {
    match place(prop, table, path) {
        Some(peer) => if peers.contains(peer) {
            peers
        } else {
            peers.push(peer)
        },
        None => peers,
    }
}

/// Says of a place that it is another one.
pub open spec fn other_place(peer: PeerView) -> spec_fn(PeerView) -> bool {
    |p: PeerView| p != peer
}

/// The places once the mount has given up its own.
pub open spec fn left(
    peers: Seq<PeerView>,
    prop: MountPropagation,
    table: u64,
    path: Seq<char>,
) -> Seq<PeerView> {
    match place(prop, table, path) {
        Some(peer) => peers.filter(other_place(peer)),
        None => peers,
    }
}

/// Says of a place that it is one of the group: one that passes events on, or one that
/// only receives.
pub open spec fn is_in_group(group: PeerGroup, slave: bool) -> spec_fn(PeerView) -> bool {
    |p: PeerView| p.group == group && p.slave == slave
}

/// Says of a place that it is in another table.
pub open spec fn other_table(table: u64) -> spec_fn(PeerView) -> bool {
    |p: PeerView| p.table != table
}

fn is_place(peer: &Peer, group: PeerGroup, table: u64, path: &str, slave: bool) -> (same: bool)
    ensures
        same == (peer@ == PeerView { group, table, path: path@, slave }),
{
    peer.group == group && peer.table == table && peer.slave == slave && text::equal(
        peer.path.as_str(),
        path,
    )
}

impl MountRegistry {
    /// A registry without places and tags.
    pub fn new() -> (registry: MountRegistry)
        ensures
            registry@ == (RegistryView {
                peers: Seq::empty(),
                tags: Seq::empty(),
                next_group: 0,
            }),
    {
        let registry = MountRegistry { peers: Vec::new(), tags: Vec::new(), next_group: 0 };
        assert(registry@.peers =~= Seq::empty());
        registry
    }

    fn add_place(&mut self, group: PeerGroup, table: u64, path: &str, slave: bool)
        ensures
            ({
                let peer = PeerView { group, table, path: path@, slave };
                final(self)@ == (RegistryView {
                    peers: if old(self)@.peers.contains(peer) {
                        old(self)@.peers
                    } else {
                        old(self)@.peers.push(peer)
                    },
                    ..old(self)@
                })
            }),
    {
        let ghost peer = PeerView { group, table, path: path@, slave };
        let mut i: usize = 0;
        while i < self.peers.len()
            invariant
                *self == *old(self),
                i <= self.peers.len(),
                peer == (PeerView { group, table, path: path@, slave }),
                forall|j: int| 0 <= j < i ==> self@.peers[j] != peer,
            decreases self.peers.len() - i,
        {
            if is_place(&self.peers[i], group, table, path, slave) {
                assert(self@.peers[i as int] == peer);
                return;
            }
            i += 1;
        }
        let new_peer = Peer { group, table, path: path.to_owned(), slave };
        self.peers.push(new_peer);
        assert(self@.peers =~= old(self)@.peers.push(peer));
    }

    fn remove_place(&mut self, group: PeerGroup, table: u64, path: &str, slave: bool)
        ensures
            final(self)@ == (RegistryView {
                peers: old(self)@.peers.filter(
                    other_place(PeerView { group, table, path: path@, slave }),
                ),
                ..old(self)@
            }),
    {
        let ghost peer = PeerView { group, table, path: path@, slave };
        let ghost before = self@.peers;
        let mut i: usize = 0;
        let ghost mut seen: int = 0;
        while i < self.peers.len()
            invariant
                self.tags == old(self).tags,
                self.next_group == old(self).next_group,
                before == old(self)@.peers,
                peer == (PeerView { group, table, path: path@, slave }),
                i <= self.peers@.len(),
                0 <= seen <= before.len(),
                self@.peers.take(i as int) == before.take(seen).filter(other_place(peer)),
                self@.peers.skip(i as int) == before.skip(seen),
            decreases self.peers@.len() - i,
        {
            let ghost now = self@.peers;
            proof {
                assert(now.skip(i as int).len() == before.skip(seen).len());
                assert(now.skip(i as int)[0] == now[i as int]);
                assert(before.skip(seen)[0] == before[seen]);
                seqs::lemma_filter_step(before, seen, other_place(peer));
            }
            if is_place(&self.peers[i], group, table, path, slave) {
                self.peers.remove(i);
                assert(self@.peers =~= now.remove(i as int));
                assert(self@.peers.take(i as int) =~= now.take(i as int));
                assert(self@.peers.skip(i as int) =~= now.skip(i as int).skip(1));
            } else {
                i += 1;
                assert(now.take(i as int) =~= now.take(i - 1).push(now[i - 1]));
                assert(now.skip(i as int) =~= now.skip(i - 1).skip(1));
            }
            proof {
                assert(before.skip(seen).skip(1) =~= before.skip(seen + 1));
                seen = seen + 1;
            }
        }
        proof {
            assert(self@.peers.skip(i as int).len() == 0);
            assert(before.take(seen) =~= before);
            assert(self@.peers.take(i as int) =~= self@.peers);
        }
    }

    /// Gives a mount its place in the group that its propagation names.
    pub fn join(&mut self, prop: MountPropagation, table: u64, path: &str)
        ensures
            final(self)@ == (RegistryView {
                peers: joined(old(self)@.peers, prop, table, path@),
                ..old(self)@
            }),
    {
        match prop {
            MountPropagation::Shared(group) => self.add_place(group, table, path, false),
            MountPropagation::Slave(group) => self.add_place(group, table, path, true),
            _ => {},
        }
    }

    /// Takes a mount's place in the group that its propagation names.
    pub fn leave(&mut self, prop: MountPropagation, table: u64, path: &str)
        ensures
            final(self)@ == (RegistryView {
                peers: left(old(self)@.peers, prop, table, path@),
                ..old(self)@
            }),
    {
        match prop {
            MountPropagation::Shared(group) => self.remove_place(group, table, path, false),
            MountPropagation::Slave(group) => self.remove_place(group, table, path, true),
            _ => {},
        }
    }

    /// Takes all places of a table that is gone.
    pub fn forget_table(&mut self, table: u64)
        ensures
            final(self)@ == (RegistryView {
                peers: old(self)@.peers.filter(other_table(table)),
                ..old(self)@
            }),
    {
        let ghost before = self@.peers;
        let mut i: usize = 0;
        let ghost mut seen: int = 0;
        while i < self.peers.len()
            invariant
                self.tags == old(self).tags,
                self.next_group == old(self).next_group,
                before == old(self)@.peers,
                i <= self.peers@.len(),
                0 <= seen <= before.len(),
                self@.peers.take(i as int) == before.take(seen).filter(other_table(table)),
                self@.peers.skip(i as int) == before.skip(seen),
            decreases self.peers@.len() - i,
        {
            let ghost now = self@.peers;
            proof {
                assert(now.skip(i as int).len() == before.skip(seen).len());
                assert(now.skip(i as int)[0] == now[i as int]);
                assert(before.skip(seen)[0] == before[seen]);
                seqs::lemma_filter_step(before, seen, other_table(table));
            }
            if self.peers[i].table == table {
                self.peers.remove(i);
                assert(self@.peers =~= now.remove(i as int));
                assert(self@.peers.take(i as int) =~= now.take(i as int));
                assert(self@.peers.skip(i as int) =~= now.skip(i as int).skip(1));
            } else {
                i += 1;
                assert(now.take(i as int) =~= now.take(i - 1).push(now[i - 1]));
                assert(now.skip(i as int) =~= now.skip(i - 1).skip(1));
            }
            proof {
                assert(before.skip(seen).skip(1) =~= before.skip(seen + 1));
                seen = seen + 1;
            }
        }
        proof {
            assert(self@.peers.skip(i as int).len() == 0);
            assert(before.take(seen) =~= before);
            assert(self@.peers.take(i as int) =~= self@.peers);
        }
    }

    /// Makes a new in-use tag, and returns its number.
    pub fn new_tag(&mut self, flags: u64) -> (tag: usize)
        ensures
            tag == old(self)@.tags.len(),
            final(self)@ == (RegistryView {
                tags: old(self)@.tags.push(MountInUseTag { refs: 0, flags }),
                ..old(self)@
            }),
    {
        let tag: usize = self.tags.len();
        self.tags.push(MountInUseTag::new_with_flags(flags));
        tag
    }
}

impl PeerGroup {
    /// A new group, without mounts.
    pub fn new_empty(registry: &mut MountRegistry) -> (group: PeerGroup)
        requires
            old(registry)@.next_group < u64::MAX,
        ensures
            group == PeerGroup(old(registry)@.next_group),
            final(registry)@ == (RegistryView {
                next_group: (old(registry)@.next_group + 1) as u64,
                ..old(registry)@
            }),
    {
        let group = PeerGroup(registry.next_group);
        registry.next_group = registry.next_group + 1;
        group
    }

    /// The mounts of the group that pass events on, each by its table and its path.
    pub fn snapshot_members(self, registry: &MountRegistry) -> (members: Vec<(u64, String)>)
        ensures
            places_view(members@) == table_paths(
                registry@.peers.filter(is_in_group(self, false)),
            ),
    {
        snapshot(registry, self, false)
    }

    /// The mounts that only receive the events of the group, each by its table and its
    /// path.
    pub fn snapshot_slaves(self, registry: &MountRegistry) -> (slaves: Vec<(u64, String)>)
        ensures
            places_view(slaves@) == table_paths(registry@.peers.filter(is_in_group(self, true))),
    {
        snapshot(registry, self, true)
    }
}

/// The table and the path of each of several places.
pub open spec fn table_paths(peers: Seq<PeerView>) -> Seq<(u64, Seq<char>)> {
    peers.map_values(|p: PeerView| (p.table, p.path))
}

/// Tables and paths, by the characters of the paths.
pub open spec fn places_view(places: Seq<(u64, String)>) -> Seq<(u64, Seq<char>)> {
    places.map_values(|p: (u64, String)| (p.0, p.1@))
}

fn snapshot(registry: &MountRegistry, group: PeerGroup, slave: bool) -> (places: Vec<
    (u64, String),
>)
    ensures
        places_view(places@) == table_paths(registry@.peers.filter(is_in_group(group, slave))),
{
    let ghost pred = is_in_group(group, slave);
    let ghost all = registry@.peers;
    let mut places: Vec<(u64, String)> = Vec::new();
    let mut i: usize = 0;
    assert(all.take(0) =~= Seq::empty());
    proof {
        seqs::lemma_filter_len(all.take(0), pred);
        assert(places_view(places@) =~= table_paths(all.take(0).filter(pred)));
    }
    while i < registry.peers.len()
        invariant
            i <= registry.peers@.len(),
            all == registry@.peers,
            pred == is_in_group(group, slave),
            places_view(places@) == table_paths(all.take(i as int).filter(pred)),
        decreases registry.peers.len() - i,
    {
        let peer = &registry.peers[i];
        proof {
            seqs::lemma_filter_step(all, i as int, pred);
            assert(all[i as int] == peer@);
        }
        let ghost before = places@;
        if peer.group == group && peer.slave == slave {
            places.push((peer.table, peer.path.clone()));
            assert(places_view(places@) =~= places_view(before).push((peer.table, peer.path@)));
            assert(table_paths(all.take(i as int).filter(pred).push(peer@)) =~= table_paths(
                all.take(i as int).filter(pred),
            ).push((peer.table, peer.path@)));
        }
        i += 1;
    }
    assert(all.take(i as int) =~= all);
    places
}

} // verus!
