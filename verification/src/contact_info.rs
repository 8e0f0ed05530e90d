//! What gossip tells about a node, and what the local node knows of the
//! cluster.

use crate::pubkey::Pubkey;
use crate::socket::{SocketAddr, SocketAddrSpace};
use vstd::prelude::*;

verus! {

/// A peer is live while its contact info is younger, or no further ahead,
/// than this many milliseconds.
pub const CRDS_GOSSIP_PULL_CRDS_TIMEOUT_MS: u64 = 15000;

/// The gossip record of a node.
#[derive(Clone, Copy, Debug, PartialEq, Eq, Structural, Hash)]
pub struct ContactInfo {
    /// The node's identity.
    pub id: Pubkey,
    /// When the node made this record, in milliseconds of its own clock.
    pub wallclock: u64,
    /// Where the node receives shreds.
    pub tvu: SocketAddr,
    /// Where the node receives forwarded shreds.
    pub tvu_forwards: SocketAddr,
}

impl ContactInfo {
    /// Whether `addr` can be sent to within `space`: its port is not zero,
    /// it is neither unspecified nor multicast, and the space accepts it.
    pub open spec fn spec_is_valid_address(addr: SocketAddr, space: SocketAddrSpace) -> bool {
        addr.spec_port() != 0 && !(addr.spec_is_unspecified() || addr.spec_is_multicast())
            && space.spec_check(addr)
    }

    /// Whether `addr` can be sent to within `socket_addr_space`.
    pub fn is_valid_address(addr: &SocketAddr, socket_addr_space: &SocketAddrSpace) -> (r: bool)
        ensures
            r == Self::spec_is_valid_address(*addr, *socket_addr_space),
    {
        addr.port() != 0 && !(addr.is_unspecified() || addr.is_multicast())
            && socket_addr_space.check(addr)
    }
}

/// What the local node knows of the cluster: its own gossip record and
/// those of the peers that accept shreds.
pub struct ClusterInfo {
    pub my_contact_info: ContactInfo,
    pub tvu_peers: Vec<ContactInfo>,
}

/// The view of a [`ClusterInfo`].
pub struct ClusterInfoView {
    pub my_contact_info: ContactInfo,
    pub tvu_peers: Seq<ContactInfo>,
}

impl ClusterInfoView {
    /// The local node's record followed by those of its peers.
    pub open spec fn gossip(self) -> Seq<ContactInfo> {
        seq![self.my_contact_info] + self.tvu_peers
    }
}

impl View for ClusterInfo {
    type V = ClusterInfoView;

    open spec fn view(&self) -> ClusterInfoView {
        ClusterInfoView { my_contact_info: self.my_contact_info, tvu_peers: self.tvu_peers@ }
    }
}

impl ClusterInfo {
    pub fn new(my_contact_info: ContactInfo, tvu_peers: Vec<ContactInfo>) -> (info: ClusterInfo)
        ensures
            info@.my_contact_info == my_contact_info,
            info@.tvu_peers == tvu_peers@,
    {
        ClusterInfo { my_contact_info, tvu_peers }
    }

    /// The identity of the local node.
    pub fn id(&self) -> (id: Pubkey)
        ensures
            id == self@.my_contact_info.id,
    {
        self.my_contact_info.id
    }
}

} // verus!
