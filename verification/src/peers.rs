//! Peers of the mesh: which one a plan is handed to.

use crate::table::views;
use crate::text::{opt_str, opt_text, same};
use vstd::prelude::*;

verus! {

/// A peer, as far as its status tells.
pub struct Peer {
    /// The name of the peer, if it has one.
    pub name: Option<String>,
    /// Whether the peer is online.
    pub online: bool,
}

/// What a [`Peer`] holds.
pub struct PeerView {
    pub name: Option<Seq<char>>,
    pub online: bool,
}

impl View for Peer {
    type V = PeerView;

    open spec fn view(&self) -> PeerView {
        PeerView { name: opt_text(self.name), online: self.online }
    }
}

/// The first peer that is online and not excluded. A peer without a name before it ends the
/// search.
pub open spec fn available(peers: Seq<PeerView>, exclude: Option<Seq<char>>) -> Option<Seq<char>>
    decreases peers.len(),
{
    if peers.len() == 0 {
        None
    } else {
        match peers[0].name {
            None => None,
            Some(name) => if peers[0].online && exclude != Some(name) {
                Some(name)
            } else {
                available(peers.skip(1), exclude)
            },
        }
    }
}

/// The first peer that is online and not excluded.
pub fn choose_peer(peers: &Vec<Peer>, exclude: Option<&str>) -> (r: Option<String>)
    ensures
        opt_text(r) == available(views(peers@), opt_str(exclude)),
{
    let ghost all = views(peers@);
    let mut i: usize = 0;
    assert(all.skip(0) =~= all);
    while i < peers.len()
        invariant
            i <= peers@.len(),
            all == views(peers@),
            available(all, opt_str(exclude)) == available(all.skip(i as int), opt_str(exclude)),
        decreases peers@.len() - i,
    {
        assert(all.skip(i as int)[0] == peers@[i as int]@);
        assert(all.skip(i as int).skip(1) =~= all.skip(i + 1));
        match &peers[i].name {
            None => {
                return None;
            },
            Some(name) => {
                let excluded = match exclude {
                    Some(e) => same(e, name.as_str()),
                    None => false,
                };
                if peers[i].online && !excluded {
                    return Some(name.clone());
                }
            },
        }
        i += 1;
    }
    None
}

/// How many times the status of the mesh is asked for.
pub const MESH_ATTEMPTS: u32 = 3;

/// Whether to ask again after a number of failed attempts.
pub fn ask_again(failed: u32) -> (r: bool)
    ensures
        r == (failed < MESH_ATTEMPTS),
{
    failed < MESH_ATTEMPTS
}

/// A chosen peer is one of the peers, is online, and is not the excluded one.
pub proof fn law_chosen_peer_is_online(peers: Seq<PeerView>, exclude: Option<Seq<char>>)
    ensures
        available(peers, exclude) matches Some(name) ==> exclude != Some(name) && exists|i: int|
            0 <= i < peers.len() && (#[trigger] peers[i]).name == Some(name) && peers[i].online,
    decreases peers.len(),
{
    if peers.len() > 0 && peers[0].name is Some {
        let name = peers[0].name->0;
        if !(peers[0].online && exclude != Some(name)) {
            let rest = peers.skip(1);
            law_chosen_peer_is_online(rest, exclude);
            if let Some(found) = available(rest, exclude) {
                let i = choose|i: int|
                    0 <= i < rest.len() && (#[trigger] rest[i]).name == Some(found)
                        && rest[i].online;
                assert(peers[i + 1] == rest[i]);
            }
        }
    }
}

/// The peer that is chosen is the first that is online and not excluded, where every peer before
/// it has a name; there are at most three attempts to ask for it.
pub proof fn law_first_peer_is_chosen(peers: Seq<PeerView>, exclude: Option<Seq<char>>, i: int)
    requires
        0 <= i < peers.len(),
        forall|j: int|
            0 <= j < i ==> (#[trigger] peers[j]).name is Some && (!peers[j].online || exclude
                == peers[j].name),
    ensures
        peers[i].name is None ==> available(peers, exclude) is None,
        peers[i].name is Some && peers[i].online && exclude != peers[i].name ==> available(
            peers,
            exclude,
        ) == peers[i].name,
        i == peers.len() - 1 && (!peers[i].online || exclude == peers[i].name) ==> available(
            peers,
            exclude,
        ) is None,
        MESH_ATTEMPTS == 3,
    decreases i,
{
    let rest = peers.skip(1);
    if i > 0 {
        assert(peers[0].name is Some);
        assert(rest[i - 1] == peers[i]);
        assert forall|j: int| 0 <= j < i - 1 implies (#[trigger] rest[j]).name is Some && (
        !rest[j].online || exclude == rest[j].name) by {
            assert(rest[j] == peers[j + 1]);
        }
        law_first_peer_is_chosen(rest, exclude, i - 1);
    } else if peers.len() == 1 {
        assert(available(rest, exclude) is None);
    }
}

} // verus!
