//! Whom a message over a network goes to.
use crate::alerts::Recipient;
use crate::nodes::NodeIndex;
use vstd::prelude::*;

verus! {

/// All of the peers but one, in order.
pub open spec fn without(peers: Seq<NodeIndex>, index: NodeIndex) -> Seq<NodeIndex>
    decreases peers.len(),
{
    if peers.len() == 0 {
        seq![]
    } else {
        let before = without(peers.drop_last(), index);
        if peers.last() == index {
            before
        } else {
            before.push(peers.last())
        }
    }
}

/// The place of a member in a network.
pub struct Network {
    peers: Vec<NodeIndex>,
    index: NodeIndex,
}

impl Network {
    /// Everyone in the network.
    pub closed spec fn everyone(&self) -> Seq<NodeIndex> {
        self.peers@
    }

    /// Whose place this is.
    pub closed spec fn owner(&self) -> NodeIndex {
        self.index
    }

    pub fn new(peers: Vec<NodeIndex>, index: NodeIndex) -> (result: Self)
        ensures
            result.everyone() == peers@,
            result.owner() == index,
    {
        Network { peers, index }
    }

    pub fn index(&self) -> (index: NodeIndex)
        ensures
            index == self.owner(),
    {
        self.index
    }

    /// Whom a message goes to: the one that it is for, or all the others.
    pub fn send(&self, recipient: Recipient) -> (nodes: Vec<NodeIndex>)
        ensures
            nodes@ == (match recipient {
                Recipient::Node(node) => seq![node],
                Recipient::Everyone => without(self.everyone(), self.owner()),
            }),
    {
        let mut nodes: Vec<NodeIndex> = Vec::new();
        match recipient {
            Recipient::Node(node) => {
                nodes.push(node);
                proof {
                    assert(nodes@ =~= seq![node]);
                }
            },
            Recipient::Everyone => {
                let n: usize = self.peers.len();
                let ghost peers = self.peers@;
                proof {
                    assert(peers.take(0) =~= seq![]);
                    assert(nodes@ =~= seq![]);
                }
                for i in 0..n
                    invariant
                        n == self.peers@.len(),
                        peers == self.peers@,
                        nodes@ == without(peers.take(i as int), self.index),
                {
                    proof {
                        assert(peers.take(i + 1).drop_last() =~= peers.take(i as int));
                    }
                    if self.peers[i] != self.index {
                        nodes.push(self.peers[i]);
                    }
                }
                proof {
                    assert(peers.take(n as int) =~= peers);
                }
            },
        }
        nodes
    }
}

/// A message for everyone goes to each of the others and never back to us.
pub proof fn law_everyone_but_us(peers: Seq<NodeIndex>, index: NodeIndex)
    ensures
        forall|node: NodeIndex| #[trigger]
            without(peers, index).contains(node) <==> peers.contains(node) && node != index,
    decreases peers.len(),
{
    if peers.len() > 0 {
        let rest = peers.drop_last();
        law_everyone_but_us(rest, index);
        let before = without(rest, index);
        let after = without(peers, index);
        assert forall|node: NodeIndex| #[trigger] after.contains(node) <==> peers.contains(node)
            && node != index by {
            if after.contains(node) {
                let i = choose|i: int| 0 <= i < after.len() && after[i] == node;
                if i < before.len() {
                    assert(before.contains(node));
                    let j = choose|j: int| 0 <= j < rest.len() && rest[j] == node;
                    assert(peers[j] == node);
                } else {
                    assert(peers[peers.len() - 1] == node);
                }
            }
            if peers.contains(node) && node != index {
                let i = choose|i: int| 0 <= i < peers.len() && peers[i] == node;
                if i < rest.len() {
                    assert(rest[i] == node);
                    assert(before.contains(node));
                    let j = choose|j: int| 0 <= j < before.len() && before[j] == node;
                    assert(after[j] == node);
                } else {
                    assert(after[after.len() - 1] == node);
                }
            }
        }
    }
}

} // verus!
