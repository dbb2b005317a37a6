//! Reliable multicast.
use aleph_bft::data::Data;
use aleph_bft::mock::signable::SignableByte;
use aleph_bft::mock::signature_set::SignatureSet;
use aleph_bft::mock::threshold::{prepare_keychains, TestMultiKeychain};
use aleph_bft::mock::verbose::{VerbosePartialMultisignature, VerboseSignature};
use aleph_bft::nodes::{NodeCount, NodeIndex};
use aleph_bft::rmc::handler::{Handler, OnStartRmcResponse};
use aleph_bft::rmc::Message;
use aleph_bft::signed::{Indexed, Multisigned, UncheckedSigned};
use rand::Rng;

type TestMessage = Message<SignableByte, VerboseSignature, VerbosePartialMultisignature>;
type TestHandler = Handler<SignableByte, TestMultiKeychain>;
type TestMultisigned = Multisigned<SignableByte, VerbosePartialMultisignature>;

/// A node that keeps on sending what it has until everybody has the multisignature.
struct Node {
    handler: TestHandler,
    outgoing: Option<TestMessage>,
    multisigned: Vec<TestMultisigned>,
}

impl Node {
    fn announce(&mut self, multisigned: TestMultisigned) {
        self.outgoing = Some(Message::MultisignedHash(multisigned.copy().into_unchecked()));
        self.multisigned.push(multisigned);
    }

    fn start_rmc(&mut self, hash: SignableByte) {
        match self.handler.on_start_rmc(hash) {
            OnStartRmcResponse::SignedHash(signed) => {
                self.outgoing = Some(Message::SignedHash(signed.into_unchecked()));
            }
            OnStartRmcResponse::MultisignedHash(multisigned) => self.announce(multisigned),
            OnStartRmcResponse::Noop => (),
        }
    }

    fn on_message(&mut self, message: TestMessage) {
        let news = match message {
            Message::SignedHash(unchecked) => self.handler.on_signed_hash(unchecked).ok(),
            Message::MultisignedHash(unchecked) => self.handler.on_multisigned_hash(unchecked).ok(),
        };
        if let Some(Some(multisigned)) = news {
            self.announce(multisigned);
        }
    }
}

struct TestData {
    nodes: Vec<Node>,
}

impl TestData {
    fn new(node_count: NodeCount) -> Self {
        let nodes = prepare_keychains(node_count)
            .into_iter()
            .map(|keychain| Node {
                handler: Handler::new(keychain),
                outgoing: None,
                multisigned: Vec::new(),
            })
            .collect();
        TestData { nodes }
    }

    fn broadcast_message(&mut self, message: TestMessage) {
        for node in &mut self.nodes {
            node.on_message(message.copy());
        }
    }

    /// Sends until every node has some multisigned hash.
    fn run(&mut self, mut message_filter: impl FnMut(NodeIndex, &TestMessage) -> bool) {
        for _ in 0..10_000 {
            if self.nodes.iter().all(|node| !node.multisigned.is_empty()) {
                return;
            }
            let sent: Vec<_> = self
                .nodes
                .iter()
                .filter_map(|node| node.outgoing.as_ref().map(|message| message.copy()))
                .collect();
            for message in sent {
                for (i, node) in self.nodes.iter_mut().enumerate() {
                    if message_filter(NodeIndex(i), &message) {
                        node.on_message(message.copy());
                    }
                }
            }
        }
        panic!("The multicast has not come to an end.");
    }

    fn check(&self, hash: SignableByte) {
        for node in &self.nodes {
            assert_eq!(node.multisigned.len(), 1);
            assert!(node.multisigned[0].as_signable().equals(&hash));
        }
    }
}

fn hash() -> SignableByte {
    SignableByte(56)
}

/// Create 10 honest nodes and let each of them start rmc for the same hash.
#[test]
fn simple_scenario() {
    let mut data = TestData::new(NodeCount(10));
    for node in &mut data.nodes {
        node.start_rmc(hash());
    }
    data.run(|_, _| true);
    data.check(hash());
}

/// Each message is delivered with 20% probability
#[test]
fn faulty_network() {
    let mut data = TestData::new(NodeCount(10));
    for node in &mut data.nodes {
        node.start_rmc(hash());
    }
    let mut rng = rand::thread_rng();
    data.run(move |_, _| rng.gen_range(0..5) == 0);
    data.check(hash());
}

/// Only 7 nodes start rmc and one of the nodes which didn't start rmc
/// is delivered only messages with complete multisignatures
#[test]
fn node_hearing_only_multisignatures() {
    let node_count = NodeCount(10);
    let mut data = TestData::new(node_count);
    let threshold = (2 * node_count.0 + 1) / 3;
    for node in &mut data.nodes[..threshold] {
        node.start_rmc(hash());
    }
    data.run(|node_ix, message| !matches!((node_ix.0, message), (0, Message::SignedHash(_))));
    data.check(hash());
}

fn bad_signature() -> VerboseSignature {
    VerboseSignature::new(Vec::new(), NodeIndex(111))
}

fn bad_multisignature(node_count: NodeCount) -> VerbosePartialMultisignature {
    SignatureSet::with_size(node_count)
}

/// 7 honest nodes and 3 dishonest nodes which emit bad signatures and multisignatures
#[test]
fn bad_signatures_and_multisignatures_are_ignored() {
    let node_count = NodeCount(10);
    let mut data = TestData::new(node_count);
    let bad_hash = SignableByte(65);
    let bad_msg = Message::SignedHash(UncheckedSigned::new(
        Indexed::new(bad_hash.copy(), NodeIndex(0)),
        bad_signature(),
    ));
    data.broadcast_message(bad_msg);
    let bad_msg =
        Message::MultisignedHash(UncheckedSigned::new(bad_hash, bad_multisignature(node_count)));
    data.broadcast_message(bad_msg);
    for node in &mut data.nodes {
        node.start_rmc(hash());
    }
    data.run(|_, _| true);
    data.check(hash());
}

#[test]
fn fewer_than_the_threshold_do_not_complete() {
    let node_count = NodeCount(10);
    let mut data = TestData::new(node_count);
    for node in &mut data.nodes[..6] {
        node.start_rmc(hash());
    }
    let sent: Vec<_> = data
        .nodes
        .iter()
        .filter_map(|node| node.outgoing.as_ref().map(|message| message.copy()))
        .collect();
    for message in sent {
        data.broadcast_message(message);
    }
    assert!(data.nodes.iter().all(|node| node.multisigned.is_empty()));
    data.nodes[6].start_rmc(hash());
    assert_eq!(data.nodes[6].multisigned.len(), 1);
    // once it is complete, starting again does nothing
    assert!(matches!(
        data.nodes[6].handler.on_start_rmc(hash()),
        OnStartRmcResponse::Noop
    ));
}
