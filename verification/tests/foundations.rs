//! Encodings, collections, keys and the shutdown of components.
use aleph_bft::alerts::Recipient;
use aleph_bft::codec_error::CodecError;
use aleph_bft::collections::{VecMap, VecSet};
use aleph_bft::crypto::{Hasher, Keychain as KeychainTrait, MultiKeychain, PartialMultisignature};
use aleph_bft::data::{decode_all, Data};
use aleph_bft::duration::Duration;
use aleph_bft::mock::bad::{BadKeyBox, BadVerboseMultiKeychain};
use aleph_bft::mock::constant::ConstantSignatureKeyBox;
use aleph_bft::mock::dataio::DataProvider;
use aleph_bft::mock::dummy::{DummyKeyBox, ThresholdDummyMultiKeychain};
use aleph_bft::mock::hasher::Hasher64;
use aleph_bft::mock::key_box::KeyBox;
use aleph_bft::mock::keychain::Keychain;
use aleph_bft::mock::network::Network;
use aleph_bft::mock::router::{configure_network, NetworkHook, Packet, UnreliableRouter};
use aleph_bft::mock::signable::{Signable, SignableByte};
use aleph_bft::mock::threshold::{prepare_keychains, TestMultiKeychain, ThresholdMultiKeychain};
use aleph_bft::mock::verbose::{VerboseKeyBox, VerboseSignature};
use aleph_bft::mock::wrappers::BadSignatureWrapper;
use aleph_bft::nodes::{NodeCount, NodeIndex, NodeMap, NodeSubset};
use aleph_bft::signed::{Indexed, PartiallyMultisigned, Signed};
use aleph_bft::terminator::{Step, Terminator};
use parity_scale_codec::Encode;

#[test]
fn numbers_are_encoded_as_elsewhere() {
    assert_eq!(Data::encode(&7u8), Encode::encode(&7u8));
    assert_eq!(Data::encode(&0x1234u16), Encode::encode(&0x1234u16));
    assert_eq!(Data::encode(&0x12345678u32), Encode::encode(&0x12345678u32));
    assert_eq!(
        Data::encode(&0x123456789abcdef0u64),
        Encode::encode(&0x123456789abcdef0u64)
    );
    assert_eq!(Data::encode(&true), Encode::encode(&true));
    assert_eq!(Data::encode(&NodeIndex(300)), Encode::encode(&300u64));
    assert_eq!(Data::encode(&Some(5u16)), Encode::encode(&Some(5u16)));
    assert_eq!(Data::encode(&None::<u16>), Encode::encode(&None::<u16>));
    assert_eq!(Data::encode(&(1u8, 2u64)), Encode::encode(&(1u8, 2u64)));
    assert_eq!(Data::encode(&[3u8; 8]), Encode::encode(&[3u8; 8]));
}

#[test]
fn lists_are_encoded_as_elsewhere() {
    for n in [0usize, 1, 63, 64, 65, 16383, 16384, 70000] {
        let list: Vec<u8> = (0..n).map(|i| (i % 251) as u8).collect();
        let encoded = Data::encode(&list);
        assert_eq!(encoded, Encode::encode(&list));
        let (decoded, read) = Vec::<u8>::decode(&encoded, 0).expect("should decode correctly");
        assert_eq!(decoded, list);
        assert_eq!(read, encoded.len());
    }
}

#[test]
fn values_are_decoded_where_they_stand() {
    let mut bytes = vec![9, 9];
    Data::encode_to(&0x1234u16, &mut bytes);
    Data::encode_to(&0x56789abcu32, &mut bytes);
    Data::encode_to(&0xdef0u64, &mut bytes);
    let (first, pos) = u16::decode(&bytes, 2).expect("should decode correctly");
    let (second, pos) = u32::decode(&bytes, pos).expect("should decode correctly");
    let (third, pos) = u64::decode(&bytes, pos).expect("should decode correctly");
    assert_eq!((first, second, third), (0x1234, 0x56789abc, 0xdef0));
    assert_eq!(pos, bytes.len());
    assert!(u16::decode(&bytes, bytes.len() - 1).is_none());
    assert!(u32::decode(&bytes, bytes.len() - 3).is_none());
    assert!(u64::decode(&bytes, bytes.len() - 7).is_none());
    assert!(bool::decode(&vec![2], 0).is_none());
    assert!(Option::<u8>::decode(&vec![2, 0], 0).is_none());
    assert!(Vec::<u8>::decode(&vec![], 0).is_none());
}

#[test]
fn different_values_have_different_encodings() {
    let values = [None, Some(vec![]), Some(vec![0u8]), Some(vec![0, 0])];
    for (i, value) in values.iter().enumerate() {
        for (j, other) in values.iter().enumerate() {
            assert_eq!(Data::encode(value) == Data::encode(other), i == j);
        }
    }
}

#[test]
fn whole_inputs_are_decoded() {
    let bytes = vec![1, 0, 2, 0, 3, 0];
    assert_eq!(decode_all::<u16>(&bytes), Ok(vec![1, 2, 3]));
    assert_eq!(decode_all::<u16>(&vec![]), Ok(vec![]));
    let error = decode_all::<u16>(&vec![1, 0, 2]).expect_err("one byte is missing");
    assert_eq!(error.text(), "Not enough data to fill buffer");
}

/// What is wrong with the bytes is said in the same words by the codec itself.
fn assert_same_refusal<T: Data + parity_scale_codec::Decode>(bytes: &[u8]) {
    let decoded = <T as parity_scale_codec::Decode>::decode(&mut &bytes[..]);
    let expected = match decoded {
        Ok(_) => panic!("{:?} can be decoded", bytes),
        Err(error) => error.to_string(),
    };
    let bytes = bytes.to_vec();
    assert!(<T as Data>::decode(&bytes, 0).is_none());
    assert_eq!(T::explain(&bytes, 0).text(), expected);
}

#[test]
fn wrong_bytes_are_explained() {
    assert_same_refusal::<u8>(&[]);
    assert_same_refusal::<u16>(&[1]);
    assert_same_refusal::<u32>(&[1, 2, 3]);
    assert_same_refusal::<u64>(&[1, 2, 3, 4, 5, 6, 7]);
    assert_same_refusal::<[u8; 8]>(&[1, 2, 3, 4, 5, 6, 7]);
    assert_same_refusal::<bool>(&[]);
    assert_same_refusal::<bool>(&[2]);
    assert_same_refusal::<Option<u16>>(&[]);
    assert_same_refusal::<Option<u16>>(&[1, 0]);
    assert_same_refusal::<Option<u16>>(&[2, 0, 0]);
    assert_same_refusal::<Option<Option<bool>>>(&[1, 1, 7]);
    assert_same_refusal::<(u16, bool)>(&[1]);
    assert_same_refusal::<(u16, bool)>(&[1, 0]);
    assert_same_refusal::<(u16, bool)>(&[1, 0, 3]);
}

#[test]
fn wrong_lists_are_explained() {
    // no length, one that is cut off, one that is too long for its value and one that is too large
    assert_same_refusal::<Vec<u8>>(&[]);
    assert_same_refusal::<Vec<u8>>(&[1]);
    assert_same_refusal::<Vec<u8>>(&[1, 0]);
    assert_same_refusal::<Vec<bool>>(&[2, 0, 0, 0]);
    assert_same_refusal::<Vec<bool>>(&[7, 1, 1, 1, 1, 1]);
    assert_same_refusal::<Vec<bool>>(&[23, 0, 0, 0, 0, 0, 0, 0, 0, 0]);
    // numbers are read all at once, other items one by one
    assert_same_refusal::<Vec<u8>>(&[8, 1]);
    assert_same_refusal::<Vec<u16>>(&[8, 1, 0, 1]);
    assert_same_refusal::<Vec<u32>>(&[4, 1]);
    assert_same_refusal::<Vec<u64>>(&[4, 1]);
    assert_same_refusal::<Vec<bool>>(&[12, 1, 0]);
    assert_same_refusal::<Vec<bool>>(&[12, 1, 0, 5]);
    assert_same_refusal::<Vec<Option<u16>>>(&[12, 0, 1, 0, 0, 2]);
    assert_same_refusal::<Vec<Option<u16>>>(&[12, 0, 1, 0, 0, 1]);
    assert_same_refusal::<Vec<[u8; 8]>>(&[4, 1]);
    assert_same_refusal::<Vec<Vec<u8>>>(&[8, 4, 1, 8, 1]);
}

#[test]
fn errors_with_causes_have_several_lines() {
    let error = CodecError::new("root cause".to_string());
    assert_eq!(error.text(), "root cause");
    let error = error.chain("wrap cause").chain("final type");
    assert_eq!(error.text(), "final type:\n\twrap cause:\n\t\troot cause\n");
}

#[test]
fn durations_are_exact() {
    assert_eq!(Duration::from_millis(133).as_nanos(), 133_000_000);
    let short = Duration::new(2, 1_999_999);
    assert_eq!(short.as_nanos(), 2_001_999_999);
    assert_eq!(short.as_millis(), 2_001);
    assert_eq!(Duration::new(0, 0), Duration::from_millis(0));
    assert!(Duration::new(0, 999_999) < Duration::from_millis(1));
    let longest = Duration::new(u64::MAX, 999_999_999);
    assert_eq!(longest.as_nanos(), std::time::Duration::MAX.as_nanos());
}

#[test]
fn values_are_shown_for_debugging() {
    assert_eq!(Vec::<u8>::new().debug(), "[]");
    assert_eq!(vec![0u8, 10, 255].debug(), "[0, 10, 255]");
    assert_eq!([1u8, 2, 3, 4, 5, 6, 7, 8].debug(), "[1, 2, 3, 4, 5, 6, 7, 8]");
    let value = (vec![Some(7u16), None], (true, u64::MAX));
    assert_eq!(value.debug(), format!("{:?}", value));
    let index = NodeIndex(12);
    assert_eq!(index.debug(), format!("{:?}", index));
    let mut map: NodeMap<u32> = NodeMap::with_size(NodeCount(3));
    map.insert(NodeIndex(1), 5);
    assert_eq!(map.debug(), "NodeMap([None, Some(5), None])");
    let mut subset = NodeSubset::with_size(NodeCount(4));
    subset.insert(NodeIndex(0));
    subset.insert(NodeIndex(3));
    assert_eq!(subset.debug(), "NodeSubset(1001)");
    assert_eq!(SignableByte(3).debug(), "SignableByte(3)");
    let signature = VerboseSignature::new(vec![4, 2], NodeIndex(1));
    assert_eq!(signature.debug(), "VerboseSignature { msg: [4, 2], index: NodeIndex(1) }");
}

#[test]
fn short_inputs_are_explained() {
    let explained = VerboseSignature::explain(&vec![8, 1], 0).text();
    let expected = parity_scale_codec::Error::from("Not enough data to decode vector")
        .chain("Could not decode `VerboseSignature::msg`");
    assert_eq!(explained, expected.to_string());
    let explained = VerboseSignature::explain(&vec![8, 1, 2, 0], 0).text();
    let expected = parity_scale_codec::Error::from("Not enough data to fill buffer")
        .chain("Could not decode `VerboseSignature::index`");
    assert_eq!(explained, expected.to_string());
}

#[test]
fn hashes_depend_on_what_is_hashed() {
    assert_eq!(Hasher64::hash(&vec![1]), Hasher64::hash(&vec![1]));
    assert_ne!(Hasher64::hash(&vec![1]), Hasher64::hash(&vec![2]));
}

#[test]
fn maps_of_nodes() {
    let mut map = NodeMap::with_size(NodeCount(4));
    assert_eq!(map.size(), NodeCount(4));
    map.insert(NodeIndex(2), 7u32);
    map.insert(NodeIndex(0), 8);
    map.insert(NodeIndex(2), 9);
    assert_eq!(map.get(NodeIndex(2)), Some(&9));
    assert_eq!(map.get(NodeIndex(1)), None);
    assert_eq!(map.get(NodeIndex(11)), None);
    assert_eq!(map.item_count(), 2);
    assert_eq!(map.keys(), vec![NodeIndex(0), NodeIndex(2)]);
    assert_eq!(map.values(), vec![8, 9]);
    let subset = map.to_subset();
    assert_eq!(subset.elements(), vec![NodeIndex(0), NodeIndex(2)]);
    let mut subset = NodeSubset::with_size(NodeCount(3));
    subset.insert(NodeIndex(1));
    assert!(subset.contains(NodeIndex(1)) && !subset.contains(NodeIndex(0)));
    assert_eq!((subset.size(), subset.len()), (3, 1));
}

#[test]
fn thresholds() {
    let thresholds: Vec<_> = (1..11)
        .map(|n| NodeCount(n).consensus_threshold().0)
        .collect();
    assert_eq!(thresholds, vec![1, 2, 3, 3, 4, 5, 5, 6, 7, 7]);
    assert_eq!(NodeCount(2).members(), vec![NodeIndex(0), NodeIndex(1)]);
}

#[test]
fn maps_and_sets() {
    let mut map: VecMap<u64, u32> = VecMap::new();
    map.insert(5, 1);
    map.insert(6, 2);
    map.insert(5, 3);
    assert_eq!(map.len(), 2);
    assert_eq!(map.get(&5), Some(&3));
    assert_eq!(map.remove(&5), Some(3));
    assert_eq!(map.remove(&5), None);
    assert!(!map.contains_key(&5) && map.contains_key(&6));
    let mut set: VecSet<u64> = VecSet::new();
    assert!(set.insert(4));
    assert!(!set.insert(4));
    assert_eq!(set.len(), 1);
    assert!(set.remove(&4));
    assert!(!set.remove(&4));
    assert!(!set.contains(&4));
}

#[test]
fn keys_verify_what_they_sign() {
    let message = vec![1, 2, 3];
    let other = vec![1, 2, 4];
    let verbose = VerboseKeyBox::new(NodeCount(4), NodeIndex(1));
    let signature = verbose.sign(&message);
    assert!(verbose.verify(&message, &signature, NodeIndex(1)));
    assert!(!verbose.verify(&other, &signature, NodeIndex(1)));
    assert!(!verbose.verify(&message, &signature, NodeIndex(2)));
    assert_eq!(*signature.msg(), message);
    assert_eq!(signature.index(), NodeIndex(1));

    let keychain = Keychain::new(NodeCount(4), NodeIndex(1));
    assert_eq!(keychain.index(), NodeIndex(1));
    assert_eq!(keychain.node_count(), NodeCount(4));
    let signature = keychain.sign(&message);
    assert!(keychain.verify(&message, &signature, NodeIndex(1)));

    let key_box = KeyBox::new(NodeCount(4), NodeIndex(1));
    let signature = key_box.sign(&message);
    assert!(key_box.verify(&other, &signature, NodeIndex(3)));
    let dummy = DummyKeyBox::new(NodeCount(4), NodeIndex(1));
    assert!(dummy.verify(&other, &dummy.sign(&message), NodeIndex(3)));

    let constant = ConstantSignatureKeyBox::new(NodeCount(4), NodeIndex(1), 77u32);
    assert_eq!(constant.sign(&message), 77);
}

#[test]
fn copies_of_keys_are_the_same_keys() {
    let message = vec![1, 2, 3];
    let keys = &prepare_keychains(NodeCount(4))[1];
    for other in [keys.copy(), keys.duplicate()] {
        assert_eq!(other.index(), keys.index());
        assert_eq!(other.node_count(), keys.node_count());
        let signature = other.sign(&message);
        assert!(signature.equals(&keys.sign(&message)));
        assert!(keys.verify(&message, &signature, NodeIndex(1)));
        assert!(!other.verify(&message, &signature, NodeIndex(2)));
        let partial = other.from_signature(&signature, NodeIndex(1));
        assert!(partial.equals(&keys.from_signature(&signature, NodeIndex(1))));
        assert!(!other.is_complete(&message, &partial));
    }
}

#[test]
fn bad_keys_do_not_sign_correctly() {
    let message = vec![1, 2, 3];
    let good = prepare_keychains(NodeCount(4)).swap_remove(1);
    let bad = BadKeyBox::new(NodeCount(4), NodeIndex(1), NodeIndex(2));
    assert_eq!(bad.index(), NodeIndex(1));
    let _ = bad.sign(&message);
    let bad = BadVerboseMultiKeychain::new(NodeCount(4), NodeIndex(1), NodeIndex(2));
    let signature = bad.sign(&message);
    assert!(!good.verify(&message, &signature, NodeIndex(1)));
    let bad: BadSignatureWrapper<TestMultiKeychain> = BadSignatureWrapper::from(good);
    let signature = bad.sign(&message);
    assert!(!bad.verify(&message, &signature, NodeIndex(1)));
}

#[test]
fn multisignatures_need_a_threshold() {
    let keychains: Vec<_> = (0..4)
        .map(|i| ThresholdDummyMultiKeychain::dummy(NodeCount(4), NodeIndex(i)))
        .collect();
    let message = vec![1];
    let mut partial = keychains[0].from_signature(&keychains[0].sign(&message), NodeIndex(0));
    assert!(!keychains[0].is_complete(&message, &partial));
    partial = partial.add_signature(&keychains[1].sign(&message), NodeIndex(1));
    partial = partial.add_signature(&keychains[1].sign(&message), NodeIndex(1));
    assert!(!keychains[0].is_complete(&message, &partial));
    partial = partial.add_signature(&keychains[3].sign(&message), NodeIndex(3));
    assert!(keychains[0].is_complete(&message, &partial));
    assert_eq!(partial.count(), 3);
    assert!(partial.get(NodeIndex(2)).is_none());
}

#[test]
fn other_values_do_not_count_in_a_multisignature() {
    let keychains = prepare_keychains(NodeCount(4));
    let signed = |i: usize, byte: u8| -> Signed<Indexed<SignableByte>, VerboseSignature> {
        Signed::sign_with_index(SignableByte::from(byte), &keychains[i])
    };
    let mut partial = PartiallyMultisigned::sign(signed(0, 5), &keychains[0]);
    partial = partial.add_signature(signed(1, 5), &keychains[0]);
    partial = partial.add_signature(signed(2, 6), &keychains[0]);
    assert!(!partial.is_complete());
    partial = partial.add_signature(signed(3, 5), &keychains[0]);
    assert!(partial.is_complete());
    assert_eq!(partial.as_signable().0, 5);
    let _ = ThresholdMultiKeychain::new(VerboseKeyBox::new(NodeCount(4), NodeIndex(0)));
    let _ = Signable::from(vec![1, 2]);
}

#[test]
fn networks_reach_everyone_else() {
    let peers = NodeCount(3).members();
    let network = Network::new(peers, NodeIndex(1));
    assert_eq!(network.index(), NodeIndex(1));
    assert_eq!(
        network.send(Recipient::Everyone),
        vec![NodeIndex(0), NodeIndex(2)]
    );
    assert_eq!(network.send(Recipient::Node(NodeIndex(2))), vec![NodeIndex(2)]);
}

struct Increase;

impl NetworkHook<u32> for Increase {
    fn updates(
        _before: Self,
        data: u32,
        _sender: NodeIndex,
        _recipient: NodeIndex,
        _after: Self,
        updated: u32,
    ) -> bool {
        updated == data + 1
    }

    fn update_state(&mut self, data: &mut u32, _sender: NodeIndex, _recipient: NodeIndex) {
        *data += 1;
    }
}

#[test]
fn routers_deliver_what_is_not_lost() {
    let (mut router, networks): (UnreliableRouter<u32, Increase>, Vec<Network>) =
        configure_network(NodeCount(3));
    assert_eq!(networks.len(), 3);
    assert!(!router.is_done());
    router.add_hook(Increase);
    router.add_hook(Increase);
    let packet = |recipient, lost| Packet {
        sender: NodeIndex(0),
        recipient: NodeIndex(recipient),
        data: 5,
        lost,
    };
    let delivery = router.route(packet(1, false)).expect("it is not lost");
    assert_eq!(delivery.data, 7);
    assert_eq!(delivery.sender, NodeIndex(0));
    assert_eq!(delivery.recipient, NodeIndex(1));
    assert!(router.route(packet(1, true)).is_none());
    let packets = vec![packet(2, false), packet(1, false), packet(2, true), packet(0, false)];
    let deliveries = router.process(&vec![NodeIndex(1)], packets);
    let recipients: Vec<_> = deliveries.iter().map(|delivery| delivery.recipient).collect();
    assert_eq!(recipients, vec![NodeIndex(2), NodeIndex(0)]);
    assert!(router.route(packet(1, false)).is_none());
    router.disconnect_peer(NodeIndex(0));
    router.disconnect_peer(NodeIndex(2));
    assert!(router.is_done());
    let mut router: UnreliableRouter<u32, Increase> =
        UnreliableRouter::new(NodeCount(2).members());
    let network = router.connect_peer(NodeIndex(1));
    assert_eq!(network.send(Recipient::Everyone), vec![NodeIndex(0)]);
}

#[test]
fn without_hooks_nothing_is_changed() {
    let (mut router, _): (UnreliableRouter<u32, Increase>, Vec<Network>) =
        configure_network(NodeCount(2));
    let packets = (0..4)
        .map(|data| Packet {
            sender: NodeIndex(0),
            recipient: NodeIndex(1),
            data,
            lost: data == 2,
        })
        .collect();
    let data: Vec<_> = router
        .process(&vec![], packets)
        .into_iter()
        .map(|delivery| delivery.data)
        .collect();
    assert_eq!(data, vec![0, 1, 3]);
}

#[test]
fn provider_has_data() {
    let mut provider = DataProvider::new();
    assert_eq!(provider.get_data(), 0);
    assert_eq!(provider.get_data(), 0);
}

#[test]
fn components_shut_down_in_order() {
    let mut root = Terminator::new(false, 0u32);
    assert_eq!(*root.component_name(), 0);
    root.add_offspring_connection(1);
    root.add_offspring_connection(2);
    root.add_offspring_connection(1);
    assert!(matches!(
        root.terminate_sync()[..],
        [
            Step::AwaitOffspring(1),
            Step::AwaitOffspring(2),
            Step::NotifyOffspring(1),
            Step::NotifyOffspring(2)
        ]
    ));
    let leaf = Terminator::new(true, 1u32);
    assert!(matches!(
        leaf.terminate_sync()[..],
        [Step::NotifyParent, Step::AwaitParent]
    ));
}
