use near_store::fake_client::{
    Actor, AnnounceAccount, Approval, Block, BlockHeader, Challenge, ChunkHash, EpochId, Event,
    Handler, NetworkClientMessages, NetworkClientResponses, NetworkInfo,
    NetworkViewClientMessages, NetworkViewClientResponses, PartialEncodedChunkPart,
    PartialEncodedChunkRequestMsg, PartialEncodedChunkResponseMsg, PeerId, Signature,
    SignedTransaction,
};
use near_store::types::{AccountId, CryptoHash, PublicKey};

const PEER: PeerId = PeerId(PublicKey::ED25519([1; 32]));

fn announcement(name: &str) -> AnnounceAccount {
    AnnounceAccount {
        account_id: AccountId::from_bytes(name.as_bytes()).unwrap(),
        peer_id: PEER,
        epoch_id: EpochId(CryptoHash([2; 32])),
        signature: Signature(vec![9]),
    }
}

#[test]
fn questions_are_written_down() {
    let mut actor = Actor::new();
    let answer = actor.handle(NetworkViewClientMessages::BlockRequest(CryptoHash([3; 32])));
    assert!(matches!(answer, NetworkViewClientResponses::NoResponse));
    let hashes = vec![CryptoHash([4; 32]), CryptoHash([5; 32])];
    let answer = actor.handle(NetworkViewClientMessages::BlockHeadersRequest(hashes));
    assert!(matches!(answer, NetworkViewClientResponses::NoResponse));
    let events = actor.take_events();
    assert_eq!(events.len(), 2);
    assert!(matches!(&events[0], Event::BlockRequest(h) if h.0 == [3; 32]));
    assert_eq!(events, events.clone());
    assert!(matches!(&events[1], Event::BlockHeadersRequest(h)
        if h.len() == 2 && h[1].0 == [5; 32]));
    assert!(actor.take_events().is_empty());
}

#[test]
fn announcements_are_passed_on() {
    let mut actor = Actor::new();
    let known = Some(EpochId(CryptoHash([7; 32])));
    let answer = actor.handle(NetworkViewClientMessages::AnnounceAccount(vec![
        (announcement("alice"), None),
        (announcement("bob"), known),
    ]));
    match answer {
        NetworkViewClientResponses::AnnounceAccount(accounts) => {
            assert_eq!(accounts.len(), 2);
            assert_eq!(accounts[0].account_id.as_bytes(), b"alice");
            assert_eq!(accounts[1].account_id.as_bytes(), b"bob");
            assert_eq!(accounts[1].signature.0, [9]);
        }
        NetworkViewClientResponses::NoResponse => panic!("no answer"),
    }
    let events = actor.take_events();
    assert_eq!(events.len(), 1);
    match &events[0] {
        Event::AnnounceAccount(accounts) => {
            assert_eq!(accounts[0].0.account_id.as_bytes(), b"alice");
            assert!(accounts[0].1.is_none());
            assert!(matches!(accounts[1].1, Some(epoch) if epoch.0.0 == [7; 32]));
        }
        _ => panic!("another event"),
    }
}

#[test]
fn news_is_written_down_without_an_answer() {
    let mut actor = Actor::new();
    let chunk = ChunkHash(CryptoHash([6; 32]));
    let messages = vec![
        NetworkClientMessages::Block(Block(vec![1]), PEER, true),
        NetworkClientMessages::BlockApproval(Approval(vec![2]), PEER),
        NetworkClientMessages::BlockHeaders(vec![BlockHeader(vec![3])], PEER),
        NetworkClientMessages::PartialEncodedChunkResponse(
            PartialEncodedChunkResponseMsg {
                chunk_hash: chunk,
                parts: vec![PartialEncodedChunkPart(vec![4])],
            },
            0,
        ),
        NetworkClientMessages::PartialEncodedChunkRequest(
            PartialEncodedChunkRequestMsg { chunk_hash: chunk, part_ords: vec![1] },
            CryptoHash([0; 32]),
        ),
        NetworkClientMessages::Challenge(Challenge(vec![5])),
        NetworkClientMessages::NetworkInfo(NetworkInfo {
            num_connected_peers: 1,
            peer_max_count: 2,
        }),
    ];
    for message in messages {
        assert!(message.unsupported().is_none());
        assert_eq!(actor.handle(message), NetworkClientResponses::NoResponse);
    }
    let events = actor.take_events();
    assert_eq!(events.len(), 6);
    assert!(matches!(&events[0], Event::Block(b) if b.0 == [1]));
    assert!(matches!(&events[1], Event::BlockApproval(a, p)
        if a.0 == [2] && matches!(p.0, PublicKey::ED25519(k) if k == [1; 32])));
    assert!(matches!(&events[2], Event::BlockHeaders(h) if h.len() == 1 && h[0].0 == [3]));
    assert!(matches!(&events[3], Event::Chunk(p) if p.len() == 1 && p[0].0 == [4]));
    assert!(matches!(&events[4], Event::ChunkRequest(h) if h.0.0 == [6; 32]));
    assert!(matches!(&events[5], Event::Challenge(c) if c.0 == [5]));
}

#[test]
fn every_transaction_is_valid() {
    let mut actor = Actor::new();
    let answer = actor.handle(NetworkClientMessages::Transaction {
        transaction: SignedTransaction(vec![8]),
        is_forwarded: false,
        check_only: false,
    });
    assert_eq!(answer, NetworkClientResponses::ValidTx);
    let events = actor.take_events();
    assert_eq!(events.len(), 1);
    assert!(matches!(&events[0], Event::Transaction(t) if t.0 == [8]));
}

#[test]
fn unsupported_messages_are_told_by_name() {
    let message = NetworkClientMessages::Other("StateResponse".to_string());
    assert_eq!(message.unsupported(), Some("StateResponse"));
    let message = NetworkViewClientMessages::Other("TxStatus".to_string());
    assert_eq!(message.unsupported(), Some("TxStatus"));
    let message = NetworkViewClientMessages::BlockRequest(CryptoHash([3; 32]));
    assert_eq!(message.unsupported(), None);
}
