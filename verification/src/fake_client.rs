//! A client for tests of the network: it writes down what it is sent.

use vstd::prelude::*;

use crate::borsh_format::KeyBytes;
use crate::bytes::copy_bytes;
use crate::types::{AccountId, CryptoHash, PublicKey};

verus! {

/// A block, in its Borsh encoding.
#[derive(Clone, Debug, PartialEq, Eq)]
pub struct Block(pub Vec<u8>);

/// The header of a block, in its Borsh encoding.
#[derive(Clone, Debug, PartialEq, Eq)]
pub struct BlockHeader(pub Vec<u8>);

/// The approval of a block, in its Borsh encoding.
#[derive(Clone, Debug, PartialEq, Eq)]
pub struct Approval(pub Vec<u8>);

/// A part of an encoded chunk, in its Borsh encoding.
#[derive(Clone, Debug, PartialEq, Eq)]
pub struct PartialEncodedChunkPart(pub Vec<u8>);

/// A signed transaction, in its Borsh encoding.
#[derive(Clone, Debug, PartialEq, Eq)]
pub struct SignedTransaction(pub Vec<u8>);

/// A challenge, in its Borsh encoding.
#[derive(Clone, Debug, PartialEq, Eq)]
pub struct Challenge(pub Vec<u8>);

/// The signature of an announcement, in its Borsh encoding.
#[derive(Clone, Debug, PartialEq, Eq)]
pub struct Signature(pub Vec<u8>);

/// What a node knows of the network.
#[derive(Clone, Copy, Debug, PartialEq, Eq)]
pub struct NetworkInfo {
    pub num_connected_peers: usize,
    pub peer_max_count: u32,
}

/// Who a peer is.
#[derive(Clone, Copy, Debug, PartialEq, Eq)]
pub struct PeerId(pub PublicKey);

/// Which epoch it is.
#[derive(Clone, Copy, Debug, PartialEq, Eq)]
pub struct EpochId(pub CryptoHash);

/// The hash of a chunk.
#[derive(Clone, Copy, Debug, PartialEq, Eq)]
pub struct ChunkHash(pub CryptoHash);

/// The announcement that an account is reached through a peer.
#[derive(Debug, PartialEq, Eq)]
pub struct AnnounceAccount {
    pub account_id: AccountId,
    pub peer_id: PeerId,
    pub epoch_id: EpochId,
    pub signature: Signature,
}

/// The content of an [`AnnounceAccount`].
pub struct AnnounceAccountView {
    pub account_id: Seq<u8>,
    pub peer_id: KeyBytes,
    pub epoch_id: Seq<u8>,
    pub signature: Seq<u8>,
}

impl View for AnnounceAccount {
    type V = AnnounceAccountView;

    open spec fn view(&self) -> AnnounceAccountView {
        AnnounceAccountView {
            account_id: self.account_id@,
            peer_id: self.peer_id.0@,
            epoch_id: self.epoch_id.0@,
            signature: self.signature.0@,
        }
    }
}

impl Clone for AnnounceAccount {
    fn clone(&self) -> (r: Self)
        ensures
            r@ == self@,
    {
        AnnounceAccount {
            account_id: self.account_id.clone(),
            peer_id: self.peer_id,
            epoch_id: self.epoch_id,
            signature: Signature(copy_bytes(self.signature.0.as_slice())),
        }
    }
}

/// An announcement, and the epoch of the last one that the sender knew.
pub open spec fn announced(a: (AnnounceAccount, Option<EpochId>)) -> (
    AnnounceAccountView,
    Option<Seq<u8>>,
) {
    (
        a.0@,
        match a.1 {
            Some(epoch) => Some(epoch.0@),
            None => None,
        },
    )
}

/// What the client was sent.
#[derive(Clone, Debug, PartialEq, Eq)]
pub enum Event {
    BlockRequest(CryptoHash),
    Block(Block),
    BlockHeadersRequest(Vec<CryptoHash>),
    BlockHeaders(Vec<BlockHeader>),
    BlockApproval(Approval, PeerId),
    Chunk(Vec<PartialEncodedChunkPart>),
    ChunkRequest(ChunkHash),
    Transaction(SignedTransaction),
    Challenge(Challenge),
    AnnounceAccount(Vec<(AnnounceAccount, Option<EpochId>)>),
}

/// The content of an [`Event`].
pub enum EventView {
    BlockRequest(Seq<u8>),
    Block(Seq<u8>),
    BlockHeadersRequest(Seq<Seq<u8>>),
    BlockHeaders(Seq<Seq<u8>>),
    BlockApproval(Seq<u8>, KeyBytes),
    Chunk(Seq<Seq<u8>>),
    ChunkRequest(Seq<u8>),
    Transaction(Seq<u8>),
    Challenge(Seq<u8>),
    AnnounceAccount(Seq<(AnnounceAccountView, Option<Seq<u8>>)>),
}

impl View for Event {
    type V = EventView;

    open spec fn view(&self) -> EventView {
        match self {
            Event::BlockRequest(hash) => EventView::BlockRequest(hash@),
            Event::Block(block) => EventView::Block(block.0@),
            Event::BlockHeadersRequest(hashes) => EventView::BlockHeadersRequest(
                hashes@.map_values(|h: CryptoHash| h@),
            ),
            Event::BlockHeaders(headers) => EventView::BlockHeaders(
                headers@.map_values(|h: BlockHeader| h.0@),
            ),
            Event::BlockApproval(approval, peer_id) => EventView::BlockApproval(
                approval.0@,
                peer_id.0@,
            ),
            Event::Chunk(parts) => EventView::Chunk(
                parts@.map_values(|p: PartialEncodedChunkPart| p.0@),
            ),
            Event::ChunkRequest(hash) => EventView::ChunkRequest(hash.0@),
            Event::Transaction(transaction) => EventView::Transaction(transaction.0@),
            Event::Challenge(challenge) => EventView::Challenge(challenge.0@),
            Event::AnnounceAccount(accounts) => EventView::AnnounceAccount(
                accounts@.map_values(|a: (AnnounceAccount, Option<EpochId>)| announced(a)),
            ),
        }
    }
}

/// A message to the part of a client that answers questions.
#[derive(Debug, PartialEq, Eq)]
pub enum NetworkViewClientMessages {
    /// A block is asked for, by its hash.
    BlockRequest(CryptoHash),
    /// Headers are asked for that follow one of these blocks.
    BlockHeadersRequest(Vec<CryptoHash>),
    /// Accounts are announced.
    AnnounceAccount(Vec<(AnnounceAccount, Option<EpochId>)>),
    /// Another message, by its name.
    Other(String),
}

/// The answer to a [`NetworkViewClientMessages`].
#[derive(Debug, PartialEq, Eq)]
pub enum NetworkViewClientResponses {
    NoResponse,
    /// The announcements to pass on.
    AnnounceAccount(Vec<AnnounceAccount>),
}

/// The content of a [`NetworkViewClientResponses`].
pub enum NetworkViewClientResponsesView {
    NoResponse,
    AnnounceAccount(Seq<AnnounceAccountView>),
}

impl View for NetworkViewClientResponses {
    type V = NetworkViewClientResponsesView;

    open spec fn view(&self) -> NetworkViewClientResponsesView {
        match self {
            NetworkViewClientResponses::NoResponse => NetworkViewClientResponsesView::NoResponse,
            NetworkViewClientResponses::AnnounceAccount(accounts) => {
                NetworkViewClientResponsesView::AnnounceAccount(
                    accounts@.map_values(|a: AnnounceAccount| a@),
                )
            },
        }
    }
}

/// The answer to a request for parts of a chunk.
#[derive(Debug, PartialEq, Eq)]
pub struct PartialEncodedChunkResponseMsg {
    pub chunk_hash: ChunkHash,
    pub parts: Vec<PartialEncodedChunkPart>,
}

/// A request for parts of a chunk.
#[derive(Debug, PartialEq, Eq)]
pub struct PartialEncodedChunkRequestMsg {
    pub chunk_hash: ChunkHash,
    pub part_ords: Vec<u64>,
}

/// A message to the part of a client that changes the chain.
#[derive(Debug, PartialEq, Eq)]
pub enum NetworkClientMessages {
    /// A block, who sent it, and whether it was asked for.
    Block(Block, PeerId, bool),
    /// The approval of a block, and who sent it.
    BlockApproval(Approval, PeerId),
    /// Headers of blocks, and who sent them.
    BlockHeaders(Vec<BlockHeader>, PeerId),
    /// Parts of a chunk, and when they came.
    PartialEncodedChunkResponse(PartialEncodedChunkResponseMsg, u64),
    /// Parts of a chunk are asked for. The hash tells where the answer goes.
    PartialEncodedChunkRequest(PartialEncodedChunkRequestMsg, CryptoHash),
    /// A transaction.
    Transaction { transaction: SignedTransaction, is_forwarded: bool, check_only: bool },
    /// A challenge.
    Challenge(Challenge),
    /// News of the network.
    NetworkInfo(NetworkInfo),
    /// Another message, by its name.
    Other(String),
}

/// The answer to a [`NetworkClientMessages`].
#[derive(Clone, Copy, Debug, PartialEq, Eq, Structural)]
pub enum NetworkClientResponses {
    NoResponse,
    /// The transaction is valid.
    ValidTx,
}

impl NetworkViewClientMessages {
    /// What the client writes down of a message.
    pub open spec fn event(self) -> Option<EventView> {
        match self {
            NetworkViewClientMessages::BlockRequest(hash) => Some(EventView::BlockRequest(hash@)),
            NetworkViewClientMessages::BlockHeadersRequest(hashes) => Some(
                EventView::BlockHeadersRequest(hashes@.map_values(|h: CryptoHash| h@)),
            ),
            NetworkViewClientMessages::AnnounceAccount(accounts) => Some(
                EventView::AnnounceAccount(
                    accounts@.map_values(|a: (AnnounceAccount, Option<EpochId>)| announced(a)),
                ),
            ),
            NetworkViewClientMessages::Other(_) => None,
        }
    }

    /// What the client answers: announcements are passed on, the rest gets no
    /// answer.
    pub open spec fn answer(self) -> NetworkViewClientResponsesView {
        match self {
            NetworkViewClientMessages::AnnounceAccount(accounts) => {
                NetworkViewClientResponsesView::AnnounceAccount(
                    accounts@.map_values(|a: (AnnounceAccount, Option<EpochId>)| a.0@),
                )
            },
            _ => NetworkViewClientResponsesView::NoResponse,
        }
    }

    /// The name of a message that the client does not support.
    pub fn unsupported(&self) -> (r: Option<&str>)
        ensures
            match self {
                NetworkViewClientMessages::Other(name) => r matches Some(n) && n@ == name@,
                _ => r is None,
            },
    {
        match self {
            NetworkViewClientMessages::Other(name) => Some(name.as_str()),
            _ => None,
        }
    }
}

impl NetworkClientMessages {
    /// What the client writes down of a message.
    pub open spec fn event(self) -> Option<EventView> {
        match self {
            NetworkClientMessages::Block(block, _, _) => Some(EventView::Block(block.0@)),
            NetworkClientMessages::BlockApproval(approval, peer_id) => Some(
                EventView::BlockApproval(approval.0@, peer_id.0@),
            ),
            NetworkClientMessages::BlockHeaders(headers, _) => Some(
                EventView::BlockHeaders(headers@.map_values(|h: BlockHeader| h.0@)),
            ),
            NetworkClientMessages::PartialEncodedChunkResponse(response, _) => Some(
                EventView::Chunk(
                    response.parts@.map_values(|p: PartialEncodedChunkPart| p.0@),
                ),
            ),
            NetworkClientMessages::PartialEncodedChunkRequest(request, _) => Some(
                EventView::ChunkRequest(request.chunk_hash.0@),
            ),
            NetworkClientMessages::Transaction { transaction, .. } => Some(
                EventView::Transaction(transaction.0@),
            ),
            NetworkClientMessages::Challenge(challenge) => Some(
                EventView::Challenge(challenge.0@),
            ),
            NetworkClientMessages::NetworkInfo(_) => None,
            NetworkClientMessages::Other(_) => None,
        }
    }

    /// What the client answers: every transaction is valid, the rest gets no
    /// answer.
    pub open spec fn answer(self) -> NetworkClientResponses {
        if self is Transaction {
            NetworkClientResponses::ValidTx
        } else {
            NetworkClientResponses::NoResponse
        }
    }

    /// The name of a message that the client does not support.
    pub fn unsupported(&self) -> (r: Option<&str>)
        ensures
            match self {
                NetworkClientMessages::Other(name) => r matches Some(n) && n@ == name@,
                _ => r is None,
            },
    {
        match self {
            NetworkClientMessages::Other(name) => Some(name.as_str()),
            _ => None,
        }
    }
}

/// Handles messages of one type.
pub trait Handler<M>: Sized {
    type Response;

    /// The message can be handled.
    spec fn supports(msg: M) -> bool;

    fn handle(&mut self, msg: M) -> (r: Self::Response)
        requires
            Self::supports(msg),
    ;
}

/// The client.
pub struct Actor {
    event_sink: Vec<Event>,
}

impl View for Actor {
    type V = Seq<EventView>;

    closed spec fn view(&self) -> Seq<EventView> {
        self.event_sink@.map_values(|e: Event| e@)
    }
}

/// The events with those of one more message.
pub open spec fn with_event(events: Seq<EventView>, event: Option<EventView>) -> Seq<EventView> {
    match event {
        Some(e) => events.push(e),
        None => events,
    }
}

impl Actor {
    /// A client that has been sent nothing.
    pub fn new() -> (a: Actor)
        ensures
            a@ == Seq::<EventView>::empty(),
    {
        let a = Actor { event_sink: Vec::new() };
        proof {
            assert(a@ =~= Seq::<EventView>::empty());
        }
        a
    }

    fn push(&mut self, event: Event)
        ensures
            final(self)@ == old(self)@.push(event@),
    {
        self.event_sink.push(event);
        proof {
            assert(self@ =~= old(self)@.push(event@));
        }
    }

    /// Hands out what was written down, in the order in which it came, and
    /// starts afresh.
    pub fn take_events(&mut self) -> (events: Vec<Event>)
        ensures
            events@.map_values(|e: Event| e@) == old(self)@,
            final(self)@ == Seq::<EventView>::empty(),
    {
        let mut events: Vec<Event> = Vec::new();
        events.append(&mut self.event_sink);
        proof {
            assert(events@.map_values(|e: Event| e@) =~= old(self)@);
            assert(self@ =~= Seq::<EventView>::empty());
        }
        events
    }
}

/// A copy of some announcements.
fn copy_announcements(accounts: &Vec<(AnnounceAccount, Option<EpochId>)>) -> (r: Vec<
    (AnnounceAccount, Option<EpochId>),
>)
    ensures
        r@.map_values(|a: (AnnounceAccount, Option<EpochId>)| announced(a)) == accounts@.map_values(
            |a: (AnnounceAccount, Option<EpochId>)| announced(a),
        ),
{
    let mut r: Vec<(AnnounceAccount, Option<EpochId>)> = Vec::new();
    let mut i: usize = 0;
    while i < accounts.len()
        invariant
            i <= accounts@.len(),
            r@.len() == i,
            forall|n: int| 0 <= n < i ==> announced(#[trigger] r@[n]) == announced(accounts@[n]),
        decreases accounts@.len() - i,
    {
        r.push((accounts[i].0.clone(), accounts[i].1));
        i = i + 1;
    }
    proof {
        assert(r@.map_values(|a: (AnnounceAccount, Option<EpochId>)| announced(a))
            =~= accounts@.map_values(|a: (AnnounceAccount, Option<EpochId>)| announced(a)));
    }
    r
}

/// The announcements alone.
fn first_parts(accounts: Vec<(AnnounceAccount, Option<EpochId>)>) -> (r: Vec<AnnounceAccount>)
    ensures
        r@.map_values(|a: AnnounceAccount| a@) == accounts@.map_values(
            |a: (AnnounceAccount, Option<EpochId>)| a.0@,
        ),
{
    let mut r: Vec<AnnounceAccount> = Vec::new();
    let mut i: usize = 0;
    while i < accounts.len()
        invariant
            i <= accounts@.len(),
            r@.len() == i,
            forall|n: int| 0 <= n < i ==> (#[trigger] r@[n])@ == accounts@[n].0@,
        decreases accounts@.len() - i,
    {
        r.push(accounts[i].0.clone());
        i = i + 1;
    }
    proof {
        assert(r@.map_values(|a: AnnounceAccount| a@) =~= accounts@.map_values(
            |a: (AnnounceAccount, Option<EpochId>)| a.0@,
        ));
    }
    r
}

impl Handler<NetworkViewClientMessages> for Actor {
    type Response = NetworkViewClientResponses;

    open spec fn supports(msg: NetworkViewClientMessages) -> bool {
        msg !is Other
    }

    fn handle(&mut self, msg: NetworkViewClientMessages) -> (r: NetworkViewClientResponses)
        ensures
            final(self)@ == with_event(old(self)@, msg.event()),
            r@ == msg.answer(),
            msg matches NetworkViewClientMessages::BlockRequest(hash) ==> final(self)@
                == old(self)@.push(EventView::BlockRequest(hash.0@)) && r is NoResponse,
            msg matches NetworkViewClientMessages::BlockHeadersRequest(hashes) ==> final(self)@
                == old(self)@.push(
                EventView::BlockHeadersRequest(hashes@.map_values(|h: CryptoHash| h.0@)),
            ) && r is NoResponse,
            msg matches NetworkViewClientMessages::AnnounceAccount(accounts) ==> {
                &&& final(self)@ == old(self)@.push(
                    EventView::AnnounceAccount(
                        accounts@.map_values(
                            |a: (AnnounceAccount, Option<EpochId>)|
                                (
                                    a.0@,
                                    match a.1 {
                                        Some(epoch) => Some(epoch.0.0@),
                                        None => None,
                                    },
                                ),
                        ),
                    ),
                )
                &&& r matches NetworkViewClientResponses::AnnounceAccount(passed)
                &&& passed@.map_values(|a: AnnounceAccount| a@) == accounts@.map_values(
                    |a: (AnnounceAccount, Option<EpochId>)| a.0@,
                )
            },
    {
        match msg {
            NetworkViewClientMessages::BlockRequest(block_hash) => {
                self.push(Event::BlockRequest(block_hash));
                NetworkViewClientResponses::NoResponse
            },
            NetworkViewClientMessages::BlockHeadersRequest(req) => {
                proof {
                    assert(req@.map_values(|h: CryptoHash| h@) =~= req@.map_values(
                        |h: CryptoHash| h.0@,
                    ));
                }
                self.push(Event::BlockHeadersRequest(req));
                NetworkViewClientResponses::NoResponse
            },
            NetworkViewClientMessages::AnnounceAccount(accounts) => {
                proof {
                    assert(accounts@.map_values(
                        |a: (AnnounceAccount, Option<EpochId>)| announced(a),
                    ) =~= accounts@.map_values(
                        |a: (AnnounceAccount, Option<EpochId>)|
                            (
                                a.0@,
                                match a.1 {
                                    Some(epoch) => Some(epoch.0.0@),
                                    None => None,
                                },
                            ),
                    ));
                }
                self.push(Event::AnnounceAccount(copy_announcements(&accounts)));
                NetworkViewClientResponses::AnnounceAccount(first_parts(accounts))
            },
            NetworkViewClientMessages::Other(_) => NetworkViewClientResponses::NoResponse,
        }
    }
}

impl Handler<NetworkClientMessages> for Actor {
    type Response = NetworkClientResponses;

    open spec fn supports(msg: NetworkClientMessages) -> bool {
        msg !is Other
    }

    fn handle(&mut self, msg: NetworkClientMessages) -> (r: NetworkClientResponses)
        ensures
            final(self)@ == with_event(old(self)@, msg.event()),
            r == msg.answer(),
            msg matches NetworkClientMessages::Block(block, _, _) ==> final(self)@
                == old(self)@.push(EventView::Block(block.0@)),
            msg matches NetworkClientMessages::BlockApproval(approval, peer_id) ==> final(self)@
                == old(self)@.push(EventView::BlockApproval(approval.0@, peer_id.0@)),
            msg matches NetworkClientMessages::BlockHeaders(headers, _) ==> final(self)@
                == old(self)@.push(
                EventView::BlockHeaders(headers@.map_values(|h: BlockHeader| h.0@)),
            ),
            msg matches NetworkClientMessages::PartialEncodedChunkResponse(response, _) ==> final(
                self)@ == old(self)@.push(
                EventView::Chunk(
                    response.parts@.map_values(|p: PartialEncodedChunkPart| p.0@),
                ),
            ),
            msg matches NetworkClientMessages::PartialEncodedChunkRequest(request, _) ==> final(
                self)@ == old(self)@.push(EventView::ChunkRequest(request.chunk_hash.0@)),
            msg matches NetworkClientMessages::Transaction { transaction, .. } ==> final(self)@
                == old(self)@.push(EventView::Transaction(transaction.0@)) && r
                == NetworkClientResponses::ValidTx,
            msg matches NetworkClientMessages::Challenge(challenge) ==> final(self)@
                == old(self)@.push(EventView::Challenge(challenge.0@)),
            msg is NetworkInfo ==> final(self)@ == old(self)@,
            !(msg is Transaction) ==> r == NetworkClientResponses::NoResponse,
    {
        let mut resp = NetworkClientResponses::NoResponse;
        match msg {
            NetworkClientMessages::Block(block, _, _) => self.push(Event::Block(block)),
            NetworkClientMessages::BlockApproval(approval, peer_id) => {
                self.push(Event::BlockApproval(approval, peer_id))
            },
            NetworkClientMessages::BlockHeaders(headers, _) => {
                self.push(Event::BlockHeaders(headers))
            },
            NetworkClientMessages::PartialEncodedChunkResponse(response, _) => {
                self.push(Event::Chunk(response.parts))
            },
            NetworkClientMessages::PartialEncodedChunkRequest(request, _) => {
                self.push(Event::ChunkRequest(request.chunk_hash))
            },
            NetworkClientMessages::Transaction { transaction, .. } => {
                self.push(Event::Transaction(transaction));
                resp = NetworkClientResponses::ValidTx;
            },
            NetworkClientMessages::Challenge(challenge) => self.push(Event::Challenge(challenge)),
            NetworkClientMessages::NetworkInfo(_) => {},
            NetworkClientMessages::Other(_) => {},
        }
        resp
    }
}

/// Every message to the part that answers questions is supported, but for those
/// of other kinds. Each is written down as one event that carries its content.
/// Only announcements are answered: they are passed on, all of them and in
/// their order.
pub proof fn law_questions(
    events: Seq<EventView>,
    hash: CryptoHash,
    hashes: Vec<CryptoHash>,
    accounts: Vec<(AnnounceAccount, Option<EpochId>)>,
    msg: NetworkViewClientMessages,
    i: int,
)
    ensures
        <Actor as Handler<NetworkViewClientMessages>>::supports(msg) <==> !(msg is Other),
        with_event(events, NetworkViewClientMessages::BlockRequest(hash).event()) == events.push(
            EventView::BlockRequest(hash.0@),
        ),
        with_event(events, NetworkViewClientMessages::BlockHeadersRequest(hashes).event())
            == events.push(
            EventView::BlockHeadersRequest(hashes@.map_values(|h: CryptoHash| h.0@)),
        ),
        with_event(events, NetworkViewClientMessages::AnnounceAccount(accounts).event()).len()
            == events.len() + 1,
        with_event(events, NetworkViewClientMessages::AnnounceAccount(accounts).event())[
        events.len() as int] matches EventView::AnnounceAccount(written) && written.len()
            == accounts@.len() && (0 <= i < accounts@.len() ==> written[i].0 == accounts@[i].0@ && (
        match accounts@[i].1 {
            Some(epoch) => written[i].1 == Some(epoch.0.0@),
            None => written[i].1 is None,
        })),
        NetworkViewClientMessages::BlockRequest(hash).answer()
            == NetworkViewClientResponsesView::NoResponse,
        NetworkViewClientMessages::BlockHeadersRequest(hashes).answer()
            == NetworkViewClientResponsesView::NoResponse,
        NetworkViewClientMessages::AnnounceAccount(accounts).answer()
            matches NetworkViewClientResponsesView::AnnounceAccount(passed) && passed.len()
            == accounts@.len() && (0 <= i < accounts@.len() ==> passed[i] == accounts@[i].0@),
{
    assert(hashes@.map_values(|h: CryptoHash| h@) =~= hashes@.map_values(|h: CryptoHash| h.0@));
}

/// Every message to the part that changes the chain is supported, but for those
/// of other kinds. News of the network leaves no trace; each other message is
/// written down as one event that carries its content, whatever came with it.
/// Every transaction is answered as valid, and nothing else is answered.
pub proof fn law_news(
    events: Seq<EventView>,
    block: Block,
    approval: Approval,
    headers: Vec<BlockHeader>,
    response: PartialEncodedChunkResponseMsg,
    request: PartialEncodedChunkRequestMsg,
    transaction: SignedTransaction,
    challenge: Challenge,
    info: NetworkInfo,
    peer_id: PeerId,
    hash: CryptoHash,
    at: u64,
    flag: bool,
    other_flag: bool,
    msg: NetworkClientMessages,
)
    ensures
        <Actor as Handler<NetworkClientMessages>>::supports(msg) <==> !(msg is Other),
        with_event(events, NetworkClientMessages::Block(block, peer_id, flag).event())
            == events.push(EventView::Block(block.0@)),
        with_event(events, NetworkClientMessages::BlockApproval(approval, peer_id).event())
            == events.push(EventView::BlockApproval(approval.0@, peer_id.0@)),
        with_event(events, NetworkClientMessages::BlockHeaders(headers, peer_id).event())
            == events.push(EventView::BlockHeaders(headers@.map_values(|h: BlockHeader| h.0@))),
        with_event(
            events,
            NetworkClientMessages::PartialEncodedChunkResponse(response, at).event(),
        ) == events.push(
            EventView::Chunk(response.parts@.map_values(|p: PartialEncodedChunkPart| p.0@)),
        ),
        with_event(
            events,
            NetworkClientMessages::PartialEncodedChunkRequest(request, hash).event(),
        ) == events.push(EventView::ChunkRequest(request.chunk_hash.0@)),
        with_event(
            events,
            (NetworkClientMessages::Transaction {
                transaction,
                is_forwarded: flag,
                check_only: other_flag,
            }).event(),
        ) == events.push(EventView::Transaction(transaction.0@)),
        with_event(events, NetworkClientMessages::Challenge(challenge).event()) == events.push(
            EventView::Challenge(challenge.0@),
        ),
        with_event(events, NetworkClientMessages::NetworkInfo(info).event()) == events,
        msg is Transaction ==> msg.answer() == NetworkClientResponses::ValidTx,
        !(msg is Transaction) ==> msg.answer() == NetworkClientResponses::NoResponse,
{
}

/// What the contracts say of an event is all that the event holds.
pub proof fn law_events_are_told_in_full(
    e: Event,
    a: AnnounceAccount,
    responses: Vec<AnnounceAccount>,
    i: int,
)
    ensures
        a@.account_id == a.account_id@,
        a@.peer_id == a.peer_id.0@,
        a@.epoch_id == a.epoch_id.0.0@,
        a@.signature == a.signature.0@,
        match e {
            Event::BlockRequest(hash) => e@ == EventView::BlockRequest(hash.0@),
            Event::Block(block) => e@ == EventView::Block(block.0@),
            Event::BlockHeadersRequest(hashes) => e@ matches EventView::BlockHeadersRequest(s)
                && s.len() == hashes@.len() && (0 <= i < s.len() ==> s[i] == hashes@[i].0@),
            Event::BlockHeaders(headers) => e@ matches EventView::BlockHeaders(s) && s.len()
                == headers@.len() && (0 <= i < s.len() ==> s[i] == headers@[i].0@),
            Event::BlockApproval(approval, peer_id) => e@ == EventView::BlockApproval(
                approval.0@,
                peer_id.0@,
            ),
            Event::Chunk(parts) => e@ matches EventView::Chunk(s) && s.len() == parts@.len() && (0
                <= i < s.len() ==> s[i] == parts@[i].0@),
            Event::ChunkRequest(hash) => e@ == EventView::ChunkRequest(hash.0.0@),
            Event::Transaction(transaction) => e@ == EventView::Transaction(transaction.0@),
            Event::Challenge(challenge) => e@ == EventView::Challenge(challenge.0@),
            Event::AnnounceAccount(accounts) => e@ matches EventView::AnnounceAccount(s) && s.len()
                == accounts@.len() && (0 <= i < s.len() ==> s[i].0 == accounts@[i].0@ && (
            match accounts@[i].1 {
                Some(epoch) => s[i].1 == Some(epoch.0.0@),
                None => s[i].1 is None,
            })),
        },
        NetworkViewClientResponses::NoResponse@ == NetworkViewClientResponsesView::NoResponse,
        NetworkViewClientResponses::AnnounceAccount(responses)@
            matches NetworkViewClientResponsesView::AnnounceAccount(s) && s.len()
            == responses@.len() && (0 <= i < s.len() ==> s[i] == responses@[i]@),
{
}

} // verus!
