//! The peer-to-peer protocol: nodes, messages, length-prefixed frames,
//! and what a node does with a message that it receives.

use crate::block::blocks_header_view;
use crate::blockchain::Block;
use crate::blockchain::BlockHeader;
use crate::blockchain::Blockchain;
use crate::blockchain::ChainError;
use crate::blockchain::ChainView;
use crate::blockchain::Sha256Hash;
use crate::block::BlockView;
use crate::block::HeaderView;
use crate::bytes::append_bytes;
use crate::error::ErrorView;
use crate::transaction::Transaction;
use crate::transaction::TransactionView;
use vstd::prelude::*;

verus! {

/// Maximum size of a message in bytes (10 MiB); a frame that announces
/// more is refused before anything of it is buffered.
pub const MAX_MESSAGE_SIZE: usize = 10_485_760;

/// A peer: a host and a port.
#[derive(Debug, PartialEq, Eq, Hash)]
pub struct Node {
    pub host: String,
    pub port: u16,
}

impl Clone for Node {
    fn clone(&self) -> (node: Node)
        ensures
            node == *self,
    {
        Node { host: self.host.clone(), port: self.port }
    }
}

/// The decimal digit for a value below ten.
pub open spec fn digit_text(d: int) -> Seq<char>
    recommends
        0 <= d < 10,
{
    if d == 0 {
        "0"@
    } else if d == 1 {
        "1"@
    } else if d == 2 {
        "2"@
    } else if d == 3 {
        "3"@
    } else if d == 4 {
        "4"@
    } else if d == 5 {
        "5"@
    } else if d == 6 {
        "6"@
    } else if d == 7 {
        "7"@
    } else if d == 8 {
        "8"@
    } else {
        "9"@
    }
}

/// A number in decimal, without leading zeros.
pub open spec fn decimal_text(n: nat) -> Seq<char>
    decreases n,
{
    if n < 10 {
        digit_text(n as int)
    } else {
        decimal_text(n / 10) + digit_text((n % 10) as int)
    }
}

fn digit_str(d: u16) -> (s: &'static str)
    requires
        d < 10,
    ensures
        s@ == digit_text(d as int),
{
    if d == 0 {
        "0"
    } else if d == 1 {
        "1"
    } else if d == 2 {
        "2"
    } else if d == 3 {
        "3"
    } else if d == 4 {
        "4"
    } else if d == 5 {
        "5"
    } else if d == 6 {
        "6"
    } else if d == 7 {
        "7"
    } else if d == 8 {
        "8"
    } else {
        "9"
    }
}

/// A port number in decimal.
pub fn port_text(port: u16) -> (s: String)
    ensures
        s@ == decimal_text(port as nat),
    decreases port,
{
    if port < 10 {
        digit_str(port).to_owned()
    } else {
        port_text(port / 10).concat(digit_str(port % 10))
    }
}

impl Node {
    /// The peer at a host and a port.
    pub fn new(host: String, port: u16) -> (node: Node)
        ensures
            node.host == host,
            node.port == port,
    {
        Node { host, port }
    }

    /// The address of the node: host, a colon, and the port in decimal.
    pub open spec fn spec_addr(&self) -> Seq<char> {
        self.host@ + ":"@ + decimal_text(self.port as nat)
    }

    /// The address of the node: host, a colon, and the port in decimal.
    pub fn addr(&self) -> (addr: String)
        ensures
            addr@ == self.spec_addr(),
    {
        let port = port_text(self.port);
        self.host.clone().concat(":").concat(port.as_str())
    }
}

// ----------------------------------------------------------------------------
// Frames
// ----------------------------------------------------------------------------
/// The four big-endian bytes of a length.
pub open spec fn length_prefix(len: nat) -> Seq<u8> {
    seq![
        ((len / 0x100_0000) % 0x100) as u8,
        ((len / 0x1_0000) % 0x100) as u8,
        ((len / 0x100) % 0x100) as u8,
        (len % 0x100) as u8,
    ]
}

/// The length that four big-endian bytes spell.
pub open spec fn prefix_length(prefix: Seq<u8>) -> nat {
    (prefix[0] as nat) * 0x100_0000 + (prefix[1] as nat) * 0x1_0000 + (prefix[2] as nat) * 0x100
        + (prefix[3] as nat)
}

/// The frame of a message: the length of the payload in four big-endian
/// bytes, then the payload.
pub open spec fn spec_frame(payload: Seq<u8>) -> Seq<u8> {
    length_prefix(payload.len()) + payload
}

/// The prefix of a length that fits into four bytes spells that length.
pub proof fn lemma_prefix_round_trip(len: nat)
    requires
        len <= u32::MAX,
    ensures
        length_prefix(len).len() == 4,
        prefix_length(length_prefix(len)) == len,
{
}

/// Frames a message for the wire. A payload above `MAX_MESSAGE_SIZE` is
/// not framed.
pub fn frame_message(payload: &[u8]) -> (r: Option<Vec<u8>>)
    ensures
        match r {
            Some(frame) => payload@.len() <= MAX_MESSAGE_SIZE && frame@ == spec_frame(payload@),
            None => payload@.len() > MAX_MESSAGE_SIZE,
        },
{
    let len = payload.len();
    if len > MAX_MESSAGE_SIZE {
        return None;
    }
    let mut frame: Vec<u8> = Vec::new();
    frame.push(((len / 0x100_0000) % 0x100) as u8);
    frame.push(((len / 0x1_0000) % 0x100) as u8);
    frame.push(((len / 0x100) % 0x100) as u8);
    frame.push((len % 0x100) as u8);
    assert(frame@ =~= length_prefix(len as nat));
    append_bytes(&mut frame, payload);
    Some(frame)
}

/// The length of the payload that the prefix of a frame announces;
/// a network error where it is above `MAX_MESSAGE_SIZE`.
pub fn frame_length(prefix: &[u8; 4]) -> (r: Result<usize, ChainError>)
    ensures
        match r {
            Ok(len) => len == prefix_length(prefix@) && len <= MAX_MESSAGE_SIZE,
            Err(e) => prefix_length(prefix@) > MAX_MESSAGE_SIZE && e@ == ErrorView::NetworkError(
                "Message too large"@,
            ),
        },
{
    let len: u64 = (prefix[0] as u64) * 0x100_0000 + (prefix[1] as u64) * 0x1_0000 + (
    prefix[2] as u64) * 0x100 + (prefix[3] as u64);
    if len > MAX_MESSAGE_SIZE as u64 {
        return Err(ChainError::NetworkError("Message too large".to_owned()));
    }
    Ok(len as usize)
}

// ----------------------------------------------------------------------------
// Messages
// ----------------------------------------------------------------------------
/// What nodes say to each other.
#[derive(Debug)]
pub enum NetworkMessage {
    GetBlockHeaders { after_height: u64 },
    BlockHeaders(Vec<BlockHeader>),
    GetBlock(Sha256Hash),
    Block(Box<Block>),
    NewBlock(Box<Block>),
    NewTransaction(Box<Transaction>),
    GetPeers,
    Peers(Vec<Node>),
}

/// A peer as plain values.
pub struct NodeView {
    pub host: Seq<char>,
    pub port: u16,
}

impl View for Node {
    type V = NodeView;

    open spec fn view(&self) -> NodeView {
        NodeView { host: self.host@, port: self.port }
    }
}

/// A message as plain values.
pub enum MessageView {
    GetBlockHeaders { after_height: u64 },
    BlockHeaders(Seq<HeaderView>),
    GetBlock(Seq<u8>),
    Block(BlockView),
    NewBlock(BlockView),
    NewTransaction(TransactionView),
    GetPeers,
    Peers(Seq<NodeView>),
}

/// The peers of a vector, as plain values.
pub open spec fn nodes_view(v: Seq<Node>) -> Seq<NodeView> {
    v.map_values(|n: Node| n@)
}

impl View for NetworkMessage {
    type V = MessageView;

    open spec fn view(&self) -> MessageView {
        match self {
            NetworkMessage::GetBlockHeaders { after_height } => MessageView::GetBlockHeaders {
                after_height: *after_height,
            },
            NetworkMessage::BlockHeaders(headers) => MessageView::BlockHeaders(
                blocks_header_view(headers@),
            ),
            NetworkMessage::GetBlock(hash) => MessageView::GetBlock(hash@),
            NetworkMessage::Block(block) => MessageView::Block(block@),
            NetworkMessage::NewBlock(block) => MessageView::NewBlock(block@),
            NetworkMessage::NewTransaction(tx) => MessageView::NewTransaction(tx@),
            NetworkMessage::GetPeers => MessageView::GetPeers,
            NetworkMessage::Peers(peers) => MessageView::Peers(nodes_view(peers@)),
        }
    }
}

/// What a node does with a message.
#[derive(Debug)]
pub enum Reaction {
    /// It answers the sender.
    Reply(NetworkMessage),
    /// It took a new transaction or a new block in.
    Accepted,
    /// It refused a new transaction or a new block.
    Rejected(ChainError),
    /// It lets the message pass.
    Ignored,
}

/// The headers of the blocks above a height, in their order.
pub open spec fn headers_after(blocks: Seq<BlockView>, after_height: u64) -> Seq<HeaderView>
    decreases blocks.len(),
{
    if blocks.len() == 0 {
        Seq::empty()
    } else if blocks.last().header.height > after_height {
        headers_after(blocks.drop_last(), after_height).push(blocks.last().header)
    } else {
        headers_after(blocks.drop_last(), after_height)
    }
}

/// The headers of the blocks of the chain above a height.
pub fn block_headers_after(chain: &Blockchain, after_height: u64) -> (headers: Vec<BlockHeader>)
    ensures
        blocks_header_view(headers@) == headers_after(chain@.blocks, after_height),
{
    let blocks = chain.blocks();
    let ghost all = chain@.blocks;
    let mut headers: Vec<BlockHeader> = Vec::new();
    let mut i: usize = 0;
    proof {
        assert(all.take(0) =~= Seq::<BlockView>::empty());
        assert(blocks_header_view(headers@) =~= Seq::<HeaderView>::empty());
    }
    while i < blocks.len()
        invariant
            i <= blocks.len(),
            all.len() == blocks@.len(),
            forall|j: int| 0 <= j < all.len() ==> (#[trigger] all[j]) == blocks@[j]@,
            blocks_header_view(headers@) == headers_after(all.take(i as int), after_height),
        decreases blocks.len() - i,
    {
        proof {
            assert(all.take(i + 1).drop_last() =~= all.take(i as int));
            assert(all.take(i + 1).last() == all[i as int]);
        }
        if blocks[i].header.height > after_height {
            let ghost before = blocks_header_view(headers@);
            headers.push(blocks[i].header);
            assert(blocks_header_view(headers@) =~= before.push(all[i as int].header));
        }
        i += 1;
    }
    assert(all.take(i as int) =~= all);
    headers
}

/// What a node does with a message from a peer. A request is answered
/// from the chain and the list of peers: headers above a height, the
/// block with a hash if the chain has it, the peers. A new transaction is
/// submitted to the mempool, a new block to the chain, and the outcome
/// reported. Anything else passes.
pub fn handle_message(chain: &mut Blockchain, peers: &Vec<Node>, message: NetworkMessage) -> (r:
    Reaction)
    ensures
        match message {
            NetworkMessage::GetBlockHeaders { after_height } => final(chain)@ == old(chain)@ && (
            r matches Reaction::Reply(NetworkMessage::BlockHeaders(headers))
                && blocks_header_view(headers@) == headers_after(old(chain)@.blocks, after_height)),
            NetworkMessage::GetBlock(hash) => final(chain)@ == old(chain)@ && match r {
                Reaction::Reply(NetworkMessage::Block(block)) => block@.header.hash() == hash@
                    && exists|i: int|
                    0 <= i < old(chain)@.blocks.len() && #[trigger] old(chain)@.blocks[i]
                        == block@,
                Reaction::Ignored => forall|i: int|
                    0 <= i < old(chain)@.blocks.len() ==> (#[trigger] old(
                        chain,
                    )@.blocks[i]).header.hash() != hash@,
                _ => false,
            },
            NetworkMessage::GetPeers => final(chain)@ == old(chain)@ && (
            r matches Reaction::Reply(NetworkMessage::Peers(list)) && list@ == peers@),
            NetworkMessage::NewBlock(block) => match old(chain)@.apply_block(block@) {
                Ok(next) => r is Accepted && final(chain)@ == next,
                Err(error) => r matches Reaction::Rejected(e) && e@ == error && final(chain)@
                    == old(chain)@,
            },
            NetworkMessage::NewTransaction(tx) => match old(chain)@.mempool.add_fault(tx@) {
                None => r is Accepted && final(chain)@.mempool.entries.len() > 0 && final(chain)@
                    == (ChainView {
                    mempool: old(chain)@.mempool.admitted(
                        tx@,
                        final(chain)@.mempool.entries.last().timestamp,
                    ),
                    ..old(chain)@
                }),
                Some(error) => r matches Reaction::Rejected(e) && e@ == error && final(chain)@
                    == old(chain)@,
            },
            _ => r is Ignored && final(chain)@ == old(chain)@,
        },
{
    match message {
        NetworkMessage::GetBlockHeaders { after_height } => Reaction::Reply(
            NetworkMessage::BlockHeaders(block_headers_after(chain, after_height)),
        ),
        NetworkMessage::GetBlock(hash) => match chain.block_by_hash(&hash) {
            Some(block) => Reaction::Reply(NetworkMessage::Block(Box::new(block.clone()))),
            None => Reaction::Ignored,
        },
        NetworkMessage::GetPeers => {
            let mut list: Vec<Node> = Vec::new();
            let mut i: usize = 0;
            while i < peers.len()
                invariant
                    i <= peers.len(),
                    list@ == peers@.subrange(0, i as int),
                decreases peers.len() - i,
            {
                list.push(peers[i].clone());
                assert(list@ =~= peers@.subrange(0, i + 1));
                i += 1;
            }
            assert(list@ =~= peers@);
            Reaction::Reply(NetworkMessage::Peers(list))
        },
        NetworkMessage::NewBlock(block) => match chain.apply_block(*block) {
            Ok(()) => Reaction::Accepted,
            Err(e) => Reaction::Rejected(e),
        },
        NetworkMessage::NewTransaction(tx) => match chain.submit_transaction(*tx) {
            Ok(()) => Reaction::Accepted,
            Err(e) => Reaction::Rejected(e),
        },
        _ => Reaction::Ignored,
    }
}

} // verus!
