//! The records and edges the chat works on, each with its mathematical view.

use vstd::prelude::*;

verus! {

/// A content address in the store.
pub type Address = Vec<u8>;

/// A path through the store's address tree, by its components.
pub type PathComponents = Vec<String>;

/// A point in time: microseconds from the UNIX epoch, before or after.
#[derive(Clone, Copy, Debug, PartialEq, Eq, PartialOrd, Ord, Hash, Structural)]
pub struct Timestamp {
    pub micros: i64,
}

/// An append-only, timestamped, tagged link from one address to another.
#[derive(Clone, Debug, PartialEq, Eq)]
pub struct Edge {
    pub source: Address,
    pub target: Address,
    pub tag: Vec<u8>,
    pub timestamp: Timestamp,
}

/// The ways an operation of the chat fails.
#[derive(Clone, Copy, Debug, PartialEq, Eq, Structural)]
pub enum ChatError {
    /// A path could not be turned into an address.
    Address,
    /// A record that was just created could not be read back.
    MissingRecord,
    /// A presence tag does not hold an agent's key.
    MalformedPresenceTag,
    /// A notification did not reach its recipient.
    RemoteDelivery,
}

/// The number of bytes of an agent's key.
pub const AGENT_KEY_LEN: usize = 39;

/// Whether the bytes are an agent's key: 39 bytes that start with the three
/// bytes that mark a key as an agent's.
pub open spec fn is_agent_key(raw: Seq<u8>) -> bool {
    &&& raw.len() == AGENT_KEY_LEN
    &&& raw[0] == 0x84
    &&& raw[1] == 0x20
    &&& raw[2] == 0x24
}

/// The identity of an agent: the raw bytes of its public key.
#[derive(Debug, PartialEq, Eq, Hash)]
pub struct AgentId {
    raw: Vec<u8>,
}

impl View for AgentId {
    type V = Seq<u8>;

    closed spec fn view(&self) -> Seq<u8> {
        self.raw@
    }
}

impl Clone for AgentId {
    fn clone(&self) -> (copy: AgentId)
        ensures
            copy@ == self@,
    {
        self.duplicate()
    }
}

impl AgentId {
    #[verifier::type_invariant]
    spec fn well_formed(self) -> bool {
        is_agent_key(self.raw@)
    }

    /// Takes the bytes as an agent's identity.
    pub(crate) fn from_key_bytes(raw: Vec<u8>) -> (agent: AgentId)
        requires
            is_agent_key(raw@),
        ensures
            agent@ == raw@,
    {
        AgentId { raw }
    }

    /// The 39 bytes of the key.
    pub fn as_bytes(&self) -> (raw: &Vec<u8>)
        ensures
            raw@ == self@,
            is_agent_key(self@),
    {
        proof {
            use_type_invariant(self);
        }
        &self.raw
    }

    /// A copy of this identity.
    pub fn duplicate(&self) -> (copy: AgentId)
        ensures
            copy@ == self@,
    {
        proof {
            use_type_invariant(self);
        }
        let raw: Vec<u8> = self.raw.clone();
        AgentId { raw }
    }

    /// Whether the two identities are the same key.
    pub fn same_as(&self, other: &AgentId) -> (same: bool)
        ensures
            same == (self@ == other@),
    {
        bytes_equal(&self.raw, &other.raw)
    }
}

/// The contents of a sequence of byte strings.
pub open spec fn byte_views(items: Seq<Vec<u8>>) -> Seq<Seq<u8>> {
    items.map_values(|item: Vec<u8>| item@)
}

/// Whether the two byte strings hold the same bytes.
pub fn bytes_equal(left: &Vec<u8>, right: &Vec<u8>) -> (equal: bool)
    ensures
        equal == (left@ == right@),
{
    if left.len() != right.len() {
        return false;
    }
    let mut at: usize = 0;
    while at < left.len()
        invariant
            left.len() == right.len(),
            at <= left.len(),
            forall|k: int| 0 <= k < at ==> left@[k] == right@[k],
        decreases left.len() - at,
    {
        if left[at] != right[at] {
            return false;
        }
        at += 1;
    }
    assert(left@ =~= right@);
    true
}

/// A copy of a byte string.
pub fn copy_bytes(bytes: &Vec<u8>) -> (copy: Vec<u8>)
    ensures
        copy@ == bytes@,
{
    let copy: Vec<u8> = bytes.clone();
    copy
}

/// The immutable identity of a channel.
#[derive(Clone, Debug, PartialEq, Eq)]
pub struct Channel {
    pub category: String,
    pub uuid: String,
}

/// A channel as a pair of character sequences.
pub struct ChannelView {
    pub category: Seq<char>,
    pub uuid: Seq<char>,
}

impl View for Channel {
    type V = ChannelView;

    open spec fn view(&self) -> ChannelView {
        ChannelView { category: self.category@, uuid: self.uuid@ }
    }
}

impl Channel {
    /// A copy of this channel.
    pub fn duplicate(&self) -> (copy: Channel)
        ensures
            copy@ == self@,
    {
        Channel { category: self.category.clone(), uuid: self.uuid.clone() }
    }
}

/// What describes a channel. A channel may have several; the latest counts.
#[derive(Clone, Debug, PartialEq, Eq)]
pub struct ChannelInfo {
    pub name: String,
    pub created_by: AgentId,
    pub created_at: Timestamp,
}

/// A channel's description over mathematical values.
pub struct ChannelInfoView {
    pub name: Seq<char>,
    pub created_by: Seq<u8>,
    pub created_at: Timestamp,
}

impl View for ChannelInfo {
    type V = ChannelInfoView;

    open spec fn view(&self) -> ChannelInfoView {
        ChannelInfoView {
            name: self.name@,
            created_by: self.created_by@,
            created_at: self.created_at,
        }
    }
}

impl ChannelInfo {
    /// A copy of this description.
    pub fn duplicate(&self) -> (copy: ChannelInfo)
        ensures
            copy@ == self@,
    {
        ChannelInfo {
            name: self.name.clone(),
            created_by: self.created_by.duplicate(),
            created_at: self.created_at,
        }
    }
}

/// A channel together with its current description.
#[derive(Clone, Debug, PartialEq, Eq)]
pub struct ChannelData {
    pub entry: Channel,
    pub info: ChannelInfo,
}

/// A channel and its description over mathematical values.
pub struct ChannelDataView {
    pub entry: ChannelView,
    pub info: ChannelInfoView,
}

impl View for ChannelData {
    type V = ChannelDataView;

    open spec fn view(&self) -> ChannelDataView {
        ChannelDataView { entry: self.entry@, info: self.info@ }
    }
}

impl ChannelData {
    /// Joins a channel and its description.
    pub fn new(entry: Channel, info: ChannelInfo) -> (data: ChannelData)
        ensures
            data.entry == entry,
            data.info == info,
    {
        ChannelData { entry, info }
    }
}

/// A message as its author wrote it.
#[derive(Clone, Debug, PartialEq, Eq)]
pub struct Message {
    pub content: String,
}

/// What the chat reads of the header under which a record entered the store.
#[derive(Clone, Debug, PartialEq, Eq)]
pub struct Header {
    pub entry_address: Address,
    pub timestamp: Timestamp,
}

/// A message with its address and the time it entered the store.
#[derive(Clone, Debug, PartialEq, Eq)]
pub struct MessageData {
    pub id: Address,
    pub created_at: Timestamp,
    pub entry: Message,
}

impl MessageData {
    /// The message as the store holds it under the given header.
    pub fn new(header: Header, message: Message) -> (data: MessageData)
        ensures
            data.id == header.entry_address,
            data.created_at == header.timestamp,
            data.entry == message,
    {
        MessageData { id: header.entry_address, created_at: header.timestamp, entry: message }
    }
}

} // verus!
