//! The chunked message store: a message is filed under the time bucket it
//! was written in, and a listing reads a range of buckets and pages it.

use crate::order::{in_time_order, reversed, sort_by_timestamp, sorted_by_time};
use crate::paginate::{page, paginate};
use crate::path::{address_of, bucket_components, bucket_path, path_entry_hash};
use crate::types::{
    copy_bytes, Address, Channel, ChatError, Edge, Header, Message, MessageData, PathComponents,
    Timestamp,
};
use vstd::bytes::{lemma_auto_spec_u64_to_from_le_bytes, spec_u64_to_le_bytes, u64_to_le_bytes};
use vstd::prelude::*;

verus! {

/// What a new message follows: an earlier message, or nothing yet.
#[derive(Clone, Debug, PartialEq, Eq)]
pub enum LastSeen {
    Message(Address),
    First,
}

/// What a caller hands in to create a message.
#[derive(Clone, Debug, PartialEq, Eq)]
pub struct MessageInput {
    pub last_seen: LastSeen,
    pub channel: Channel,
    pub message: Message,
    pub chunk: u32,
}

/// A range of time buckets, both ends included.
#[derive(Clone, Copy, Debug, PartialEq, Eq, Structural)]
pub struct Chunk {
    pub start: u32,
    pub end: u32,
}

/// What a caller hands in to list messages: the buckets to read, the time
/// before which messages are wanted, and how many of them.
#[derive(Clone, Debug, PartialEq, Eq)]
pub struct ListMessagesInput {
    pub channel: Channel,
    pub chunk: Chunk,
    pub earliest_seen: Timestamp,
    pub target_message_count: usize,
}

/// The messages of a listing, oldest first.
#[derive(Clone, Debug, PartialEq, Eq)]
pub struct ListMessages {
    pub messages: Vec<MessageData>,
}

/// What the store holds for a message: the message and the headers under
/// which it was entered.
#[derive(Clone, Debug, PartialEq, Eq)]
pub struct MessageDetails {
    pub entry: Message,
    pub headers: Vec<Header>,
}

/// The edge to add for a new message, and the message as its author sees it.
#[derive(Clone, Debug, PartialEq, Eq)]
pub struct NewMessage {
    pub link: Edge,
    pub data: MessageData,
}

/// What a message edge is tagged with: the address the message follows, and
/// the time the message was created.
#[derive(Clone, Debug, PartialEq, Eq)]
pub struct LastSeenKey {
    pub parent_hash: Address,
    pub timestamp: Timestamp,
}

/// An instant as an unsigned number that grows with it.
pub open spec fn time_key(micros: i64) -> u64 {
    (micros + 0x8000_0000_0000_0000) as u64
}

/// The bytes of a tag: the address, then the eight bytes of the instant.
pub open spec fn last_seen_tag(parent_hash: Seq<u8>, timestamp: Timestamp) -> Seq<u8> {
    parent_hash + spec_u64_to_le_bytes(time_key(timestamp.micros))
}

/// The address that a new message follows: the one it names, or the
/// bucket's own where it is the first.
pub open spec fn parent_of(last_seen: LastSeen, bucket_address: Seq<u8>) -> Seq<u8> {
    match last_seen {
        LastSeen::Message(address) => address@,
        LastSeen::First => bucket_address,
    }
}

/// The keys of the buckets of a range, in rising order. A range whose end
/// lies before its start holds none.
pub open spec fn chunk_keys(chunk: Chunk) -> Seq<u32> {
    if chunk.start <= chunk.end {
        Seq::new((chunk.end - chunk.start + 1) as nat, |k: int| (chunk.start + k) as u32)
    } else {
        Seq::empty()
    }
}

/// The edges of a sequence of buckets.
pub open spec fn bucket_views(buckets: Seq<Vec<Edge>>) -> Seq<Seq<Edge>> {
    buckets.map_values(|bucket: Vec<Edge>| bucket@)
}

/// The edges of a range of buckets: those of bucket after bucket, then
/// sorted by time, so that edges of one timestamp keep that order.
pub open spec fn range_edges(buckets: Seq<Seq<Edge>>) -> Seq<Edge> {
    sorted_by_time(buckets.flatten())
}

/// What a listing shows for one edge: the message under its latest header,
/// or nothing where the store has no record or no header for it.
pub open spec fn shown_message(details: Option<MessageDetails>) -> Option<MessageData> {
    match details {
        Some(found) => if found.headers@.len() > 0 {
            Some(
                MessageData {
                    id: found.headers@.last().entry_address,
                    created_at: found.headers@.last().timestamp,
                    entry: found.entry,
                },
            )
        } else {
            None
        },
        None => None,
    }
}

/// The messages of a listing: what each edge shows, in the order of the
/// edges, without those that show nothing.
pub open spec fn shown_messages(details: Seq<Option<MessageDetails>>) -> Seq<MessageData>
    decreases details.len(),
{
    if details.len() == 0 {
        Seq::empty()
    } else {
        let before = shown_messages(details.drop_last());
        match shown_message(details.last()) {
            Some(data) => before.push(data),
            None => before,
        }
    }
}

/// A tag tells which address and which instant it was made from.
pub proof fn lemma_last_seen_tag_injective(
    first_parent: Seq<u8>,
    first_time: Timestamp,
    second_parent: Seq<u8>,
    second_time: Timestamp,
)
    requires
        last_seen_tag(first_parent, first_time) == last_seen_tag(second_parent, second_time),
    ensures
        first_parent == second_parent,
        first_time == second_time,
{
    lemma_auto_spec_u64_to_from_le_bytes();
    let first = last_seen_tag(first_parent, first_time);
    let second = last_seen_tag(second_parent, second_time);
    let first_key = spec_u64_to_le_bytes(time_key(first_time.micros));
    let second_key = spec_u64_to_le_bytes(time_key(second_time.micros));
    assert(first.len() == first_parent.len() + 8);
    assert(second.len() == second_parent.len() + 8);
    assert(first_parent =~= first.take(first_parent.len() as int));
    assert(second_parent =~= second.take(second_parent.len() as int));
    assert(first_key =~= first.skip(first_parent.len() as int));
    assert(second_key =~= second.skip(second_parent.len() as int));
    assert(time_key(first_time.micros) == time_key(second_time.micros));
}

/// A listing shows one message per edge at most.
pub proof fn lemma_shown_messages_bounded(details: Seq<Option<MessageDetails>>)
    ensures
        shown_messages(details).len() <= details.len(),
    decreases details.len(),
{
    if details.len() > 0 {
        lemma_shown_messages_bounded(details.drop_last());
    }
}

impl LastSeenKey {
    /// The key for a message that follows `parent_hash` and was created at
    /// `timestamp`.
    pub fn new(parent_hash: Address, timestamp: Timestamp) -> (key: LastSeenKey)
        ensures
            key.parent_hash == parent_hash,
            key.timestamp == timestamp,
    {
        LastSeenKey { parent_hash, timestamp }
    }

    /// The key as the tag of an edge.
    pub fn to_tag(&self) -> (tag: Vec<u8>)
        ensures
            tag@ == last_seen_tag(self.parent_hash@, self.timestamp),
    {
        let micros: i64 = self.timestamp.micros;
        let key: u64 = if micros >= 0 {
            micros as u64 + 0x8000_0000_0000_0000u64
        } else {
            (micros + i64::MAX + 1) as u64
        };
        let mut tag: Vec<u8> = copy_bytes(&self.parent_hash);
        let mut bytes: Vec<u8> = u64_to_le_bytes(key);
        tag.append(&mut bytes);
        tag
    }
}

/// The paths of the buckets of a range, in rising order of their keys.
pub fn chunk_paths(channel: &Channel, chunk: &Chunk) -> (paths: Vec<PathComponents>)
    ensures
        paths.len() == chunk_keys(*chunk).len(),
        forall|k: int|
            0 <= k < paths.len() ==> (#[trigger] paths@[k]).deep_view() == bucket_components(
                channel@,
                chunk_keys(*chunk)[k],
            ),
{
    let mut paths: Vec<PathComponents> = Vec::new();
    if chunk.start > chunk.end {
        return paths;
    }
    let mut counter: u32 = chunk.start;
    loop
        invariant_except_break
            chunk.start <= counter <= chunk.end,
            paths.len() == counter - chunk.start,
        invariant
            chunk.start <= chunk.end,
            forall|k: int|
                0 <= k < paths.len() ==> (#[trigger] paths@[k]).deep_view() == bucket_components(
                    channel@,
                    chunk_keys(*chunk)[k],
                ),
        ensures
            paths.len() == chunk.end - chunk.start + 1,
        decreases chunk.end - counter,
    {
        paths.push(bucket_path(channel, counter));
        if counter == chunk.end {
            break ;
        }
        counter += 1;
    }
    paths
}

/// The edges of a range of buckets, bucket after bucket, sorted by their
/// timestamps. Edges of one timestamp stay in the order of the buckets, and
/// within a bucket in the order the store gave them in.
pub fn messages_in_range(buckets: Vec<Vec<Edge>>) -> (edges: Vec<Edge>)
    ensures
        edges@ == range_edges(bucket_views(buckets@)),
{
    let ghost all = bucket_views(buckets@);
    let mut pending = reversed(buckets);
    let mut edges: Vec<Edge> = Vec::new();
    let ghost mut done: int = 0;
    while pending.len() > 0
        invariant
            0 <= done,
            pending@.len() + done == all.len(),
            forall|k: int| 0 <= k < pending@.len() ==> pending@[k]@ == all[all.len() - 1 - k],
            edges@ == all.take(done).flatten(),
        decreases pending.len(),
    {
        let mut bucket = pending.pop().unwrap();
        proof {
            assert(all.take(done + 1) =~= all.take(done).push(bucket@));
            all.take(done).lemma_flatten_push(bucket@);
        }
        edges.append(&mut bucket);
        proof {
            done = done + 1;
        }
    }
    assert(all.take(done) =~= all);
    sort_by_timestamp(edges)
}

/// Lists the message edges to show: the edges of the buckets that were read,
/// merged in time order, and of these the page before `earliest_seen` that
/// holds `target_message_count` edges and the rest of the oldest one's hour.
pub fn list_messages(list_message_input: &ListMessagesInput, buckets: Vec<Vec<Edge>>) -> (shown:
    Vec<Edge>)
    ensures
        shown@ == page(
            range_edges(bucket_views(buckets@)),
            list_message_input.earliest_seen,
            list_message_input.target_message_count as nat,
        ),
        forall|k: int|
            0 <= k < shown.len() ==> (#[trigger] shown@[k]).timestamp.micros
                < list_message_input.earliest_seen.micros,
        in_time_order(shown@),
        list_message_input.target_message_count == 0 ==> shown.len() == 0,
{
    paginate(
        messages_in_range(buckets),
        list_message_input.earliest_seen,
        list_message_input.target_message_count,
    )
}

/// Turns what the store holds for each edge of a listing into the messages
/// to show. An edge whose record is missing, or has no header, shows nothing.
pub fn get_messages(details: Vec<Option<MessageDetails>>) -> (list: ListMessages)
    ensures
        list.messages@ == shown_messages(details@),
        list.messages.len() <= details.len(),
{
    let ghost all = details@;
    let mut pending = reversed(details);
    let mut messages: Vec<MessageData> = Vec::new();
    let ghost mut done: int = 0;
    while pending.len() > 0
        invariant
            0 <= done,
            pending@.len() + done == all.len(),
            forall|k: int| 0 <= k < pending@.len() ==> pending@[k] == all[all.len() - 1 - k],
            messages@ == shown_messages(all.take(done)),
        decreases pending.len(),
    {
        let found = pending.pop().unwrap();
        proof {
            assert(all.take(done + 1).drop_last() =~= all.take(done));
        }
        match found {
            Some(MessageDetails { entry, headers }) => {
                let mut headers = headers;
                match headers.pop() {
                    Some(header) => {
                        messages.push(MessageData::new(header, entry));
                    },
                    None => {},
                }
            },
            None => {},
        }
        proof {
            done = done + 1;
        }
    }
    assert(all.take(done) =~= all);
    proof {
        lemma_shown_messages_bounded(all);
    }
    ListMessages { messages }
}

/// What creating a message adds to the store, given the header under which
/// the message was entered and the address of its bucket: an edge from the
/// bucket to the message, tagged with what the message follows and when it
/// was created, and the message as the store holds it.
pub fn create_message_at(
    message_input: MessageInput,
    header: Header,
    bucket_address: Address,
) -> (created: NewMessage)
    ensures
        created.link.source == bucket_address,
        created.link.target@ == header.entry_address@,
        created.link.tag@ == last_seen_tag(
            parent_of(message_input.last_seen, bucket_address@),
            header.timestamp,
        ),
        created.link.timestamp == header.timestamp,
        created.data.id == header.entry_address,
        created.data.created_at == header.timestamp,
        created.data.entry == message_input.message,
{
    let parent: Address = match message_input.last_seen {
        LastSeen::Message(address) => address,
        LastSeen::First => copy_bytes(&bucket_address),
    };
    let data = MessageData::new(header, message_input.message);
    let tag = LastSeenKey::new(parent, data.created_at).to_tag();
    let link = Edge {
        source: bucket_address,
        target: copy_bytes(&data.id),
        tag,
        timestamp: data.created_at,
    };
    NewMessage { link, data }
}

/// What creating a message comes back with. Without a header it is the error
/// of the missing record. With one, and where the bucket's path has an
/// address, it is the edge from that address to the message and the message
/// as the store holds it; where the path has none, the error that says so.
pub open spec fn message_created(
    message_input: MessageInput,
    header: Option<Header>,
    created: Result<NewMessage, ChatError>,
) -> bool {
    let bucket = path_entry_hash(bucket_components(message_input.channel@, message_input.chunk));
    match created {
        Ok(new) => {
            &&& header is Some
            &&& bucket == Some(new.link.source@)
            &&& new.link.target@ == header->Some_0.entry_address@
            &&& new.link.tag@ == last_seen_tag(
                parent_of(message_input.last_seen, new.link.source@),
                header->Some_0.timestamp,
            )
            &&& new.link.timestamp == header->Some_0.timestamp
            &&& new.data.id == header->Some_0.entry_address
            &&& new.data.created_at == header->Some_0.timestamp
            &&& new.data.entry == message_input.message
        },
        Err(error) => if header is None {
            error == ChatError::MissingRecord
        } else {
            error == ChatError::Address && bucket is None
        },
    }
}

/// Creates a message: from the header under which the store entered it,
/// says which edge files it under its bucket. Without a header the message
/// cannot be confirmed, and nothing is filed. It succeeds exactly where
/// there is a header and the bucket's path has an address.
pub fn create_message(message_input: MessageInput, header: Option<Header>) -> (created: Result<
    NewMessage,
    ChatError,
>)
    ensures
        created is Ok <==> header is Some && path_entry_hash(
            bucket_components(message_input.channel@, message_input.chunk),
        ) is Some,
        header is None ==> created == Err::<NewMessage, ChatError>(ChatError::MissingRecord),
        message_created(message_input, header, created),
{
    let entered = match header {
        Some(entered) => entered,
        None => {
            return Err(ChatError::MissingRecord);
        },
    };
    let path = bucket_path(&message_input.channel, message_input.chunk);
    match address_of(&path) {
        Ok(bucket_address) => Ok(create_message_at(message_input, entered, bucket_address)),
        Err(error) => Err(error),
    }
}

} // verus!
