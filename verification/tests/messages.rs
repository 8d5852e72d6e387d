use chat::message::{
    chunk_paths, create_message, create_message_at, get_messages, list_messages, messages_in_range,
    Chunk, LastSeen, LastSeenKey, ListMessagesInput, MessageDetails, MessageInput,
};
use chat::order::{reversed, sort_by_timestamp};
use chat::paginate::keep_before;
use chat::path::{address_of, bucket_path};
use chat::types::{
    bytes_equal, copy_bytes, Channel, ChatError, Edge, Header, Message, MessageData, Timestamp,
};

fn channel() -> Channel {
    Channel { category: "General".to_string(), uuid: "c1".to_string() }
}

fn edge(target: &str, micros: i64) -> Edge {
    Edge {
        source: b"bucket".to_vec(),
        target: target.as_bytes().to_vec(),
        tag: Vec::new(),
        timestamp: Timestamp { micros },
    }
}

fn targets(edges: &[Edge]) -> Vec<String> {
    edges.iter().map(|e| String::from_utf8(e.target.clone()).unwrap()).collect()
}

fn header(address: &str, micros: i64) -> Header {
    Header { entry_address: address.as_bytes().to_vec(), timestamp: Timestamp { micros } }
}

fn input(last_seen: LastSeen, chunk: u32) -> MessageInput {
    MessageInput {
        last_seen,
        channel: channel(),
        message: Message { content: "hello".to_string() },
        chunk,
    }
}

#[test]
fn bytes_are_compared_and_copied() {
    assert!(bytes_equal(&vec![1, 2, 3], &vec![1, 2, 3]));
    assert!(!bytes_equal(&vec![1, 2, 3], &vec![1, 2, 4]));
    assert!(!bytes_equal(&vec![1, 2, 3], &vec![1, 2]));
    assert!(bytes_equal(&vec![], &vec![]));
    assert_eq!(copy_bytes(&vec![9, 8, 7]), vec![9, 8, 7]);
}

#[test]
fn reversed_turns_the_order() {
    assert_eq!(reversed(vec![1, 2, 3]), vec![3, 2, 1]);
    assert_eq!(reversed(Vec::<u8>::new()), Vec::<u8>::new());
}

#[test]
fn sort_by_timestamp_is_stable() {
    let edges = vec![edge("c", 30), edge("a1", 10), edge("b", 20), edge("a2", 10), edge("a3", 10)];
    assert_eq!(targets(&sort_by_timestamp(edges)), vec!["a1", "a2", "a3", "b", "c"]);
    let sorted = vec![edge("x", -5), edge("y", 0), edge("z", 0), edge("w", 7)];
    assert_eq!(sort_by_timestamp(sorted.clone()), sorted);
    assert_eq!(sort_by_timestamp(vec![]), vec![]);
}

#[test]
fn keep_before_drops_the_cutoff_and_later() {
    let edges = vec![edge("c", 30), edge("a", 10), edge("b", 20), edge("d", 19)];
    assert_eq!(targets(&keep_before(edges, Timestamp { micros: 20 })), vec!["a", "d"]);
}

#[test]
fn chunk_paths_cover_the_range() {
    let paths = chunk_paths(&channel(), &Chunk { start: 9, end: 11 });
    assert_eq!(
        paths,
        vec![bucket_path(&channel(), 9), bucket_path(&channel(), 10), bucket_path(&channel(), 11)]
    );
    assert_eq!(paths[1], vec!["General".to_string(), "c1".to_string(), "10".to_string()]);
    assert_eq!(chunk_paths(&channel(), &Chunk { start: 4, end: 4 }), vec![bucket_path(&channel(), 4)]);
    assert_eq!(
        chunk_paths(&channel(), &Chunk { start: u32::MAX, end: u32::MAX }),
        vec![bucket_path(&channel(), u32::MAX)]
    );
    assert_eq!(chunk_paths(&channel(), &Chunk { start: 5, end: 4 }), Vec::<Vec<String>>::new());
}

#[test]
fn messages_in_range_merges_buckets_in_time_order() {
    let buckets = vec![
        vec![edge("b", 20), edge("a", 10)],
        vec![],
        vec![edge("c", 20), edge("d", 5), edge("e", 20)],
    ];
    assert_eq!(targets(&messages_in_range(buckets)), vec!["d", "a", "b", "c", "e"]);
    assert_eq!(messages_in_range(vec![]), vec![]);
}

#[test]
fn list_messages_pages_the_merged_range() {
    let hour: i64 = 3_600_000_000;
    let buckets = vec![
        vec![edge("t2", 50), edge("t1", 10)],
        vec![edge("t4", hour + 20), edge("t3", hour + 5), edge("t5", hour + 40)],
    ];
    let list_input = ListMessagesInput {
        channel: channel(),
        chunk: Chunk { start: 0, end: 1 },
        earliest_seen: Timestamp { micros: 2 * hour },
        target_message_count: 2,
    };
    assert_eq!(targets(&list_messages(&list_input, buckets)), vec!["t3", "t4", "t5"]);
}

#[test]
fn get_messages_skips_what_is_missing() {
    let details = vec![
        Some(MessageDetails {
            entry: Message { content: "one".to_string() },
            headers: vec![header("old one", 1), header("one", 2)],
        }),
        None,
        Some(MessageDetails { entry: Message { content: "no header".to_string() }, headers: vec![] }),
        Some(MessageDetails { entry: Message { content: "two".to_string() }, headers: vec![header("two", 9)] }),
    ];
    let list = get_messages(details);
    assert_eq!(
        list.messages,
        vec![
            MessageData {
                id: b"one".to_vec(),
                created_at: Timestamp { micros: 2 },
                entry: Message { content: "one".to_string() },
            },
            MessageData {
                id: b"two".to_vec(),
                created_at: Timestamp { micros: 9 },
                entry: Message { content: "two".to_string() },
            },
        ]
    );
    assert_eq!(get_messages(vec![]).messages, vec![]);
}

#[test]
fn last_seen_key_writes_address_then_time() {
    let key = LastSeenKey::new(vec![1, 2, 3], Timestamp { micros: 0 });
    assert_eq!(key.to_tag(), vec![1, 2, 3, 0, 0, 0, 0, 0, 0, 0, 0x80]);
    let later = LastSeenKey::new(vec![1, 2, 3], Timestamp { micros: 0x0102 });
    assert_eq!(later.to_tag(), vec![1, 2, 3, 2, 1, 0, 0, 0, 0, 0, 0x80]);
    let before = LastSeenKey::new(vec![], Timestamp { micros: -1 });
    assert_eq!(before.to_tag(), vec![0xff, 0xff, 0xff, 0xff, 0xff, 0xff, 0xff, 0x7f]);
    let first = LastSeenKey::new(vec![9], Timestamp { micros: i64::MIN });
    assert_eq!(first.to_tag(), vec![9, 0, 0, 0, 0, 0, 0, 0, 0]);
    let last = LastSeenKey::new(vec![9], Timestamp { micros: i64::MAX });
    assert_eq!(last.to_tag(), vec![9, 0xff, 0xff, 0xff, 0xff, 0xff, 0xff, 0xff, 0xff]);
}

#[test]
fn create_message_files_a_reply_under_its_bucket() {
    let created =
        create_message(input(LastSeen::Message(b"parent".to_vec()), 12), Some(header("m1", 77))).unwrap();
    let bucket = address_of(&bucket_path(&channel(), 12)).unwrap();
    assert_eq!(created.link.source, bucket);
    assert_eq!(created.link.target, b"m1".to_vec());
    assert_eq!(
        created.link.tag,
        LastSeenKey::new(b"parent".to_vec(), Timestamp { micros: 77 }).to_tag()
    );
    assert_eq!(created.link.timestamp, Timestamp { micros: 77 });
    assert_eq!(
        created.data,
        MessageData {
            id: b"m1".to_vec(),
            created_at: Timestamp { micros: 77 },
            entry: Message { content: "hello".to_string() },
        }
    );
}

#[test]
fn create_message_tags_the_first_message_with_its_bucket() {
    let created = create_message(input(LastSeen::First, 3), Some(header("m1", 5))).unwrap();
    let bucket = address_of(&bucket_path(&channel(), 3)).unwrap();
    assert_eq!(created.link.tag, LastSeenKey::new(bucket, Timestamp { micros: 5 }).to_tag());
    let elsewhere = create_message_at(input(LastSeen::First, 3), header("m1", 5), b"here".to_vec());
    assert_eq!(elsewhere.link.source, b"here".to_vec());
    assert_eq!(
        elsewhere.link.tag,
        LastSeenKey::new(b"here".to_vec(), Timestamp { micros: 5 }).to_tag()
    );
}

#[test]
fn create_message_needs_the_header() {
    assert_eq!(create_message(input(LastSeen::First, 3), None), Err(ChatError::MissingRecord));
}
