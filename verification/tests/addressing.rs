use chat::path::{
    add_chunk_path, address_from, address_of, bucket_path, category_path, channel_of_path,
    channel_path, chatters_path, decimal_string,
};
use chat::types::{Channel, ChatError};

fn general() -> Channel {
    Channel { category: "General".to_string(), uuid: "7f3c".to_string() }
}

#[test]
fn decimal_string_writes_digits() {
    assert_eq!(decimal_string(0), "0");
    assert_eq!(decimal_string(7), "7");
    assert_eq!(decimal_string(10), "10");
    assert_eq!(decimal_string(4095), "4095");
    assert_eq!(decimal_string(u32::MAX), "4294967295");
}

#[test]
fn channel_path_is_category_then_uuid() {
    assert_eq!(channel_path(&general()), vec!["General".to_string(), "7f3c".to_string()]);
}

#[test]
fn category_path_is_the_parent_of_its_channels() {
    let category = category_path(&"General".to_string());
    assert_eq!(category, vec!["General".to_string()]);
    let channel = channel_path(&general());
    assert_eq!(channel[..channel.len() - 1].to_vec(), category);
}

#[test]
fn channel_of_path_reads_two_components() {
    assert_eq!(channel_of_path(&channel_path(&general())), Some(general()));
    assert_eq!(channel_of_path(&vec!["General".to_string()]), None);
    assert_eq!(channel_of_path(&bucket_path(&general(), 3)), None);
}

#[test]
fn add_chunk_path_appends_the_bucket_key() {
    let path = add_chunk_path(channel_path(&general()), 42);
    assert_eq!(path, vec!["General".to_string(), "7f3c".to_string(), "42".to_string()]);
    assert_eq!(bucket_path(&general(), 42), path);
}

#[test]
fn chatters_path_is_the_presence_root() {
    assert_eq!(chatters_path(), vec!["chatters".to_string()]);
}

#[test]
fn address_of_is_deterministic() {
    let path = bucket_path(&general(), 1);
    let first = address_of(&path).unwrap();
    let second = address_of(&bucket_path(&general(), 1)).unwrap();
    assert_eq!(first, second);
    assert_eq!(first.len(), 39);
}

#[test]
fn address_of_tells_paths_apart() {
    let one = address_of(&bucket_path(&general(), 1)).unwrap();
    let two = address_of(&bucket_path(&general(), 2)).unwrap();
    let channel = address_of(&channel_path(&general())).unwrap();
    assert_ne!(one, two);
    assert_ne!(one, channel);
    assert_ne!(one, bucket_path(&general(), 1).concat().into_bytes());
}

#[test]
fn address_from_passes_the_hash_on() {
    assert_eq!(address_from(Ok(vec![1, 2, 3])), Ok(vec![1, 2, 3]));
}

#[test]
fn address_from_names_the_failure() {
    // Outside a conductor every call to the host fails.
    let failure = hdk::prelude::sys_time().unwrap_err();
    assert_eq!(address_from(Err(failure)), Err(ChatError::Address));
}
