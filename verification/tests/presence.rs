use chat::path::{address_of, chatters_path};
use chat::presence::{
    active_agents, agent_to_tag, contains_agent, presence_edge, refresh_chatter, signal_chatters,
    tag_to_agent, without_agent, SigResults, CHATTER_REFRESH_HOURS,
};
use chat::time::MICROS_PER_HOUR;
use chat::types::{AgentId, ChatError, Edge, Timestamp};

fn key(seed: u8) -> Vec<u8> {
    let mut raw = vec![0x84, 0x20, 0x24];
    raw.extend(std::iter::repeat(seed).take(36));
    raw
}

fn agent(seed: u8) -> AgentId {
    tag_to_agent(&key(seed)).unwrap()
}

fn now() -> Timestamp {
    Timestamp { micros: 1_640_995_200_000_000 }
}

fn hours_ago(hours: i64) -> Timestamp {
    Timestamp { micros: now().micros - hours * MICROS_PER_HOUR }
}

fn registered(seed: u8, at: Timestamp) -> Edge {
    presence_edge(b"chatters".to_vec(), &agent(seed), at)
}

fn tagged(tag: Vec<u8>, at: Timestamp) -> Edge {
    Edge { source: b"chatters".to_vec(), target: tag.clone(), tag, timestamp: at }
}

#[test]
fn tag_to_agent_takes_an_agent_key() {
    let agent = tag_to_agent(&key(7)).unwrap();
    assert_eq!(agent.as_bytes(), &key(7));
    assert_eq!(agent_to_tag(&agent), key(7));
    assert_eq!(tag_to_agent(&agent_to_tag(&agent)), Ok(agent));
}

#[test]
fn tag_to_agent_refuses_other_bytes() {
    let malformed = Err(ChatError::MalformedPresenceTag);
    assert_eq!(tag_to_agent(&vec![]), malformed);
    assert_eq!(tag_to_agent(&key(7)[..38].to_vec()), malformed);
    let mut long = key(7);
    long.push(0);
    assert_eq!(tag_to_agent(&long), malformed);
    // 39 bytes with the prefix of an entry's address
    let mut entry = key(7);
    entry[1] = 0x21;
    assert_eq!(tag_to_agent(&entry), malformed);
    let mut first = key(7);
    first[0] = 0x85;
    assert_eq!(tag_to_agent(&first), malformed);
    let mut third = key(7);
    third[2] = 0x25;
    assert_eq!(tag_to_agent(&third), malformed);
}

#[test]
fn agents_compare_by_their_keys() {
    assert!(agent(1).same_as(&agent(1)));
    assert!(!agent(1).same_as(&agent(2)));
    assert_eq!(agent(1).duplicate(), agent(1));
    assert_eq!(agent(1).clone(), agent(1));
    let agents = vec![agent(1), agent(2)];
    assert!(contains_agent(&agents, &agent(2)));
    assert!(!contains_agent(&agents, &agent(3)));
    assert_eq!(without_agent(vec![agent(1), agent(2), agent(1), agent(3)], &agent(1)), vec![agent(2), agent(3)]);
}

#[test]
fn refresh_then_active_contains_the_agent() {
    let edge = refresh_chatter(&agent(9), now()).unwrap();
    assert_eq!(edge.source, address_of(&chatters_path()).unwrap());
    assert_eq!(edge.target, key(9));
    assert_eq!(edge.tag, key(9));
    assert_eq!(edge.timestamp, now());
    let active = active_agents(&vec![edge], now(), 2);
    assert_eq!(active, vec![agent(9)]);
}

#[test]
fn refresh_again_adds_an_edge_but_no_agent() {
    let edges = vec![registered(9, hours_ago(5)), registered(9, hours_ago(1)), registered(9, now())];
    assert_eq!(active_agents(&edges, now(), CHATTER_REFRESH_HOURS), vec![agent(9)]);
}

#[test]
fn active_agents_age_out_with_the_window() {
    let edges = vec![
        registered(1, hours_ago(3)),
        registered(2, hours_ago(1)),
        registered(3, Timestamp { micros: hours_ago(2).micros + 1 }),
        registered(4, hours_ago(2)),
        registered(2, hours_ago(0)),
        registered(1, hours_ago(1)),
    ];
    assert_eq!(active_agents(&edges, now(), 2), vec![agent(2), agent(3), agent(1)]);
    assert_eq!(active_agents(&edges, now(), 1), vec![agent(2)]);
    assert_eq!(active_agents(&edges, now(), 0), vec![]);
    assert_eq!(active_agents(&edges, now(), 3), vec![agent(2), agent(3), agent(4), agent(1)]);
    assert_eq!(active_agents(&edges, now(), 4), vec![agent(1), agent(2), agent(3), agent(4)]);
}

#[test]
fn wider_window_never_shows_fewer_agents() {
    let edges = vec![
        registered(1, hours_ago(30)),
        registered(2, hours_ago(7)),
        registered(3, hours_ago(2)),
        registered(2, hours_ago(1)),
        registered(4, Timestamp { micros: now().micros + 5 * MICROS_PER_HOUR }),
    ];
    let mut before = 0;
    for window in -6..40 {
        let count = active_agents(&edges, now(), window).len();
        assert!(count >= before);
        before = count;
    }
    assert_eq!(before, 4);
}

#[test]
fn malformed_tags_are_passed_over() {
    let edges = vec![
        tagged(b"not a key".to_vec(), now()),
        registered(5, now()),
        tagged(key(6)[..20].to_vec(), now()),
    ];
    assert_eq!(active_agents(&edges, now(), 2), vec![agent(5)]);
    let plan = signal_chatters(&edges, &agent(1), now(), 2);
    assert_eq!(plan.total(), 3);
    assert_eq!(plan.recipients(), &vec![agent(5)]);
}

#[test]
fn broadcast_with_one_failing_recipient() {
    let edges = vec![registered(1, now()), registered(2, now())];
    let plan = signal_chatters(&edges, &agent(1), now(), CHATTER_REFRESH_HOURS);
    assert_eq!(plan.recipients(), &vec![agent(2)]);
    let results = plan.results(&vec![Err(ChatError::RemoteDelivery)]);
    assert_eq!(results, SigResults { total: 2, active: 1, sent: 0 });
    assert!(results.total >= 1);
}

#[test]
fn broadcast_counts_only_what_was_delivered() {
    let edges = vec![
        registered(1, hours_ago(1)),
        registered(2, hours_ago(1)),
        registered(3, hours_ago(9)),
        registered(4, now()),
        registered(2, now()),
        registered(5, now()),
    ];
    let plan = signal_chatters(&edges, &agent(4), now(), 2);
    assert_eq!(plan.total(), 6);
    assert_eq!(plan.recipients(), &vec![agent(1), agent(2), agent(5)]);
    let failed = Err(ChatError::RemoteDelivery);
    assert_eq!(plan.results(&vec![Ok(()), failed, Ok(())]), SigResults { total: 6, active: 3, sent: 2 });
    assert_eq!(plan.results(&vec![Ok(()), Ok(()), Ok(())]), SigResults { total: 6, active: 3, sent: 3 });
    assert_eq!(plan.results(&vec![failed, failed, failed]), SigResults { total: 6, active: 3, sent: 0 });
    // a report that is too short or too long
    assert_eq!(plan.results(&vec![Ok(())]), SigResults { total: 6, active: 3, sent: 1 });
    assert_eq!(plan.results(&vec![]), SigResults { total: 6, active: 3, sent: 0 });
    assert_eq!(
        plan.results(&vec![Ok(()), Ok(()), Ok(()), Ok(()), Ok(())]),
        SigResults { total: 6, active: 3, sent: 3 }
    );
}

#[test]
fn broadcast_to_nobody() {
    let plan = signal_chatters(&vec![], &agent(1), now(), 2);
    assert_eq!(plan.results(&vec![]), SigResults { total: 0, active: 0, sent: 0 });
    let alone = signal_chatters(&vec![registered(1, now())], &agent(1), now(), 2);
    assert_eq!(alone.results(&vec![]), SigResults { total: 1, active: 0, sent: 0 });
}
