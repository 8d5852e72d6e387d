//! The channel registry: creating a channel, and listing the channels of a
//! category with the description that currently counts for each.

use crate::path::{address_of, channel_components, channel_path, path_entry_hash};
use crate::types::{
    byte_views, bytes_equal, copy_bytes, Address, AgentId, Channel, ChannelData, ChannelDataView,
    ChannelInfo, ChatError, Edge, Timestamp,
};
use vstd::prelude::*;

verus! {

/// What a caller hands in to create a channel.
#[derive(Clone, Debug, PartialEq, Eq)]
pub struct ChannelInput {
    pub name: String,
    pub entry: Channel,
}

/// What a caller hands in to list channels.
#[derive(Clone, Debug, PartialEq, Eq)]
pub struct ChannelListInput {
    pub category: String,
}

/// The channels of a category.
#[derive(Clone, Debug, PartialEq, Eq)]
pub struct ChannelList {
    pub channels: Vec<ChannelData>,
}

/// A channel of a category with the info-edges that are visible for it.
#[derive(Clone, Debug, PartialEq, Eq)]
pub struct ChannelLinks {
    pub channel: Channel,
    pub info_links: Vec<Edge>,
}

/// A description that was read from the store, with the address it has there.
#[derive(Clone, Debug, PartialEq, Eq)]
pub struct InfoRecord {
    pub address: Address,
    pub info: ChannelInfo,
}

/// The edge to add for a new channel, and the channel as its creator sees it.
#[derive(Clone, Debug, PartialEq, Eq)]
pub struct NewChannel {
    pub link: Edge,
    pub data: ChannelData,
}

/// The tag of an info-edge.
pub open spec fn info_tag() -> Seq<u8> {
    seq![105u8, 110u8, 102u8, 111u8]
}

/// Whether the edge at `at` is the latest: no edge has a greater timestamp,
/// and every edge before it has a smaller one.
pub open spec fn is_latest(links: Seq<Edge>, at: int) -> bool {
    &&& 0 <= at < links.len()
    &&& forall|k: int|
        0 <= k < links.len() ==> (#[trigger] links[k]).timestamp.micros
            <= links[at].timestamp.micros
    &&& forall|k: int|
        0 <= k < at ==> (#[trigger] links[k]).timestamp.micros < links[at].timestamp.micros
}

/// The place of the latest edge, if there is any edge.
pub open spec fn latest_index(links: Seq<Edge>) -> Option<int> {
    if exists|at: int| is_latest(links, at) {
        Some(choose|at: int| is_latest(links, at))
    } else {
        None
    }
}

/// Whether the record at `at` is the first with the given address.
pub open spec fn is_first_record(records: Seq<InfoRecord>, address: Seq<u8>, at: int) -> bool {
    &&& 0 <= at < records.len()
    &&& records[at].address@ == address
    &&& forall|k: int| 0 <= k < at ==> (#[trigger] records[k]).address@ != address
}

/// The place of the first record with the given address, if there is one.
pub open spec fn first_record(records: Seq<InfoRecord>, address: Seq<u8>) -> Option<int> {
    if exists|at: int| is_first_record(records, address, at) {
        Some(choose|at: int| is_first_record(records, address, at))
    } else {
        None
    }
}

/// The address of the description that currently counts for a channel: the
/// target of its latest info-edge.
pub open spec fn latest_target(child: ChannelLinks) -> Option<Seq<u8>> {
    match latest_index(child.info_links@) {
        Some(at) => Some(child.info_links@[at].target@),
        None => None,
    }
}

/// What the listing shows for one channel: the channel with the record that
/// its latest info-edge points to, or nothing where there is no such edge or
/// no such record.
pub open spec fn channel_entry(child: ChannelLinks, records: Seq<InfoRecord>) -> Option<
    ChannelDataView,
> {
    match latest_target(child) {
        Some(target) => match first_record(records, target) {
            Some(at) => Some(ChannelDataView { entry: child.channel@, info: records[at].info@ }),
            None => None,
        },
        None => None,
    }
}

/// The listing of a category: what each channel shows, in the order of the
/// channels, without those that show nothing.
pub open spec fn listed_channels(children: Seq<ChannelLinks>, records: Seq<InfoRecord>) -> Seq<
    ChannelDataView,
>
    decreases children.len(),
{
    if children.len() == 0 {
        Seq::empty()
    } else {
        let before = listed_channels(children.drop_last(), records);
        match channel_entry(children.last(), records) {
            Some(data) => before.push(data),
            None => before,
        }
    }
}

/// The addresses to read for a listing: the latest target of each channel
/// that has one, in the order of the channels.
pub open spec fn latest_targets(children: Seq<ChannelLinks>) -> Seq<Seq<u8>>
    decreases children.len(),
{
    if children.len() == 0 {
        Seq::empty()
    } else {
        let before = latest_targets(children.drop_last());
        match latest_target(children.last()) {
            Some(target) => before.push(target),
            None => before,
        }
    }
}

/// The views of a sequence of channels.
pub open spec fn channel_views(channels: Seq<ChannelData>) -> Seq<ChannelDataView> {
    channels.map_values(|data: ChannelData| data@)
}

/// There is one latest edge at most: resolving the same edges twice gives
/// the same edge.
pub proof fn lemma_latest_unique(links: Seq<Edge>, first: int, second: int)
    requires
        is_latest(links, first),
        is_latest(links, second),
    ensures
        first == second,
{
    if first < second {
        assert(links[first].timestamp.micros < links[second].timestamp.micros);
    } else if second < first {
        assert(links[second].timestamp.micros < links[first].timestamp.micros);
    }
}

/// Any edges but none have a latest edge, and `latest_index` names it.
pub proof fn lemma_latest_index(links: Seq<Edge>)
    ensures
        links.len() == 0 <==> latest_index(links) is None,
        latest_index(links) matches Some(at) ==> is_latest(links, at),
    decreases links.len(),
{
    if links.len() > 0 {
        let before = links.drop_last();
        let last = links.len() - 1;
        lemma_latest_index(before);
        if before.len() == 0 {
            assert(is_latest(links, 0));
        } else {
            let at = latest_index(before).unwrap();
            assert(forall|k: int| 0 <= k < before.len() ==> before[k] == links[k]);
            if links[last].timestamp.micros > links[at].timestamp.micros {
                assert(is_latest(links, last));
            } else {
                assert(is_latest(links, at));
            }
        }
    }
}

/// A category shows one entry per channel at most, and an entry belongs to
/// the channel it was resolved for.
pub proof fn lemma_listed_channels_bounded(children: Seq<ChannelLinks>, records: Seq<InfoRecord>)
    ensures
        listed_channels(children, records).len() <= children.len(),
        forall|k: int|
            0 <= k < listed_channels(children, records).len() ==> exists|c: int|
                0 <= c < children.len() && channel_entry(#[trigger] children[c], records) == Some(
                    #[trigger] listed_channels(children, records)[k],
                ),
    decreases children.len(),
{
    if children.len() > 0 {
        let before = children.drop_last();
        lemma_listed_channels_bounded(before, records);
        let listed = listed_channels(children, records);
        assert forall|k: int| 0 <= k < listed.len() implies exists|c: int|
            0 <= c < children.len() && channel_entry(#[trigger] children[c], records) == Some(
                #[trigger] listed[k],
            ) by {
            if k < listed_channels(before, records).len() {
                let c = choose|c: int|
                    0 <= c < before.len() && channel_entry(#[trigger] before[c], records) == Some(
                        listed_channels(before, records)[k],
                    );
                assert(children[c] == before[c]);
            } else {
                assert(channel_entry(children[children.len() - 1], records) == Some(listed[k]));
            }
        }
    }
}

/// A channel shows the description that its latest info-edge points to,
/// however many older info-edges it has.
pub proof fn lemma_channel_shows_latest(
    child: ChannelLinks,
    records: Seq<InfoRecord>,
    at: int,
    place: int,
)
    requires
        is_latest(child.info_links@, at),
        is_first_record(records, child.info_links@[at].target@, place),
    ensures
        channel_entry(child, records) == Some(
            ChannelDataView { entry: child.channel@, info: records[place].info@ },
        ),
{
    lemma_latest_index(child.info_links@);
    lemma_latest_unique(child.info_links@, at, latest_index(child.info_links@).unwrap());
    let target = child.info_links@[at].target@;
    let found = choose|found: int| is_first_record(records, target, found);
    if found < place {
        assert(records[found].address@ != target);
    } else if place < found {
        assert(records[place].address@ != target);
    }
}

/// Where every channel can be resolved, the listing shows every channel
/// once, in the order of the channels.
pub proof fn lemma_listed_channels_complete(children: Seq<ChannelLinks>, records: Seq<InfoRecord>)
    requires
        forall|c: int|
            0 <= c < children.len() ==> channel_entry(#[trigger] children[c], records) is Some,
    ensures
        listed_channels(children, records).len() == children.len(),
        forall|c: int|
            0 <= c < children.len() ==> Some(#[trigger] listed_channels(children, records)[c])
                == channel_entry(children[c], records),
    decreases children.len(),
{
    if children.len() > 0 {
        let before = children.drop_last();
        assert forall|c: int| 0 <= c < before.len() implies channel_entry(
            #[trigger] before[c],
            records,
        ) is Some by {
            assert(before[c] == children[c]);
        }
        lemma_listed_channels_complete(before, records);
        assert(channel_entry(children[children.len() - 1], records) is Some);
        assert forall|c: int| 0 <= c < children.len() implies Some(
            #[trigger] listed_channels(children, records)[c],
        ) == channel_entry(children[c], records) by {
            if c < before.len() {
                assert(before[c] == children[c]);
                assert(listed_channels(children, records)[c] == listed_channels(
                    before,
                    records,
                )[c]);
            }
        }
    }
}

/// Whether no two of the children are the same channel.
pub open spec fn distinct_channels(children: Seq<ChannelLinks>) -> bool {
    forall|i: int, j: int|
        0 <= i < j < children.len() ==> (#[trigger] children[i]).channel@ != (
        #[trigger] children[j]).channel@
}

/// What a channel shows is in the listing.
pub proof fn lemma_listed_channels_contains(
    children: Seq<ChannelLinks>,
    records: Seq<InfoRecord>,
    at: int,
)
    requires
        0 <= at < children.len(),
        channel_entry(children[at], records) is Some,
    ensures
        listed_channels(children, records).contains(channel_entry(children[at], records)->Some_0),
    decreases children.len(),
{
    let before = children.drop_last();
    let listed = listed_channels(children, records);
    let shown = channel_entry(children[at], records)->Some_0;
    if at == children.len() - 1 {
        assert(listed[listed.len() - 1] == shown);
    } else {
        assert(before[at] == children[at]);
        lemma_listed_channels_contains(before, records, at);
        let k = choose|k: int|
            0 <= k < listed_channels(before, records).len() && listed_channels(before, records)[k]
                == shown;
        assert(listed[k] == shown);
    }
}

/// Where no two children are the same channel, no channel is listed twice.
pub proof fn lemma_listed_channels_distinct(children: Seq<ChannelLinks>, records: Seq<InfoRecord>)
    requires
        distinct_channels(children),
    ensures
        forall|k: int, l: int|
            0 <= k < l < listed_channels(children, records).len() ==> (#[trigger] listed_channels(
                children,
                records,
            )[k]).entry != (#[trigger] listed_channels(children, records)[l]).entry,
    decreases children.len(),
{
    if children.len() > 0 {
        let before = children.drop_last();
        let last = children.last();
        let listed = listed_channels(children, records);
        let earlier = listed_channels(before, records);
        assert(distinct_channels(before)) by {
            assert forall|i: int, j: int| 0 <= i < j < before.len() implies (
            #[trigger] before[i]).channel@ != (#[trigger] before[j]).channel@ by {
                assert(before[i] == children[i] && before[j] == children[j]);
            }
        }
        lemma_listed_channels_distinct(before, records);
        lemma_listed_channels_bounded(before, records);
        assert forall|k: int, l: int| 0 <= k < l < listed.len() implies (#[trigger] listed[k]).entry
            != (#[trigger] listed[l]).entry by {
            if l < earlier.len() {
                assert(listed[k] == earlier[k] && listed[l] == earlier[l]);
            } else {
                assert(listed[k] == earlier[k]);
                let c = choose|c: int|
                    0 <= c < before.len() && channel_entry(#[trigger] before[c], records) == Some(
                        earlier[k],
                    );
                assert(before[c] == children[c]);
                assert(children[children.len() - 1] == last);
                assert(listed[l].entry == last.channel@);
                assert(earlier[k].entry == children[c].channel@);
            }
        }
    }
}

/// An edited channel is listed once: of the channels of a category, no two
/// the same, one that has a latest info-edge whose description can be read
/// has one entry in the listing and no more, and that entry holds the
/// description behind the latest edge.
pub proof fn lemma_channel_listed_once(
    children: Seq<ChannelLinks>,
    records: Seq<InfoRecord>,
    at: int,
    latest: int,
    place: int,
)
    requires
        distinct_channels(children),
        0 <= at < children.len(),
        is_latest(children[at].info_links@, latest),
        is_first_record(records, children[at].info_links@[latest].target@, place),
    ensures
        ({
            let listed = listed_channels(children, records);
            let shown = ChannelDataView {
                entry: children[at].channel@,
                info: records[place].info@,
            };
            &&& listed.contains(shown)
            &&& forall|k: int|
                0 <= k < listed.len() && (#[trigger] listed[k]).entry == children[at].channel@
                    ==> k == listed.index_of(shown)
        }),
{
    let listed = listed_channels(children, records);
    let shown = ChannelDataView { entry: children[at].channel@, info: records[place].info@ };
    lemma_channel_shows_latest(children[at], records, latest, place);
    lemma_listed_channels_contains(children, records, at);
    lemma_listed_channels_distinct(children, records);
    let here = listed.index_of(shown);
    assert(0 <= here < listed.len() && listed[here] == shown);
    assert forall|k: int|
        0 <= k < listed.len() && (#[trigger] listed[k]).entry == children[at].channel@ implies k
        == here by {
        if k < here {
            assert(listed[k].entry != listed[here].entry);
        } else if here < k {
            assert(listed[here].entry != listed[k].entry);
        }
    }
}

/// A channel that was created twice is listed once, with the later
/// description: of two info-edges the one with the greater timestamp counts.
pub proof fn lemma_created_twice_listed_once(
    children: Seq<ChannelLinks>,
    records: Seq<InfoRecord>,
    at: int,
    place: int,
)
    requires
        distinct_channels(children),
        0 <= at < children.len(),
        children[at].info_links@.len() == 2,
        children[at].info_links@[0].timestamp.micros < children[at].info_links@[1].timestamp.micros,
        is_first_record(records, children[at].info_links@[1].target@, place),
    ensures
        ({
            let listed = listed_channels(children, records);
            let shown = ChannelDataView {
                entry: children[at].channel@,
                info: records[place].info@,
            };
            &&& listed.contains(shown)
            &&& forall|k: int|
                0 <= k < listed.len() && (#[trigger] listed[k]).entry == children[at].channel@
                    ==> k == listed.index_of(shown)
        }),
{
    let links = children[at].info_links@;
    assert(is_latest(links, 1)) by {
        assert(links[0].timestamp.micros < links[1].timestamp.micros);
    }
    lemma_channel_listed_once(children, records, at, 1, place);
}

/// The tag of an info-edge.
pub fn channel_info_tag() -> (tag: Vec<u8>)
    ensures
        tag@ == info_tag(),
{
    let mut tag: Vec<u8> = Vec::new();
    tag.push(105u8);
    tag.push(110u8);
    tag.push(102u8);
    tag.push(111u8);
    tag
}

/// Resolves latest-wins: the place of the edge with the greatest timestamp,
/// the first of them where several share it; none only where there is no edge.
pub fn latest_info(links: &Vec<Edge>) -> (latest: Option<usize>)
    ensures
        links.len() == 0 <==> latest is None,
        latest matches Some(at) ==> is_latest(links@, at as int),
        match latest {
            Some(at) => latest_index(links@) == Some(at as int),
            None => latest_index(links@) is None,
        },
{
    proof {
        lemma_latest_index(links@);
    }
    if links.len() == 0 {
        return None;
    }
    let mut best: usize = 0;
    let mut at: usize = 1;
    while at < links.len()
        invariant
            0 <= best < at <= links.len(),
            is_latest(links@.take(at as int), best as int),
        decreases links.len() - at,
    {
        if links[at].timestamp.micros > links[best].timestamp.micros {
            best = at;
        }
        at += 1;
    }
    assert(links@.take(links.len() as int) =~= links@);
    proof {
        lemma_latest_unique(links@, best as int, latest_index(links@).unwrap());
    }
    Some(best)
}

/// The place of the first record with the given address.
pub fn find_record(records: &Vec<InfoRecord>, address: &Vec<u8>) -> (found: Option<usize>)
    ensures
        match found {
            Some(at) => first_record(records@, address@) == Some(at as int),
            None => first_record(records@, address@) is None,
        },
        found matches Some(at) ==> is_first_record(records@, address@, at as int),
{
    let mut at: usize = 0;
    while at < records.len()
        invariant
            at <= records.len(),
            forall|k: int| 0 <= k < at ==> (#[trigger] records@[k]).address@ != address@,
        decreases records.len() - at,
    {
        if bytes_equal(&records[at].address, address) {
            assert(is_first_record(records@, address@, at as int));
            return Some(at);
        }
        at += 1;
    }
    None
}

/// What the listing shows for one channel.
pub fn resolve_channel(child: &ChannelLinks, records: &Vec<InfoRecord>) -> (data: Option<
    ChannelData,
>)
    ensures
        match data {
            Some(shown) => channel_entry(*child, records@) == Some(shown@),
            None => channel_entry(*child, records@) is None,
        },
{
    match latest_info(&child.info_links) {
        Some(at) => match find_record(records, &child.info_links[at].target) {
            Some(place) => Some(
                ChannelData::new(child.channel.duplicate(), records[place].info.duplicate()),
            ),
            None => None,
        },
        None => None,
    }
}

/// The addresses of the descriptions that a listing needs: for each channel
/// the target of its latest info-edge.
pub fn latest_info_targets(children: &Vec<ChannelLinks>) -> (targets: Vec<Address>)
    ensures
        byte_views(targets@) == latest_targets(children@),
{
    let mut targets: Vec<Address> = Vec::new();
    let mut at: usize = 0;
    while at < children.len()
        invariant
            at <= children.len(),
            byte_views(targets@) == latest_targets(children@.take(at as int)),
        decreases children.len() - at,
    {
        let ghost before = byte_views(targets@);
        assert(children@.take(at + 1).drop_last() =~= children@.take(at as int));
        let child = &children[at];
        match latest_info(&child.info_links) {
            Some(place) => {
                targets.push(copy_bytes(&child.info_links[place].target));
                assert(byte_views(targets@) =~= before.push(
                    child.info_links@[place as int].target@,
                ));
            },
            None => {},
        }
        at += 1;
    }
    assert(children@.take(children.len() as int) =~= children@);
    targets
}

/// Lists the channels of a category: each channel with the description that
/// its latest info-edge points to. A channel without an info-edge, or whose
/// description is not among the records, is left out.
pub fn list_channels(children: &Vec<ChannelLinks>, records: &Vec<InfoRecord>) -> (list: ChannelList)
    ensures
        channel_views(list.channels@) == listed_channels(children@, records@),
        list.channels.len() <= children.len(),
{
    let mut channels: Vec<ChannelData> = Vec::new();
    let mut at: usize = 0;
    while at < children.len()
        invariant
            at <= children.len(),
            channel_views(channels@) == listed_channels(children@.take(at as int), records@),
        decreases children.len() - at,
    {
        assert(children@.take(at + 1).drop_last() =~= children@.take(at as int));
        match resolve_channel(&children[at], records) {
            Some(data) => {
                channels.push(data);
            },
            None => {},
        }
        at += 1;
    }
    assert(children@.take(children.len() as int) =~= children@);
    proof {
        lemma_listed_channels_bounded(children@, records@);
    }
    ChannelList { channels }
}

/// The number of channels under a category, and a second number that is
/// kept for later use and is always zero.
pub fn channel_stats(child_links: &Vec<Edge>) -> (stats: (usize, usize))
    ensures
        stats.0 == child_links.len(),
        stats.1 == 0,
{
    (child_links.len(), 0)
}

/// What creating a channel adds to the store, given the address under which
/// the store holds the channel's path: an info-edge from there to the new
/// description, stamped like the description, and the channel with that
/// description.
pub fn create_channel_at(
    channel_input: ChannelInput,
    created_by: AgentId,
    created_at: Timestamp,
    info_address: Address,
    channel_address: Address,
) -> (created: NewChannel)
    ensures
        created.link.source == channel_address,
        created.link.target == info_address,
        created.link.tag@ == info_tag(),
        created.link.timestamp == created_at,
        created.data.entry == channel_input.entry,
        created.data.info.name == channel_input.name,
        created.data.info.created_by == created_by,
        created.data.info.created_at == created_at,
{
    let info = ChannelInfo { name: channel_input.name, created_by, created_at };
    let link = Edge {
        source: channel_address,
        target: info_address,
        tag: channel_info_tag(),
        timestamp: created_at,
    };
    NewChannel { link, data: ChannelData::new(channel_input.entry, info) }
}

/// What creating a channel comes back with: where the channel's path has an
/// address, the info-edge from that address to the new description and the
/// channel with that description; where it has none, the error that says so.
pub open spec fn channel_created(
    channel_input: ChannelInput,
    created_by: AgentId,
    created_at: Timestamp,
    info_address: Address,
    created: Result<NewChannel, ChatError>,
) -> bool {
    match created {
        Ok(new) => {
            &&& path_entry_hash(channel_components(channel_input.entry@)) == Some(new.link.source@)
            &&& new.link.target == info_address
            &&& new.link.tag@ == info_tag()
            &&& new.link.timestamp == created_at
            &&& new.data.entry == channel_input.entry
            &&& new.data.info.name == channel_input.name
            &&& new.data.info.created_by == created_by
            &&& new.data.info.created_at == created_at
        },
        Err(error) => {
            &&& error == ChatError::Address
            &&& path_entry_hash(channel_components(channel_input.entry@)) is None
        },
    }
}

/// A channel that was created once can be created again: the second call
/// answers as the first did, its info-edge starts at the same address, which
/// is the channel's, and each edge carries its own time and points to its
/// own description.
pub proof fn lemma_create_channel_again(
    first_input: ChannelInput,
    first_by: AgentId,
    first_at: Timestamp,
    first_info: Address,
    first: Result<NewChannel, ChatError>,
    second_input: ChannelInput,
    second_by: AgentId,
    second_at: Timestamp,
    second_info: Address,
    second: Result<NewChannel, ChatError>,
)
    requires
        channel_created(first_input, first_by, first_at, first_info, first),
        channel_created(second_input, second_by, second_at, second_info, second),
        first_input.entry@ == second_input.entry@,
        first is Ok,
    ensures
        second is Ok,
        first->Ok_0.link.source@ == second->Ok_0.link.source@,
        first->Ok_0.link.timestamp == first_at,
        second->Ok_0.link.timestamp == second_at,
        first->Ok_0.link.target == first_info,
        second->Ok_0.link.target == second_info,
        first_info@ != second_info@ ==> first->Ok_0.link.target@ != second->Ok_0.link.target@,
        first->Ok_0.data.entry@ == second->Ok_0.data.entry@,
{
}

/// Creating a channel twice and then listing its category: where the store
/// holds the two info-edges that the two calls asked for, and the later
/// description can be read, the listing has one entry for the channel and no
/// more, and it holds the later description.
pub proof fn lemma_create_twice_then_list(
    first: NewChannel,
    second: NewChannel,
    children: Seq<ChannelLinks>,
    records: Seq<InfoRecord>,
    at: int,
    place: int,
)
    requires
        first.link.timestamp.micros < second.link.timestamp.micros,
        distinct_channels(children),
        0 <= at < children.len(),
        children[at].channel@ == second.data.entry@,
        children[at].info_links@ == seq![first.link, second.link],
        is_first_record(records, second.link.target@, place),
    ensures
        ({
            let listed = listed_channels(children, records);
            let shown = ChannelDataView { entry: second.data.entry@, info: records[place].info@ };
            &&& listed.contains(shown)
            &&& forall|k: int|
                0 <= k < listed.len() && (#[trigger] listed[k]).entry == second.data.entry@ ==> k
                    == listed.index_of(shown)
        }),
{
    lemma_created_twice_listed_once(children, records, at, place);
}

/// Creates a channel: derives the address of the channel's path and says
/// what to add to the store. Fails exactly where the path has no address.
pub fn create_channel(
    channel_input: ChannelInput,
    created_by: AgentId,
    created_at: Timestamp,
    info_address: Address,
) -> (created: Result<NewChannel, ChatError>)
    ensures
        created is Ok <==> path_entry_hash(channel_components(channel_input.entry@)) is Some,
        channel_created(channel_input, created_by, created_at, info_address, created),
{
    let path = channel_path(&channel_input.entry);
    match address_of(&path) {
        Ok(channel_address) => Ok(
            create_channel_at(channel_input, created_by, created_at, info_address, channel_address),
        ),
        Err(error) => Err(error),
    }
}

} // verus!
