//! The addressing scheme: a channel, a time bucket or the presence root is a
//! path of components, and a path has a deterministic address in the store.

use crate::types::{Address, Channel, ChannelView, ChatError, PathComponents};
use vstd::prelude::*;
use vstd::string::StringExecFns;

verus! {

/// The character of a decimal digit.
pub open spec fn digit_char(digit: int) -> char {
    if digit == 0 {
        '0'
    } else if digit == 1 {
        '1'
    } else if digit == 2 {
        '2'
    } else if digit == 3 {
        '3'
    } else if digit == 4 {
        '4'
    } else if digit == 5 {
        '5'
    } else if digit == 6 {
        '6'
    } else if digit == 7 {
        '7'
    } else if digit == 8 {
        '8'
    } else {
        '9'
    }
}

/// A number in decimal digits, without leading zeros.
pub open spec fn decimal(number: nat) -> Seq<char>
    decreases number,
{
    if number < 10 {
        seq![digit_char(number as int)]
    } else {
        decimal(number / 10).push(digit_char((number % 10) as int))
    }
}

/// The path of a category. The channels of the category lie right below it.
pub open spec fn category_components(category: Seq<char>) -> Seq<Seq<char>> {
    seq![category]
}

/// The path of a channel: its category, then its identifier.
pub open spec fn channel_components(channel: ChannelView) -> Seq<Seq<char>> {
    seq![channel.category, channel.uuid]
}

/// The path of a time bucket: the channel's path, then the bucket's key in
/// decimal digits.
pub open spec fn bucket_components(channel: ChannelView, bucket: u32) -> Seq<Seq<char>> {
    channel_components(channel).push(decimal(bucket as nat))
}

/// The path under which agents register as present.
pub open spec fn chatters_components() -> Seq<Seq<char>> {
    seq!["chatters"@]
}

/// The address that the store derives from a path: the hash of the path as
/// the store writes it down, or nothing where the path cannot be written
/// down.
pub uninterp spec fn path_entry_hash(components: Seq<Seq<char>>) -> Option<Seq<u8>>;

#[verifier::external_type_specification]
#[verifier::external_body]
pub struct ExWasmError(hdk::prelude::WasmError);

/// `hdk::prelude::Path::path_entry_hash` on the path whose components are
/// `hdk::prelude::Component::from` of each string in turn: whether it
/// answers, and with which 39 bytes, the path's components alone determine.
#[verifier::external_body]
fn hash_path(path: &PathComponents) -> (hash: Result<Vec<u8>, hdk::prelude::WasmError>)
    ensures
        match hash {
            Ok(address) => path_entry_hash(path.deep_view()) == Some(address@),
            Err(_) => path_entry_hash(path.deep_view()) is None,
        },
{
    let mut components: Vec<hdk::prelude::Component> = Vec::new();
    for part in path.iter() {
        components.push(hdk::prelude::Component::from(part));
    }
    match hdk::prelude::Path::from(components).path_entry_hash() {
        Ok(hash) => Ok(hash.into_inner()),
        Err(error) => Err(error),
    }
}

/// What asking for the address of a path comes back with: the hash of the
/// path where it has one, and where it has none the error that says so.
pub open spec fn is_address_of(
    components: Seq<Seq<char>>,
    address: Result<Address, ChatError>,
) -> bool {
    match address {
        Ok(hash) => path_entry_hash(components) == Some(hash@),
        Err(error) => error == ChatError::Address && path_entry_hash(components) is None,
    }
}

/// The address for what hashing a path came back with: the hash where there
/// is one, and else the error that says that the path has no address.
pub fn address_from(hashed: Result<Vec<u8>, hdk::prelude::WasmError>) -> (address: Result<
    Address,
    ChatError,
>)
    ensures
        match hashed {
            Ok(hash) => address == Ok::<Address, ChatError>(hash),
            Err(_) => address == Err::<Address, ChatError>(ChatError::Address),
        },
{
    match hashed {
        Ok(hash) => Ok(hash),
        Err(_) => Err(ChatError::Address),
    }
}

/// The address of a path. The same components give the same address,
/// whenever and wherever it is asked for. It fails exactly where the path
/// has no address.
pub fn address_of(path: &PathComponents) -> (address: Result<Address, ChatError>)
    ensures
        address is Ok <==> path_entry_hash(path.deep_view()) is Some,
        address matches Ok(hash) ==> path_entry_hash(path.deep_view()) == Some(hash@),
        address matches Err(error) ==> error == ChatError::Address,
        is_address_of(path.deep_view(), address),
{
    address_from(hash_path(path))
}

/// Asking twice for the address of the same path gives the same answer: an
/// address both times, and then the same, or none both times.
pub proof fn lemma_address_deterministic(
    components: Seq<Seq<char>>,
    first: Result<Address, ChatError>,
    second: Result<Address, ChatError>,
)
    requires
        is_address_of(components, first),
        is_address_of(components, second),
    ensures
        first is Ok <==> second is Ok,
        first is Ok ==> first->Ok_0@ == second->Ok_0@,
        first is Err ==> first->Err_0 == second->Err_0,
{
}

/// A number in decimal digits has a digit at least, and two digits from ten on.
pub proof fn lemma_decimal_len(number: nat)
    ensures
        decimal(number).len() >= 1,
        number >= 10 ==> decimal(number).len() >= 2,
    decreases number,
{
    if number >= 10 {
        lemma_decimal_len(number / 10);
    }
}

/// Different numbers are written differently.
pub proof fn lemma_decimal_injective(first: nat, second: nat)
    requires
        decimal(first) == decimal(second),
    ensures
        first == second,
    decreases first,
{
    lemma_decimal_len(first);
    lemma_decimal_len(second);
    if first >= 10 && second >= 10 {
        let head = decimal(first / 10);
        let other = decimal(second / 10);
        let digit = digit_char((first % 10) as int);
        let other_digit = digit_char((second % 10) as int);
        assert(head.push(digit).drop_last() =~= head);
        assert(other.push(other_digit).drop_last() =~= other);
        assert(head.push(digit).last() == digit);
        assert(other.push(other_digit).last() == other_digit);
        lemma_decimal_injective(first / 10, second / 10);
    } else if first < 10 && second < 10 {
        assert(decimal(first)[0] == digit_char(first as int));
        assert(decimal(second)[0] == digit_char(second as int));
    }
}

/// A channel lies right below its category.
pub proof fn lemma_channel_below_category(channel: ChannelView)
    ensures
        channel_components(channel).drop_last() == category_components(channel.category),
{
}

/// Different channels and different buckets lie on different paths.
pub proof fn lemma_bucket_path_injective(
    first: ChannelView,
    first_bucket: u32,
    second: ChannelView,
    second_bucket: u32,
)
    requires
        bucket_components(first, first_bucket) == bucket_components(second, second_bucket),
    ensures
        first == second,
        first_bucket == second_bucket,
{
    let one = bucket_components(first, first_bucket);
    let other = bucket_components(second, second_bucket);
    assert(one[0] == first.category && other[0] == second.category);
    assert(one[1] == first.uuid && other[1] == second.uuid);
    assert(one[2] == decimal(first_bucket as nat) && other[2] == decimal(second_bucket as nat));
    lemma_decimal_injective(first_bucket as nat, second_bucket as nat);
}

fn digit_str(digit: u32) -> (text: &'static str)
    requires
        digit < 10,
    ensures
        text@ == seq![digit_char(digit as int)],
{
    proof {
        reveal_strlit("0");
        reveal_strlit("1");
        reveal_strlit("2");
        reveal_strlit("3");
        reveal_strlit("4");
        reveal_strlit("5");
        reveal_strlit("6");
        reveal_strlit("7");
        reveal_strlit("8");
        reveal_strlit("9");
    }
    let text: &'static str = if digit == 0 {
        "0"
    } else if digit == 1 {
        "1"
    } else if digit == 2 {
        "2"
    } else if digit == 3 {
        "3"
    } else if digit == 4 {
        "4"
    } else if digit == 5 {
        "5"
    } else if digit == 6 {
        "6"
    } else if digit == 7 {
        "7"
    } else if digit == 8 {
        "8"
    } else {
        "9"
    };
    text
}

/// The number in decimal digits.
pub fn decimal_string(number: u32) -> (text: String)
    ensures
        text@ == decimal(number as nat),
    decreases number,
{
    if number < 10 {
        String::from_str(digit_str(number))
    } else {
        let mut text: String = decimal_string(number / 10);
        text.append(digit_str(number % 10));
        text
    }
}

/// The path of a category, under which its channels are found.
pub fn category_path(category: &String) -> (path: PathComponents)
    ensures
        path.deep_view() == category_components(category@),
{
    let mut path: PathComponents = Vec::new();
    path.push(category.clone());
    path
}

/// The path of a channel: its category, then its identifier.
pub fn channel_path(channel: &Channel) -> (path: PathComponents)
    ensures
        path.deep_view() == channel_components(channel@),
{
    let mut path: PathComponents = Vec::new();
    path.push(channel.category.clone());
    path.push(channel.uuid.clone());
    path
}

/// The channel that a path names: a path of two components is a channel's,
/// no other is.
pub fn channel_of_path(path: &PathComponents) -> (channel: Option<Channel>)
    ensures
        path.len() != 2 <==> channel is None,
        channel matches Some(named) ==> channel_components(named@) == path.deep_view(),
{
    if path.len() == 2 {
        let named = Channel { category: path[0].clone(), uuid: path[1].clone() };
        Some(named)
    } else {
        None
    }
}

/// Extends a path by the key of a time bucket, in decimal digits.
pub fn add_chunk_path(path: PathComponents, chunk: u32) -> (extended: PathComponents)
    ensures
        extended.deep_view() == path.deep_view().push(decimal(chunk as nat)),
{
    let mut extended: PathComponents = path;
    extended.push(decimal_string(chunk));
    extended
}

/// The path of a channel's time bucket.
pub fn bucket_path(channel: &Channel, chunk: u32) -> (path: PathComponents)
    ensures
        path.deep_view() == bucket_components(channel@, chunk),
{
    add_chunk_path(channel_path(channel), chunk)
}

/// The path under which agents register as present.
pub fn chatters_path() -> (path: PathComponents)
    ensures
        path.deep_view() == chatters_components(),
{
    let mut path: PathComponents = Vec::new();
    path.push(String::from_str("chatters"));
    path
}

} // verus!
