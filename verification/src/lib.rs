//! Channel-based chat over an append-only, content-addressed store that many
//! agents write to at once.
//!
//! The store holds records and timestamped, tagged edges between addresses.
//! Nothing in it is ever changed: a channel's description is edited by adding
//! a newer info-edge, an agent stays present by adding a fresher presence
//! edge. This library holds the rules of the chat as functions over what the
//! store was seen to hold; reading and writing the store is left to the caller.
//!
//! - [`path`]: channels, time buckets and the presence root as paths, and the
//!   address of a path.
//! - [`channel`]: creating a channel, and listing a category with the latest
//!   description of each channel.
//! - [`message`]: filing a message under its time bucket, merging the edges
//!   of a range of buckets, and turning records into messages.
//! - [`order`]: the stable sort of edges by time.
//! - [`paginate`]: the page of a listing, which never holds part of an hour
//!   only.
//! - [`presence`]: registering as present, the agents that are active within
//!   a window, and the count of a broadcast.
//! - [`time`]: the hour of the day of an instant and the whole hours between
//!   two instants.
//! - [`types`]: the records and edges.
//!
//! Every function is verified against its contract. Four functions are not:
//! they call into `chrono` and `hdk`, and their contracts are taken from the
//! sources of these crates: the hour of a date-time and the hours of a time
//! span in [`time`], the hash of a path in [`path`], and the check of an
//! agent's key in [`presence`]. Two things are named and not spelled out:
//! the hash of a path, with whether it has one, and whether there is a
//! date-time for a second.

pub mod channel;
pub mod message;
pub mod order;
pub mod paginate;
pub mod path;
pub mod presence;
pub mod time;
pub mod types;
