use vstd::prelude::*;

use crate::exit::{spec_encode, ExitCode};
use crate::session::Session;
use crate::shared::{bytes_contents, bytes_from_vec};

verus! {

/// A message received on a channel from a session.
#[derive(Clone)]
pub struct Packet {
    pub payload: bytes::Bytes,
    pub session: Session,
    pub channel: ChannelId,
}

impl Packet {
    /// The packet that tells a session why it is disconnected.
    pub fn from_exit(session: Session, exit: ExitCode) -> (r: Packet)
        ensures
            bytes_contents(r.payload) == spec_encode(exit),
            r.session == session,
            r.channel.0 == 65535,
    {
        Packet { payload: exit.to_bytes(), session, channel: ChannelId::exit_code() }
    }
}

/// Unique identifier of a channel, on which messages can be sent between the client and
/// server.
#[derive(Copy, Clone, Eq, PartialEq, Debug, Structural)]
pub struct ChannelId(pub usize);

impl ChannelId {
    /// Sent over TCP to indicate disconnection, either by the Server forcing a disconnect or a
    /// disconnection requested by the Client.
    pub fn exit_code() -> (r: ChannelId)
        ensures
            r.0 == 65535,
    {
        ChannelId(65535)
    }

    /// Sent from the Client to the Server on join.
    pub fn auth_req() -> (r: ChannelId)
        ensures
            r.0 == 65534,
    {
        ChannelId(65534)
    }

    /// Sent from the server to the client to synchronize registry state.
    pub fn sync_data() -> (r: ChannelId)
        ensures
            r.0 == 65533,
    {
        ChannelId(65533)
    }

    /// Whether the channel is one of the reserved channels, from 32768 up.
    pub fn is_special(self) -> (r: bool)
        ensures
            r == (self.0 >= 32768),
    {
        self.0 >= 32768
    }
}

#[derive(Copy, Clone, Eq, PartialEq, Debug, Structural)]
pub enum Protocol {
    /// Reliable, Ordered, High-Latency
    Tcp,
    /// Unreliable, Unordered, Low-Latency
    Udp,
}

#[derive(Copy, Clone, Eq, PartialEq, Debug, Structural)]
pub enum SentBy {
    Server,
    Client,
    Both,
}

/// Versions UDP component updates, wrapping around.
#[derive(Copy, Clone, Eq, PartialEq, Debug, Structural)]
pub struct Version(pub u32);

impl Version {
    /// The first version.
    pub fn new() -> (r: Version)
        ensures
            r.0 == 0,
    {
        Version(0)
    }

    /// Step to the next version, wrapping around, and return it.
    pub fn next(&mut self) -> (r: Version)
        ensures
            final(self).0 == (if old(self).0 == u32::MAX {
                0
            } else {
                old(self).0 + 1
            }),
            r == *final(self),
    {
        self.0 = self.0.wrapping_add(1);
        Version(self.0)
    }

    /// Take other if it is more recent than self. A very large self and a very small other
    /// count as a wrap around, so other is more recent.
    /// Returns "true" if an update occurred.
    pub fn update(&mut self, other: Version) -> (r: bool)
        ensures
            r == (other.0 > old(self).0 || (old(self).0 > 32768 && other.0 < 256)),
            r ==> *final(self) == other,
            !r ==> *final(self) == *old(self),
    {
        if other.0 > self.0 || self.0 > 32768 && other.0 < 256 {
            self.0 = other.0;
            true
        } else {
            false
        }
    }
}

impl Default for Version {
    fn default() -> (r: Version)
        ensures
            r.0 == 0,
    {
        Version(0)
    }
}


/// Metadata about a component update sent from the server to the client.
#[derive(Copy, Clone)]
pub struct SyncUpdate<T> {
    /// The version of the entity, to resolve ordering issues.
    pub version: u16,
    /// Sync id of the target entity.
    pub sync_id: u16,
    /// Component data.
    pub payload: T,
}


/// An update to a component of an entity.
#[derive(Copy, Clone)]
pub struct EntityUpdate<T> {
    pub version: u32,
    pub entity_id: u32,
    pub payload: T,
}

impl<T> EntityUpdate<T> {
    pub fn new(version: u32, entity_id: u32, payload: T) -> (r: EntityUpdate<T>)
        ensures
            r.version == version,
            r.entity_id == entity_id,
            r.payload == payload,
    {
        EntityUpdate { version, entity_id, payload }
    }
}

} // verus!
