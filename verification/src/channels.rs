//! Channel identifiers, delivery semantics, and the channel list an endpoint
//! opens at startup.
use vstd::prelude::*;
use crate::errors::QuintetError;

verus! {

/// Id of an opened channel.
pub type ChannelId = u8;

/// Maximum number of channels that can be opened simultaneously.
pub const MAX_CHANNEL_COUNT: usize = 256;

/// Length in bytes of the channel id prefix of an unreliable datagram.
pub const CHANNEL_ID_LEN: usize = 1;

/// Type of a channel, offering different delivery guarantees.
#[derive(Debug, Copy, Clone, PartialEq, Eq, Structural)]
pub enum ChannelType {
    /// Messages are delivered, and processed by the receiving end in the
    /// same order as they were sent.
    OrderedReliable,
    /// Messages are delivered, but they may arrive out of order.
    UnorderedReliable,
    /// Messages travel as unordered datagrams and may be lost.
    Unreliable,
}

/// An ordered list of channel types to be opened by an endpoint. Opened
/// channels (and their [`ChannelId`]) keep the order of this list, and the
/// first entry becomes the default channel.
#[derive(Debug, Clone)]
pub struct ChannelsConfiguration {
    channels: Vec<ChannelType>,
}

impl ChannelsConfiguration {
    /// The list of channel types, in the order they will be opened.
    pub closed spec fn view(&self) -> Seq<ChannelType> {
        self.channels@
    }

    /// The configuration never holds more entries than there are channel
    /// ids; every constructor maintains this.
    pub open spec fn wf(&self) -> bool {
        self@.len() <= MAX_CHANNEL_COUNT
    }

    /// New empty configuration.
    pub fn new() -> (r: Self)
        ensures
            r.wf(),
            r@ == Seq::<ChannelType>::empty(),
    {
        Self { channels: Vec::new() }
    }

    /// New configuration from a list of [`ChannelType`]; fails if the list
    /// holds more entries than [`MAX_CHANNEL_COUNT`].
    pub fn from_types(channel_types: Vec<ChannelType>) -> (r: Result<
        ChannelsConfiguration,
        QuintetError,
    >)
        ensures
            channel_types@.len() <= MAX_CHANNEL_COUNT ==> (r matches Ok(c) && c.wf() && c@
                == channel_types@),
            channel_types@.len() > MAX_CHANNEL_COUNT ==> r
                == Err::<ChannelsConfiguration, QuintetError>(
                QuintetError::MaxChannelsCountReached,
            ),
    {
        if channel_types.len() > MAX_CHANNEL_COUNT {
            Err(QuintetError::MaxChannelsCountReached)
        } else {
            Ok(Self { channels: channel_types })
        }
    }

    /// Appends one channel type; returns the [`ChannelId`] it will receive,
    /// or `None` if the configuration is already full.
    pub fn add(&mut self, channel_type: ChannelType) -> (r: Option<ChannelId>)
        requires
            old(self).wf(),
        ensures
            final(self).wf(),
            old(self)@.len() < MAX_CHANNEL_COUNT ==> {
                &&& final(self)@ == old(self)@.push(channel_type)
                &&& r == Some(old(self)@.len() as ChannelId)
            },
            old(self)@.len() >= MAX_CHANNEL_COUNT ==> {
                &&& final(self)@ == old(self)@
                &&& r == None::<ChannelId>
            },
    {
        if self.channels.len() < MAX_CHANNEL_COUNT {
            self.channels.push(channel_type);
            Some((self.channels.len() - 1) as u8)
        } else {
            None
        }
    }

    /// The configured channel types, in opening order.
    pub fn configs(&self) -> (r: &Vec<ChannelType>)
        ensures
            r@ == self@,
    {
        &self.channels
    }
}

impl Default for ChannelsConfiguration {
    /// The default configuration holds a single ordered reliable channel.
    fn default() -> (r: Self)
        ensures
            r.wf(),
            r@ == seq![ChannelType::OrderedReliable],
    {
        let mut channels: Vec<ChannelType> = Vec::new();
        channels.push(ChannelType::OrderedReliable);
        proof {
            assert(channels@ =~= seq![ChannelType::OrderedReliable]);
        }
        Self { channels }
    }
}

} // verus!
