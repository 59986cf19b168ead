use vstd::prelude::*;

verus! {

/// Which channel lost its peer.
#[derive(Clone, Copy, Debug, PartialEq, Eq, Structural)]
pub enum Channel {
    /// The byte channel from the network reader to the coordinator.
    Bytes,
    /// The display-update channel into the renderer.
    Updates,
}

/// The ways a session can fail.
#[derive(Clone, Debug)]
pub enum Error {
    /// A socket or terminal operation failed; the text describes it.
    IOError(String),
    /// The host name could not be resolved; the text is the resolver's reason.
    AddressResolution(String),
    /// A configured value holds a NUL byte at `position`, after `preceding`.
    MalformedConfiguration { position: usize, preceding: Vec<u8> },
    /// The execution context at the other end of a channel is gone.
    ChannelDisconnected(Channel),
}

} // verus!
