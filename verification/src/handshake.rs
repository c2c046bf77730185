//! The identity handshake: immediately after a connection is accepted, the
//! server sends the allocated client id as a fixed-width big-endian frame
//! on a dedicated stream, and the client accepts it only if the frame is at
//! least the id width.
use vstd::prelude::*;
use crate::codec::{be64_of, be64_val, lemma_be64_round};
use crate::{ClientId, CLIENT_ID_LEN};

verus! {

/// A failure of the identity handshake.
#[derive(Debug, Clone, Copy, PartialEq, Eq, Structural)]
pub enum QuintetConnectionError {
    /// The identity stream never yielded a frame.
    ClientIdNotReceived,
    /// The identity frame was shorter than the id width.
    InvalidClientId,
}

/// The outcome of waiting for the server's identity frame.
#[derive(Debug, Clone, Copy, PartialEq, Eq, Structural)]
pub enum ClientIdReception {
    /// The close signal arrived before an identity was read.
    Interrupted,
    /// The identity was read from a well-formed frame.
    Retrieved(ClientId),
    /// The stream ended or yielded a malformed frame.
    Failed(QuintetConnectionError),
}

/// Classifies what the identity stream yielded: the id read big-endian
/// from the first [`CLIENT_ID_LEN`] bytes of a long-enough frame,
/// `InvalidClientId` for a shorter frame, and `ClientIdNotReceived` when
/// the stream never yielded a frame. The transport maps a close signal to
/// [`ClientIdReception::Interrupted`] before this decision is reached.
pub fn client_id_reception(frame: Option<Vec<u8>>) -> (r: ClientIdReception)
    ensures
        frame is None ==> r == ClientIdReception::Failed(
            QuintetConnectionError::ClientIdNotReceived,
        ),
        frame matches Some(f) ==> (f@.len() >= CLIENT_ID_LEN ==> r
            == ClientIdReception::Retrieved(be64_val(f@))),
        frame matches Some(f) ==> (f@.len() < CLIENT_ID_LEN ==> r == ClientIdReception::Failed(
            QuintetConnectionError::InvalidClientId,
        )),
{
    match frame {
        None => ClientIdReception::Failed(QuintetConnectionError::ClientIdNotReceived),
        Some(f) => {
            match crate::codec::read_client_id(&f) {
                Some(id) => ClientIdReception::Retrieved(id),
                None => ClientIdReception::Failed(QuintetConnectionError::InvalidClientId),
            }
        },
    }
}

/// Round trip of the identity handshake: the frame the server sends for a
/// client id is accepted by the client and yields that id.
pub proof fn lemma_identity_round_trip(id: ClientId)
    ensures
        be64_of(id).len() == CLIENT_ID_LEN,
        be64_val(be64_of(id)) == id,
{
    lemma_be64_round(id);
}

} // verus!
