use crate::frame::{Reason, StreamId};
use vstd::prelude::*;

verus! {

/// The two sides of a connection; they differ in the ids they open.
#[derive(Clone, Copy, Debug, PartialEq, Eq, Structural)]
pub enum Role {
    Client,
    Server,
}

impl Role {
    /// Clients open odd ids, servers even nonzero ids.
    pub open spec fn opens(self, id: nat) -> bool {
        id != 0 && (if self is Client { id % 2 == 1 } else { id % 2 == 0 })
    }

    pub open spec fn peer(self) -> Role {
        if self is Client { Role::Server } else { Role::Client }
    }

    pub fn is_valid_local_stream_id(&self, id: StreamId) -> (r: bool)
        ensures
            r == self.opens(id.spec_id()),
    {
        match *self {
            Role::Client => id.is_client_initiated(),
            Role::Server => id.is_server_initiated(),
        }
    }

    pub fn is_valid_remote_stream_id(&self, id: StreamId) -> (r: bool)
        ensures
            r == self.peer().opens(id.spec_id()),
    {
        match *self {
            Role::Client => id.is_server_initiated(),
            Role::Server => id.is_client_initiated(),
        }
    }
}

/// The head of a request that a client sends. Header names are text;
/// header values are kept as the octets they are.
#[derive(Clone, Debug)]
pub struct RequestHead {
    pub method: String,
    pub path: String,
    pub scheme: Option<String>,
    pub authority: Option<String>,
    pub headers: Vec<(String, Vec<u8>)>,
}

/// The head of a response that a client receives.
#[derive(Clone, Debug)]
pub struct ResponseHead {
    pub status: u16,
    pub headers: Vec<(String, Vec<u8>)>,
}

/// The pseudo-header fields of a header block.
#[derive(Clone, Debug)]
pub struct Pseudo {
    pub method: Option<String>,
    pub scheme: Option<String>,
    pub authority: Option<String>,
    pub path: Option<String>,
    pub status: Option<u16>,
}

/// A HEADERS frame before it is compressed: the pseudo-headers, the
/// ordinary fields, and the END_STREAM flag.
#[derive(Clone, Debug)]
pub struct Headers {
    pub stream_id: StreamId,
    pub pseudo: Pseudo,
    pub fields: Vec<(String, Vec<u8>)>,
    pub end_stream: bool,
}

/// Marker type indicating a client peer.
#[derive(Clone, Copy, Debug)]
pub struct Client;

impl Client {
    pub fn is_valid_local_stream_id(id: StreamId) -> (r: bool)
        ensures
            r == Role::Client.opens(id.spec_id()),
    {
        id.is_client_initiated()
    }

    pub fn is_valid_remote_stream_id(id: StreamId) -> (r: bool)
        ensures
            r == Role::Server.opens(id.spec_id()),
    {
        id.is_server_initiated()
    }

    /// The HEADERS frame that carries a request: `:method` and `:path`
    /// always, `:scheme` and `:authority` where the request has them.
    pub fn convert_send_message(id: StreamId, head: RequestHead, end_of_stream: bool) -> (r:
        Headers)
        ensures
            r.stream_id == id,
            r.pseudo.method == Some(head.method),
            r.pseudo.path == Some(head.path),
            r.pseudo.scheme == head.scheme,
            r.pseudo.authority == head.authority,
            r.pseudo.status is None,
            r.fields == head.headers,
            r.end_stream == end_of_stream,
    {
        let RequestHead { method, path, scheme, authority, headers } = head;
        let pseudo = Pseudo {
            method: Some(method),
            scheme,
            authority,
            path: Some(path),
            status: None,
        };
        Headers { stream_id: id, pseudo, fields: headers, end_stream: end_of_stream }
    }

    /// The response that a received HEADERS frame carries; a block without
    /// `:status` is a protocol error.
    pub fn convert_poll_message(headers: Headers) -> (r: Result<ResponseHead, Reason>)
        ensures
            headers.pseudo.status matches Some(s) ==> r == Ok::<ResponseHead, Reason>(
                ResponseHead { status: s, headers: headers.fields },
            ),
            headers.pseudo.status is None ==> r == Err::<ResponseHead, Reason>(
                Reason::ProtocolError,
            ),
    {
        match headers.pseudo.status {
            Some(status) => Ok(ResponseHead { status, headers: headers.fields }),
            None => Err(Reason::ProtocolError),
        }
    }
}

} // verus!
