//! The order server's logic: framing the byte stream of each client into
//! requests and putting all requests into one total order.
//!
//! A client's bytes are collected in an accumulator. While it holds a whole
//! record, the record is decoded; a record of unknown kind is not a request,
//! and the stream is resynchronised by dropping one byte and trying again.
//! Every request gets the next number of the sequencer: that number is the
//! order in which the exchange serves requests.
//!
//! Sockets are not part of this module: the caller accepts connections and
//! reads bytes, and hands both in.

use vstd::prelude::*;
use vstd::slice::slice_subrange;
use vstd::std_specs::iter::IteratorSpec;
use std::collections::HashMap;
use crate::common::types::ClientId;
use crate::exchange::protocol::{ClientRequest, CLIENT_REQUEST_SIZE};

verus! {

broadcast use vstd::std_specs::hash::group_hash_axioms;

/// The port on which the order server listens unless told otherwise.
pub const DEFAULT_ORDER_SERVER_PORT: u16 = 12345;

/// The length of the listen backlog.
pub const MAX_PENDING_CONNECTIONS: i32 = 128;

/// Hands out sequence numbers: 1, 2, 3 and so on.
#[derive(Debug)]
pub struct FifoSequencer {
    next_seq: u64,
}

impl Default for FifoSequencer {
    fn default() -> (r: FifoSequencer)
        ensures
            r.upcoming() == 1,
    {
        FifoSequencer::new()
    }
}

impl FifoSequencer {
    /// The number that is handed out next.
    pub closed spec fn upcoming(&self) -> u64 {
        self.next_seq
    }

    /// Creates a sequencer that starts at 1.
    pub fn new() -> (r: FifoSequencer)
        ensures
            r.upcoming() == 1,
    {
        FifoSequencer { next_seq: 1 }
    }

    /// Hands out the next number.
    pub fn next(&mut self) -> (r: u64)
        requires
            old(self).upcoming() < u64::MAX,
        ensures
            r == old(self).upcoming(),
            final(self).upcoming() == old(self).upcoming() + 1,
    {
        let seq = self.next_seq;
        self.next_seq = seq + 1;
        seq
    }

    /// Returns the number that is handed out next.
    pub fn current(&self) -> (r: u64)
        ensures
            r == self.upcoming(),
    {
        self.next_seq
    }
}

/// A request with its place in the total order and the client it came from.
#[derive(Debug, Clone, Copy, PartialEq, Eq, Structural)]
pub struct SequencedRequest {
    pub sequence_number: u64,
    pub client_id: ClientId,
    pub request: ClientRequest,
}

/// Where the order server listens.
#[derive(Debug, Clone)]
pub struct OrderServerConfig {
    pub listen_addr: String,
    pub port: u16,
}

impl Default for OrderServerConfig {
    fn default() -> (r: OrderServerConfig)
        ensures
            r.listen_addr@ == "0.0.0.0"@,
            r.port == DEFAULT_ORDER_SERVER_PORT,
    {
        OrderServerConfig { listen_addr: "0.0.0.0".to_string(), port: DEFAULT_ORDER_SERVER_PORT }
    }
}

impl OrderServerConfig {
    /// Creates a configuration.
    pub fn new(listen_addr: &str, port: u16) -> (r: OrderServerConfig)
        ensures
            r.listen_addr@ == listen_addr@,
            r.port == port,
    {
        OrderServerConfig { listen_addr: listen_addr.to_string(), port }
    }
}

/// The requests in a stream of bytes, with the bytes that are left over.
///
/// While 30 bytes or more remain, the first 30 are decoded. A record of
/// known kind is a request, and framing goes on behind it; otherwise one
/// byte is dropped and framing goes on behind that byte. Fewer than 30
/// bytes are left over for later.
pub open spec fn framed(bytes: Seq<u8>) -> (Seq<ClientRequest>, Seq<u8>)
    decreases bytes.len(),
{
    if bytes.len() < CLIENT_REQUEST_SIZE {
        (Seq::empty(), bytes)
    } else {
        let record = ClientRequest::decode(bytes.subrange(0, CLIENT_REQUEST_SIZE as int))->0;
        if record.kind() is Some {
            let rest = framed(bytes.skip(CLIENT_REQUEST_SIZE as int));
            (seq![record] + rest.0, rest.1)
        } else {
            framed(bytes.skip(1))
        }
    }
}

/// Framing yields no more requests than whole records fit, and leaves fewer
/// bytes than one record.
pub proof fn lemma_framed_bounds(bytes: Seq<u8>)
    ensures
        framed(bytes).0.len() * CLIENT_REQUEST_SIZE <= bytes.len(),
        framed(bytes).1.len() < CLIENT_REQUEST_SIZE,
        forall|i: int| 0 <= i < framed(bytes).0.len() ==> (#[trigger] framed(bytes).0[i]).kind() is Some,
    decreases bytes.len(),
{
    if bytes.len() >= CLIENT_REQUEST_SIZE {
        let record = ClientRequest::decode(bytes.subrange(0, CLIENT_REQUEST_SIZE as int))->0;
        if record.kind() is Some {
            lemma_framed_bounds(bytes.skip(CLIENT_REQUEST_SIZE as int));
        } else {
            lemma_framed_bounds(bytes.skip(1));
        }
    }
}

/// A connected client: its id and the bytes received but not yet framed.
pub struct ClientConnection {
    pub client_id: ClientId,
    recv_buffer: Vec<u8>,
}

impl ClientConnection {
    /// The bytes received but not yet framed.
    pub closed spec fn buffered(&self) -> Seq<u8> {
        self.recv_buffer@
    }

    /// The id of the client.
    pub closed spec fn id(&self) -> ClientId {
        self.client_id
    }

    /// Creates the connection of a client with nothing received.
    pub fn new(client_id: ClientId) -> (r: ClientConnection)
        ensures
            r.id() == client_id,
            r.buffered() == Seq::<u8>::empty(),
    {
        ClientConnection { client_id, recv_buffer: Vec::new() }
    }

    /// Returns the number of bytes received but not yet framed.
    pub fn buffered_len(&self) -> (r: usize)
        ensures
            r == self.buffered().len(),
    {
        self.recv_buffer.len()
    }

    /// Takes the bytes just received and returns the requests that are now
    /// complete, in the order of the stream.
    pub fn receive(&mut self, data: &[u8]) -> (r: Vec<ClientRequest>)
        ensures
            final(self).id() == old(self).id(),
            r@ == framed(old(self).buffered() + data@).0,
            final(self).buffered() == framed(old(self).buffered() + data@).1,
    {
        self.recv_buffer.extend_from_slice(data);
        let ghost input = self.recv_buffer@;
        let mut requests: Vec<ClientRequest> = Vec::new();
        let mut pos: usize = 0;
        proof {
            assert(input =~= old(self).buffered() + data@);
            assert(input.skip(0) =~= input);
        }
        while self.recv_buffer.len() - pos >= CLIENT_REQUEST_SIZE
            invariant
                pos <= self.recv_buffer.len(),
                self.recv_buffer@ == input,
                self.client_id == old(self).client_id,
                framed(input) == (
                    requests@ + framed(input.skip(pos as int)).0,
                    framed(input.skip(pos as int)).1,
                ),
            decreases self.recv_buffer.len() - pos,
        {
            let ghost rest = input.skip(pos as int);
            let ghost before = requests@;
            let window = slice_subrange(self.recv_buffer.as_slice(), pos, pos + CLIENT_REQUEST_SIZE);
            proof {
                assert(window@ =~= rest.subrange(0, CLIENT_REQUEST_SIZE as int));
            }
            let decoded = ClientRequest::from_bytes(window);
            let step: usize = match decoded {
                Some(request) => {
                    if request.request_type().is_some() {
                        requests.push(request);
                        CLIENT_REQUEST_SIZE
                    } else {
                        1
                    }
                },
                None => 1,
            };
            proof {
                assert(rest.skip(step as int) =~= input.skip(pos + step));
                if step == CLIENT_REQUEST_SIZE {
                    let record = decoded->0;
                    assert(requests@ + framed(input.skip(pos + step)).0 =~= before + (
                    seq![record] + framed(rest.skip(step as int)).0)) by {
                        assert(requests@ =~= before.push(record));
                    }
                }
            }
            pos = pos + step;
        }
        let tail = self.recv_buffer.split_off(pos);
        self.recv_buffer = tail;
        proof {
            let rest = input.skip(pos as int);
            assert(self.recv_buffer@ =~= rest);
            assert(rest.len() < CLIENT_REQUEST_SIZE);
            assert(framed(rest) == (Seq::<ClientRequest>::empty(), rest));
            assert(requests@ + Seq::<ClientRequest>::empty() =~= requests@);
            assert(framed(input).0 =~= requests@);
            assert(framed(input).1 =~= self.recv_buffer@);
        }
        requests
    }
}

/// The order server without its sockets: the connected clients, the
/// sequencer and the counter of client ids.
pub struct OrderServer {
    clients: HashMap<ClientId, ClientConnection>,
    sequencer: FifoSequencer,
    next_client_id: ClientId,
    config: OrderServerConfig,
}

impl OrderServer {
    /// The connected clients.
    pub closed spec fn clients(&self) -> Map<ClientId, ClientConnection> {
        self.clients@
    }

    /// The sequence number that the next request receives.
    pub closed spec fn upcoming_sequence(&self) -> u64 {
        self.sequencer.upcoming()
    }

    /// The id that the next client receives.
    pub closed spec fn upcoming_client(&self) -> ClientId {
        self.next_client_id
    }

    /// The configuration of the server.
    pub closed spec fn settings(&self) -> OrderServerConfig {
        self.config
    }

    /// The invariant of the server: every connection is filed under its own
    /// client id, and client ids in use are below the counter.
    pub open spec fn wf(&self) -> bool {
        forall|c: ClientId| #[trigger]
            self.clients().contains_key(c) ==> self.clients()[c].id() == c && c
                < self.upcoming_client()
    }

    /// Creates a server without clients. Sequence numbers and client ids
    /// start at 1.
    pub fn new(config: OrderServerConfig) -> (r: OrderServer)
        ensures
            r.wf(),
            r.clients() == Map::<ClientId, ClientConnection>::empty(),
            r.upcoming_sequence() == 1,
            r.upcoming_client() == 1,
    {
        OrderServer {
            clients: HashMap::new(),
            sequencer: FifoSequencer::new(),
            next_client_id: 1,
            config,
        }
    }

    /// Creates a server with the default configuration.
    pub fn with_defaults() -> (r: OrderServer)
        ensures
            r.wf(),
            r.clients() == Map::<ClientId, ClientConnection>::empty(),
            r.upcoming_sequence() == 1,
            r.upcoming_client() == 1,
    {
        OrderServer::new(OrderServerConfig::default())
    }

    /// Creates a server for all interfaces on the given port.
    pub fn on_port(port: u16) -> (r: OrderServer)
        ensures
            r.wf(),
            r.clients() == Map::<ClientId, ClientConnection>::empty(),
            r.upcoming_sequence() == 1,
            r.upcoming_client() == 1,
    {
        OrderServer::new(OrderServerConfig::new("0.0.0.0", port))
    }

    /// Registers a connection that the caller accepted and returns the id
    /// of the new client: the next id, never used before.
    pub fn accept(&mut self) -> (r: ClientId)
        requires
            old(self).wf(),
            old(self).upcoming_client() < u32::MAX,
        ensures
            final(self).wf(),
            r == old(self).upcoming_client(),
            !old(self).clients().contains_key(r),
            final(self).upcoming_client() == r + 1,
            final(self).upcoming_sequence() == old(self).upcoming_sequence(),
            final(self).clients().dom() == old(self).clients().dom().insert(r),
            final(self).clients()[r].buffered() == Seq::<u8>::empty(),
            forall|c: ClientId|
                old(self).clients().contains_key(c) ==> final(self).clients()[c] == old(self).clients()[c],
    {
        let client_id = self.next_client_id;
        self.next_client_id = client_id + 1;
        self.clients.insert(client_id, ClientConnection::new(client_id));
        assert(final(self).clients().dom() =~= old(self).clients().dom().insert(client_id));
        client_id
    }

    /// Takes the bytes just received from a client and returns the
    /// requests that are now complete, numbered in the order of the stream.
    /// Bytes of an unknown client are dropped.
    pub fn on_data(&mut self, client_id: ClientId, data: &[u8]) -> (r: Vec<SequencedRequest>)
        requires
            old(self).wf(),
            old(self).clients().contains_key(client_id) ==> old(self).upcoming_sequence() + (old(self).clients()[client_id].buffered().len() + data@.len()) / 30 <= u64::MAX,
        ensures
            final(self).wf(),
            final(self).upcoming_client() == old(self).upcoming_client(),
            final(self).clients().dom() == old(self).clients().dom(),
            forall|c: ClientId|
                c != client_id && old(self).clients().contains_key(c) ==> final(self).clients()[c]
                    == old(self).clients()[c],
            !old(self).clients().contains_key(client_id) ==> {
                &&& r@.len() == 0
                &&& final(self).upcoming_sequence() == old(self).upcoming_sequence()
            },
            old(self).clients().contains_key(client_id) ==> {
                let result = framed(old(self).clients()[client_id].buffered() + data@);
                &&& r@.len() == result.0.len()
                &&& final(self).clients()[client_id].buffered() == result.1
                &&& final(self).upcoming_sequence() == old(self).upcoming_sequence() + r@.len()
                &&& forall|i: int|
                    0 <= i < r@.len() ==> #[trigger] r@[i] == (SequencedRequest {
                        sequence_number: (old(self).upcoming_sequence() + i) as u64,
                        client_id,
                        request: result.0[i],
                    })
            },
    {
        let mut out: Vec<SequencedRequest> = Vec::new();
        let mut connection = match self.clients.remove(&client_id) {
            Some(connection) => connection,
            None => {
                assert(final(self).clients() =~= old(self).clients());
                return out;
            },
        };
        proof {
            lemma_framed_bounds(connection.buffered() + data@);
        }
        let requests = connection.receive(data);
        self.clients.insert(client_id, connection);
        let ghost start = self.sequencer.upcoming();
        let ghost filed = self.clients@;
        let mut i: usize = 0;
        proof {
            assert(filed.dom() =~= old(self).clients().dom());
        }
        while i < requests.len()
            invariant
                i <= requests.len(),
                self.clients@ == filed,
                self.next_client_id == old(self).next_client_id,
                self.sequencer.upcoming() == start + i,
                start + requests@.len() <= u64::MAX,
                out@.len() == i,
                forall|k: int|
                    0 <= k < i ==> #[trigger] out@[k] == (SequencedRequest {
                        sequence_number: (start + k) as u64,
                        client_id,
                        request: requests@[k],
                    }),
            decreases requests.len() - i,
        {
            let sequence_number = self.sequencer.next();
            out.push(SequencedRequest { sequence_number, client_id, request: requests[i] });
            i = i + 1;
        }
        out
    }

    /// Forgets a client. Returns whether it was connected.
    pub fn disconnect_client(&mut self, client_id: ClientId) -> (r: bool)
        requires
            old(self).wf(),
        ensures
            final(self).wf(),
            r == old(self).clients().contains_key(client_id),
            final(self).clients() == old(self).clients().remove(client_id),
            final(self).upcoming_sequence() == old(self).upcoming_sequence(),
            final(self).upcoming_client() == old(self).upcoming_client(),
    {
        let removed = self.clients.remove(&client_id);
        proof {
            assert forall|c: ClientId| #[trigger] self.clients().contains_key(c) implies self.clients()[c].id()
                == c && c < self.upcoming_client() by {
                assert(old(self).clients().contains_key(c));
            }
        }
        removed.is_some()
    }

    /// Forgets all clients.
    pub fn disconnect_all(&mut self)
        ensures
            final(self).wf(),
            final(self).clients() == Map::<ClientId, ClientConnection>::empty(),
            final(self).upcoming_sequence() == old(self).upcoming_sequence(),
            final(self).upcoming_client() == old(self).upcoming_client(),
    {
        self.clients.clear();
    }

    /// Returns the number of connected clients.
    pub fn client_count(&self) -> (r: usize)
        ensures
            r == self.clients().dom().len(),
    {
        self.clients.len()
    }

    /// Returns true if no client is connected.
    pub fn is_empty(&self) -> (r: bool)
        ensures
            r == (self.clients().dom().len() == 0),
    {
        self.clients.len() == 0
    }

    /// Returns the sequence number that the next request receives.
    pub fn current_sequence(&self) -> (r: u64)
        ensures
            r == self.upcoming_sequence(),
    {
        self.sequencer.current()
    }

    /// Returns the id that the next accepted client receives.
    pub fn next_client_id(&self) -> (r: ClientId)
        ensures
            r == self.upcoming_client(),
    {
        self.next_client_id
    }

    /// Returns the configuration.
    pub fn config(&self) -> (r: &OrderServerConfig)
        ensures
            *r == self.settings(),
    {
        &self.config
    }

    /// Returns the ids of the connected clients, each once, in no
    /// particular order.
    pub fn client_ids(&self) -> (r: Vec<ClientId>)
        ensures
            r@.no_duplicates(),
            r@.to_set() == self.clients().dom(),
    {
        let mut out: Vec<ClientId> = Vec::new();
        let ghost keys = self.clients.keys().remaining().unref();
        let ghost n: int = 0;
        for key in it: self.clients.keys()
            invariant
                it.seq().unref() == keys,
                n == it.index(),
                keys.no_duplicates(),
                keys.to_set() == self.clients@.dom(),
                out@ == keys.take(n),
        {
            out.push(*key);
            proof {
                assert(keys.take(n + 1) =~= keys.take(n).push(keys[n]));
                n = n + 1;
            }
        }
        proof {
            assert(keys.take(n) =~= keys);
        }
        out
    }

    /// Returns the connection of a client, if it is connected.
    pub fn get_client(&self, client_id: ClientId) -> (r: Option<&ClientConnection>)
        ensures
            r is Some <==> self.clients().contains_key(client_id),
            r matches Some(c) ==> *c == self.clients()[client_id],
    {
        self.clients.get(&client_id)
    }
}

/// Requests that were numbered one after the other are in ascending order
/// of their sequence numbers: sorting them by sequence number changes
/// nothing.
pub proof fn lemma_numbered_ascending(requests: Seq<SequencedRequest>, start: u64)
    requires
        start + requests.len() <= u64::MAX,
        forall|i: int|
            0 <= i < requests.len() ==> (#[trigger] requests[i]).sequence_number == start + i,
    ensures
        forall|i: int, j: int|
            0 <= i < j < requests.len() ==> (#[trigger] requests[i]).sequence_number < (
            #[trigger] requests[j]).sequence_number,
{
}

} // verus!
