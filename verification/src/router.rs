//! The per-request dispatch: resolve the session, parse the body into
//! packets, route each to its handler, and drain the player's outbound
//! queue into the response.
use vstd::prelude::*;
use vstd::bytes::{spec_u16_from_le_bytes, spec_u32_from_le_bytes, spec_u32_to_le_bytes};
use crate::rw::{Reader, SimplePacketQueue, packet_spec, u32_of_i32, string_from_utf8};
use crate::builders;
use crate::builders::{OSU_PING, SRV_PONG, SRV_USER_ID, SRV_RESTART};
use crate::player::{
    Player, PlayerList, ByteQueue, Action, Geolocation, same_player_but_queue,
};
use crate::session::SessionTokenStore;
use crate::login::LoginData;
use crate::privileges::Privileges;
use crate::modes::{Mode, CustomMode};

verus! {

/// The bytes of the answer to one keepalive ping.
pub open spec fn pong_packet() -> Seq<u8> {
    packet_spec(SRV_PONG, Seq::<u8>::empty())
}

/// What one pass over a packet stream appends to an outbound queue held at
/// `queue`. A truncated header or a payload shorter than its declared
/// length aborts the rest of the stream; a packet with an unknown id is
/// skipped over its declared length, so it never desynchronizes what
/// follows.
pub open spec fn process_packets_spec(stream: Seq<u8>, queue: Seq<u8>) -> Seq<u8>
    decreases stream.len(),
{
    if stream.len() < 7 {
        queue
    } else {
        let id = spec_u16_from_le_bytes(stream.take(2));
        let len = spec_u32_from_le_bytes(stream.subrange(3, 7)) as int;
        if stream.len() - 7 < len {
            queue
        } else {
            let q2 = if id == OSU_PING {
                queue + pong_packet()
            } else {
                queue
            };
            process_packets_spec(stream.skip(7 + len), q2)
        }
    }
}

/// What one pass over a packet stream produces on its own, starting from
/// nothing.
pub open spec fn packets_out(stream: Seq<u8>) -> Seq<u8> {
    process_packets_spec(stream, Seq::<u8>::empty())
}

/// Whatever sits in the queue already only frames what the stream appends.
pub proof fn lemma_process_packets_frame(stream: Seq<u8>, queue: Seq<u8>)
    ensures
        process_packets_spec(stream, queue) == queue + packets_out(stream),
    decreases stream.len(),
{
    if stream.len() < 7 {
        assert(queue + Seq::<u8>::empty() =~= queue);
    } else {
        let id = spec_u16_from_le_bytes(stream.take(2));
        let len = spec_u32_from_le_bytes(stream.subrange(3, 7)) as int;
        if stream.len() - 7 < len {
            assert(queue + Seq::<u8>::empty() =~= queue);
        } else {
            let rest = stream.skip(7 + len);
            lemma_process_packets_frame(rest, queue + pong_packet());
            lemma_process_packets_frame(rest, queue);
            lemma_process_packets_frame(rest, pong_packet());
            lemma_process_packets_frame(rest, Seq::<u8>::empty());
            if id == OSU_PING {
                assert((queue + pong_packet()) + packets_out(rest) =~= queue + (pong_packet()
                    + packets_out(rest)));
                assert(Seq::<u8>::empty() + pong_packet() =~= pong_packet());
            } else {
                assert(Seq::<u8>::empty() + packets_out(rest) =~= packets_out(rest));
            }
        }
    }
}

/// Forward compatibility: a packet whose id has no handler is skipped as a
/// whole, so a stream that starts with one is processed exactly as if that
/// packet were absent.
pub proof fn lemma_unknown_packet_skipped(id: u16, payload: Seq<u8>, rest: Seq<u8>, queue: Seq<u8>)
    requires
        id != OSU_PING,
        payload.len() <= u32::MAX,
    ensures
        process_packets_spec(packet_spec(id, payload) + rest, queue) == process_packets_spec(
            rest,
            queue,
        ),
{
    vstd::bytes::lemma_auto_spec_u16_to_from_le_bytes();
    vstd::bytes::lemma_auto_spec_u32_to_from_le_bytes();
    crate::rw::lemma_packet_framing(id, payload);
    let s = packet_spec(id, payload) + rest;
    assert(s.take(2) =~= vstd::bytes::spec_u16_to_le_bytes(id));
    assert(s.subrange(3, 7) =~= spec_u32_to_le_bytes(payload.len() as u32));
    assert(s.skip(7 + payload.len() as int) =~= rest);
}

/// A keepalive ping, handled, appends exactly one pong to the queue before
/// the rest of the stream is processed.
pub proof fn lemma_ping_packet_processed(payload: Seq<u8>, rest: Seq<u8>, queue: Seq<u8>)
    requires
        payload.len() <= u32::MAX,
    ensures
        process_packets_spec(packet_spec(OSU_PING, payload) + rest, queue) == process_packets_spec(
            rest,
            queue + pong_packet(),
        ),
{
    vstd::bytes::lemma_auto_spec_u16_to_from_le_bytes();
    vstd::bytes::lemma_auto_spec_u32_to_from_le_bytes();
    crate::rw::lemma_packet_framing(OSU_PING, payload);
    let s = packet_spec(OSU_PING, payload) + rest;
    assert(s.take(2) =~= vstd::bytes::spec_u16_to_le_bytes(OSU_PING));
    assert(s.subrange(3, 7) =~= spec_u32_to_le_bytes(payload.len() as u32));
    assert(s.skip(7 + payload.len() as int) =~= rest);
}

/// The server context: the registry of online players, the session token
/// store, the next player id to hand out, and a connection counter. One
/// value of this is built at startup and passed to every request.
pub struct BanchoServer {
    pub online_players: PlayerList,
    pub token_store: SessionTokenStore,
    pub next_player_id: i32,
    pub total_conns: u64,
}

impl BanchoServer {
    /// Registered ids are unique and below the next id to be handed out,
    /// and every live token points at a registered player.
    pub open spec fn wf(&self) -> bool {
        &&& self.online_players.ids_unique()
        &&& self.token_store.wf()
        &&& forall|j: int|
            0 <= j < self.online_players.players_seq().len() ==> (
            #[trigger] self.online_players.players_seq()[j]).id < self.next_player_id
        &&& forall|t: Seq<char>|
            (#[trigger] self.token_store.spec_lookup(t)) matches Some(id)
                ==> self.online_players.contains_id(id)
    }

    /// A login body that will be accepted: valid UTF-8, well shaped, and
    /// neither the token space nor the player id space exhausted.
    pub open spec fn login_accepted(&self, body: Seq<u8>) -> bool {
        &&& vstd::utf8::valid_utf8(body)
        &&& crate::login::login_body_valid(vstd::utf8::decode_utf8(body))
        &&& self.token_store.can_issue_spec()
        &&& self.next_player_id < i32::MAX
    }

    /// Creates a server with no players, no sessions, and ids starting at
    /// zero.
    pub fn new() -> (s: BanchoServer)
        ensures
            s.wf(),
            s.online_players.players_seq().len() == 0,
            s.next_player_id == 0,
            s.total_conns == 0,
            forall|t: Seq<char>| s.token_store.spec_lookup(t) is None,
    {
        BanchoServer {
            online_players: PlayerList::new(),
            token_store: SessionTokenStore::new(),
            next_player_id: 0,
            total_conns: 0,
        }
    }

    /// The registered player a session token stands for, or nothing for a
    /// token that does not resolve.
    pub fn player_from_uuid(&self, uuid: &String) -> (r: Option<&Player>)
        requires
            self.wf(),
        ensures
            match self.token_store.spec_lookup(uuid@) {
                Some(id) => r matches Some(p) && p.id == id,
                None => r is None,
            },
    {
        match self.token_store.resolve(uuid) {
            Some(player_id) => match self.online_players.get(player_id) {
                Some(p) => Some(p),
                None => {
                    proof {
                        assert(false);
                    }
                    None
                },
            },
            None => None,
        }
    }

    /// Handles a login request: parses the body, registers a fresh player,
    /// mints a session token, and answers with the identity-confirmation
    /// packet. A malformed body is refused with the fixed refusal token and
    /// an empty body, and nothing changes.
    pub fn login_handle(&mut self, body: Vec<u8>) -> (r: (String, Vec<u8>))
        requires
            old(self).wf(),
        ensures
            final(self).wf(),
            !old(self).login_accepted(body@) ==> r.0@ == "no"@ && r.1@ == Seq::<u8>::empty()
                && *final(self) == *old(self),
            old(self).login_accepted(body@) ==> {
                let parts = crate::login::spec_split(vstd::utf8::decode_utf8(body@), '\n');
                let new_id = old(self).next_player_id;
                &&& r.1@ == packet_spec(SRV_USER_ID, spec_u32_to_le_bytes(u32_of_i32(new_id)))
                &&& r.0@.len() >= 1
                &&& old(self).token_store.spec_lookup(r.0@) is None
                &&& final(self).token_store.spec_lookup(r.0@) == Some(new_id)
                &&& forall|t: Seq<char>|
                    t != r.0@ ==> final(self).token_store.spec_lookup(t) == old(
                        self,
                    ).token_store.spec_lookup(t)
                &&& final(self).next_player_id == new_id + 1
                &&& final(self).online_players.players_seq() == old(
                    self,
                ).online_players.players_seq().push(
                    final(self).online_players.players_seq().last(),
                )
                &&& final(self).online_players.players_seq().last().id == new_id
                &&& final(self).online_players.players_seq().last().name@ == parts[0]
                &&& final(self).online_players.players_seq().last().uuid@ == r.0@
                &&& final(self).online_players.players_seq().last().queue.queue_spec()
                    == Seq::<u8>::empty()
                &&& final(self).total_conns == old(self).total_conns
            },
    {
        let text = match string_from_utf8(body) {
            Some(t) => t,
            None => {
                return (no_token(), Vec::new());
            },
        };
        let data = match LoginData::from_body(text) {
            Some(d) => d,
            None => {
                return (no_token(), Vec::new());
            },
        };
        if !self.token_store.can_issue() {
            return (no_token(), Vec::new());
        }
        if self.next_player_id == i32::MAX {
            return (no_token(), Vec::new());
        }
        let p_id = self.next_player_id;
        self.next_player_id = self.next_player_id + 1;
        let token = self.token_store.issue(p_id);
        let player = Player {
            id: p_id,
            name: data.username.clone(),
            safe_name: data.username.clone(),
            uuid: token.clone(),
            location: Geolocation { country: 0, location: (0, 0), ip: String::new() },
            privileges: Privileges::new(),
            action: Action {
                id: 0,
                text: String::new(),
                bmap_md5: String::new(),
                bmap_id: String::new(),
                mods: 0,
            },
            mode: Mode::STANDARD,
            c_mode: CustomMode::VANILLA,
            queue: ByteQueue::new(),
        };
        proof {
            if self.online_players.contains_id(p_id) {
                let j = choose|j: int|
                    0 <= j < self.online_players.players_seq().len()
                        && self.online_players.players_seq()[j].id == p_id;
                assert(old(self).online_players.players_seq()[j].id < p_id);
            }
        }
        self.online_players.add_player(player);
        let resp = builders::login_reply(&p_id);
        proof {
            assert forall|t: Seq<char>| (#[trigger] self.token_store.spec_lookup(t)) is Some
                implies self.online_players.contains_id(
                self.token_store.spec_lookup(t).unwrap(),
            ) by {
                if t == token@ {
                    assert(self.online_players.players_seq().last().id == p_id);
                } else {
                    assert(self.token_store.spec_lookup(t) == old(self).token_store.spec_lookup(
                        t,
                    ));
                    let id2 = old(self).token_store.spec_lookup(t).unwrap();
                    let j = choose|j: int|
                        0 <= j < old(self).online_players.players_seq().len() && old(
                            self,
                        ).online_players.players_seq()[j].id == id2;
                    assert(self.online_players.players_seq()[j].id == id2);
                }
            }
        }
        (token, resp)
    }

    /// Runs the packet loop for a resolved player: reads each header,
    /// answers pings, skips packets nobody handles, stops at a truncated
    /// packet, then drains the player's queue as the response body.
    pub fn handle_packets(&mut self, body: Vec<u8>, p_id: i32) -> (r: Vec<u8>)
        requires
            old(self).wf(),
            old(self).online_players.contains_id(p_id),
        ensures
            final(self).wf(),
            r@ == old(self).online_players.queue_of(p_id) + packets_out(body@),
            final(self).token_store == old(self).token_store,
            final(self).next_player_id == old(self).next_player_id,
            final(self).total_conns == old(self).total_conns,
            final(self).online_players.players_seq().len() == old(
                self,
            ).online_players.players_seq().len(),
            forall|j: int|
                0 <= j < old(self).online_players.players_seq().len() ==> {
                    let before = old(self).online_players.players_seq()[j];
                    let after = #[trigger] final(self).online_players.players_seq()[j];
                    if before.id == p_id {
                        same_player_but_queue(before, after, Seq::<u8>::empty())
                    } else {
                        after == before
                    }
                },
    {
        let ghost stream0 = body@;
        let mut reader = Reader::new(body);
        let mut pongs = SimplePacketQueue::new();
        let mut aborted = false;
        while !aborted && !reader.empty()
            invariant
                reader.wf(),
                packets_out(stream0) == pongs.bytes_spec() + (if aborted {
                    Seq::<u8>::empty()
                } else {
                    packets_out(reader.remaining())
                }),
            decreases (if aborted { 0int } else { 1int }), reader.remaining().len(),
        {
            let ghost head = reader.remaining();
            match reader.read_headers() {
                Err(_) => {
                    aborted = true;
                    proof {
                        assert(packets_out(head) =~= Seq::<u8>::empty());
                        assert(pongs.bytes_spec() + Seq::<u8>::empty() =~= pongs.bytes_spec());
                    }
                },
                Ok((pkt_id, pkt_len)) => {
                    let ghost len_spec = spec_u32_from_le_bytes(head.subrange(3, 7)) as int;
                    if pkt_len as usize > reader.remaining_len() {
                        aborted = true;
                        proof {
                            assert(packets_out(head) =~= Seq::<u8>::empty());
                            assert(pongs.bytes_spec() + Seq::<u8>::empty() =~= pongs.bytes_spec());
                        }
                    } else {
                        if pkt_id == OSU_PING {
                            pongs.queue(builders::ping());
                        }
                        reader.incr_buffer(pkt_len as usize);
                        proof {
                            assert(reader.remaining() =~= head.skip(7 + len_spec));
                            lemma_process_packets_frame(
                                head.skip(7 + len_spec),
                                pong_packet(),
                            );
                            if pkt_id == OSU_PING {
                                assert(packets_out(head) == pong_packet() + packets_out(
                                    reader.remaining(),
                                ));
                                assert(pongs.bytes_spec() + packets_out(reader.remaining())
                                    =~= packets_out(stream0));
                            } else {
                                assert(packets_out(head) == packets_out(reader.remaining()));
                            }
                        }
                    }
                },
            }
        }
        proof {
            if !aborted {
                assert(packets_out(reader.remaining()) =~= Seq::<u8>::empty());
            }
            assert(pongs.bytes_spec() == packets_out(stream0));
        }
        let ghost pre = old(self).online_players;
        let found = self.online_players.enqueue_to(p_id, pongs.as_bytes());
        let ghost mid = self.online_players;
        proof {
            assert(found);
            assert(forall|j: int|
                0 <= j < pre.players_seq().len() ==> (#[trigger] mid.players_seq()[j]).id
                    == pre.players_seq()[j].id);
        }
        let drained = self.online_players.drain_queue(p_id);
        match drained {
            Some(out) => {
                proof {
                    let jq = choose|j: int|
                        0 <= j < pre.players_seq().len() && pre.players_seq()[j].id == p_id;
                    let jm = choose|j: int|
                        0 <= j < mid.players_seq().len() && mid.players_seq()[j].id == p_id;
                    assert(mid.players_seq()[jq].id == mid.players_seq()[jm].id);
                    assert(jq == jm);
                    assert(out@ == mid.players_seq()[jq].queue.queue_spec());
                    assert(out@ == pre.queue_of(p_id) + pongs.bytes_spec());
                    assert forall|t: Seq<char>| (#[trigger] self.token_store.spec_lookup(t))
                        is Some implies self.online_players.contains_id(
                        self.token_store.spec_lookup(t).unwrap(),
                    ) by {
                        let id2 = self.token_store.spec_lookup(t).unwrap();
                        let j = choose|j: int|
                            0 <= j < pre.players_seq().len() && pre.players_seq()[j].id == id2;
                        assert(self.online_players.players_seq()[j].id == id2);
                    }
                }
                out
            },
            None => {
                proof {
                    assert(false);
                }
                Vec::new()
            },
        }
    }

    /// Answers one request from an authenticated or stale session: a token
    /// that resolves runs the packet loop; one that does not gets a single
    /// restart packet, and the client must log in again.
    pub fn handle_bancho(&mut self, token: Option<String>, body: Vec<u8>) -> (r: (String, Vec<u8>))
        requires
            old(self).wf(),
        ensures
            final(self).wf(),
            final(self).total_conns == (if old(self).total_conns < u64::MAX {
                old(self).total_conns + 1
            } else {
                old(self).total_conns as int
            }),
            match token {
                None => {
                    &&& !old(self).login_accepted(body@) ==> r.0@ == "no"@ && r.1@
                        == Seq::<u8>::empty()
                    &&& old(self).login_accepted(body@) ==> r.1@ == packet_spec(
                        SRV_USER_ID,
                        spec_u32_to_le_bytes(u32_of_i32(old(self).next_player_id)),
                    ) && final(self).token_store.spec_lookup(r.0@) == Some(
                        old(self).next_player_id,
                    ) && r.0@.len() >= 1
                },
                Some(t) => match old(self).token_store.spec_lookup(t@) {
                    Some(id) => r.0@ == t@ && r.1@ == old(self).online_players.queue_of(id)
                        + packets_out(body@),
                    None => r.0@ == t@ && r.1@ == packet_spec(
                        SRV_RESTART,
                        spec_u32_to_le_bytes(0),
                    ),
                },
            },
    {
        if self.total_conns < u64::MAX {
            self.total_conns = self.total_conns + 1;
        }
        match token {
            Some(t) => {
                let p_id = match self.token_store.resolve(&t) {
                    Some(id) => id,
                    None => {
                        return (t, builders::server_restart(&0));
                    },
                };
                let resp = self.handle_packets(body, p_id);
                (t, resp)
            },
            None => self.login_handle(body),
        }
    }
}

/// The fixed token value that marks a refused login.
fn no_token() -> (r: String)
    ensures
        r@ == "no"@,
{
    "no".to_owned()
}

} // verus!
