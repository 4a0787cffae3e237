use kisumi::builders;
use kisumi::config::Config;
use kisumi::login::LoginData;
use kisumi::modes::{CustomMode, Mode};
use kisumi::player::{Action, ByteQueue, Geolocation, Player, PlayerList};
use kisumi::privileges::{self, Privileges};
use kisumi::router::BanchoServer;
use kisumi::session::SessionTokenStore;

fn sample_player(id: i32, name: &str) -> Player {
    Player {
        id,
        name: name.to_string(),
        safe_name: name.to_string(),
        uuid: String::new(),
        location: Geolocation {
            country: 0,
            location: (0, 0),
            ip: String::new(),
        },
        privileges: Privileges::new(),
        action: Action {
            id: 0,
            text: String::new(),
            bmap_md5: String::new(),
            bmap_id: String::new(),
            mods: 0,
        },
        mode: Mode::STANDARD,
        c_mode: CustomMode::VANILLA,
        queue: ByteQueue::new(),
    }
}

#[test]
fn byte_queue_fifo_and_drain() {
    let mut q = ByteQueue::new();
    q.enqueue(vec![1, 2]);
    q.enqueue(vec![3]);
    assert_eq!(q.empty(), vec![1, 2, 3]);
    assert_eq!(q.empty(), Vec::<u8>::new());
}

#[test]
fn player_list_add_get_remove() {
    let mut list = PlayerList::new();
    list.add_player(sample_player(1, "one"));
    list.add_player(sample_player(2, "two"));
    assert_eq!(list.get(1).unwrap().name, "one");
    assert_eq!(list.get(2).unwrap().name, "two");
    assert!(list.get(3).is_none());
    list.remove(1);
    assert!(list.get(1).is_none());
    // removing an absent id is a no-op
    list.remove(1);
    assert!(list.get(2).is_some());
}

#[test]
fn player_list_broadcast_reaches_everyone() {
    let mut list = PlayerList::new();
    list.add_player(sample_player(1, "one"));
    list.add_player(sample_player(2, "two"));
    list.broadcast(vec![9, 8]);
    let first = list.drain_queue(1).unwrap();
    let second = list.drain_queue(2).unwrap();
    assert_eq!(first, vec![9, 8]);
    assert_eq!(second, vec![9, 8]);
    assert_eq!(list.drain_queue(1).unwrap(), Vec::<u8>::new());
}

#[test]
fn session_lifecycle() {
    let mut registry = PlayerList::new();
    registry.add_player(sample_player(7, "seven"));
    let mut store = SessionTokenStore::new();
    let token = store.issue(7);
    assert!(!token.is_empty());
    assert_eq!(store.resolve(&token), Some(7));
    assert_eq!(registry.get(store.resolve(&token).unwrap()).unwrap().id, 7);
    store.revoke(&token);
    assert_eq!(store.resolve(&token), None);
    // revoking again stays a no-op
    store.revoke(&token);
    assert_eq!(store.resolve(&token), None);
}

#[test]
fn tokens_are_never_reused() {
    let mut store = SessionTokenStore::new();
    let t1 = store.issue(1);
    let t2 = store.issue(2);
    assert_ne!(t1, t2);
    assert_eq!(store.resolve(&t1), Some(1));
    assert_eq!(store.resolve(&t2), Some(2));
    store.revoke(&t1);
    let t3 = store.issue(3);
    assert_ne!(t3, t1);
    assert_ne!(t3, t2);
}

#[test]
fn unknown_token_resolves_to_nothing() {
    let store = SessionTokenStore::new();
    assert_eq!(store.resolve(&"whatever".to_string()), None);
}

#[test]
fn privileges_bit_tests() {
    let p = Privileges::from_bitwise(privileges::USER_PUBLIC | privileges::ADMIN_BAN_USERS);
    assert!(p.has_any(privileges::USER_PUBLIC));
    assert!(p.has_any(privileges::USER_PUBLIC | privileges::USER_DONOR));
    assert!(!p.has_any(privileges::USER_DONOR));
    assert!(p.has_all(privileges::USER_PUBLIC | privileges::ADMIN_BAN_USERS));
    assert!(!p.has_all(privileges::USER_PUBLIC | privileges::USER_DONOR));
    assert!(p.public());
    assert!(p.ban_users());
    assert!(!p.donor());
    let mut p2 = Privileges::new();
    assert!(!p2.has_any(u32::MAX));
    p2.reset_priv(privileges::ADMIN_CHAT_MOD);
    assert!(p2.chat_mod());
    assert_eq!(p2.privs, privileges::ADMIN_CHAT_MOD);
}

#[test]
fn modes_from_wire_values() {
    assert_eq!(Mode::from(0), Mode::STANDARD);
    assert_eq!(Mode::from(1), Mode::TAIKO);
    assert_eq!(Mode::from(2), Mode::CATCH);
    assert_eq!(Mode::from(3), Mode::MANIA);
    assert_eq!(Mode::from(200), Mode::STANDARD);
    assert_eq!(CustomMode::from(0), CustomMode::VANILLA);
    assert_eq!(CustomMode::from(1), CustomMode::RELAX);
    assert_eq!(CustomMode::from(2), CustomMode::AUTOPILOT);
    assert_eq!(CustomMode::from(9), CustomMode::VANILLA);
}

#[test]
fn config_default_values() {
    let c = Config::default();
    assert_eq!(c.http_sock, "/tmp/kisumi.sock");
    assert_eq!(c.server_name, "KisumiDev");
    assert_eq!(c.server_bot_id, 999);
    assert_eq!(c.sql_server, "localhost");
    assert_eq!(c.sql_db, "rosu");
    assert_eq!(c.sql_user, "rosu");
    assert_eq!(c.sql_passwd, "");
}

const GOOD_BODY: &str = "alice\nHASH123\n20210520|2|0|aa:00:bb:cc:dd:ee|1\nfoo";

#[test]
fn login_example_end_to_end() {
    let data = LoginData::from_body(GOOD_BODY.to_string()).unwrap();
    assert_eq!(data.username, "alice");
    assert_eq!(data.password_md5, "HASH123");
    assert_eq!(data.osu_version, "20210520");
    assert_eq!(data.timezone, 2);
    assert!(data.allow_dms);
    assert_eq!(data.osu_hash, "aa");
    assert_eq!(data.adapter_hash, "bb");
    assert_eq!(data.uninstaller_hash, "cc");
    assert_eq!(data.serial_hash, "dd");
}

#[test]
fn login_rejects_three_fields() {
    assert!(LoginData::from_body("alice\nHASH123\nblock".to_string()).is_none());
}

#[test]
fn login_rejects_wrong_subfield_counts() {
    // client block with four sub-fields instead of five
    assert!(LoginData::from_body("a\nb\nv|1|0|x:y:z:w:q:r\nf".to_string()).is_none());
    // hash block with five components instead of six
    assert!(LoginData::from_body("a\nb\nv|1|0|x:y:z:w:q|1\nf".to_string()).is_none());
}

#[test]
fn login_defaults_on_unparsable_subfields() {
    let data = LoginData::from_body("a\nb\nv|zz|0|a:b:c:d:e:f|maybe\nf".to_string()).unwrap();
    assert_eq!(data.timezone, 0);
    assert!(data.allow_dms);
    let data2 = LoginData::from_body("a\nb\nv|7|0|a:b:c:d:e:f|false\nf".to_string()).unwrap();
    assert_eq!(data2.timezone, 7);
    assert!(!data2.allow_dms);
}

#[test]
fn login_yields_token_and_reply_packet() {
    let mut server = BanchoServer::new();
    let (token, resp) = server.handle_bancho(None, GOOD_BODY.as_bytes().to_vec());
    assert!(!token.is_empty());
    assert_ne!(token, "no");
    // the identity confirmation: packet id 5, player id 0 as the payload
    assert_eq!(resp, vec![5, 0, 0, 4, 0, 0, 0, 0, 0, 0, 0]);
    // a second login gets a distinct token and the next id
    let (token2, resp2) = server.handle_bancho(None, GOOD_BODY.as_bytes().to_vec());
    assert_ne!(token, token2);
    assert_eq!(resp2, vec![5, 0, 0, 4, 0, 0, 0, 1, 0, 0, 0]);
}

#[test]
fn login_failure_gives_no_token() {
    let mut server = BanchoServer::new();
    let (token, resp) = server.handle_bancho(None, b"not a login".to_vec());
    assert_eq!(token, "no");
    assert!(resp.is_empty());
}

#[test]
fn stale_token_forces_restart() {
    let mut server = BanchoServer::new();
    let (token, resp) = server.handle_bancho(Some("stale".to_string()), Vec::new());
    assert_eq!(token, "stale");
    assert_eq!(resp, builders::server_restart(&0));
}

#[test]
fn ping_is_answered_with_pong() {
    let mut server = BanchoServer::new();
    let (token, _) = server.handle_bancho(None, GOOD_BODY.as_bytes().to_vec());
    // a ping packet: id 4, padding, zero-length payload
    let body = vec![4, 0, 0, 0, 0, 0, 0];
    let (echo, resp) = server.handle_bancho(Some(token.clone()), body);
    assert_eq!(echo, token);
    assert_eq!(resp, builders::ping());
}

#[test]
fn unknown_packet_is_skipped_whole() {
    let mut server = BanchoServer::new();
    let (token, _) = server.handle_bancho(None, GOOD_BODY.as_bytes().to_vec());
    // one unregistered packet (id 99, three payload bytes), then a ping
    let mut body = vec![99, 0, 0, 3, 0, 0, 0, 0xAA, 0xBB, 0xCC];
    body.extend_from_slice(&[4, 0, 0, 0, 0, 0, 0]);
    let (_, resp) = server.handle_bancho(Some(token.clone()), body);
    // processed exactly as if the unknown packet were absent
    let (_, resp_ping_only) =
        server.handle_bancho(Some(token), vec![4, 0, 0, 0, 0, 0, 0]);
    assert_eq!(resp, builders::ping());
    assert_eq!(resp, resp_ping_only);
}

#[test]
fn truncated_packet_aborts_the_request_only() {
    let mut server = BanchoServer::new();
    let (token, _) = server.handle_bancho(None, GOOD_BODY.as_bytes().to_vec());
    // a ping, then a packet whose declared length overruns the body
    let mut body = vec![4, 0, 0, 0, 0, 0, 0];
    body.extend_from_slice(&[7, 0, 0, 100, 0, 0, 0, 1, 2]);
    let (_, resp) = server.handle_bancho(Some(token.clone()), body);
    // the ping before the truncation was still answered
    assert_eq!(resp, builders::ping());
    // and the session is still alive afterwards
    let (_, resp2) = server.handle_bancho(Some(token), vec![4, 0, 0, 0, 0, 0, 0]);
    assert_eq!(resp2, builders::ping());
}

#[test]
fn broadcast_lands_in_next_poll() {
    let mut server = BanchoServer::new();
    let (token, _) = server.handle_bancho(None, GOOD_BODY.as_bytes().to_vec());
    server.online_players.broadcast(vec![1, 2, 3]);
    let (_, resp) = server.handle_bancho(Some(token.clone()), Vec::new());
    assert_eq!(resp, vec![1, 2, 3]);
    // drained: the next poll is empty
    let (_, resp2) = server.handle_bancho(Some(token), Vec::new());
    assert!(resp2.is_empty());
}

#[test]
fn fresh_store_can_issue() {
    let store = SessionTokenStore::new();
    assert!(store.can_issue());
}

#[test]
fn connections_are_counted() {
    let mut server = BanchoServer::new();
    assert_eq!(server.total_conns, 0);
    server.handle_bancho(None, Vec::new());
    server.handle_bancho(Some("x".to_string()), Vec::new());
    assert_eq!(server.total_conns, 2);
}
