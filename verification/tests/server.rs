use butterfly::error::Error;
use butterfly::frame::encode_rumor;
use butterfly::member::{Address, Health, Member, MemberId};
use butterfly::message::{decode_swim, encode_swim, DecodeError, Swim, SwimKind, MAX_DATAGRAM};
use butterfly::probe::Action;
use butterfly::rumor::{DataKind, Datum, Rumor};
use butterfly::server::{Outgoing, Server};
use butterfly::store::Outcome;

const PERIOD: u64 = 1000;
const SUSPICION: u64 = 5000;

fn member(n: u128) -> Member {
    Member::new(
        MemberId(n),
        Address { ip: 0xffff_0a00_0000 + n, swim_port: 9638, gossip_port: 9638 },
    )
}

fn persistent(n: u128) -> Member {
    let mut m = member(n);
    m.persistent = true;
    m
}

struct Cluster {
    nodes: Vec<Server>,
    down: Vec<(u128, u128)>,
}

fn cluster(nodes: Vec<Server>) -> Cluster {
    Cluster { nodes, down: Vec::new() }
}

fn index_of(c: &Cluster, id: MemberId) -> Option<usize> {
    c.nodes.iter().position(|s| s.me().id == id)
}

fn linked(c: &Cluster, a: MemberId, b: MemberId) -> bool {
    !c.down.iter().any(|&(x, y)| (x == a.0 && y == b.0) || (x == b.0 && y == a.0))
}

fn send(c: &mut Cluster, from: usize, out: Outgoing, now: u64) {
    let (bytes, kept) = encode_swim(&out.message);
    assert!(bytes.len() <= MAX_DATAGRAM);
    assert_eq!(kept, out.message.membership.len());
    let from_id = c.nodes[from].me().id;
    let to = match index_of(c, out.to) {
        Some(to) => to,
        None => return,
    };
    if !linked(c, from_id, out.to) {
        return;
    }
    if let Ok(Some(reply)) = c.nodes[to].on_datagram(&bytes, now) {
        send(c, to, reply, now);
    }
}

fn probe_cycle(c: &mut Cluster, node: usize, start: u64) -> Option<MemberId> {
    let ping = c.nodes[node].begin_probe(start);
    let target = ping.as_ref().map(|p| p.to);
    if let Some(ping) = ping {
        assert_eq!(ping.message.kind, SwimKind::Ping);
        send(c, node, ping, start);
    }
    if let Action::SendPingReq(target) = c.nodes[node].on_tick(start + 300) {
        for request in c.nodes[node].ping_requests(target) {
            assert_eq!(request.message.kind, SwimKind::PingReq);
            assert_eq!(request.message.subject, target);
            send(c, node, request, start + 300);
        }
    }
    c.nodes[node].on_tick(start + PERIOD);
    target
}

fn gossip_round(c: &mut Cluster, node: usize, now: u64) {
    let me = c.nodes[node].me().id;
    for peer in c.nodes[node].push_targets() {
        let rumors = c.nodes[node].rumors_for(peer.id);
        let reachable = linked(c, me, peer.id);
        if reachable {
            if let Some(to) = index_of(c, peer.id) {
                for rumor in rumors.iter() {
                    assert_eq!(c.nodes[to].on_frame(&encode_rumor(rumor), now), Ok(()));
                }
            }
        }
        c.nodes[node].pushed(peer.id, &rumors, reachable);
    }
}

fn known(server: &Server, id: u128) -> Option<(Health, u64)> {
    server
        .member_list_snapshot()
        .iter()
        .find(|m| m.id == MemberId(id))
        .map(|m| (m.health, m.incarnation))
}

#[test]
fn ring_key_must_be_32_bytes() {
    assert!(Server::start(member(1), vec![], None, 0).is_ok());
    let with_key = Server::start(member(1), vec![], Some(vec![7; 32]), 0).unwrap();
    assert!(with_key.has_ring());
    for len in [0usize, 1, 31, 33, 64] {
        match Server::start(member(1), vec![], Some(vec![7; len]), 0) {
            Err(e) => assert_eq!(e, Error::InvalidRingKey),
            Ok(_) => panic!("a key of {} bytes was taken", len),
        }
    }
}

#[test]
fn a_server_starts_alive_with_its_peers() {
    let mut local = member(1);
    local.health = Health::Suspect;
    local.incarnation = 4;
    let server = Server::start(local, vec![member(2), member(3), member(1)], None, 0).unwrap();
    assert_eq!(server.me().health, Health::Alive);
    assert_eq!(server.me().incarnation, 4);
    assert!(!server.has_ring());
    assert_eq!(server.dropped(), 0);
    let list = server.member_list_snapshot();
    assert_eq!(list.iter().map(|m| m.id.0).collect::<Vec<u128>>(), vec![2, 3]);
    let rumors = server.rumor_snapshot();
    assert_eq!(
        rumors,
        vec![
            Rumor::Member(server.me()),
            Rumor::Member(member(2)),
            Rumor::Member(member(3))
        ]
    );
}

#[test]
fn the_node_is_never_in_its_own_list() {
    let mut server = Server::start(member(1), vec![member(2)], None, 0).unwrap();
    server.insert_member(member(1), Health::Alive, 0);
    let mut later = member(1);
    later.incarnation = 9;
    server.insert_member(later, Health::Alive, 0);
    assert_eq!(server.member_list_snapshot().len(), 1);
    assert_eq!(server.me().incarnation, 0);
    assert_eq!(server.me().health, Health::Alive);
}

#[test]
fn a_rumor_about_the_node_is_refuted() {
    let mut server = Server::start(member(1), vec![], None, 0).unwrap();
    let mut said = member(1);
    said.incarnation = 6;
    server.insert_member(said, Health::Suspect, 10);
    assert_eq!(server.me().health, Health::Alive);
    assert_eq!(server.me().incarnation, 7);
    assert_eq!(server.rumor_snapshot(), vec![Rumor::Member(server.me())]);
    server.insert_member(said, Health::Confirmed, 11);
    assert_eq!(server.me().incarnation, 7);
    said.incarnation = 7;
    server.insert_member(said, Health::Confirmed, 12);
    assert_eq!(server.me().incarnation, 8);
    assert_eq!(server.me().health, Health::Alive);
}

#[test]
fn service_rumors_reach_the_store() {
    let mut server = Server::start(member(1), vec![], None, 0).unwrap();
    let rumor = |version| Datum {
        kind: DataKind::Service,
        primary: MemberId(1),
        secondary: Some(b"redis.default".to_vec()),
        version,
        payload: vec![1, 2, 3],
    };
    assert_eq!(server.insert_service_rumor(rumor(1)), Outcome::Changed);
    assert_eq!(server.insert_service_rumor(rumor(1)), Outcome::Duplicate);
    assert_eq!(server.insert_service_rumor(rumor(0)), Outcome::Stale);
    assert_eq!(server.insert_service_rumor(rumor(2)), Outcome::Changed);
    assert_eq!(
        server.rumor_snapshot(),
        vec![Rumor::Member(server.me()), Rumor::Data(rumor(2))]
    );
}

#[test]
fn unreadable_input_is_dropped_and_counted() {
    let mut server = Server::start(member(1), vec![member(2)], None, 0).unwrap();
    assert_eq!(server.on_datagram(&[], 0), Err(DecodeError::Malformed));
    assert_eq!(server.on_datagram(&[3, 0], 0), Err(DecodeError::UnknownVersion(3)));
    assert_eq!(server.on_frame(&[1, 9], 0), Err(DecodeError::Malformed));
    assert_eq!(server.on_frame(&[0], 0), Err(DecodeError::UnknownVersion(0)));
    assert_eq!(server.dropped(), 4);
    assert_eq!(server.member_list_snapshot().len(), 1);
    assert_eq!(server.rumor_snapshot().len(), 2);
}

#[test]
fn a_ping_is_answered_with_an_ack() {
    let mut server = Server::start(member(1), vec![], None, 0).unwrap();
    let mut news = member(3);
    news.health = Health::Suspect;
    news.incarnation = 2;
    let ping = Swim {
        kind: SwimKind::Ping,
        sender: MemberId(2),
        subject: MemberId(9),
        membership: vec![news],
    };
    let reply = server.on_datagram(&encode_swim(&ping).0, 50).unwrap().unwrap();
    assert_eq!(reply.to, MemberId(2));
    assert_eq!(reply.message.kind, SwimKind::Ack);
    assert_eq!(reply.message.sender, MemberId(1));
    assert_eq!(reply.message.subject, MemberId(9));
    assert_eq!(reply.message.membership, vec![server.me(), news]);
    assert_eq!(known(&server, 3), Some((Health::Suspect, 2)));
}

#[test]
fn a_ping_request_is_passed_on_and_its_answer_returned() {
    let mut relay = Server::start(member(2), vec![], None, 0).unwrap();
    let request = Swim {
        kind: SwimKind::PingReq,
        sender: MemberId(1),
        subject: MemberId(3),
        membership: vec![],
    };
    let ping = relay.on_datagram(&encode_swim(&request).0, 0).unwrap().unwrap();
    assert_eq!(ping.to, MemberId(3));
    assert_eq!(ping.message.kind, SwimKind::Ping);
    assert_eq!(ping.message.sender, MemberId(2));
    assert_eq!(ping.message.subject, MemberId(1));

    let mut target = Server::start(member(3), vec![], None, 0).unwrap();
    let ack = target.on_datagram(&encode_swim(&ping.message).0, 0).unwrap().unwrap();
    assert_eq!(ack.to, MemberId(2));
    assert_eq!(ack.message.kind, SwimKind::Ack);
    assert_eq!(ack.message.sender, MemberId(3));
    assert_eq!(ack.message.subject, MemberId(1));

    let passed = relay.on_datagram(&encode_swim(&ack.message).0, 0).unwrap().unwrap();
    assert_eq!(passed.to, MemberId(1));
    assert_eq!(passed.message.kind, SwimKind::Ack);
    assert_eq!(passed.message.sender, MemberId(3));
    assert_eq!(passed.message.subject, MemberId(1));
}

#[test]
fn an_ack_in_time_prevents_suspicion() {
    let mut a = Server::start(member(1), vec![member(2)], None, 0).unwrap();
    let ping = a.begin_probe(0).unwrap();
    assert_eq!(ping.to, MemberId(2));
    assert!(a.begin_probe(10).is_none());
    let ack = Swim {
        kind: SwimKind::Ack,
        sender: MemberId(2),
        subject: MemberId(1),
        membership: vec![],
    };
    assert_eq!(a.on_datagram(&encode_swim(&ack).0, 299), Ok(None));
    assert_eq!(a.on_tick(300), Action::Wait);
    assert_eq!(a.on_tick(999), Action::Wait);
    assert_eq!(a.on_tick(1000), Action::Wait);
    assert_eq!(known(&a, 2), Some((Health::Alive, 0)));
    assert!(a.begin_probe(1000).is_some());
}

#[test]
fn an_answer_through_a_relay_counts() {
    let mut a = Server::start(member(1), vec![member(2), member(3)], None, 0).unwrap();
    let target = a.begin_probe(0).unwrap().to;
    assert_eq!(a.on_tick(300), Action::SendPingReq(target));
    let requests = a.ping_requests(target);
    assert_eq!(requests.len(), 1);
    assert_ne!(requests[0].to, target);
    let ack = Swim { kind: SwimKind::Ack, sender: target, subject: MemberId(1), membership: vec![] };
    assert_eq!(a.on_datagram(&encode_swim(&ack).0, 700), Ok(None));
    assert_eq!(a.on_tick(1000), Action::Wait);
    assert_eq!(known(&a, target.0), Some((Health::Alive, 0)));
}

#[test]
fn silence_brings_suspicion_at_the_end_of_the_period() {
    let mut a = Server::start(member(1), vec![member(2)], None, 0).unwrap();
    assert_eq!(a.begin_probe(0).unwrap().to, MemberId(2));
    assert_eq!(a.on_tick(299), Action::Wait);
    assert_eq!(a.on_tick(300), Action::SendPingReq(MemberId(2)));
    assert!(a.ping_requests(MemberId(2)).is_empty());
    assert_eq!(a.on_tick(999), Action::Wait);
    assert_eq!(known(&a, 2), Some((Health::Alive, 0)));
    assert_eq!(a.on_tick(1000), Action::Suspect(MemberId(2)));
    assert_eq!(known(&a, 2), Some((Health::Suspect, 0)));
    let rumors = a.rumor_snapshot();
    match &rumors[1] {
        Rumor::Member(m) => assert_eq!((m.id, m.health, m.incarnation), (MemberId(2), Health::Suspect, 0)),
        Rumor::Data(_) => panic!("a member rumor was expected"),
    }
}

#[test]
fn a_failed_push_leaves_the_heat_alone() {
    let mut a = Server::start(member(1), vec![member(2)], None, 0).unwrap();
    let before = a.rumors_for(MemberId(2));
    assert_eq!(before.len(), 2);
    for _ in 0..10 {
        let rumors = a.rumors_for(MemberId(2));
        a.pushed(MemberId(2), &rumors, false);
    }
    assert_eq!(a.rumors_for(MemberId(2)), before);
    for _ in 0..5 {
        let rumors = a.rumors_for(MemberId(2));
        assert_eq!(rumors, before);
        a.pushed(MemberId(2), &rumors, true);
    }
    assert!(a.rumors_for(MemberId(2)).is_empty());
}

#[test]
fn at_most_five_peers_are_pushed_to() {
    let peers: Vec<Member> = (2..=12).map(member).collect();
    let mut a = Server::start(member(1), peers, None, 0).unwrap();
    a.insert_member(member(2), Health::Confirmed, 0);
    for _ in 0..30 {
        let targets = a.push_targets();
        assert_eq!(targets.len(), 5);
        for (i, t) in targets.iter().enumerate() {
            assert_ne!(t.id, MemberId(1));
            assert_ne!(t.id, MemberId(2));
            for u in targets[i + 1..].iter() {
                assert_ne!(t.id, u.id);
            }
        }
    }
    let few = Server::start(member(1), vec![member(2), member(3)], None, 0).unwrap();
    assert_eq!(few.push_targets().len(), 2);
}

#[test]
fn every_round_probes_every_member_once() {
    let peers: Vec<Member> = (2..=7).map(member).collect();
    let mut a = Server::start(member(1), peers, None, 0).unwrap();
    for round in 0..3u64 {
        let mut seen = Vec::new();
        for i in 0..6u64 {
            let start = (round * 6 + i) * PERIOD;
            let ping = a.begin_probe(start).unwrap();
            let ack = Swim {
                kind: SwimKind::Ack,
                sender: ping.to,
                subject: MemberId(1),
                membership: vec![],
            };
            a.on_datagram(&encode_swim(&ack).0, start + 1).unwrap();
            assert_eq!(a.on_tick(start + PERIOD), Action::Wait);
            seen.push(ping.to.0);
        }
        seen.sort();
        assert_eq!(seen, vec![2, 3, 4, 5, 6, 7]);
    }
}

#[test]
fn datagrams_of_a_full_store_fit() {
    let peers: Vec<Member> = (2..=60).map(member).collect();
    let mut a = Server::start(member(1), peers, None, 0).unwrap();
    for i in 0..40u64 {
        if let Some(ping) = a.begin_probe(i * PERIOD) {
            let (bytes, kept) = encode_swim(&ping.message);
            assert!(bytes.len() <= MAX_DATAGRAM);
            assert_eq!(kept, ping.message.membership.len());
            assert!(kept >= 1);
            assert_eq!(decode_swim(&bytes), Ok(ping.message));
        }
        a.on_tick(i * PERIOD + 300);
        a.on_tick((i + 1) * PERIOD);
    }
}

#[test]
fn three_node_liveness() {
    let a = Server::start(member(1), vec![member(2)], None, 0).unwrap();
    let b = Server::start(member(2), vec![member(3)], None, 0).unwrap();
    let c = Server::start(member(3), vec![member(1)], None, 0).unwrap();
    let mut net = cluster(vec![a, b, c]);
    for cycle in 0..3 {
        for node in 0..3 {
            probe_cycle(&mut net, node, cycle * PERIOD);
        }
    }
    for (node, others) in [(0usize, [2u128, 3]), (1, [1, 3]), (2, [1, 2])] {
        assert_eq!(net.nodes[node].member_list_snapshot().len(), 2);
        for other in others {
            assert_eq!(known(&net.nodes[node], other), Some((Health::Alive, 0)));
        }
        assert_eq!(net.nodes[node].me().incarnation, 0);
    }
}

#[test]
fn failure_detection() {
    let a = Server::start(member(1), vec![member(2), member(3)], None, 0).unwrap();
    let b = Server::start(member(2), vec![member(1), member(3)], None, 0).unwrap();
    let c = Server::start(member(3), vec![member(1), member(2)], None, 0).unwrap();
    let mut net = cluster(vec![a, b, c]);
    net.down = vec![(2, 1), (2, 3)];

    let mut start = 0;
    loop {
        let target = probe_cycle(&mut net, 0, start);
        if target == Some(MemberId(2)) {
            break;
        }
        assert_eq!(target, Some(MemberId(3)));
        assert_eq!(known(&net.nodes[0], 3), Some((Health::Alive, 0)));
        start += PERIOD;
        assert!(start <= PERIOD);
    }
    assert_eq!(known(&net.nodes[0], 2), Some((Health::Suspect, 0)));
    assert!(net.nodes[0].expire(start + PERIOD + SUSPICION - 1).is_empty());
    assert_eq!(known(&net.nodes[0], 2), Some((Health::Suspect, 0)));
    let confirmed = net.nodes[0].expire(start + PERIOD + SUSPICION);
    assert_eq!(confirmed.len(), 1);
    assert_eq!(known(&net.nodes[0], 2), Some((Health::Confirmed, 0)));

    let mut rounds = 0;
    while known(&net.nodes[2], 2) != Some((Health::Confirmed, 0)) {
        rounds += 1;
        assert!(rounds <= 3);
        gossip_round(&mut net, 0, start + PERIOD + SUSPICION + rounds * PERIOD);
    }
    assert!(rounds >= 1);
    assert_eq!(known(&net.nodes[2], 1), Some((Health::Alive, 0)));
}

#[test]
fn refutation() {
    let a = Server::start(member(1), vec![member(2)], None, 0).unwrap();
    let b = Server::start(member(2), vec![member(1)], None, 0).unwrap();
    let mut net = cluster(vec![a, b]);
    net.nodes[0].insert_member(member(2), Health::Suspect, 0);
    assert_eq!(known(&net.nodes[0], 2), Some((Health::Suspect, 0)));

    assert_eq!(probe_cycle(&mut net, 0, 0), Some(MemberId(2)));
    assert_eq!(net.nodes[1].me().incarnation, 1);
    assert_eq!(net.nodes[1].me().health, Health::Alive);
    assert_eq!(known(&net.nodes[0], 2), Some((Health::Alive, 1)));
    assert!(net.nodes[0].expire(10 * SUSPICION).is_empty());
    assert_eq!(known(&net.nodes[0], 2), Some((Health::Alive, 1)));
}

#[test]
fn partition_heal() {
    let a = Server::start(member(1), vec![persistent(2), persistent(3)], None, 0).unwrap();
    let b = Server::start(member(2), vec![persistent(1), persistent(3)], None, 0).unwrap();
    let c = Server::start(member(3), vec![persistent(1), persistent(2)], None, 0).unwrap();
    let mut net = cluster(vec![a, b, c]);
    net.down = vec![(1, 2), (1, 3)];
    probe_cycle(&mut net, 0, 0);
    probe_cycle(&mut net, 0, PERIOD);
    assert_eq!(known(&net.nodes[0], 2), Some((Health::Suspect, 0)));
    assert_eq!(known(&net.nodes[0], 3), Some((Health::Suspect, 0)));
    assert_eq!(net.nodes[0].expire(2 * PERIOD + SUSPICION).len(), 2);
    assert_eq!(known(&net.nodes[0], 2), Some((Health::Confirmed, 0)));
    assert_eq!(known(&net.nodes[0], 3), Some((Health::Confirmed, 0)));

    net.down.clear();
    let healed = 2 * PERIOD + SUSPICION;
    probe_cycle(&mut net, 0, healed);
    probe_cycle(&mut net, 0, healed + PERIOD);
    assert!(net.nodes[1].me().incarnation > 0);
    assert!(net.nodes[2].me().incarnation > 0);
    assert_eq!(known(&net.nodes[0], 2), Some((Health::Alive, net.nodes[1].me().incarnation)));
    assert_eq!(known(&net.nodes[0], 3), Some((Health::Alive, net.nodes[2].me().incarnation)));
}

#[test]
fn alive_of_a_higher_incarnation_heals_a_confirmation() {
    let mut a = Server::start(member(1), vec![member(2)], None, 0).unwrap();
    a.insert_member(member(2), Health::Confirmed, 0);
    assert_eq!(known(&a, 2), Some((Health::Confirmed, 0)));
    a.insert_member(member(2), Health::Alive, 1);
    assert_eq!(known(&a, 2), Some((Health::Confirmed, 0)));
    let mut back = member(2);
    back.incarnation = 1;
    a.insert_member(back, Health::Alive, 2);
    assert_eq!(known(&a, 2), Some((Health::Alive, 1)));
}

#[test]
fn the_threshold_follows_the_cluster() {
    let mut a = Server::start(member(1), vec![], None, 0).unwrap();
    let own = a.rumors_for(MemberId(9));
    assert_eq!(own, vec![Rumor::Member(a.me())]);
    for _ in 0..3 {
        let rumors = a.rumors_for(MemberId(9));
        assert_eq!(rumors.len(), 1);
        a.pushed(MemberId(9), &rumors, true);
    }
    assert!(a.rumors_for(MemberId(9)).is_empty());
    a.insert_member(member(2), Health::Alive, 0);
    let rumors = a.rumors_for(MemberId(9));
    assert_eq!(rumors, vec![Rumor::Member(member(2)), Rumor::Member(a.me())]);
}

#[test]
fn a_greeting_is_a_ping_on_the_node_s_own_behalf() {
    let mut a = Server::start(member(1), vec![], None, 0).unwrap();
    let hello = a.greet();
    assert_eq!(hello.to, MemberId(0));
    assert_eq!(hello.message.kind, SwimKind::Ping);
    assert_eq!(hello.message.sender, MemberId(1));
    assert_eq!(hello.message.subject, MemberId(1));
    assert_eq!(hello.message.membership, vec![a.me()]);
    a.greet();
    a.greet();
    assert!(a.greet().message.membership.is_empty());

    let mut seed = Server::start(member(2), vec![], None, 0).unwrap();
    let ack = seed.on_datagram(&encode_swim(&hello.message).0, 0).unwrap().unwrap();
    assert_eq!(ack.to, MemberId(1));
    assert_eq!(known(&seed, 1), Some((Health::Alive, 0)));
    assert_eq!(a.on_datagram(&encode_swim(&ack.message).0, 0), Ok(None));
    assert_eq!(known(&a, 2), Some((Health::Alive, 0)));
}

#[test]
fn addresses_of_known_members() {
    let a = Server::start(member(1), vec![member(2)], None, 0).unwrap();
    assert_eq!(a.address_of(MemberId(2)), Some(member(2).address));
    assert_eq!(a.address_of(MemberId(1)), None);
    assert_eq!(a.address_of(MemberId(3)), None);
}
