use butterfly::member::{
    reconcile, refute, Address, Health, Member, MemberId, Standing, Verdict,
};
use butterfly::member_list::{draw_from, pick_from, MemberList};
use Health::{Alive, Confirmed, Suspect};

fn st(health: Health, incarnation: u64) -> Standing {
    Standing { health, incarnation }
}

fn member(n: u128) -> Member {
    Member::new(
        MemberId(n),
        Address { ip: 0xffff_0a00_0000 + n, swim_port: 9638, gossip_port: 9639 },
    )
}

fn settle(inputs: &[Standing]) -> Standing {
    let mut list = MemberList::new();
    for s in inputs.iter() {
        list.insert(member(1), s.health, s.incarnation, 0);
    }
    list.get(MemberId(1)).unwrap().standing()
}

fn above(a: Standing, b: Standing) -> bool {
    a.incarnation > b.incarnation
        || (a.incarnation == b.incarnation && a.health.severity() > b.health.severity())
}

fn permutations(items: &[Standing]) -> Vec<Vec<Standing>> {
    if items.len() <= 1 {
        return vec![items.to_vec()];
    }
    let mut all = Vec::new();
    for i in 0..items.len() {
        let mut rest = items.to_vec();
        let first = rest.remove(i);
        for mut tail in permutations(&rest) {
            tail.insert(0, first);
            all.push(tail);
        }
    }
    all
}

#[test]
fn absent_member_is_inserted() {
    for h in [Health::Alive, Health::Suspect, Health::Confirmed] {
        assert_eq!(reconcile(None, st(h, 0)), Verdict::Insert);
        assert_eq!(reconcile(None, st(h, 9)), Verdict::Insert);
    }
}

#[test]
fn reconciliation_table() {
    let rows = [
        (Alive, 3, Alive, 4, Verdict::Update),
        (Alive, 3, Alive, 3, Verdict::Keep),
        (Alive, 3, Suspect, 3, Verdict::Update),
        (Alive, 3, Suspect, 4, Verdict::Update),
        (Alive, 3, Confirmed, 3, Verdict::Update),
        (Alive, 3, Confirmed, 4, Verdict::Update),
        (Suspect, 3, Alive, 4, Verdict::Update),
        (Suspect, 3, Alive, 3, Verdict::Keep),
        (Suspect, 3, Suspect, 4, Verdict::Update),
        (Suspect, 3, Suspect, 3, Verdict::Keep),
        (Suspect, 3, Confirmed, 3, Verdict::Update),
        (Suspect, 3, Confirmed, 4, Verdict::Update),
        (Confirmed, 3, Alive, 4, Verdict::Update),
        (Confirmed, 3, Alive, 3, Verdict::Keep),
        (Confirmed, 3, Suspect, 3, Verdict::Keep),
        (Confirmed, 3, Suspect, 4, Verdict::Update),
        (Confirmed, 3, Confirmed, 3, Verdict::Keep),
        (Confirmed, 3, Confirmed, 4, Verdict::Keep),
    ];
    for (held, held_inc, incoming, incoming_inc, verdict) in rows {
        assert_eq!(
            reconcile(Some(st(held, held_inc)), st(incoming, incoming_inc)),
            verdict,
            "{:?}({}) then {:?}({})",
            held,
            held_inc,
            incoming,
            incoming_inc
        );
    }
}

#[test]
fn lower_incarnation_is_always_discarded() {
    for held in [Alive, Suspect, Confirmed] {
        for incoming in [Alive, Suspect, Confirmed] {
            assert_eq!(reconcile(Some(st(held, 5)), st(incoming, 4)), Verdict::Keep);
            assert_eq!(reconcile(Some(st(held, u64::MAX)), st(incoming, 0)), Verdict::Keep);
        }
    }
}

#[test]
fn any_order_settles_to_the_highest() {
    let inputs = [st(Alive, 0), st(Suspect, 0), st(Alive, 1), st(Suspect, 1), st(Confirmed, 1)];
    let mut top = inputs[0];
    for s in inputs.iter() {
        if above(*s, top) {
            top = *s;
        }
    }
    assert_eq!(top, st(Confirmed, 1));
    let all = permutations(&inputs);
    assert_eq!(all.len(), 120);
    for order in all.iter() {
        assert_eq!(settle(order), top);
    }
}

#[test]
fn alive_of_a_higher_incarnation_overrides_confirmed() {
    assert_eq!(reconcile(Some(st(Confirmed, 0)), st(Alive, 1)), Verdict::Update);
    assert_eq!(settle(&[st(Confirmed, 0), st(Alive, 1)]), st(Alive, 1));
    assert_eq!(settle(&[st(Alive, 1), st(Confirmed, 0)]), st(Alive, 1));
}

#[test]
fn confirmed_is_kept_against_a_later_confirmed() {
    assert_eq!(settle(&[st(Confirmed, 0), st(Confirmed, 1)]), st(Confirmed, 0));
    assert_eq!(settle(&[st(Confirmed, 1), st(Confirmed, 0)]), st(Confirmed, 1));
}

#[test]
fn refutation_bumps_past_the_rumor() {
    assert_eq!(refute(0, st(Suspect, 0)), Some(1));
    assert_eq!(refute(0, st(Confirmed, 0)), Some(1));
    assert_eq!(refute(2, st(Suspect, 7)), Some(8));
    assert_eq!(refute(2, st(Suspect, 1)), None);
    assert_eq!(refute(2, st(Alive, 9)), None);
    assert_eq!(refute(5, st(Confirmed, u64::MAX)), Some(u64::MAX));
}

#[test]
fn identity_as_hex_digits() {
    assert_eq!(
        MemberId(0xa1a2a3a4b1b2c1c2d1d2d3d4d5d6d7d8).as_string(),
        "a1a2a3a4b1b2c1c2d1d2d3d4d5d6d7d8"
    );
    assert_eq!(MemberId(0).as_string(), "00000000000000000000000000000000");
    assert_eq!(MemberId(0x1f).as_string(), "0000000000000000000000000000001f");
    assert_eq!(MemberId(u128::MAX).as_string(), "ffffffffffffffffffffffffffffffff");
}

#[test]
fn generated_identities_differ() {
    let a = MemberId::generate();
    let b = MemberId::generate();
    assert_ne!(a, b);
    assert_eq!(a.as_string().len(), 32);
}

#[test]
fn new_member_is_alive_at_zero() {
    let m = member(7);
    assert_eq!(m.health, Health::Alive);
    assert_eq!(m.incarnation, 0);
    assert!(!m.persistent);
    assert!(!m.departed);
    assert_eq!(m.standing(), st(Health::Alive, 0));
}

#[test]
fn list_insert_get_and_health() {
    let mut list = MemberList::new();
    assert_eq!(list.len(), 0);
    assert_eq!(list.get(MemberId(1)), None);
    assert_eq!(list.health_of(MemberId(1)), None);

    assert!(list.insert(member(1), Health::Alive, 0, 10));
    assert!(list.insert(member(2), Health::Suspect, 4, 11));
    assert!(!list.insert(member(1), Health::Alive, 0, 12));
    assert_eq!(list.len(), 2);
    assert_eq!(list.health_of(MemberId(1)), Some(Health::Alive));
    assert_eq!(list.health_of(MemberId(2)), Some(Health::Suspect));
    assert_eq!(list.since(MemberId(1)), Some(10));
    assert_eq!(list.since(MemberId(2)), Some(11));
    let two = list.get(MemberId(2)).unwrap();
    assert_eq!(two.incarnation, 4);
    assert_eq!(two.address, member(2).address);

    assert!(list.insert(member(1), Health::Suspect, 0, 20));
    assert_eq!(list.health_of(MemberId(1)), Some(Health::Suspect));
    assert_eq!(list.since(MemberId(1)), Some(20));
    assert!(!list.insert(member(1), Health::Alive, 0, 21));
    assert!(list.insert(member(1), Health::Alive, 1, 22));
    assert_eq!(list.get(MemberId(1)).unwrap().standing(), st(Health::Alive, 1));
    assert_eq!(list.len(), 2);
    let ids: Vec<MemberId> = list.members().iter().map(|m| m.id).collect();
    assert_eq!(ids, vec![MemberId(1), MemberId(2)]);
}

#[test]
fn departed_is_noted() {
    let mut list = MemberList::new();
    list.insert(member(1), Health::Confirmed, 3, 0);
    assert!(!list.set_departed(MemberId(2)));
    assert!(list.set_departed(MemberId(1)));
    let m = list.get(MemberId(1)).unwrap();
    assert!(m.departed);
    assert_eq!(m.standing(), st(Health::Confirmed, 3));
    assert_eq!(list.len(), 1);
}

#[test]
fn overdue_suspicions_are_confirmed() {
    let mut list = MemberList::new();
    list.insert(member(1), Health::Suspect, 2, 1000);
    list.insert(member(2), Health::Suspect, 0, 3000);
    list.insert(member(3), Health::Alive, 0, 0);
    assert!(list.expire(5999, 5000).is_empty());
    let confirmed = list.expire(6000, 5000);
    assert_eq!(confirmed.len(), 1);
    assert_eq!(confirmed[0].id, MemberId(1));
    assert_eq!(confirmed[0].standing(), st(Health::Confirmed, 2));
    assert_eq!(list.health_of(MemberId(1)), Some(Health::Confirmed));
    assert_eq!(list.since(MemberId(1)), Some(6000));
    assert_eq!(list.health_of(MemberId(2)), Some(Health::Suspect));
    assert_eq!(list.health_of(MemberId(3)), Some(Health::Alive));
    assert!(list.expire(500, 5000).is_empty());
    let confirmed = list.expire(8000, 5000);
    assert_eq!(confirmed.len(), 1);
    assert_eq!(confirmed[0].id, MemberId(2));
}

#[test]
fn picks_follow_the_draws() {
    let pool = vec![member(10), member(11), member(12), member(13)];
    let ids = |v: Vec<Member>| v.iter().map(|m| m.id.0).collect::<Vec<u128>>();
    assert_eq!(ids(pick_from(pool.clone(), &vec![0, 0, 0, 0])), vec![10, 11, 12, 13]);
    assert_eq!(ids(pick_from(pool.clone(), &vec![3, 2, 1, 0])), vec![13, 12, 11, 10]);
    assert_eq!(ids(pick_from(pool.clone(), &vec![5, 7])), vec![11, 12]);
    assert_eq!(ids(pick_from(pool.clone(), &vec![1, 1, 1, 1, 1, 1])), vec![11, 12, 13, 10]);
    assert!(pick_from(pool.clone(), &vec![]).is_empty());
    assert!(pick_from(Vec::new(), &vec![1, 2]).is_empty());
}

#[test]
fn picks_leave_out_the_excluded() {
    let mut list = MemberList::new();
    for n in 1..=5 {
        list.insert(member(n), Health::Alive, 0, 0);
    }
    let picked = list.pick_targets(&vec![MemberId(2), MemberId(4)], &vec![0, 0, 0, 0, 0]);
    let ids: Vec<u128> = picked.iter().map(|m| m.id.0).collect();
    assert_eq!(ids, vec![1, 3, 5]);
}

#[test]
fn random_targets_are_distinct_and_allowed() {
    let mut list = MemberList::new();
    for n in 1..=20 {
        list.insert(member(n), Health::Alive, 0, 0);
    }
    let exclude = vec![MemberId(3), MemberId(4)];
    for _ in 0..50 {
        let targets = list.random_targets(5, &exclude);
        assert_eq!(targets.len(), 5);
        for (i, t) in targets.iter().enumerate() {
            assert!(!exclude.contains(&t.id));
            assert_eq!(list.get(t.id), Some(*t));
            for u in targets[i + 1..].iter() {
                assert_ne!(t.id, u.id);
            }
        }
    }
    assert_eq!(list.random_targets(100, &exclude).len(), 18);
    assert!(list.random_targets(0, &exclude).is_empty());
}

#[test]
fn a_full_draw_is_a_permutation() {
    let pool: Vec<Member> = (1..=9).map(member).collect();
    let mut seen_other_order = false;
    for _ in 0..20 {
        let round = draw_from(pool.clone(), pool.len());
        let mut ids: Vec<u128> = round.iter().map(|m| m.id.0).collect();
        if ids != (1..=9).collect::<Vec<u128>>() {
            seen_other_order = true;
        }
        ids.sort();
        assert_eq!(ids, (1..=9).collect::<Vec<u128>>());
    }
    assert!(seen_other_order);
}

#[test]
fn probe_pool_skips_confirmed_unless_persistent() {
    let mut list = MemberList::new();
    list.insert(member(1), Health::Alive, 0, 0);
    list.insert(member(2), Health::Suspect, 0, 0);
    list.insert(member(3), Health::Confirmed, 0, 0);
    let mut stay = member(4);
    stay.persistent = true;
    list.insert(stay, Health::Confirmed, 0, 0);
    let ids: Vec<u128> = list.probe_pool(MemberId(1)).iter().map(|m| m.id.0).collect();
    assert_eq!(ids, vec![2, 4]);
    let ids: Vec<u128> = list.probe_pool(MemberId(99)).iter().map(|m| m.id.0).collect();
    assert_eq!(ids, vec![1, 2, 4]);
}

#[test]
fn generated_identities_have_the_form_of_a_version_four_uuid() {
    for _ in 0..200 {
        let id = MemberId::generate();
        assert_ne!(id, MemberId(0));
        assert_eq!((id.0 >> 76) & 0xf, 4);
        assert_eq!((id.0 >> 62) & 0x3, 2);
        assert_eq!(
            id.0 & 0xf000_c000_0000_0000_0000,
            0x4000_8000_0000_0000_0000
        );
        let text = id.as_string();
        assert_eq!(text.as_bytes()[12], b'4');
        assert!(b"89ab".contains(&text.as_bytes()[16]));
        assert_eq!(uuid::Uuid::from_u128(id.0).get_version_num(), 4);
    }
}
