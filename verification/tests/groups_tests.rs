use liberty_core::crypto::disappearing::DisappearMode;
use liberty_core::crypto::session::EncryptedMessage;
use liberty_core::crypto::{sweep_expired, EphemeralMessage, MessageHeader, MlsGroup};
use liberty_core::groups::{GroupManager, GroupSession, Role};

fn encrypted(ts: i64) -> EncryptedMessage {
    EncryptedMessage {
        header: MessageHeader { dh_public: [0u8; 32], n: 0, pn: 0 },
        ciphertext: vec![1, 2, 3],
        timestamp: ts,
        initiator_ephemeral: None,
    }
}

#[test]
fn group_session_creation_and_sending() {
    let mut g = GroupSession::create("Team", "alice", [7u8; 32]);
    assert_eq!(g.meta.name, "Team");
    assert_eq!(g.meta.members.len(), 1);
    assert_eq!(g.meta.members[0].role, Role::Admin);
    assert_eq!(g.meta.members[0].peer_id, "alice");
    let (n0, c0) = g.encrypt(b"hello team").unwrap();
    let (n1, c1) = g.encrypt(b"hello team").unwrap();
    assert_eq!(n0, 0);
    assert_eq!(n1, 1);
    assert_ne!(c0, c1);
    assert!(g.decrypt("bob", 0, &c0).is_err());
}

#[test]
fn group_manager_create_and_lookup() {
    let mut gm = GroupManager::new();
    let id = gm.create("Book club", "alice", [1u8; 32]);
    assert_eq!(id.len(), 64);
    let g = gm.get_mut(&id).unwrap();
    assert_eq!(g.meta.name, "Book club");
    assert!(gm.get_mut("00").is_none());
    let other = gm.create("Chess", "bob", [2u8; 32]);
    assert_ne!(id, other);
}

#[test]
fn disappearing_after_send() {
    let m = EphemeralMessage::new(encrypted(100), DisappearMode::AfterSend, 30);
    assert_eq!(m.timer_start, Some(100));
    assert!(!m.is_expired(129));
    assert!(m.is_expired(130));
    assert_eq!(m.seconds_remaining(110), Some(20));
    assert_eq!(m.seconds_remaining(500), Some(0));
}

#[test]
fn disappearing_after_read_starts_on_first_read() {
    let mut m = EphemeralMessage::new(encrypted(100), DisappearMode::AfterRead, 10);
    assert_eq!(m.timer_start, None);
    assert!(!m.is_expired(1_000_000));
    assert_eq!(m.seconds_remaining(0), None);
    m.mark_read(200);
    assert!(m.read);
    assert_eq!(m.timer_start, Some(200));
    m.mark_read(300);
    assert_eq!(m.timer_start, Some(200));
    assert!(m.is_expired(210));
}

#[test]
fn never_and_zero_ttl_do_not_expire() {
    let never = EphemeralMessage::new(encrypted(0), DisappearMode::Never, 5);
    assert!(!never.is_expired(i64::MAX));
    let zero = EphemeralMessage::new(encrypted(0), DisappearMode::AfterSend, 0);
    assert_eq!(zero.timer_start, None);
    assert!(!zero.is_expired(i64::MAX));
}

#[test]
fn sweep_keeps_unexpired_in_order() {
    let a = EphemeralMessage::new(encrypted(0), DisappearMode::AfterSend, 10);
    let b = EphemeralMessage::new(encrypted(0), DisappearMode::Never, 10);
    let c = EphemeralMessage::new(encrypted(50), DisappearMode::AfterSend, 10);
    let kept = sweep_expired(vec![a, b, c], 20);
    assert_eq!(kept.len(), 2);
    assert_eq!(kept[0].mode, DisappearMode::Never);
    assert_eq!(kept[1].encrypted.timestamp, 50);
}

#[test]
fn mls_members_and_epochs() {
    let mut g = MlsGroup::new([3u8; 32], "alice");
    assert_eq!(g.epoch, 0);
    assert_eq!(g.members, vec!["alice".to_string()]);
    g.add_member("bob");
    assert_eq!(g.epoch, 1);
    g.add_member("bob");
    assert_eq!(g.epoch, 1);
    assert_eq!(g.members, vec!["alice".to_string(), "bob".to_string()]);
}

#[test]
fn group_ciphertext_length() {
    let mut g = GroupSession::create("G", "a", [0u8; 32]);
    let (n, ct) = g.encrypt(b"12345").unwrap();
    assert_eq!(n, 0);
    assert_eq!(ct.len(), 29 + 5);
    assert_eq!(ct[0], 1);
}

#[test]
fn group_ids_never_returned_find_nothing() {
    let mut gm = GroupManager::new();
    assert!(gm.get_mut("").is_none());
    let a = gm.create("A", "alice", [1u8; 32]);
    let b = gm.create("B", "bob", [2u8; 32]);
    assert!(a.chars().all(|c| c.is_ascii_hexdigit() && !c.is_ascii_uppercase()));
    assert_eq!(gm.get_mut(&a).unwrap().meta.name, "A");
    assert_eq!(gm.get_mut(&b).unwrap().meta.name, "B");
    let never = "0".repeat(64);
    if never != a && never != b {
        assert!(gm.get_mut(&never).is_none());
    }
    assert!(gm.get_mut(&a[..63]).is_none());
}

#[test]
fn mls_epoch_is_members_less_one() {
    let mut g = MlsGroup::new([5u8; 32], "alice");
    for p in ["bob", "carol", "bob", "alice", "dave", "carol", "erin"] {
        g.add_member(p);
        assert_eq!(g.epoch as usize, g.members.len() - 1);
    }
    assert_eq!(g.members, vec!["alice", "bob", "carol", "dave", "erin"]);
    assert_eq!(g.group_id, [5u8; 32]);
}
