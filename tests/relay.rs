use ssh_relay::registry::{ClientKey, Delivery, Registry};
use ssh_relay::session::{Auth, Handler, HandlerError, Phase, PtyGeometry, Server};

fn key(conn: u64, channel: u32) -> ClientKey {
    ClientKey { conn, channel }
}

fn authenticated(conn: u64) -> Handler {
    let mut h = Handler { conn, phase: Phase::Unauthenticated };
    assert_eq!(h.auth_publickey("user", b"key"), Auth::Accept);
    h
}

fn targets(ds: &[Delivery]) -> Vec<(ClientKey, Vec<u8>)> {
    ds.iter().map(|d| (d.key, d.payload.clone())).collect()
}

#[test]
fn registry_insert_and_get() {
    let mut reg: Registry<&str> = Registry::new();
    assert_eq!(reg.len(), 0);
    reg.insert(key(1, 0), "a");
    reg.insert(key(2, 0), "b");
    assert_eq!(reg.len(), 2);
    assert_eq!(reg.get(key(1, 0)), Some(&"a"));
    assert_eq!(reg.get(key(2, 0)), Some(&"b"));
    assert_eq!(reg.get(key(3, 0)), None);
    assert_eq!(reg.get(key(1, 1)), None);
}

#[test]
fn opening_same_key_twice_overwrites() {
    let mut reg: Registry<&str> = Registry::new();
    reg.insert(key(4, 2), "first");
    reg.insert(key(4, 2), "second");
    assert_eq!(reg.len(), 1);
    assert_eq!(reg.get(key(4, 2)), Some(&"second"));
    reg.insert(key(4, 3), "other channel");
    assert_eq!(reg.len(), 2);
}

#[test]
fn broadcast_reaches_all_but_origin() {
    let mut reg: Registry<u32> = Registry::new();
    for c in 0..5u64 {
        reg.insert(key(c, 0), c as u32);
    }
    let ds = reg.broadcast_except(2, b"hi");
    assert_eq!(ds.len(), 4);
    for d in &ds {
        assert_ne!(d.key.conn, 2);
        assert_eq!(d.payload, b"hi".to_vec());
    }
    let conns: Vec<u64> = ds.iter().map(|d| d.key.conn).collect();
    assert_eq!(conns, vec![0, 1, 3, 4]);
}

#[test]
fn broadcast_skips_unopened_channels() {
    let mut reg: Registry<u32> = Registry::new();
    reg.insert(key(0, 0), 0);
    reg.insert(key(1, 7), 1);
    let ds = reg.broadcast_except(0, b"x");
    assert_eq!(targets(&ds), vec![(key(1, 7), b"x".to_vec())]);
}

#[test]
fn broadcast_addresses_recipient_channel() {
    let mut reg: Registry<u32> = Registry::new();
    reg.insert(key(0, 3), 0);
    reg.insert(key(1, 9), 1);
    let a = authenticated(0);
    let ds = a.data(&reg, 3, b"msg").unwrap();
    assert_eq!(targets(&ds), vec![(key(1, 9), b"msg".to_vec()), (key(0, 3), b"msg".to_vec())]);
}

#[test]
fn broadcast_keeps_order_per_recipient() {
    let mut reg: Registry<u32> = Registry::new();
    reg.insert(key(0, 0), 0);
    reg.insert(key(1, 0), 1);
    reg.insert(key(2, 5), 2);
    let mut all = reg.broadcast_except(0, b"P1");
    all.extend(reg.broadcast_except(0, b"P2"));
    for k in [key(1, 0), key(2, 5)] {
        let got: Vec<Vec<u8>> = all.iter().filter(|d| d.key == k).map(|d| d.payload.clone()).collect();
        assert_eq!(got, vec![b"P1".to_vec(), b"P2".to_vec()]);
    }
    assert!(all.iter().all(|d| d.key.conn != 0));
}

#[test]
fn origin_gets_only_the_echo() {
    let mut reg: Registry<u32> = Registry::new();
    reg.insert(key(0, 0), 0);
    reg.insert(key(0, 1), 0);
    reg.insert(key(1, 0), 1);
    let a = authenticated(0);
    let ds = a.data(&reg, 1, b"z").unwrap();
    let to_origin: Vec<ClientKey> = ds.iter().filter(|d| d.key.conn == 0).map(|d| d.key).collect();
    assert_eq!(to_origin, vec![key(0, 1)]);
    assert_eq!(ds.last().unwrap().key, key(0, 1));
}

#[test]
fn any_public_key_is_accepted() {
    let mut seed: u64 = 0x9e37_79b9_7f4a_7c15;
    for len in 0..40usize {
        let mut bytes = Vec::new();
        for _ in 0..len {
            seed = seed.wrapping_mul(6364136223846793005).wrapping_add(1442695040888963407);
            bytes.push((seed >> 56) as u8);
        }
        let mut h = Handler { conn: len as u64, phase: Phase::Unauthenticated };
        assert_eq!(h.auth_publickey("anyone", &bytes), Auth::Accept);
        assert_eq!(h.phase, Phase::Authenticated);
    }
}

#[test]
fn two_clients_hello() {
    let mut server = Server::new();
    let mut reg: Registry<&str> = Registry::new();
    let mut a = server.accept().unwrap();
    let mut b = server.accept().unwrap();
    assert_ne!(a.conn, b.conn);
    a.auth_publickey("a", b"ka");
    b.auth_publickey("b", b"kb");
    a.channel_open_session(&mut reg, 0, "A").unwrap();
    b.channel_open_session(&mut reg, 0, "B").unwrap();
    let ds = a.data(&reg, 0, b"hello").unwrap();
    assert_eq!(
        targets(&ds),
        vec![(key(b.conn, 0), b"hello".to_vec()), (key(a.conn, 0), b"hello".to_vec())]
    );
    assert_eq!(reg.len(), 2);
    assert_eq!(reg.get(key(a.conn, 0)), Some(&"A"));
    assert_eq!(reg.get(key(b.conn, 0)), Some(&"B"));
    assert_eq!(a.phase, Phase::Authenticated);
    assert_eq!(b.phase, Phase::Authenticated);
}

#[test]
fn pty_request_xterm_geometry() {
    let h = authenticated(0);
    let first = h.pty_request(0, "xterm", 80, 24, 0, 0).unwrap();
    assert_eq!(first, PtyGeometry { rows: 24, cols: 80, xpixel: 0, ypixel: 0 });
    let second = h.pty_request(0, "xterm", 80, 24, 0, 0).unwrap();
    assert_eq!(second, first);
}

#[test]
fn pty_request_cuts_to_sixteen_bits() {
    let h = authenticated(0);
    let g = h.pty_request(1, "vt100", 70000, 65536, 65535, 131073).unwrap();
    assert_eq!(g, PtyGeometry { rows: 0, cols: 4464, xpixel: 65535, ypixel: 1 });
}

#[test]
fn lone_sender_gets_only_echo() {
    let mut reg: Registry<u32> = Registry::new();
    let a = authenticated(7);
    a.channel_open_session(&mut reg, 0, 7).unwrap();
    assert!(reg.broadcast_except(7, b"solo").is_empty());
    let ds = a.data(&reg, 0, b"solo").unwrap();
    assert_eq!(targets(&ds), vec![(key(7, 0), b"solo".to_vec())]);
}

#[test]
fn requests_before_auth_are_refused() {
    let mut reg: Registry<u32> = Registry::new();
    let h = Handler { conn: 1, phase: Phase::Unauthenticated };
    assert_eq!(h.channel_open_session(&mut reg, 0, 1), Err(HandlerError::NotAuthenticated));
    assert_eq!(reg.len(), 0);
    assert_eq!(h.data(&reg, 0, b"x").map(|d| d.len()), Err(HandlerError::NotAuthenticated));
    assert_eq!(h.pty_request(0, "xterm", 80, 24, 0, 0), Err(HandlerError::NotAuthenticated));
    assert_eq!(h.shell_request(0), Err(HandlerError::NotAuthenticated));
}

#[test]
fn shell_request_is_accepted() {
    let h = authenticated(3);
    assert_eq!(h.shell_request(0), Ok(()));
}

#[test]
fn disconnect_removes_channels_and_closes() {
    let mut reg: Registry<u32> = Registry::new();
    let mut a = authenticated(0);
    let b = authenticated(1);
    a.channel_open_session(&mut reg, 0, 10).unwrap();
    b.channel_open_session(&mut reg, 0, 20).unwrap();
    a.channel_open_session(&mut reg, 1, 11).unwrap();
    a.disconnect(&mut reg);
    assert_eq!(a.phase, Phase::Closed);
    assert_eq!(reg.len(), 1);
    assert_eq!(reg.get(key(1, 0)), Some(&20));
    assert_eq!(a.shell_request(0), Err(HandlerError::Closed));
    assert_eq!(a.auth_publickey("u", b"k"), Auth::Accept);
    assert_eq!(a.phase, Phase::Closed);
    let ds = b.data(&reg, 0, b"after").unwrap();
    assert_eq!(targets(&ds), vec![(key(1, 0), b"after".to_vec())]);
}

#[test]
fn remove_single_key() {
    let mut reg: Registry<u32> = Registry::new();
    reg.insert(key(0, 0), 1);
    reg.insert(key(0, 1), 2);
    assert_eq!(reg.remove(key(0, 0)), Some(1));
    assert_eq!(reg.remove(key(0, 0)), None);
    assert_eq!(reg.len(), 1);
    assert_eq!(reg.get(key(0, 1)), Some(&2));
}

#[test]
fn accept_hands_out_fresh_ids() {
    let mut server = Server::new();
    let ids: Vec<u64> = (0..4).map(|_| server.accept().unwrap().conn).collect();
    assert_eq!(ids, vec![0, 1, 2, 3]);
    let h = server.accept().unwrap();
    assert_eq!(h.phase, Phase::Unauthenticated);
}
