use friend_store::friend::{Friend, GroupId, PeerId};
use friend_store::session::SessionType;
use friend_store::store::{Message, Store, StoreError};

fn gid(b: u8) -> GroupId {
    GroupId(vec![b; 32])
}

fn addr(b: u8) -> PeerId {
    PeerId(vec![b; 32])
}

fn announce(db: &mut Store, g: u8, a: u8, name: &str, wallet: &str) -> Friend {
    Friend::from_remote(
        db,
        gid(g),
        String::from(name),
        addr(a),
        String::from(wallet),
    )
    .unwrap()
}

#[test]
fn lookup_miss_is_not_found() {
    let db = Store::new();
    assert!(matches!(
        Friend::get_id(&db, &gid(9)),
        Err(StoreError::NotFound)
    ));
    assert!(matches!(Friend::get(&db, &5), Err(StoreError::NotFound)));
}

#[test]
fn reconcile_twice_is_idempotent() {
    let mut db = Store::new();
    let f1 = announce(&mut db, 1, 10, "alice", "w1");
    let f2 = announce(&mut db, 1, 10, "alice", "w1");
    assert_eq!(f1.id, f2.id);
    let rows = Friend::list(&db).unwrap();
    assert_eq!(rows.len(), 1);
    assert_eq!(rows[0].name, "alice");
    assert_eq!(rows[0].addr.0, vec![10u8; 32]);
    assert!(!rows[0].is_closed);
    assert_eq!(rows[0].datetime, f1.datetime);
}

#[test]
fn address_churn_keeps_identity() {
    let mut db = Store::new();
    let f1 = announce(&mut db, 1, 10, "alice", "w");
    let f2 = announce(&mut db, 1, 11, "alice", "w");
    assert_eq!(f1.id, f2.id);
    let rows = Friend::list(&db).unwrap();
    assert_eq!(rows.len(), 1);
    assert_eq!(rows[0].gid.0, vec![1u8; 32]);
    assert_eq!(rows[0].addr.0, vec![11u8; 32]);
}

#[test]
fn closed_then_reconcile_reopens_same_row() {
    let mut db = Store::new();
    let f = announce(&mut db, 1, 10, "alice", "w");
    assert_eq!(Friend::id_close(&mut db, f.id).unwrap(), 1);
    assert_eq!(Friend::is_friend(&db, &gid(1)).unwrap(), false);
    let f2 = announce(&mut db, 1, 12, "alice", "w");
    assert_eq!(f2.id, f.id);
    assert!(!f2.is_closed);
    let rows = Friend::list(&db).unwrap();
    assert_eq!(rows.len(), 1);
    assert!(!rows[0].is_closed);
    assert_eq!(Friend::is_friend(&db, &gid(1)).unwrap(), true);
}

#[test]
fn remark_survives_reconciliation() {
    let mut db = Store::new();
    let f = announce(&mut db, 1, 10, "alice", "w");
    let mut mine = Friend::get(&db, &f.id).unwrap();
    mine.remark = String::from("x");
    assert_eq!(mine.me_update(&mut db).unwrap(), 1);
    announce(&mut db, 1, 11, "alicia", "w2");
    let row = Friend::get_id(&db, &gid(1)).unwrap();
    assert_eq!(row.remark, "x");
    assert_eq!(row.name, "alicia");
    assert_eq!(row.wallet, "w2");
}

#[test]
fn delete_cascades_to_messages() {
    let mut db = Store::new();
    let f = announce(&mut db, 1, 10, "alice", "w");
    let g = announce(&mut db, 2, 20, "bob", "w");
    let mut m1 = Message {
        id: 0,
        fid: f.id,
        content: String::from("hi"),
    };
    let mut m2 = Message {
        id: 0,
        fid: f.id,
        content: String::from("there"),
    };
    let mut m3 = Message {
        id: 0,
        fid: g.id,
        content: String::from("other"),
    };
    m1.insert(&mut db).unwrap();
    m2.insert(&mut db).unwrap();
    m3.insert(&mut db).unwrap();
    assert_eq!(Friend::delete(&mut db, &f.id).unwrap(), 1);
    assert!(matches!(Friend::get(&db, &f.id), Err(StoreError::NotFound)));
    assert_eq!(Friend::delete(&mut db, &f.id).unwrap(), 0);
    assert!(matches!(
        Friend::get_id(&db, &gid(1)),
        Err(StoreError::NotFound)
    ));
    assert_eq!(db.messages.len(), 1);
    assert_eq!(db.messages[0].fid, g.id);
    assert!(Friend::get(&db, &g.id).is_ok());
}

#[test]
fn duplicate_open_insert_conflicts() {
    let mut db = Store::new();
    let mut f1 = Friend::new(
        gid(1),
        addr(10),
        String::from("alice"),
        String::from("w"),
        String::new(),
        0,
    );
    f1.insert(&mut db).unwrap();
    let mut f2 = Friend::new(
        gid(1),
        addr(11),
        String::from("imposter"),
        String::from("w"),
        String::new(),
        0,
    );
    assert!(matches!(f2.insert(&mut db), Err(StoreError::Conflict)));
    assert_eq!(Friend::list(&db).unwrap().len(), 1);
}

#[test]
fn insert_after_close_is_allowed() {
    let mut db = Store::new();
    let mut f1 = Friend::new(
        gid(1),
        addr(10),
        String::from("alice"),
        String::from("w"),
        String::new(),
        0,
    );
    f1.insert(&mut db).unwrap();
    assert_eq!(f1.close(&mut db).unwrap(), 1);
    let mut f2 = Friend::new(
        gid(1),
        addr(11),
        String::from("alice again"),
        String::from("w"),
        String::new(),
        0,
    );
    f2.insert(&mut db).unwrap();
    assert_ne!(f1.id, f2.id);
    assert_eq!(Friend::list(&db).unwrap().len(), 2);
    assert_eq!(Friend::is_friend(&db, &gid(1)).unwrap(), true);
    let found = Friend::get_id(&db, &gid(1)).unwrap();
    assert_eq!(found.id, f2.id);
}

#[test]
fn reopening_update_conflicts_with_open_row() {
    let mut db = Store::new();
    let mut f1 = Friend::new(
        gid(1),
        addr(10),
        String::from("alice"),
        String::from("w"),
        String::new(),
        0,
    );
    f1.insert(&mut db).unwrap();
    assert_eq!(f1.close(&mut db).unwrap(), 1);
    let mut f2 = Friend::new(
        gid(1),
        addr(11),
        String::from("alice again"),
        String::from("w"),
        String::new(),
        0,
    );
    f2.insert(&mut db).unwrap();
    let mut stale = Friend::get(&db, &f1.id).unwrap();
    stale.is_closed = false;
    assert!(matches!(stale.update(&mut db), Err(StoreError::Conflict)));
    assert!(matches!(
        stale.remote_update(&mut db),
        Err(StoreError::Conflict)
    ));
}

#[test]
fn update_rewrites_mutable_columns_only() {
    let mut db = Store::new();
    let f = announce(&mut db, 1, 10, "alice", "w");
    let mut edited = Friend::get(&db, &f.id).unwrap();
    edited.name = String::from("renamed");
    edited.wallet = String::from("w9");
    edited.height = 7;
    edited.remark = String::from("note");
    edited.addr = addr(13);
    assert_eq!(edited.update(&mut db).unwrap(), 1);
    let row = Friend::get(&db, &f.id).unwrap();
    assert_eq!(row.name, "renamed");
    assert_eq!(row.wallet, "w9");
    assert_eq!(row.height, 7);
    assert_eq!(row.remark, "note");
    assert_eq!(row.addr.0, vec![13u8; 32]);
    assert_eq!(row.gid.0, vec![1u8; 32]);
    assert_eq!(row.datetime, f.datetime);
    let absent = Friend::new(
        gid(5),
        addr(5),
        String::from("nobody"),
        String::new(),
        String::new(),
        0,
    );
    assert_eq!(absent.update(&mut db).unwrap(), 0);
}

#[test]
fn addr_update_rotates_address_only() {
    let mut db = Store::new();
    let f = announce(&mut db, 1, 10, "alice", "w");
    assert_eq!(Friend::addr_update(&mut db, f.id, &addr(42)).unwrap(), 1);
    let row = Friend::get(&db, &f.id).unwrap();
    assert_eq!(row.addr.0, vec![42u8; 32]);
    assert_eq!(row.name, "alice");
    assert_eq!(Friend::addr_update(&mut db, 99, &addr(42)).unwrap(), 0);
}

#[test]
fn close_is_soft_and_row_survives() {
    let mut db = Store::new();
    let f = announce(&mut db, 1, 10, "alice", "w");
    assert_eq!(f.close(&mut db).unwrap(), 1);
    let row = Friend::get(&db, &f.id).unwrap();
    assert!(row.is_closed);
    assert_eq!(Friend::is_friend(&db, &gid(1)).unwrap(), false);
    assert_eq!(Friend::id_close(&mut db, 77).unwrap(), 0);
}

#[test]
fn message_insert_requires_existing_friend() {
    let mut db = Store::new();
    let mut m = Message {
        id: 0,
        fid: 3,
        content: String::from("orphan"),
    };
    assert!(matches!(m.insert(&mut db), Err(StoreError::NotFound)));
    assert_eq!(db.messages.len(), 0);
}

#[test]
fn delete_by_fid_removes_only_matching_rows() {
    let mut db = Store::new();
    let f = announce(&mut db, 1, 10, "alice", "w");
    let g = announce(&mut db, 2, 20, "bob", "w");
    let mut m1 = Message {
        id: 0,
        fid: f.id,
        content: String::from("a"),
    };
    let mut m2 = Message {
        id: 0,
        fid: g.id,
        content: String::from("b"),
    };
    m1.insert(&mut db).unwrap();
    m2.insert(&mut db).unwrap();
    assert_eq!(Message::delete_by_fid(&mut db, &f.id).unwrap(), 1);
    assert_eq!(db.messages.len(), 1);
    assert_eq!(db.messages[0].fid, g.id);
    assert_eq!(Message::delete_by_fid(&mut db, &f.id).unwrap(), 0);
}

#[test]
fn new_row_is_stamped_and_unkeyed() {
    let f = Friend::new(
        gid(1),
        addr(10),
        String::from("alice"),
        String::from("w"),
        String::from("r"),
        3,
    );
    assert_eq!(f.id, 0);
    assert!(!f.is_closed);
    assert!(f.datetime >= 0);
    assert_eq!(f.height, 3);
    assert_eq!(f.remark, "r");
}

#[test]
fn first_announcement_gets_first_key() {
    let mut db = Store::new();
    let f = announce(&mut db, 1, 10, "alice", "w");
    assert_eq!(f.id, 1);
    assert_eq!(f.height, 0);
    assert_eq!(f.remark, "");
    let g = announce(&mut db, 2, 20, "bob", "w");
    assert_eq!(g.id, 2);
}

#[test]
fn contains_addr_matches_current_address() {
    let f = Friend::new(
        gid(1),
        addr(10),
        String::from("alice"),
        String::new(),
        String::new(),
        0,
    );
    assert!(f.contains_addr(&addr(10)));
    assert!(!f.contains_addr(&addr(11)));
    assert!(!f.contains_addr(&PeerId(vec![10u8; 31])));
}

#[test]
fn to_session_projects_fields() {
    let mut f = Friend::new(
        gid(1),
        addr(10),
        String::from("alice"),
        String::new(),
        String::new(),
        0,
    );
    f.id = 7;
    let s = f.to_session();
    assert_eq!(s.fid, 7);
    assert_eq!(s.gid.0, vec![1u8; 32]);
    assert_eq!(s.addr.0, vec![10u8; 32]);
    assert_eq!(s.s_type, SessionType::Chat);
    assert_eq!(s.name, "alice");
    assert_eq!(s.datetime, f.datetime);
}

#[test]
fn rpc_views_render_hex() {
    let mut f = Friend::new(
        GroupId(vec![0x00, 0x1f, 0xa5, 0xff]),
        PeerId(vec![0xde, 0xad, 0xbe, 0xef]),
        String::from("alice"),
        String::from("w"),
        String::from("r"),
        0,
    );
    f.id = 4;
    let v = f.to_rpc();
    assert_eq!(v.id, 4);
    assert_eq!(v.gid, "001fa5ff");
    assert_eq!(v.addr, "deadbeef");
    assert_eq!(v.name, "alice");
    assert_eq!(v.wallet, "w");
    assert_eq!(v.remark, "r");
    assert!(!v.is_closed);
    assert_eq!(v.datetime, f.datetime);
    let w = f.to_rpc_online(true);
    assert_eq!(w.gid, "001fa5ff");
    assert_eq!(w.addr, "deadbeef");
    assert!(w.online);
    assert!(!f.to_rpc_online(false).online);
}

#[test]
fn list_reports_all_rows_in_order() {
    let mut db = Store::new();
    let f = announce(&mut db, 1, 10, "alice", "w");
    let g = announce(&mut db, 2, 20, "bob", "w");
    f.close(&mut db).unwrap();
    let rows = Friend::list(&db).unwrap();
    assert_eq!(rows.len(), 2);
    assert_eq!(rows[0].id, f.id);
    assert!(rows[0].is_closed);
    assert_eq!(rows[1].id, g.id);
    assert!(!rows[1].is_closed);
}
