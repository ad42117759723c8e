//! The persistence gateway: a relational store with one row per contact and
//! one row set of dependent messages, with its invariants and the typed
//! operations the rest of the system uses.

use vstd::prelude::*;
use crate::friend::{bytes_eq, Friend, FriendV, GroupId};

verus! {

/// The failure kinds of the gateway. Lookup misses are reported as
/// `NotFound`; a write that would give an identity a second open row is
/// rejected as `Conflict`; `StoreIo` stands for a failure of the backing
/// store itself.
#[derive(Clone, Copy, PartialEq, Eq, Structural, Debug)]
pub enum StoreError {
    NotFound,
    Conflict,
    StoreIo,
}

/// Mathematical value of a message row.
pub ghost struct MessageV {
    pub id: int,
    pub fid: int,
    pub content: Seq<char>,
}

/// A dependent message row: its lifecycle is owned by the messaging
/// subsystem, but this store owns the deletion cascade, so it keeps the
/// foreign key to the contact it belongs to.
pub struct Message {
    /// Surrogate key, assigned by the store on insert; zero before insertion.
    pub id: i64,
    /// Foreign key: the `id` of the `Friend` this message references.
    pub fid: i64,
    pub content: String,
}

impl View for Message {
    type V = MessageV;

    open spec fn view(&self) -> MessageV {
        MessageV { id: self.id as int, fid: self.fid as int, content: self.content@ }
    }
}

impl Clone for Message {
    fn clone(&self) -> (r: Self)
        ensures
            r@ == self@,
    {
        Message { id: self.id, fid: self.fid, content: self.content.clone() }
    }
}

/// Mathematical value of the whole store.
pub ghost struct StoreV {
    pub friends: Seq<FriendV>,
    pub messages: Seq<MessageV>,
    pub next_fid: int,
    pub next_mid: int,
}

/// The store handle: the contact table, the dependent message table, and the
/// two surrogate-key counters. All operations go through the typed methods;
/// they require and preserve `StoreV::wf`.
pub struct Store {
    pub friends: Vec<Friend>,
    pub messages: Vec<Message>,
    pub next_fid: i64,
    pub next_mid: i64,
}

/// The views of a row sequence.
pub open spec fn fviews(fs: Seq<Friend>) -> Seq<FriendV> {
    fs.map_values(|f: Friend| f@)
}

/// The views of a message sequence.
pub open spec fn mviews(ms: Seq<Message>) -> Seq<MessageV> {
    ms.map_values(|m: Message| m@)
}

impl View for Store {
    type V = StoreV;

    open spec fn view(&self) -> StoreV {
        StoreV {
            friends: fviews(self.friends@),
            messages: mviews(self.messages@),
            next_fid: self.next_fid as int,
            next_mid: self.next_mid as int,
        }
    }
}

impl StoreV {
    /// Well-formedness of the store: surrogate keys are positive, below the
    /// counter and unique; at most one open row exists per identity; and
    /// every message references an existing contact row.
    pub open spec fn wf(self) -> bool {
        &&& 1 <= self.next_fid <= i64::MAX
        &&& 1 <= self.next_mid <= i64::MAX
        &&& forall|i: int|
            0 <= i < self.friends.len() ==> 1 <= (#[trigger] self.friends[i].id) < self.next_fid
        &&& forall|i: int, j: int|
            0 <= i < j < self.friends.len() ==> (#[trigger] self.friends[i].id) != (
            #[trigger] self.friends[j].id)
        &&& forall|i: int, j: int|
            0 <= i < j < self.friends.len() && !(#[trigger] self.friends[i]).is_closed && !(
            #[trigger] self.friends[j]).is_closed ==> self.friends[i].gid != self.friends[j].gid
        &&& forall|k: int|
            0 <= k < self.messages.len() ==> 1 <= (#[trigger] self.messages[k].id) < self.next_mid
        &&& forall|k: int|
            0 <= k < self.messages.len() ==> has_fid(self.friends, (#[trigger] self.messages[k]).fid)
    }
}

/// Some contact row carries the given surrogate key.
pub open spec fn has_fid(fs: Seq<FriendV>, fid: int) -> bool {
    exists|i: int| 0 <= i < fs.len() && (#[trigger] fs[i].id) == fid
}

/// The index of the last row satisfying `p`, or minus one if none does.
/// Lookups resolve to the last match in table order, so of several rows
/// carrying one identity the most recently inserted wins.
pub open spec fn find_last(fs: Seq<FriendV>, p: spec_fn(FriendV) -> bool) -> int
    decreases fs.len(),
{
    if fs.len() == 0 {
        -1
    } else if p(fs.last()) {
        fs.len() - 1
    } else {
        find_last(fs.drop_last(), p)
    }
}

/// Matches the row with the given surrogate key.
pub open spec fn by_id(id: int) -> spec_fn(FriendV) -> bool {
    |f: FriendV| f.id == id
}

/// Matches any row with the given identity, open or closed.
pub open spec fn by_gid(gid: Seq<u8>) -> spec_fn(FriendV) -> bool {
    |f: FriendV| f.gid == gid
}

/// Matches an open row with the given identity.
pub open spec fn by_open_gid(gid: Seq<u8>) -> spec_fn(FriendV) -> bool {
    |f: FriendV| !f.is_closed && f.gid == gid
}

/// The row holding the surrogate key `id`, or minus one.
pub open spec fn id_index(fs: Seq<FriendV>, id: int) -> int {
    find_last(fs, by_id(id))
}

/// The last row carrying the identity `gid`, open or closed, or minus one.
pub open spec fn gid_index(fs: Seq<FriendV>, gid: Seq<u8>) -> int {
    find_last(fs, by_gid(gid))
}

/// The open row carrying the identity `gid`, or minus one.
pub open spec fn open_gid_index(fs: Seq<FriendV>, gid: Seq<u8>) -> int {
    find_last(fs, by_open_gid(gid))
}

/// What `find_last` returns: a match with nothing matching after it, or
/// minus one with nothing matching at all.
pub proof fn lemma_find_last(fs: Seq<FriendV>, p: spec_fn(FriendV) -> bool)
    ensures
        -1 <= find_last(fs, p) < fs.len(),
        find_last(fs, p) >= 0 ==> p(fs[find_last(fs, p)]),
        forall|j: int| find_last(fs, p) < j < fs.len() ==> !p(#[trigger] fs[j]),
    decreases fs.len(),
{
    if fs.len() > 0 && !p(fs.last()) {
        lemma_find_last(fs.drop_last(), p);
        assert forall|j: int| find_last(fs, p) < j < fs.len() implies !p(#[trigger] fs[j]) by {
            if j < fs.len() - 1 {
                assert(fs.drop_last()[j] == fs[j]);
            }
        }
    }
}

/// A position that matches, with no match after it, is what `find_last`
/// returns.
pub proof fn lemma_find_last_at(fs: Seq<FriendV>, p: spec_fn(FriendV) -> bool, i: int)
    requires
        0 <= i < fs.len(),
        p(fs[i]),
        forall|j: int| i < j < fs.len() ==> !p(#[trigger] fs[j]),
    ensures
        find_last(fs, p) == i,
    decreases fs.len(),
{
    if i < fs.len() - 1 {
        assert(!p(fs.last()));
        assert(fs.drop_last()[i] == fs[i]);
        assert forall|j: int| i < j < fs.drop_last().len() implies !p(#[trigger] fs.drop_last()[j])
            by {
            assert(fs.drop_last()[j] == fs[j]);
        }
        lemma_find_last_at(fs.drop_last(), p, i);
    }
}

/// When no row matches, `find_last` reports minus one.
pub proof fn lemma_find_last_none(fs: Seq<FriendV>, p: spec_fn(FriendV) -> bool)
    requires
        forall|j: int| 0 <= j < fs.len() ==> !p(#[trigger] fs[j]),
    ensures
        find_last(fs, p) == -1,
    decreases fs.len(),
{
    if fs.len() > 0 {
        assert forall|j: int| 0 <= j < fs.drop_last().len() implies !p(
            #[trigger] fs.drop_last()[j],
        ) by {
            assert(fs.drop_last()[j] == fs[j]);
        }
        lemma_find_last_none(fs.drop_last(), p);
    }
}

/// The same store with its contact table replaced.
pub open spec fn with_friends(s: StoreV, fs: Seq<FriendV>) -> StoreV {
    StoreV { friends: fs, messages: s.messages, next_fid: s.next_fid, next_mid: s.next_mid }
}

/// A full overwrite of the mutable columns: address, name, wallet, height,
/// remark and the closed flag; identity, key and creation time are kept.
pub open spec fn updated_full(row: FriendV, f: FriendV) -> FriendV {
    FriendV {
        id: row.id,
        gid: row.gid,
        datetime: row.datetime,
        addr: f.addr,
        name: f.name,
        wallet: f.wallet,
        height: f.height,
        remark: f.remark,
        is_closed: f.is_closed,
    }
}

/// A remote reconciliation write: address, name, wallet and height, and the
/// row is reopened; the locally owned remark is untouched.
pub open spec fn remote_updated(row: FriendV, f: FriendV) -> FriendV {
    FriendV {
        id: row.id,
        gid: row.gid,
        datetime: row.datetime,
        remark: row.remark,
        addr: f.addr,
        name: f.name,
        wallet: f.wallet,
        height: f.height,
        is_closed: false,
    }
}

/// A local remark edit: only the remark column changes.
pub open spec fn remark_updated(row: FriendV, remark: Seq<char>) -> FriendV {
    FriendV {
        id: row.id,
        gid: row.gid,
        addr: row.addr,
        name: row.name,
        wallet: row.wallet,
        height: row.height,
        remark,
        is_closed: row.is_closed,
        datetime: row.datetime,
    }
}

/// An address rotation: only the address column changes.
pub open spec fn addr_updated(row: FriendV, addr: Seq<u8>) -> FriendV {
    FriendV {
        id: row.id,
        gid: row.gid,
        addr,
        name: row.name,
        wallet: row.wallet,
        height: row.height,
        remark: row.remark,
        is_closed: row.is_closed,
        datetime: row.datetime,
    }
}

/// A soft delete: only the closed flag is set.
pub open spec fn closed_row(row: FriendV) -> FriendV {
    FriendV {
        id: row.id,
        gid: row.gid,
        addr: row.addr,
        name: row.name,
        wallet: row.wallet,
        height: row.height,
        remark: row.remark,
        is_closed: true,
        datetime: row.datetime,
    }
}

/// The row `f` with its surrogate key assigned.
pub open spec fn inserted_row(f: FriendV, id: int) -> FriendV {
    FriendV {
        id,
        gid: f.gid,
        addr: f.addr,
        name: f.name,
        wallet: f.wallet,
        height: f.height,
        remark: f.remark,
        is_closed: f.is_closed,
        datetime: f.datetime,
    }
}

/// Some open row other than the one at `i` carries the identity `gid`; a
/// write that would reopen row `i` under that identity must be refused, or
/// the identity would have two open rows.
pub open spec fn open_other(fs: Seq<FriendV>, i: int, gid: Seq<u8>) -> bool {
    exists|j: int|
        0 <= j < fs.len() && j != i && !(#[trigger] fs[j]).is_closed && fs[j].gid == gid
}

/// An insert is blocked exactly when the new row is open and its identity
/// already has an open row.
pub open spec fn insert_blocked(fs: Seq<FriendV>, f: FriendV) -> bool {
    !f.is_closed && has_open_gid(fs, f.gid)
}

/// The messages that survive a cascade for the contact key `fid`, in table
/// order.
pub open spec fn msgs_without(ms: Seq<MessageV>, fid: int) -> Seq<MessageV>
    decreases ms.len(),
{
    if ms.len() == 0 {
        Seq::empty()
    } else {
        let rest = msgs_without(ms.drop_last(), fid);
        if ms.last().fid == fid {
            rest
        } else {
            rest.push(ms.last())
        }
    }
}

/// What survives a cascade: rows of the table as it stood, minus every row
/// whose key is the deleted one.
pub proof fn lemma_msgs_without(ms: Seq<MessageV>, fid: int)
    ensures
        msgs_without(ms, fid).len() <= ms.len(),
        forall|k: int|
            0 <= k < msgs_without(ms, fid).len() ==> (#[trigger] msgs_without(ms, fid)[k]).fid
                != fid,
        forall|k: int|
            0 <= k < msgs_without(ms, fid).len() ==> exists|l: int|
                0 <= l < ms.len() && ms[l] == (#[trigger] msgs_without(ms, fid)[k]),
    decreases ms.len(),
{
    if ms.len() > 0 {
        lemma_msgs_without(ms.drop_last(), fid);
        let rest = msgs_without(ms.drop_last(), fid);
        assert forall|k: int| 0 <= k < msgs_without(ms, fid).len() implies exists|l: int|
            0 <= l < ms.len() && ms[l] == (#[trigger] msgs_without(ms, fid)[k]) by {
            if k < rest.len() {
                let l0 = choose|l0: int|
                    0 <= l0 < ms.drop_last().len() && ms.drop_last()[l0] == rest[k];
                assert(ms[l0] == msgs_without(ms, fid)[k]);
            } else {
                assert(ms[ms.len() - 1] == msgs_without(ms, fid)[k]);
            }
        }
    }
}

/// Mapping a row sequence to its views commutes with a point update.
pub proof fn lemma_fviews_update(fs: Seq<Friend>, i: int, f: Friend)
    requires
        0 <= i < fs.len(),
    ensures
        fviews(fs.update(i, f)) == fviews(fs).update(i, f@),
{
    assert forall|j: int| 0 <= j < fs.len() implies #[trigger] fviews(fs.update(i, f))[j]
        == fviews(fs).update(i, f@)[j] by {
        assert(fviews(fs.update(i, f))[j] == fs.update(i, f)[j]@);
        assert(fviews(fs)[j] == fs[j]@);
    }
    assert(fviews(fs.update(i, f)) =~= fviews(fs).update(i, f@));
}

/// Mapping a row sequence to its views commutes with appending.
pub proof fn lemma_fviews_push(fs: Seq<Friend>, f: Friend)
    ensures
        fviews(fs.push(f)) == fviews(fs).push(f@),
{
    assert forall|j: int| 0 <= j < fs.len() + 1 implies #[trigger] fviews(fs.push(f))[j]
        == fviews(fs).push(f@)[j] by {
        assert(fviews(fs.push(f))[j] == fs.push(f)[j]@);
        if j < fs.len() {
            assert(fs.push(f)[j] == fs[j]);
            assert(fviews(fs)[j] == fs[j]@);
        } else {
            assert(fs.push(f)[j] == f);
        }
    }
    assert(fviews(fs.push(f)) =~= fviews(fs).push(f@));
}

/// Mapping a row sequence to its views commutes with removal.
pub proof fn lemma_fviews_remove(fs: Seq<Friend>, i: int)
    requires
        0 <= i < fs.len(),
    ensures
        fviews(fs.remove(i)) == fviews(fs).remove(i),
{
    assert forall|j: int| 0 <= j < fs.len() - 1 implies #[trigger] fviews(fs.remove(i))[j]
        == fviews(fs).remove(i)[j] by {
        assert(fviews(fs.remove(i))[j] == fs.remove(i)[j]@);
        if j < i {
            assert(fs.remove(i)[j] == fs[j]);
            assert(fviews(fs).remove(i)[j] == fviews(fs)[j]);
            assert(fviews(fs)[j] == fs[j]@);
        } else {
            assert(fs.remove(i)[j] == fs[j + 1]);
            assert(fviews(fs).remove(i)[j] == fviews(fs)[j + 1]);
            assert(fviews(fs)[j + 1] == fs[j + 1]@);
        }
    }
    assert(fviews(fs.remove(i)) =~= fviews(fs).remove(i));
}

/// An open row's identity is carried by no other open row.
pub proof fn lemma_no_open_other(s: StoreV, i: int)
    requires
        s.wf(),
        0 <= i < s.friends.len(),
        !s.friends[i].is_closed,
    ensures
        !open_other(s.friends, i, s.friends[i].gid),
{
    assert forall|j: int|
        0 <= j < s.friends.len() && j != i implies !(!(#[trigger] s.friends[j]).is_closed
        && s.friends[j].gid == s.friends[i].gid) by {
        if !s.friends[j].is_closed && s.friends[j].gid == s.friends[i].gid {
            if j < i {
                assert(s.friends[j].gid != s.friends[i].gid);
            } else {
                assert(s.friends[i].gid != s.friends[j].gid);
            }
        }
    }
}

/// Replacing one row with a row that keeps its key and identity, and is only
/// open when no other open row shares the identity, preserves
/// well-formedness.
pub proof fn lemma_wf_row_update(s: StoreV, i: int, v: FriendV)
    requires
        s.wf(),
        0 <= i < s.friends.len(),
        v.id == s.friends[i].id,
        v.gid == s.friends[i].gid,
        !v.is_closed ==> !open_other(s.friends, i, v.gid),
    ensures
        with_friends(s, s.friends.update(i, v)).wf(),
{
    let fs2 = s.friends.update(i, v);
    let s2 = with_friends(s, fs2);
    assert forall|a: int, b: int|
        0 <= a < b < fs2.len() && !(#[trigger] fs2[a]).is_closed && !(
        #[trigger] fs2[b]).is_closed implies fs2[a].gid != fs2[b].gid by {
        if a != i && b != i {
            assert(fs2[a] == s.friends[a] && fs2[b] == s.friends[b]);
        } else if a == i {
            assert(fs2[b] == s.friends[b]);
            if fs2[a].gid == fs2[b].gid {
                assert(open_other(s.friends, i, v.gid)) by {
                    assert(0 <= b < s.friends.len() && b != i && !s.friends[b].is_closed
                        && s.friends[b].gid == v.gid);
                }
            }
        } else {
            assert(fs2[a] == s.friends[a]);
            if fs2[a].gid == fs2[b].gid {
                assert(open_other(s.friends, i, v.gid)) by {
                    assert(0 <= a < s.friends.len() && a != i && !s.friends[a].is_closed
                        && s.friends[a].gid == v.gid);
                }
            }
        }
    }
    assert forall|k: int| 0 <= k < s2.messages.len() implies has_fid(
        s2.friends,
        (#[trigger] s2.messages[k]).fid,
    ) by {
        let w = choose|w: int|
            0 <= w < s.friends.len() && (#[trigger] s.friends[w].id) == s.messages[k].fid;
        assert(fs2[w].id == s.messages[k].fid);
    }
}

/// Some open row carries the given identity.
pub open spec fn has_open_gid(fs: Seq<FriendV>, gid: Seq<u8>) -> bool {
    exists|i: int| 0 <= i < fs.len() && !(#[trigger] fs[i]).is_closed && fs[i].gid == gid
}

/// Finds the last row carrying the identity `gid`, open or closed.
fn find_by_gid(friends: &Vec<Friend>, gid: &GroupId) -> (r: Option<usize>)
    ensures
        match r {
            Some(u) => u < friends@.len() && gid_index(fviews(friends@), gid@) == u as int,
            None => gid_index(fviews(friends@), gid@) == -1,
        },
{
    let ghost fs = fviews(friends@);
    let ghost p = by_gid(gid@);
    let mut i: usize = friends.len();
    while i > 0
        invariant
            i <= friends@.len(),
            fs == fviews(friends@),
            p == by_gid(gid@),
            forall|j: int| i <= j < fs.len() ==> !p(#[trigger] fs[j]),
        decreases i,
    {
        i = i - 1;
        let hit = bytes_eq(&friends[i].gid.0, &gid.0);
        proof {
            assert(fs[i as int] == friends@[i as int]@);
            assert(p(fs[i as int]) == hit);
        }
        if hit {
            proof {
                lemma_find_last_at(fs, p, i as int);
            }
            return Some(i);
        }
    }
    proof {
        lemma_find_last_none(fs, p);
    }
    None
}

/// Finds the row holding the surrogate key `id`.
fn find_by_fid(friends: &Vec<Friend>, id: i64) -> (r: Option<usize>)
    ensures
        match r {
            Some(u) => u < friends@.len() && id_index(fviews(friends@), id as int) == u as int,
            None => id_index(fviews(friends@), id as int) == -1,
        },
{
    let ghost fs = fviews(friends@);
    let ghost p = by_id(id as int);
    let mut i: usize = friends.len();
    while i > 0
        invariant
            i <= friends@.len(),
            fs == fviews(friends@),
            p == by_id(id as int),
            forall|j: int| i <= j < fs.len() ==> !p(#[trigger] fs[j]),
        decreases i,
    {
        i = i - 1;
        let hit = friends[i].id == id;
        proof {
            assert(fs[i as int] == friends@[i as int]@);
            assert(p(fs[i as int]) == hit);
        }
        if hit {
            proof {
                lemma_find_last_at(fs, p, i as int);
            }
            return Some(i);
        }
    }
    proof {
        lemma_find_last_none(fs, p);
    }
    None
}

/// Finds the open row carrying the identity `gid`.
fn find_open_by_gid(friends: &Vec<Friend>, gid: &GroupId) -> (r: Option<usize>)
    ensures
        match r {
            Some(u) => u < friends@.len() && open_gid_index(fviews(friends@), gid@) == u as int,
            None => open_gid_index(fviews(friends@), gid@) == -1,
        },
{
    let ghost fs = fviews(friends@);
    let ghost p = by_open_gid(gid@);
    let mut i: usize = friends.len();
    while i > 0
        invariant
            i <= friends@.len(),
            fs == fviews(friends@),
            p == by_open_gid(gid@),
            forall|j: int| i <= j < fs.len() ==> !p(#[trigger] fs[j]),
        decreases i,
    {
        i = i - 1;
        let hit = !friends[i].is_closed && bytes_eq(&friends[i].gid.0, &gid.0);
        proof {
            assert(fs[i as int] == friends@[i as int]@);
            assert(p(fs[i as int]) == hit);
        }
        if hit {
            proof {
                lemma_find_last_at(fs, p, i as int);
            }
            return Some(i);
        }
    }
    proof {
        lemma_find_last_none(fs, p);
    }
    None
}

impl Friend {
    /// Looks a contact up by identity, open or closed; `NotFound` exactly
    /// when no row carries the identity.
    pub fn get_id(db: &Store, gid: &GroupId) -> (r: Result<Friend, StoreError>)
        ensures
            ({
                let idx = gid_index(db@.friends, gid@);
                match r {
                    Ok(f) => idx >= 0 && f@ == db@.friends[idx],
                    Err(e) => idx == -1 && e == StoreError::NotFound,
                }
            }),
    {
        match find_by_gid(&db.friends, gid) {
            Some(i) => Ok(db.friends[i].clone()),
            None => Err(StoreError::NotFound),
        }
    }

    /// Looks a contact up by surrogate key; `NotFound` exactly when the key
    /// is absent.
    pub fn get(db: &Store, id: &i64) -> (r: Result<Friend, StoreError>)
        ensures
            ({
                let idx = id_index(db@.friends, *id as int);
                match r {
                    Ok(f) => idx >= 0 && f@ == db@.friends[idx],
                    Err(e) => idx == -1 && e == StoreError::NotFound,
                }
            }),
    {
        match find_by_fid(&db.friends, *id) {
            Some(i) => Ok(db.friends[i].clone()),
            None => Err(StoreError::NotFound),
        }
    }

    /// Hands back every row, open and closed, in table order.
    pub fn list(db: &Store) -> (r: Result<Vec<Friend>, StoreError>)
        ensures
            match r {
                Ok(v) => fviews(v@) == db@.friends,
                Err(_) => false,
            },
    {
        let mut out: Vec<Friend> = Vec::new();
        let mut i: usize = 0;
        while i < db.friends.len()
            invariant
                i <= db.friends@.len(),
                fviews(out@) == db@.friends.take(i as int),
            decreases db.friends@.len() - i,
        {
            let ghost prev = out@;
            out.push(db.friends[i].clone());
            proof {
                assert(fviews(prev).len() == prev.len());
                assert(prev.len() == i as int);
                assert(out@ == prev.push(out@[i as int]));
                assert forall|j: int| 0 <= j < out@.len() implies #[trigger] fviews(out@)[j]
                    == db@.friends.take(i + 1)[j] by {
                    assert(fviews(out@)[j] == out@[j]@);
                    if j < i {
                        assert(out@[j] == prev[j]);
                        assert(fviews(prev)[j] == prev[j]@);
                    } else {
                        assert(db@.friends[i as int] == db.friends@[i as int]@);
                    }
                }
                assert(fviews(out@) =~= db@.friends.take(i + 1));
            }
            i = i + 1;
        }
        proof {
            assert(db@.friends.take(db.friends@.len() as int) =~= db@.friends);
        }
        Ok(out)
    }

    /// Existence check restricted to open rows: is this identity currently an
    /// open contact?
    pub fn is_friend(db: &Store, gid: &GroupId) -> (r: Result<bool, StoreError>)
        ensures
            r matches Ok(b) && b == has_open_gid(db@.friends, gid@),
    {
        let r = find_open_by_gid(&db.friends, gid);
        proof {
            lemma_find_last(db@.friends, by_open_gid(gid@));
            let idx = open_gid_index(db@.friends, gid@);
            if idx >= 0 {
                assert(has_open_gid(db@.friends, gid@)) by {
                    assert(!db@.friends[idx].is_closed && db@.friends[idx].gid == gid@);
                }
            } else {
                assert(!has_open_gid(db@.friends, gid@)) by {
                    assert(forall|j: int|
                        0 <= j < db@.friends.len() ==> !(by_open_gid(gid@))(
                            #[trigger] db@.friends[j],
                        ));
                }
            }
        }
        match r {
            Some(_) => Ok(true),
            None => Ok(false),
        }
    }
}

/// Replaces the row at `i`.
fn set_row(friends: &mut Vec<Friend>, i: usize, f: Friend)
    requires
        i < old(friends)@.len(),
    ensures
        final(friends)@ == old(friends)@.update(i as int, f),
{
    let _ = friends.remove(i);
    friends.insert(i, f);
    proof {
        assert(friends@ =~= old(friends)@.update(i as int, f));
    }
}

/// Decides whether the row at `i` may be (or stay) open: true exactly when
/// no other open row shares its identity.
fn reopen_allowed(db: &Store, i: usize) -> (r: bool)
    requires
        db@.wf(),
        i < db@.friends.len(),
    ensures
        r == !open_other(db@.friends, i as int, db@.friends[i as int].gid),
{
    let ghost fs = db@.friends;
    let ghost g = fs[i as int].gid;
    let r_opt = find_open_by_gid(&db.friends, &db.friends[i].gid);
    proof {
        assert(db.friends@[i as int]@ == fs[i as int]);
        lemma_find_last(fs, by_open_gid(g));
    }
    match r_opt {
        None => {
            proof {
                assert forall|j: int|
                    0 <= j < fs.len() && j != i as int implies !(!(#[trigger] fs[j]).is_closed
                    && fs[j].gid == g) by {
                    assert(!(by_open_gid(g))(fs[j]));
                }
            }
            true
        },
        Some(k) => {
            if k == i {
                proof {
                    assert((by_open_gid(g))(fs[i as int]));
                    lemma_no_open_other(db@, i as int);
                }
                true
            } else {
                proof {
                    assert(open_other(fs, i as int, g)) by {
                        assert((by_open_gid(g))(fs[k as int]));
                        assert((k as int) < fs.len() && (k as int) != (i as int) && !fs[
                            k as int
                        ].is_closed && fs[k as int].gid == g);
                    }
                }
                false
            }
        },
    }
}

impl Friend {
    /// Overwrites the mutable columns of the row holding this record's key:
    /// address, name, wallet, height, remark and the closed flag. Identity
    /// and creation time are never rewritten. Returns how many rows were
    /// affected; refused as `Conflict` when it would give the identity a
    /// second open row.
    pub fn update(&self, db: &mut Store) -> (r: Result<usize, StoreError>)
        requires
            old(db)@.wf(),
        ensures
            final(db)@.wf(),
            ({
                let s = old(db)@;
                let i = id_index(s.friends, self@.id);
                if i == -1 {
                    r matches Ok(n) && n == 0 && final(db)@ == s
                } else if !self@.is_closed && open_other(s.friends, i, s.friends[i].gid) {
                    r matches Err(e) && e == StoreError::Conflict && final(db)@ == s
                } else {
                    r matches Ok(n) && n == 1 && final(db)@ == with_friends(
                        s,
                        s.friends.update(i, updated_full(s.friends[i], self@)),
                    )
                }
            }),
    {
        let i_opt = find_by_fid(&db.friends, self.id);
        match i_opt {
            None => Ok(0),
            Some(i) => {
                if !self.is_closed && !reopen_allowed(db, i) {
                    return Err(StoreError::Conflict);
                }
                let newf = Friend {
                    id: db.friends[i].id,
                    gid: db.friends[i].gid.clone(),
                    datetime: db.friends[i].datetime,
                    addr: self.addr.clone(),
                    name: self.name.clone(),
                    wallet: self.wallet.clone(),
                    height: self.height,
                    remark: self.remark.clone(),
                    is_closed: self.is_closed,
                };
                proof {
                    assert(db.friends@[i as int]@ == db@.friends[i as int]);
                    assert(newf@ == updated_full(db@.friends[i as int], self@));
                }
                set_row(&mut db.friends, i, newf);
                proof {
                    lemma_fviews_update(old(db).friends@, i as int, newf);
                    lemma_wf_row_update(old(db)@, i as int, newf@);
                }
                Ok(1)
            },
        }
    }
}

impl Friend {
    /// Inserts this record as a new row, assigning and recording its
    /// surrogate key. The caller must not pre-set the key. Refused as
    /// `Conflict` when the row is open and its identity already has an open
    /// row: the uniqueness constraint is enforced by the store itself, not
    /// by its callers.
    pub fn insert(&mut self, db: &mut Store) -> (r: Result<(), StoreError>)
        requires
            old(db)@.wf(),
            old(self)@.id == 0,
            old(db)@.next_fid < i64::MAX,
        ensures
            final(db)@.wf(),
            ({
                let s = old(db)@;
                if insert_blocked(s.friends, old(self)@) {
                    r matches Err(e) && e == StoreError::Conflict && final(db)@ == s && final(self)@
                        == old(self)@
                } else {
                    r is Ok && final(self)@ == inserted_row(old(self)@, s.next_fid) && final(db)@
                        == (StoreV {
                        friends: s.friends.push(inserted_row(old(self)@, s.next_fid)),
                        messages: s.messages,
                        next_fid: s.next_fid + 1,
                        next_mid: s.next_mid,
                    })
                }
            }),
    {
        let ghost s = db@;
        if !self.is_closed {
            let k_opt = find_open_by_gid(&db.friends, &self.gid);
            proof {
                lemma_find_last(s.friends, by_open_gid(self@.gid));
            }
            if k_opt.is_some() {
                proof {
                    let k = open_gid_index(s.friends, self@.gid);
                    assert(has_open_gid(s.friends, self@.gid)) by {
                        assert((by_open_gid(self@.gid))(s.friends[k]));
                        assert(!s.friends[k].is_closed && s.friends[k].gid == self@.gid);
                    }
                }
                return Err(StoreError::Conflict);
            }
            proof {
                assert(!has_open_gid(s.friends, self@.gid)) by {
                    assert forall|j: int|
                        0 <= j < s.friends.len() implies !(!(#[trigger] s.friends[j]).is_closed
                        && s.friends[j].gid == self@.gid) by {
                        assert(!(by_open_gid(self@.gid))(s.friends[j]));
                    }
                }
            }
        }
        self.id = db.next_fid;
        let ghost before = db.friends@;
        db.friends.push(self.clone());
        db.next_fid = db.next_fid + 1;
        proof {
            let newv = inserted_row(old(self)@, s.next_fid);
            let c = db.friends@.last();
            assert(db.friends@ == before.push(c));
            assert(c@ == newv);
            lemma_fviews_push(before, c);
            assert(db@.friends == s.friends.push(newv));
            let s2 = db@;
            assert forall|a: int, b: int|
                0 <= a < b < s2.friends.len() && !(#[trigger] s2.friends[a]).is_closed && !(
                #[trigger] s2.friends[b]).is_closed implies s2.friends[a].gid
                != s2.friends[b].gid by {
                if b == s.friends.len() {
                    assert(s2.friends[a] == s.friends[a]);
                    if !newv.is_closed && s2.friends[a].gid == newv.gid {
                        assert(has_open_gid(s.friends, newv.gid)) by {
                            assert(!s.friends[a].is_closed && s.friends[a].gid == newv.gid);
                        }
                    }
                } else {
                    assert(s2.friends[a] == s.friends[a]);
                    assert(s2.friends[b] == s.friends[b]);
                }
            }
            assert forall|k: int| 0 <= k < s2.messages.len() implies has_fid(
                s2.friends,
                (#[trigger] s2.messages[k]).fid,
            ) by {
                let w = choose|w: int|
                    0 <= w < s.friends.len() && (#[trigger] s.friends[w].id) == s.messages[k].fid;
                assert(s2.friends[w].id == s.messages[k].fid);
            }
            assert(s2.wf());
        }
        Ok(())
    }

    /// Writes the locally owned remark of the row holding this record's key;
    /// no other column is touched. Returns how many rows were affected.
    pub fn me_update(&mut self, db: &mut Store) -> (r: Result<usize, StoreError>)
        requires
            old(db)@.wf(),
        ensures
            final(db)@.wf(),
            *final(self) == *old(self),
            ({
                let s = old(db)@;
                let i = id_index(s.friends, old(self)@.id);
                if i == -1 {
                    r matches Ok(n) && n == 0 && final(db)@ == s
                } else {
                    r matches Ok(n) && n == 1 && final(db)@ == with_friends(
                        s,
                        s.friends.update(i, remark_updated(s.friends[i], old(self)@.remark)),
                    )
                }
            }),
    {
        let i_opt = find_by_fid(&db.friends, self.id);
        match i_opt {
            None => Ok(0),
            Some(i) => {
                let newf = Friend {
                    id: db.friends[i].id,
                    gid: db.friends[i].gid.clone(),
                    addr: db.friends[i].addr.clone(),
                    name: db.friends[i].name.clone(),
                    wallet: db.friends[i].wallet.clone(),
                    height: db.friends[i].height,
                    remark: self.remark.clone(),
                    is_closed: db.friends[i].is_closed,
                    datetime: db.friends[i].datetime,
                };
                proof {
                    assert(db.friends@[i as int]@ == db@.friends[i as int]);
                    assert(newf@ == remark_updated(db@.friends[i as int], self@.remark));
                    if !newf@.is_closed {
                        lemma_no_open_other(db@, i as int);
                    }
                }
                set_row(&mut db.friends, i, newf);
                proof {
                    lemma_fviews_update(old(db).friends@, i as int, newf);
                    lemma_wf_row_update(old(db)@, i as int, newf@);
                }
                Ok(1)
            },
        }
    }

    /// Rotates the address of the row holding the key `id`; no other column
    /// is touched. Returns how many rows were affected.
    pub fn addr_update(db: &mut Store, id: i64, addr: &crate::friend::PeerId) -> (r: Result<
        usize,
        StoreError,
    >)
        requires
            old(db)@.wf(),
        ensures
            final(db)@.wf(),
            ({
                let s = old(db)@;
                let i = id_index(s.friends, id as int);
                if i == -1 {
                    r matches Ok(n) && n == 0 && final(db)@ == s
                } else {
                    r matches Ok(n) && n == 1 && final(db)@ == with_friends(
                        s,
                        s.friends.update(i, addr_updated(s.friends[i], addr@)),
                    )
                }
            }),
    {
        let i_opt = find_by_fid(&db.friends, id);
        match i_opt {
            None => Ok(0),
            Some(i) => {
                let newf = Friend {
                    id: db.friends[i].id,
                    gid: db.friends[i].gid.clone(),
                    addr: addr.clone(),
                    name: db.friends[i].name.clone(),
                    wallet: db.friends[i].wallet.clone(),
                    height: db.friends[i].height,
                    remark: db.friends[i].remark.clone(),
                    is_closed: db.friends[i].is_closed,
                    datetime: db.friends[i].datetime,
                };
                proof {
                    assert(db.friends@[i as int]@ == db@.friends[i as int]);
                    assert(newf@ == addr_updated(db@.friends[i as int], addr@));
                    if !newf@.is_closed {
                        lemma_no_open_other(db@, i as int);
                    }
                }
                set_row(&mut db.friends, i, newf);
                proof {
                    lemma_fviews_update(old(db).friends@, i as int, newf);
                    lemma_wf_row_update(old(db)@, i as int, newf@);
                }
                Ok(1)
            },
        }
    }
}

/// Closes the row at the index found for `id`, if any; shared body of the
/// two soft-delete entry points.
fn close_row(db: &mut Store, id: i64) -> (r: Result<usize, StoreError>)
    requires
        old(db)@.wf(),
    ensures
        final(db)@.wf(),
        ({
            let s = old(db)@;
            let i = id_index(s.friends, id as int);
            if i == -1 {
                r matches Ok(n) && n == 0 && final(db)@ == s
            } else {
                r matches Ok(n) && n == 1 && final(db)@ == with_friends(
                    s,
                    s.friends.update(i, closed_row(s.friends[i])),
                )
            }
        }),
{
    let i_opt = find_by_fid(&db.friends, id);
    match i_opt {
        None => Ok(0),
        Some(i) => {
            let newf = Friend {
                id: db.friends[i].id,
                gid: db.friends[i].gid.clone(),
                addr: db.friends[i].addr.clone(),
                name: db.friends[i].name.clone(),
                wallet: db.friends[i].wallet.clone(),
                height: db.friends[i].height,
                remark: db.friends[i].remark.clone(),
                is_closed: true,
                datetime: db.friends[i].datetime,
            };
            proof {
                assert(db.friends@[i as int]@ == db@.friends[i as int]);
                assert(newf@ == closed_row(db@.friends[i as int]));
            }
            set_row(&mut db.friends, i, newf);
            proof {
                lemma_fviews_update(old(db).friends@, i as int, newf);
                lemma_wf_row_update(old(db)@, i as int, newf@);
            }
            Ok(1)
        },
    }
}

impl Friend {
    /// The reconciliation write: overwrites address, name, wallet and
    /// height of the row holding this record's key and reopens it; the
    /// locally owned remark and the creation time are untouched. Refused as
    /// `Conflict` when reopening would give the identity a second open row.
    pub fn remote_update(&self, db: &mut Store) -> (r: Result<usize, StoreError>)
        requires
            old(db)@.wf(),
        ensures
            final(db)@.wf(),
            ({
                let s = old(db)@;
                let i = id_index(s.friends, self@.id);
                if i == -1 {
                    r matches Ok(n) && n == 0 && final(db)@ == s
                } else if open_other(s.friends, i, s.friends[i].gid) {
                    r matches Err(e) && e == StoreError::Conflict && final(db)@ == s
                } else {
                    r matches Ok(n) && n == 1 && final(db)@ == with_friends(
                        s,
                        s.friends.update(i, remote_updated(s.friends[i], self@)),
                    )
                }
            }),
    {
        let i_opt = find_by_fid(&db.friends, self.id);
        match i_opt {
            None => Ok(0),
            Some(i) => {
                if !reopen_allowed(db, i) {
                    return Err(StoreError::Conflict);
                }
                let newf = Friend {
                    id: db.friends[i].id,
                    gid: db.friends[i].gid.clone(),
                    datetime: db.friends[i].datetime,
                    remark: db.friends[i].remark.clone(),
                    addr: self.addr.clone(),
                    name: self.name.clone(),
                    wallet: self.wallet.clone(),
                    height: self.height,
                    is_closed: false,
                };
                proof {
                    assert(db.friends@[i as int]@ == db@.friends[i as int]);
                    assert(newf@ == remote_updated(db@.friends[i as int], self@));
                }
                set_row(&mut db.friends, i, newf);
                proof {
                    lemma_fviews_update(old(db).friends@, i as int, newf);
                    lemma_wf_row_update(old(db)@, i as int, newf@);
                }
                Ok(1)
            },
        }
    }

    /// Soft delete on local request: marks the row holding this record's key
    /// closed. Reversible: a later reconciliation reopens the same row.
    pub fn close(&self, db: &mut Store) -> (r: Result<usize, StoreError>)
        requires
            old(db)@.wf(),
        ensures
            final(db)@.wf(),
            ({
                let s = old(db)@;
                let i = id_index(s.friends, self@.id);
                if i == -1 {
                    r matches Ok(n) && n == 0 && final(db)@ == s
                } else {
                    r matches Ok(n) && n == 1 && final(db)@ == with_friends(
                        s,
                        s.friends.update(i, closed_row(s.friends[i])),
                    )
                }
            }),
    {
        close_row(db, self.id)
    }

    /// Soft delete on a remote closure signal: marks the row holding the key
    /// `id` closed.
    pub fn id_close(db: &mut Store, id: i64) -> (r: Result<usize, StoreError>)
        requires
            old(db)@.wf(),
        ensures
            final(db)@.wf(),
            ({
                let s = old(db)@;
                let i = id_index(s.friends, id as int);
                if i == -1 {
                    r matches Ok(n) && n == 0 && final(db)@ == s
                } else {
                    r matches Ok(n) && n == 1 && final(db)@ == with_friends(
                        s,
                        s.friends.update(i, closed_row(s.friends[i])),
                    )
                }
            }),
    {
        close_row(db, id)
    }

    /// Hard delete with cascade, one logical unit: removes the row holding
    /// the key `id` and every message referencing it, and reports how many
    /// contact rows were affected (one when the row existed, else zero). No
    /// orphaned message can survive it; `Message::delete_by_fid` reports the
    /// cascade's own count.
    pub fn delete(db: &mut Store, id: &i64) -> (r: Result<usize, StoreError>)
        requires
            old(db)@.wf(),
        ensures
            final(db)@.wf(),
            ({
                let s = old(db)@;
                let i = id_index(s.friends, *id as int);
                let kept = msgs_without(s.messages, *id as int);
                &&& final(db)@.friends == (if i == -1 {
                    s.friends
                } else {
                    s.friends.remove(i)
                })
                &&& final(db)@.messages == kept
                &&& final(db)@.next_fid == s.next_fid
                &&& final(db)@.next_mid == s.next_mid
                &&& r matches Ok(n) && n == (if i == -1 {
                    0int
                } else {
                    1int
                })
            }),
    {
        let ghost s = old(db)@;
        let mut affected: usize = 0;
        let i_opt = find_by_fid(&db.friends, *id);
        if let Some(i) = i_opt {
            proof {
                lemma_find_last(s.friends, by_id(*id as int));
            }
            let _ = db.friends.remove(i);
            affected = 1;
            proof {
                lemma_fviews_remove(old(db).friends@, i as int);
            }
        }
        let _ = Message::delete_by_fid_rows(db, *id);
        proof {
            let i = id_index(s.friends, *id as int);
            let fs2 = final(db)@.friends;
            let kept = msgs_without(s.messages, *id as int);
            lemma_msgs_without(s.messages, *id as int);
            assert forall|a: int, b: int|
                0 <= a < b < fs2.len() && !(#[trigger] fs2[a]).is_closed && !(
                #[trigger] fs2[b]).is_closed implies fs2[a].gid != fs2[b].gid by {
                if i == -1 {
                } else {
                    let a0 = if a < i { a } else { a + 1 };
                    let b0 = if b < i { b } else { b + 1 };
                    assert(fs2[a] == s.friends[a0]);
                    assert(fs2[b] == s.friends[b0]);
                }
            }
            assert forall|a: int, b: int| 0 <= a < b < fs2.len() implies (
            #[trigger] fs2[a].id) != (#[trigger] fs2[b].id) by {
                if i >= 0 {
                    let a0 = if a < i { a } else { a + 1 };
                    let b0 = if b < i { b } else { b + 1 };
                    assert(fs2[a] == s.friends[a0]);
                    assert(fs2[b] == s.friends[b0]);
                }
            }
            assert forall|a: int| 0 <= a < fs2.len() implies 1 <= (#[trigger] fs2[a].id)
                < final(db)@.next_fid by {
                if i >= 0 {
                    let a0 = if a < i { a } else { a + 1 };
                    assert(fs2[a] == s.friends[a0]);
                }
            }
            assert forall|k: int| 0 <= k < kept.len() implies has_fid(
                fs2,
                (#[trigger] kept[k]).fid,
            ) by {
                let l = choose|l: int| 0 <= l < s.messages.len() && s.messages[l] == kept[k];
                let w = choose|w: int|
                    0 <= w < s.friends.len() && (#[trigger] s.friends[w].id) == s.messages[l].fid;
                if i == -1 {
                    assert(fs2[w].id == kept[k].fid);
                } else {
                    assert(s.friends[i].id == *id as int);
                    assert(kept[k].fid != *id as int);
                    assert(w != i);
                    let w2 = if w < i { w } else { w - 1 };
                    assert(fs2[w2] == s.friends[w]);
                    assert(fs2[w2].id == kept[k].fid);
                }
            }
            assert forall|k: int| 0 <= k < kept.len() implies 1 <= (#[trigger] kept[k].id)
                < final(db)@.next_mid by {
                let l = choose|l: int| 0 <= l < s.messages.len() && s.messages[l] == kept[k];
                assert(1 <= s.messages[l].id < s.next_mid);
            }
            assert(final(db)@.wf());
        }
        Ok(affected)
    }
}

impl Message {
    /// Appends a message row referencing the contact row with key `fid`,
    /// assigning and recording the message's surrogate key; `NotFound` when
    /// no contact row holds that key, so no message can be orphaned at
    /// birth.
    pub fn insert(&mut self, db: &mut Store) -> (r: Result<(), StoreError>)
        requires
            old(db)@.wf(),
            old(self)@.id == 0,
            old(db)@.next_mid < i64::MAX,
        ensures
            final(db)@.wf(),
            ({
                let s = old(db)@;
                if id_index(s.friends, old(self)@.fid) == -1 {
                    r matches Err(e) && e == StoreError::NotFound && final(db)@ == s && final(self)@
                        == old(self)@
                } else {
                    r is Ok && final(self)@ == (MessageV {
                        id: s.next_mid,
                        fid: old(self)@.fid,
                        content: old(self)@.content,
                    }) && final(db)@ == (StoreV {
                        friends: s.friends,
                        messages: s.messages.push(final(self)@),
                        next_fid: s.next_fid,
                        next_mid: s.next_mid + 1,
                    })
                }
            }),
    {
        let ghost s = db@;
        let i_opt = find_by_fid(&db.friends, self.fid);
        if i_opt.is_none() {
            return Err(StoreError::NotFound);
        }
        proof {
            lemma_find_last(s.friends, by_id(self@.fid));
        }
        self.id = db.next_mid;
        let ghost before = db.messages@;
        db.messages.push(self.clone());
        db.next_mid = db.next_mid + 1;
        proof {
            let c = db.messages@.last();
            assert(db.messages@ == before.push(c));
            assert forall|j: int| 0 <= j < db.messages@.len() implies #[trigger] mviews(
                db.messages@,
            )[j] == s.messages.push(c@)[j] by {
                assert(mviews(db.messages@)[j] == db.messages@[j]@);
                if j < before.len() {
                    assert(db.messages@[j] == before[j]);
                    assert(mviews(before)[j] == before[j]@);
                }
            }
            assert(mviews(db.messages@) =~= s.messages.push(c@));
            let s2 = db@;
            let i = id_index(s.friends, old(self)@.fid);
            assert forall|k: int| 0 <= k < s2.messages.len() implies has_fid(
                s2.friends,
                (#[trigger] s2.messages[k]).fid,
            ) by {
                if k < s.messages.len() {
                    assert(s2.messages[k] == s.messages[k]);
                } else {
                    assert(s2.messages[k].fid == s.friends[i].id);
                    assert(has_fid(s2.friends, s2.messages[k].fid)) by {
                        assert(s.friends[i].id == s2.messages[k].fid);
                    }
                }
            }
            assert(s2.wf());
        }
        Ok(())
    }

    /// The message half of the cascade: removes every message referencing
    /// the contact key `fid`, keeping the rest in table order, and reports
    /// how many went.
    pub fn delete_by_fid(db: &mut Store, fid: &i64) -> (r: Result<usize, StoreError>)
        requires
            old(db)@.wf(),
        ensures
            final(db)@.wf(),
            final(db)@ == (StoreV {
                messages: msgs_without(old(db)@.messages, *fid as int),
                friends: old(db)@.friends,
                next_fid: old(db)@.next_fid,
                next_mid: old(db)@.next_mid,
            }),
            r matches Ok(n) && n == old(db)@.messages.len() - msgs_without(
                old(db)@.messages,
                *fid as int,
            ).len(),
    {
        let n = Message::delete_by_fid_rows(db, *fid);
        proof {
            let s = old(db)@;
            let kept = msgs_without(s.messages, *fid as int);
            lemma_msgs_without(s.messages, *fid as int);
            assert forall|k: int| 0 <= k < kept.len() implies has_fid(
                s.friends,
                (#[trigger] kept[k]).fid,
            ) by {
                let l = choose|l: int| 0 <= l < s.messages.len() && s.messages[l] == kept[k];
                assert(has_fid(s.friends, s.messages[l].fid));
            }
            assert forall|k: int| 0 <= k < kept.len() implies 1 <= (#[trigger] kept[k].id)
                < s.next_mid by {
                let l = choose|l: int| 0 <= l < s.messages.len() && s.messages[l] == kept[k];
                assert(1 <= s.messages[l].id < s.next_mid);
            }
        }
        Ok(n)
    }

    /// Rewrites the message table without the rows referencing `fid` and
    /// reports how many were dropped; the message part of the cascade.
    fn delete_by_fid_rows(db: &mut Store, fid: i64) -> (n: usize)
        ensures
            final(db)@.messages == msgs_without(old(db)@.messages, fid as int),
            final(db)@.friends == old(db)@.friends,
            final(db)@.next_fid == old(db)@.next_fid,
            final(db)@.next_mid == old(db)@.next_mid,
            n == old(db)@.messages.len() - msgs_without(old(db)@.messages, fid as int).len(),
    {
        let ghost ms = mviews(db.messages@);
        let mut kept: Vec<Message> = Vec::new();
        let mut k: usize = 0;
        while k < db.messages.len()
            invariant
                k <= db.messages@.len(),
                ms == mviews(db.messages@),
                mviews(kept@) == msgs_without(ms.take(k as int), fid as int),
                kept@.len() <= k,
            decreases db.messages@.len() - k,
        {
            proof {
                assert(ms.take(k + 1).drop_last() =~= ms.take(k as int));
                assert(ms.take(k + 1).last() == ms[k as int]);
                assert(ms[k as int] == db.messages@[k as int]@);
            }
            if db.messages[k].fid == fid {
                // dropped by the cascade
            } else {
                let ghost prev = kept@;
                kept.push(db.messages[k].clone());
                proof {
                    let c = kept@.last();
                    assert(kept@ == prev.push(c));
                    assert forall|j: int| 0 <= j < kept@.len() implies #[trigger] mviews(kept@)[j]
                        == msgs_without(ms.take(k + 1), fid as int)[j] by {
                        assert(mviews(kept@)[j] == kept@[j]@);
                        if j < prev.len() {
                            assert(kept@[j] == prev[j]);
                            assert(mviews(prev)[j] == prev[j]@);
                        }
                    }
                    assert(mviews(kept@) =~= msgs_without(ms.take(k + 1), fid as int));
                }
            }
            k = k + 1;
        }
        proof {
            assert(ms.take(ms.len() as int) =~= ms);
        }
        let n: usize = db.messages.len() - kept.len();
        db.messages = kept;
        n
    }
}

impl Store {
    /// An empty store: no rows, counters at one.
    pub fn new() -> (s: Store)
        ensures
            s@.wf(),
            s@.friends == Seq::<FriendV>::empty(),
            s@.messages == Seq::<MessageV>::empty(),
            s@.next_fid == 1,
            s@.next_mid == 1,
    {
        let s = Store { friends: Vec::new(), messages: Vec::new(), next_fid: 1, next_mid: 1 };
        proof {
            assert(s@.friends =~= Seq::<FriendV>::empty());
            assert(s@.messages =~= Seq::<MessageV>::empty());
        }
        s
    }
}

} // verus!
