//! The reconciliation engine: merges an authenticated remote announcement
//! `(identity, address, name, wallet)` into local state under an idempotent
//! upsert policy.
//!
//! The policy: look the identity up over all rows, open or closed. When a
//! row exists, overwrite name, address and wallet and reopen it, leaving the
//! locally owned remark, the creation time and the height counter untouched
//! (identity and address churn does not advance the staleness counter; only
//! a full update does). When none exists, create a fresh open row with
//! height zero and an empty remark, stamped with the current time.

use vstd::prelude::*;
use crate::friend::{unix_now, Friend, FriendV, GroupId, PeerId};
use crate::store::{
    by_gid,
    by_id,
    gid_index,
    lemma_find_last,
    lemma_find_last_at,
    open_other,
    with_friends,
    Store,
    StoreError,
    StoreV,
};

verus! {

/// An existing row after a reconciliation write: name, address and wallet
/// replaced, the row reopened; key, identity, height, remark and creation
/// time kept.
pub open spec fn reconciled_row(
    row: FriendV,
    name: Seq<char>,
    addr: Seq<u8>,
    wallet: Seq<char>,
) -> FriendV {
    FriendV {
        id: row.id,
        gid: row.gid,
        height: row.height,
        remark: row.remark,
        datetime: row.datetime,
        name,
        addr,
        wallet,
        is_closed: false,
    }
}

/// The row created for a first announcement: height zero, empty remark,
/// open, stamped `now`.
pub open spec fn fresh_row(
    id: int,
    gid: Seq<u8>,
    addr: Seq<u8>,
    name: Seq<char>,
    wallet: Seq<char>,
    now: int,
) -> FriendV {
    FriendV {
        id,
        gid,
        addr,
        name,
        wallet,
        height: 0,
        remark: Seq::empty(),
        is_closed: false,
        datetime: now,
    }
}

/// The store after reconciling one announcement at time `now`: the found
/// row rewritten, or a fresh row appended; unchanged when reopening the
/// found row would give the identity a second open row.
pub open spec fn reconcile_v(
    s: StoreV,
    gid: Seq<u8>,
    name: Seq<char>,
    addr: Seq<u8>,
    wallet: Seq<char>,
    now: int,
) -> StoreV {
    let i = gid_index(s.friends, gid);
    if i >= 0 {
        if open_other(s.friends, i, s.friends[i].gid) {
            s
        } else {
            with_friends(
                s,
                s.friends.update(i, reconciled_row(s.friends[i], name, addr, wallet)),
            )
        }
    } else {
        StoreV {
            friends: s.friends.push(fresh_row(s.next_fid, gid, addr, name, wallet, now)),
            messages: s.messages,
            next_fid: s.next_fid + 1,
            next_mid: s.next_mid,
        }
    }
}

impl Friend {
    /// Reconciles one announcement with an explicit timestamp for the
    /// freshly created row. The resulting record (with its possibly newly
    /// assigned key) is handed back so the network layer can correlate
    /// traffic.
    pub fn from_remote_at(
        db: &mut Store,
        gid: GroupId,
        name: String,
        addr: PeerId,
        wallet: String,
        now: i64,
    ) -> (r: Result<Friend, StoreError>)
        requires
            old(db)@.wf(),
            old(db)@.next_fid < i64::MAX,
            0 <= now,
        ensures
            final(db)@.wf(),
            final(db)@ == reconcile_v(old(db)@, gid@, name@, addr@, wallet@, now as int),
            ({
                let s = old(db)@;
                let i = gid_index(s.friends, gid@);
                if i >= 0 {
                    if open_other(s.friends, i, s.friends[i].gid) {
                        r matches Err(e) && e == StoreError::Conflict
                    } else {
                        r matches Ok(f) && f@ == reconciled_row(s.friends[i], name@, addr@, wallet@)
                    }
                } else {
                    r matches Ok(f) && f@ == fresh_row(
                        s.next_fid,
                        gid@,
                        addr@,
                        name@,
                        wallet@,
                        now as int,
                    )
                }
            }),
    {
        let ghost s = db@;
        match Friend::get_id(db, &gid) {
            Ok(mut friend) => {
                let ghost i = gid_index(s.friends, gid@);
                proof {
                    lemma_find_last(s.friends, by_gid(gid@));
                    assert(s.friends[i].gid == gid@);
                    assert forall|j: int| i < j < s.friends.len() implies !(by_id(
                        s.friends[i].id,
                    ))(#[trigger] s.friends[j]) by {
                        if j > i {
                            assert(s.friends[i].id != s.friends[j].id);
                        }
                    }
                    lemma_find_last_at(s.friends, by_id(s.friends[i].id), i);
                }
                friend.name = name;
                friend.addr = addr;
                friend.wallet = wallet;
                friend.is_closed = false;
                match friend.remote_update(db) {
                    Ok(_) => {
                        proof {
                            assert(final(db)@ == reconcile_v(
                                s,
                                gid@,
                                name@,
                                addr@,
                                wallet@,
                                now as int,
                            ));
                        }
                        Ok(friend)
                    },
                    Err(e) => Err(e),
                }
            },
            Err(_) => {
                proof {
                    lemma_find_last(s.friends, by_gid(gid@));
                    assert(!crate::store::has_open_gid(s.friends, gid@)) by {
                        assert forall|j: int|
                            0 <= j < s.friends.len() implies !(!(
                            #[trigger] s.friends[j]).is_closed && s.friends[j].gid == gid@) by {
                            assert(!(by_gid(gid@))(s.friends[j]));
                        }
                    }
                }
                let mut friend = Friend::new_at(gid, addr, name, wallet, String::new(), 0, now);
                match friend.insert(db) {
                    Ok(_) => Ok(friend),
                    Err(e) => {
                        proof {
                            assert(false);
                        }
                        Err(e)
                    },
                }
            },
        }
    }

    /// Reconciles one announcement, stamping a fresh row with the current
    /// time. Idempotent: replaying the same announcement leaves the store as
    /// it stands after the first application.
    pub fn from_remote(
        db: &mut Store,
        gid: GroupId,
        name: String,
        addr: PeerId,
        wallet: String,
    ) -> (r: Result<Friend, StoreError>)
        requires
            old(db)@.wf(),
            old(db)@.next_fid < i64::MAX,
        ensures
            final(db)@.wf(),
            exists|t: int|
                0 <= t && final(db)@ == #[trigger] reconcile_v(
                    old(db)@,
                    gid@,
                    name@,
                    addr@,
                    wallet@,
                    t,
                ),
            ({
                let s = old(db)@;
                let i = gid_index(s.friends, gid@);
                if i >= 0 {
                    if open_other(s.friends, i, s.friends[i].gid) {
                        r matches Err(e) && e == StoreError::Conflict && final(db)@ == s
                    } else {
                        r matches Ok(f) && f@ == reconciled_row(s.friends[i], name@, addr@, wallet@)
                            && final(db)@ == with_friends(
                            s,
                            s.friends.update(i, reconciled_row(s.friends[i], name@, addr@, wallet@)),
                        )
                    }
                } else {
                    r matches Ok(f) && f@.id == s.next_fid && f@.gid == gid@ && f@.addr == addr@
                        && f@.name == name@ && f@.wallet == wallet@ && f@.height == 0 && f@.remark
                        == Seq::<char>::empty() && f@.is_closed == false && 0 <= f@.datetime
                        && final(db)@ == (StoreV {
                        friends: s.friends.push(f@),
                        messages: s.messages,
                        next_fid: s.next_fid + 1,
                        next_mid: s.next_mid,
                    })
                }
            }),
    {
        let now: i64 = unix_now();
        let r = Friend::from_remote_at(db, gid, name, addr, wallet, now);
        proof {
            assert(0 <= now as int && final(db)@ == reconcile_v(
                old(db)@,
                gid@,
                name@,
                addr@,
                wallet@,
                now as int,
            ));
        }
        r
    }
}

} // verus!
