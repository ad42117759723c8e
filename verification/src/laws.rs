//! The store's laws: properties of reconciliation and insertion that hold
//! for every well-formed store, proved once and for all against the spec
//! functions that the operations' own contracts are stated over.

use vstd::prelude::*;
use crate::friend::FriendV;
use crate::reconcile::{fresh_row, reconcile_v, reconciled_row};
use crate::store::{
    by_gid,
    closed_row,
    gid_index,
    has_open_gid,
    insert_blocked,
    inserted_row,
    lemma_find_last,
    lemma_find_last_at,
    lemma_find_last_none,
    open_other,
    with_friends,
    StoreV,
};

verus! {

/// Reconciliation is idempotent: replaying an announcement against the
/// store it already produced changes nothing, whatever time the replay
/// carries. In particular no second row is ever created for the identity.
pub proof fn lemma_reconcile_idempotent(
    s: StoreV,
    gid: Seq<u8>,
    name: Seq<char>,
    addr: Seq<u8>,
    wallet: Seq<char>,
    t1: int,
    t2: int,
)
    requires
        s.wf(),
    ensures
        reconcile_v(reconcile_v(s, gid, name, addr, wallet, t1), gid, name, addr, wallet, t2)
            == reconcile_v(s, gid, name, addr, wallet, t1),
{
    let fs = s.friends;
    let i = gid_index(fs, gid);
    lemma_find_last(fs, by_gid(gid));
    let s1 = reconcile_v(s, gid, name, addr, wallet, t1);
    if i >= 0 {
        assert(fs[i].gid == gid);
        if open_other(fs, i, fs[i].gid) {
            assert(s1 == s);
        } else {
            let row2 = reconciled_row(fs[i], name, addr, wallet);
            assert(s1.friends == fs.update(i, row2));
            assert forall|j: int| i < j < s1.friends.len() implies !(by_gid(gid))(
                #[trigger] s1.friends[j],
            ) by {
                assert(s1.friends[j] == fs[j]);
            }
            assert((by_gid(gid))(s1.friends[i]));
            lemma_find_last_at(s1.friends, by_gid(gid), i);
            assert(!open_other(s1.friends, i, s1.friends[i].gid)) by {
                assert forall|j: int|
                    0 <= j < s1.friends.len() && j != i implies !(!(
                    #[trigger] s1.friends[j]).is_closed && s1.friends[j].gid
                    == s1.friends[i].gid) by {
                    assert(s1.friends[j] == fs[j]);
                    if !fs[j].is_closed && fs[j].gid == gid {
                        assert(open_other(fs, i, fs[i].gid)) by {
                            assert(0 <= j < fs.len() && j != i && !fs[j].is_closed && fs[j].gid
                                == fs[i].gid);
                        }
                    }
                }
            }
            assert(reconciled_row(s1.friends[i], name, addr, wallet) == row2);
            assert(s1.friends.update(i, row2) =~= s1.friends);
            assert(reconcile_v(s1, gid, name, addr, wallet, t2) == s1);
        }
    } else {
        let newv = fresh_row(s.next_fid, gid, addr, name, wallet, t1);
        assert(s1.friends == fs.push(newv));
        let i2 = fs.len() as int;
        assert(s1.friends[i2] == newv);
        assert(gid_index(s1.friends, gid) == i2) by {
            assert(s1.friends.last() == newv);
            assert((by_gid(gid))(s1.friends.last()));
        }
        assert(!open_other(s1.friends, i2, s1.friends[i2].gid)) by {
            assert forall|j: int|
                0 <= j < s1.friends.len() && j != i2 implies !(!(
                #[trigger] s1.friends[j]).is_closed && s1.friends[j].gid
                == s1.friends[i2].gid) by {
                assert(s1.friends[j] == fs[j]);
                assert(!(by_gid(gid))(fs[j]));
            }
        }
        assert(reconciled_row(newv, name, addr, wallet) == newv);
        assert(s1.friends.update(i2, newv) =~= s1.friends);
        assert(reconcile_v(s1, gid, name, addr, wallet, t2) == with_friends(
            s1,
            s1.friends.update(i2, reconciled_row(s1.friends[i2], name, addr, wallet)),
        ));
        assert(reconcile_v(s1, gid, name, addr, wallet, t2) == s1);
    }
}

/// Identity is stable under address churn: announcing an identity the store
/// has never seen with address `a1`, then again with address `a2`, yields
/// exactly one row for that identity — at the end of the table, open,
/// carrying `a2` and the second name and wallet, keeping the key and
/// creation time of the first announcement — and touches no other row.
pub proof fn lemma_identity_stable_under_churn(
    s: StoreV,
    gid: Seq<u8>,
    n1: Seq<char>,
    a1: Seq<u8>,
    w1: Seq<char>,
    t1: int,
    n2: Seq<char>,
    a2: Seq<u8>,
    w2: Seq<char>,
    t2: int,
)
    requires
        s.wf(),
        forall|j: int| 0 <= j < s.friends.len() ==> (#[trigger] s.friends[j]).gid != gid,
    ensures
        ({
            let s2 = reconcile_v(
                reconcile_v(s, gid, n1, a1, w1, t1),
                gid,
                n2,
                a2,
                w2,
                t2,
            );
            &&& s2.friends.len() == s.friends.len() + 1
            &&& s2.friends.last() == (FriendV {
                id: s.next_fid,
                gid,
                addr: a2,
                name: n2,
                wallet: w2,
                height: 0,
                remark: Seq::empty(),
                is_closed: false,
                datetime: t1,
            })
            &&& forall|j: int| 0 <= j < s.friends.len() ==> #[trigger] s2.friends[j]
                == s.friends[j]
        }),
{
    let fs = s.friends;
    assert forall|j: int| 0 <= j < fs.len() implies !(by_gid(gid))(#[trigger] fs[j]) by {}
    lemma_find_last_none(fs, by_gid(gid));
    let s1 = reconcile_v(s, gid, n1, a1, w1, t1);
    let newv = fresh_row(s.next_fid, gid, a1, n1, w1, t1);
    assert(s1.friends == fs.push(newv));
    let i2 = fs.len() as int;
    assert(gid_index(s1.friends, gid) == i2) by {
        assert(s1.friends.last() == newv);
    }
    assert(!open_other(s1.friends, i2, s1.friends[i2].gid)) by {
        assert forall|j: int|
            0 <= j < s1.friends.len() && j != i2 implies !(!(
            #[trigger] s1.friends[j]).is_closed && s1.friends[j].gid == s1.friends[i2].gid) by {
            assert(s1.friends[j] == fs[j]);
        }
    }
    let s2 = reconcile_v(s1, gid, n2, a2, w2, t2);
    assert(s2.friends == s1.friends.update(i2, reconciled_row(newv, n2, a2, w2)));
    assert(s2.friends.last() == reconciled_row(newv, n2, a2, w2));
    assert forall|j: int| 0 <= j < s.friends.len() implies #[trigger] s2.friends[j]
        == s.friends[j] by {
        assert(s1.friends[j] == fs[j]);
    }
}

/// Closing an open contact and then reconciling the same identity reopens
/// the very row that was closed: same key, same remark, same creation time,
/// no duplicate row, and no other row touched.
pub proof fn lemma_closed_then_reopened(
    s: StoreV,
    i: int,
    gid: Seq<u8>,
    name: Seq<char>,
    addr: Seq<u8>,
    wallet: Seq<char>,
    t: int,
)
    requires
        s.wf(),
        0 <= i < s.friends.len(),
        s.friends[i].gid == gid,
        forall|j: int|
            0 <= j < s.friends.len() && j != i ==> (#[trigger] s.friends[j]).gid != gid,
    ensures
        ({
            let sc = with_friends(s, s.friends.update(i, closed_row(s.friends[i])));
            let s2 = reconcile_v(sc, gid, name, addr, wallet, t);
            &&& s2.friends.len() == s.friends.len()
            &&& s2.friends[i].id == s.friends[i].id
            &&& s2.friends[i].is_closed == false
            &&& s2.friends[i].remark == s.friends[i].remark
            &&& s2.friends[i].datetime == s.friends[i].datetime
            &&& s2.friends[i].addr == addr
            &&& s2.friends[i].name == name
            &&& forall|j: int| 0 <= j < s.friends.len() && j != i ==> #[trigger] s2.friends[j]
                == s.friends[j]
        }),
{
    let sc = with_friends(s, s.friends.update(i, closed_row(s.friends[i])));
    assert(sc.friends[i] == closed_row(s.friends[i]));
    assert((by_gid(gid))(sc.friends[i]));
    assert forall|j: int| i < j < sc.friends.len() implies !(by_gid(gid))(
        #[trigger] sc.friends[j],
    ) by {
        assert(sc.friends[j] == s.friends[j]);
    }
    lemma_find_last_at(sc.friends, by_gid(gid), i);
    assert(!open_other(sc.friends, i, sc.friends[i].gid)) by {
        assert forall|j: int|
            0 <= j < sc.friends.len() && j != i implies !(!(
            #[trigger] sc.friends[j]).is_closed && sc.friends[j].gid == sc.friends[i].gid) by {
            assert(sc.friends[j] == s.friends[j]);
        }
    }
    let s2 = reconcile_v(sc, gid, name, addr, wallet, t);
    assert(s2.friends == sc.friends.update(i, reconciled_row(sc.friends[i], name, addr, wallet)));
    assert forall|j: int| 0 <= j < s.friends.len() && j != i implies #[trigger] s2.friends[j]
        == s.friends[j] by {
        assert(sc.friends[j] == s.friends[j]);
    }
}

/// Reconciliation never touches a locally authored remark: every row that
/// existed before keeps its remark, in every branch of the policy.
pub proof fn lemma_remark_preserved(
    s: StoreV,
    gid: Seq<u8>,
    name: Seq<char>,
    addr: Seq<u8>,
    wallet: Seq<char>,
    t: int,
)
    ensures
        s.friends.len() <= reconcile_v(s, gid, name, addr, wallet, t).friends.len(),
        forall|j: int|
            0 <= j < s.friends.len() ==> (#[trigger] reconcile_v(
                s,
                gid,
                name,
                addr,
                wallet,
                t,
            ).friends[j]).remark == s.friends[j].remark,
{
    let s2 = reconcile_v(s, gid, name, addr, wallet, t);
    let i = gid_index(s.friends, gid);
    lemma_find_last(s.friends, by_gid(gid));
    assert forall|j: int| 0 <= j < s.friends.len() implies (#[trigger] s2.friends[j]).remark
        == s.friends[j].remark by {
        if i >= 0 && !open_other(s.friends, i, s.friends[i].gid) {
            if j != i {
                assert(s2.friends[j] == s.friends[j]);
            }
        } else if i < 0 {
            assert(s2.friends[j] == s.friends[j]);
        }
    }
}

/// The uniqueness constraint: once an open row for an identity is in the
/// table — as a successful insert leaves it by `Friend::insert`'s contract —
/// any further insert of an open row for the same identity is blocked, and
/// by that same contract returns `Conflict` and leaves the store unchanged.
pub proof fn lemma_insert_uniqueness(fs: Seq<FriendV>, f1: FriendV, f2: FriendV, id: int)
    requires
        !f1.is_closed,
        !f2.is_closed,
        f1.gid == f2.gid,
    ensures
        insert_blocked(fs.push(inserted_row(f1, id)), f2),
{
    let fs2 = fs.push(inserted_row(f1, id));
    assert(has_open_gid(fs2, f2.gid)) by {
        let w = fs.len() as int;
        assert(!fs2[w].is_closed && fs2[w].gid == f2.gid);
    }
}

/// The lookup-miss law: for an identity no row has ever carried, the lookup
/// index is the miss marker, so by `Friend::get_id`'s contract the lookup
/// fails with `NotFound`.
pub proof fn lemma_lookup_miss(fs: Seq<FriendV>, gid: Seq<u8>)
    requires
        forall|j: int| 0 <= j < fs.len() ==> (#[trigger] fs[j]).gid != gid,
    ensures
        gid_index(fs, gid) == -1,
{
    assert forall|j: int| 0 <= j < fs.len() implies !(by_gid(gid))(#[trigger] fs[j]) by {}
    lemma_find_last_none(fs, by_gid(gid));
}

} // verus!
