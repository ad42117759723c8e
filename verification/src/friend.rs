//! The `Friend` entity: one record per known contact, together with the
//! identity and address types it is keyed by and its pure derivations.

use vstd::prelude::*;
use crate::hexcode::{hex_encode, hex_of};
use crate::session::{Session, SessionType};

verus! {

/// Stable cryptographic identity of a contact (32 bytes); it survives any
/// number of address changes.
pub struct GroupId(pub Vec<u8>);

impl View for GroupId {
    type V = Seq<u8>;

    open spec fn view(&self) -> Seq<u8> {
        self.0@
    }
}

/// Current network endpoint of a contact; ephemeral, may rotate at any time.
pub struct PeerId(pub Vec<u8>);

impl View for PeerId {
    type V = Seq<u8>;

    open spec fn view(&self) -> Seq<u8> {
        self.0@
    }
}

/// Copies a byte vector element by element.
fn copy_bytes(v: &Vec<u8>) -> (r: Vec<u8>)
    ensures
        r@ == v@,
{
    let mut r: Vec<u8> = Vec::new();
    let mut i: usize = 0;
    while i < v.len()
        invariant
            i <= v@.len(),
            r@ == v@.take(i as int),
        decreases v@.len() - i,
    {
        r.push(v[i]);
        proof {
            assert(v@.take(i + 1) =~= v@.take(i as int).push(v@[i as int]));
        }
        i = i + 1;
    }
    proof {
        assert(v@.take(v@.len() as int) =~= v@);
    }
    r
}

/// Decides equality of two byte vectors.
pub fn bytes_eq(a: &Vec<u8>, b: &Vec<u8>) -> (r: bool)
    ensures
        r == (a@ == b@),
{
    if a.len() != b.len() {
        return false;
    }
    let mut i: usize = 0;
    while i < a.len()
        invariant
            i <= a@.len(),
            a@.len() == b@.len(),
            forall|j: int| 0 <= j < i ==> a@[j] == b@[j],
        decreases a@.len() - i,
    {
        if a[i] != b[i] {
            return false;
        }
        i = i + 1;
    }
    proof {
        assert(a@ =~= b@);
    }
    true
}

impl Clone for GroupId {
    fn clone(&self) -> (r: Self)
        ensures
            r@ == self@,
    {
        GroupId(copy_bytes(&self.0))
    }
}

impl Clone for PeerId {
    fn clone(&self) -> (r: Self)
        ensures
            r@ == self@,
    {
        PeerId(copy_bytes(&self.0))
    }
}

/// Mathematical value of a `Friend` row.
pub ghost struct FriendV {
    pub id: int,
    pub gid: Seq<u8>,
    pub addr: Seq<u8>,
    pub name: Seq<char>,
    pub wallet: Seq<char>,
    pub height: int,
    pub remark: Seq<char>,
    pub is_closed: bool,
    pub datetime: int,
}

/// One row of the contact table.
pub struct Friend {
    /// Surrogate key, assigned by the store on insert; zero before insertion.
    pub id: i64,
    /// Stable identity; unique among open rows.
    pub gid: GroupId,
    /// Current network address.
    pub addr: PeerId,
    /// Display name as last announced or locally edited.
    pub name: String,
    /// Auxiliary public identifier, optional.
    pub wallet: String,
    /// Remote-reported sequence counter used to detect staleness.
    pub height: i64,
    /// Locally authored annotation; never overwritten by remote data.
    pub remark: String,
    /// Soft-delete flag: the relationship was terminated.
    pub is_closed: bool,
    /// Unix seconds at creation; immutable afterwards.
    pub datetime: i64,
}

impl View for Friend {
    type V = FriendV;

    open spec fn view(&self) -> FriendV {
        FriendV {
            id: self.id as int,
            gid: self.gid@,
            addr: self.addr@,
            name: self.name@,
            wallet: self.wallet@,
            height: self.height as int,
            remark: self.remark@,
            is_closed: self.is_closed,
            datetime: self.datetime as int,
        }
    }
}

impl Clone for Friend {
    fn clone(&self) -> (r: Self)
        ensures
            r@ == self@,
    {
        Friend {
            id: self.id,
            gid: self.gid.clone(),
            addr: self.addr.clone(),
            name: self.name.clone(),
            wallet: self.wallet.clone(),
            height: self.height,
            remark: self.remark.clone(),
            is_closed: self.is_closed,
            datetime: self.datetime,
        }
    }
}

/// Relies on `std::time::SystemTime::now` and
/// `duration_since(std::time::UNIX_EPOCH)`: seconds since the Unix epoch;
/// clamped to zero on a clock error or an out-of-range value.
#[verifier::external_body]
pub(crate) fn unix_now() -> (r: i64)
    ensures
        0 <= r,
{
    match std::time::SystemTime::now().duration_since(std::time::UNIX_EPOCH) {
        Ok(d) => i64::try_from(d.as_secs()).unwrap_or(0),
        Err(_) => 0,
    }
}

impl Friend {
    /// Builds a not-yet-inserted row with an explicit creation time.
    pub fn new_at(
        gid: GroupId,
        addr: PeerId,
        name: String,
        wallet: String,
        remark: String,
        height: i64,
        datetime: i64,
    ) -> (r: Friend)
        ensures
            r@ == (FriendV {
                id: 0,
                gid: gid@,
                addr: addr@,
                name: name@,
                wallet: wallet@,
                height: height as int,
                remark: remark@,
                is_closed: false,
                datetime: datetime as int,
            }),
    {
        Friend { id: 0, gid, addr, name, wallet, height, remark, is_closed: false, datetime }
    }

    /// Builds a not-yet-inserted row stamped with the current time.
    pub fn new(
        gid: GroupId,
        addr: PeerId,
        name: String,
        wallet: String,
        remark: String,
        height: i64,
    ) -> (r: Friend)
        ensures
            r@.id == 0,
            r@.gid == gid@,
            r@.addr == addr@,
            r@.name == name@,
            r@.wallet == wallet@,
            r@.height == height as int,
            r@.remark == remark@,
            r@.is_closed == false,
            0 <= r@.datetime,
    {
        let datetime: i64 = unix_now();
        Friend::new_at(gid, addr, name, wallet, remark, height, datetime)
    }

    /// Address equality check: is this contact currently reachable at `addr`?
    pub fn contains_addr(&self, addr: &PeerId) -> (r: bool)
        ensures
            r == (self@.addr == addr@),
    {
        bytes_eq(&self.addr.0, &addr.0)
    }

    /// Projects the row into the generic session view (display kind: chat).
    pub fn to_session(&self) -> (r: Session)
        ensures
            r.fid == self@.id,
            r.gid@ == self@.gid,
            r.addr@ == self@.addr,
            r.s_type == SessionType::Chat,
            r.name@ == self@.name,
            r.datetime == self@.datetime,
    {
        Session::new(
            self.id,
            self.gid.clone(),
            self.addr.clone(),
            SessionType::Chat,
            self.name.clone(),
            self.datetime,
        )
    }

    /// Projects the row into the wire-safe field tuple: identity and address
    /// are rendered as lower-case hex.
    pub fn to_rpc(&self) -> (r: RpcFriend)
        ensures
            r.id == self@.id,
            r.gid@ == hex_of(self@.gid),
            r.addr@ == hex_of(self@.addr),
            r.name@ == self@.name,
            r.wallet@ == self@.wallet,
            r.remark@ == self@.remark,
            r.is_closed == self@.is_closed,
            r.datetime == self@.datetime,
    {
        RpcFriend {
            id: self.id,
            gid: hex_encode(&self.gid.0),
            addr: hex_encode(&self.addr.0),
            name: self.name.clone(),
            wallet: self.wallet.clone(),
            remark: self.remark.clone(),
            is_closed: self.is_closed,
            datetime: self.datetime,
        }
    }

    /// The wire view with a caller-supplied liveness flag appended; the flag
    /// comes from the live session layer and is never persisted.
    pub fn to_rpc_online(&self, online: bool) -> (r: RpcFriendOnline)
        ensures
            r.id == self@.id,
            r.gid@ == hex_of(self@.gid),
            r.addr@ == hex_of(self@.addr),
            r.name@ == self@.name,
            r.wallet@ == self@.wallet,
            r.remark@ == self@.remark,
            r.is_closed == self@.is_closed,
            r.datetime == self@.datetime,
            r.online == online,
    {
        RpcFriendOnline {
            id: self.id,
            gid: hex_encode(&self.gid.0),
            addr: hex_encode(&self.addr.0),
            name: self.name.clone(),
            wallet: self.wallet.clone(),
            remark: self.remark.clone(),
            is_closed: self.is_closed,
            datetime: self.datetime,
            online,
        }
    }
}

/// Ordered wire record of a contact for external queries.
pub struct RpcFriend {
    pub id: i64,
    pub gid: String,
    pub addr: String,
    pub name: String,
    pub wallet: String,
    pub remark: String,
    pub is_closed: bool,
    pub datetime: i64,
}

/// The wire record with an ephemeral liveness annotation.
pub struct RpcFriendOnline {
    pub id: i64,
    pub gid: String,
    pub addr: String,
    pub name: String,
    pub wallet: String,
    pub remark: String,
    pub is_closed: bool,
    pub datetime: i64,
    pub online: bool,
}

} // verus!
