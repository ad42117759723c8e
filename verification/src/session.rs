//! The generic session view handed to higher-level session management.

use vstd::prelude::*;
use crate::friend::{GroupId, PeerId};

verus! {

/// Display kind of a session.
#[derive(Clone, Copy, PartialEq, Eq, Structural, Debug)]
pub enum SessionType {
    Chat,
}

/// What session management needs of a contact: the local handle, identity,
/// address, display kind, name and creation time.
pub struct Session {
    pub fid: i64,
    pub gid: GroupId,
    pub addr: PeerId,
    pub s_type: SessionType,
    pub name: String,
    pub datetime: i64,
}

impl Session {
    pub fn new(
        fid: i64,
        gid: GroupId,
        addr: PeerId,
        s_type: SessionType,
        name: String,
        datetime: i64,
    ) -> (r: Session)
        ensures
            r.fid == fid,
            r.gid@ == gid@,
            r.addr@ == addr@,
            r.s_type == s_type,
            r.name@ == name@,
            r.datetime == datetime,
    {
        Session { fid, gid, addr, s_type, name, datetime }
    }
}

} // verus!
