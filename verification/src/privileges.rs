//! Player privileges: a single bitfield with fixed, named bits.
use vstd::prelude::*;

verus! {

pub const USER_PUBLIC: u32 = 1;

pub const USER_NORMAL: u32 = 2 << 0;

pub const USER_DONOR: u32 = 2 << 1;

pub const ADMIN_ACCESS_RAP: u32 = 2 << 2;

pub const ADMIN_MANAGE_USERS: u32 = 2 << 3;

pub const ADMIN_BAN_USERS: u32 = 2 << 4;

pub const ADMIN_SILENCE_USERS: u32 = 2 << 5;

pub const ADMIN_WIPE_USERS: u32 = 2 << 6;

pub const ADMIN_MANAGE_BEATMAPS: u32 = 2 << 7;

pub const ADMIN_MANAGE_SERVERS: u32 = 2 << 8;

pub const ADMIN_MANAGE_SETTINGS: u32 = 2 << 9;

pub const ADMIN_MANAGE_BETAKEYS: u32 = 2 << 10;

pub const ADMIN_MANAGE_REPORTS: u32 = 2 << 11;

pub const ADMIN_MANAGE_DOCS: u32 = 2 << 12;

pub const ADMIN_MANAGE_BADGES: u32 = 2 << 13;

pub const ADMIN_VIEW_RAP_LOGS: u32 = 2 << 14;

pub const ADMIN_MANAGE_PRIVILEGES: u32 = 2 << 15;

pub const ADMIN_SEND_ALERTS: u32 = 2 << 16;

pub const ADMIN_CHAT_MOD: u32 = 2 << 17;

pub const ADMIN_KICK_USERS: u32 = 2 << 18;

pub const USER_PENDING_VERIFICATION: u32 = 2 << 19;

pub const USER_TOURNAMENT_STAFF: u32 = 2 << 20;

pub const ADMIN_CAKER: u32 = 20 << 21;

/// A player's privileges, kept as one unsigned bitfield. Queries are pure
/// bitwise tests; replacing the whole field is the only mutation.
#[derive(Clone, Copy, PartialEq, Eq, Structural, Debug)]
pub struct Privileges {
    pub privs: u32,
}

impl Privileges {
    /// Creates privileges with no bits set.
    pub fn new() -> (p: Privileges)
        ensures
            p.privs == 0,
    {
        Privileges { privs: 0 }
    }

    /// Creates privileges from an existing bitfield value.
    pub fn from_bitwise(privs: u32) -> (p: Privileges)
        ensures
            p.privs == privs,
    {
        Privileges { privs }
    }

    /// True when any of the given flag bits is set.
    pub fn has_any(&self, flag: u32) -> (r: bool)
        ensures
            r == (self.privs & flag > 0),
    {
        self.privs & flag > 0
    }

    /// True when every one of the given flag bits is set.
    pub fn has_all(&self, flag: u32) -> (r: bool)
        ensures
            r == (self.privs & flag == flag),
    {
        self.privs & flag == flag
    }

    /// Replaces the whole bitfield with a new value.
    pub fn reset_priv(&mut self, flag: u32)
        ensures
            final(self).privs == flag,
    {
        self.privs = flag;
    }

    pub fn public(&self) -> (r: bool)
        ensures
            r == (self.privs & USER_PUBLIC > 0),
    {
        self.privs & USER_PUBLIC > 0
    }

    pub fn normal(&self) -> (r: bool)
        ensures
            r == (self.privs & USER_NORMAL > 0),
    {
        self.privs & USER_NORMAL > 0
    }

    pub fn donor(&self) -> (r: bool)
        ensures
            r == (self.privs & USER_DONOR > 0),
    {
        self.privs & USER_DONOR > 0
    }

    pub fn access_panel(&self) -> (r: bool)
        ensures
            r == (self.privs & ADMIN_ACCESS_RAP > 0),
    {
        self.privs & ADMIN_ACCESS_RAP > 0
    }

    pub fn manage_users(&self) -> (r: bool)
        ensures
            r == (self.privs & ADMIN_MANAGE_USERS > 0),
    {
        self.privs & ADMIN_MANAGE_USERS > 0
    }

    pub fn ban_users(&self) -> (r: bool)
        ensures
            r == (self.privs & ADMIN_BAN_USERS > 0),
    {
        self.privs & ADMIN_BAN_USERS > 0
    }

    pub fn silence_users(&self) -> (r: bool)
        ensures
            r == (self.privs & ADMIN_SILENCE_USERS > 0),
    {
        self.privs & ADMIN_SILENCE_USERS > 0
    }

    pub fn wipe_users(&self) -> (r: bool)
        ensures
            r == (self.privs & ADMIN_WIPE_USERS > 0),
    {
        self.privs & ADMIN_WIPE_USERS > 0
    }

    pub fn rank_beatmaps(&self) -> (r: bool)
        ensures
            r == (self.privs & ADMIN_MANAGE_BEATMAPS > 0),
    {
        self.privs & ADMIN_MANAGE_BEATMAPS > 0
    }

    pub fn edit_server(&self) -> (r: bool)
        ensures
            r == (self.privs & ADMIN_MANAGE_SERVERS > 0),
    {
        self.privs & ADMIN_MANAGE_SERVERS > 0
    }

    pub fn edit_settings(&self) -> (r: bool)
        ensures
            r == (self.privs & ADMIN_MANAGE_SETTINGS > 0),
    {
        self.privs & ADMIN_MANAGE_SETTINGS > 0
    }

    pub fn edit_privileges(&self) -> (r: bool)
        ensures
            r == (self.privs & ADMIN_MANAGE_PRIVILEGES > 0),
    {
        self.privs & ADMIN_MANAGE_PRIVILEGES > 0
    }

    pub fn send_alerts(&self) -> (r: bool)
        ensures
            r == (self.privs & ADMIN_SEND_ALERTS > 0),
    {
        self.privs & ADMIN_SEND_ALERTS > 0
    }

    pub fn chat_mod(&self) -> (r: bool)
        ensures
            r == (self.privs & ADMIN_CHAT_MOD > 0),
    {
        self.privs & ADMIN_CHAT_MOD > 0
    }

    pub fn kick_user(&self) -> (r: bool)
        ensures
            r == (self.privs & ADMIN_KICK_USERS > 0),
    {
        self.privs & ADMIN_KICK_USERS > 0
    }

    pub fn unverified(&self) -> (r: bool)
        ensures
            r == (self.privs & USER_PENDING_VERIFICATION > 0),
    {
        self.privs & USER_PENDING_VERIFICATION > 0
    }
}

} // verus!
