//! The Tox state format: a file of tagged, length-prefixed sections.
//!
//! A file starts with four zero bytes and the magic bytes `1F 1B ED 15`.
//! Sections follow, each made of the length of its payload in four bytes, low
//! byte first, its type in two bytes, low byte first, the bytes `CE 01`, and
//! the payload.

pub mod dht_state;
pub mod friends;
pub mod relays;
pub mod sections;
pub mod state;

pub use self::dht_state::{DhtState, DHT_2ND_MAGICAL, DHT_MAGICAL, DHT_SECTION_TYPE};
pub use self::friends::{
    FriendState, FriendStateView, FriendStatus, Friends, FRIENDSTATEBYTES, REQUEST_MSG_LEN,
};
pub use self::relays::{OldIpPort, PathNodes, TcpRelays, TcpUdpPackedNode};
pub use self::sections::{
    Eof, Name, NospamKeys, StatusMsg, UserStatus, UserWorkingStatus, NAME_LEN, NOSPAMKEYSBYTES,
    STATUS_MSG_LEN, USER_STATUS_LEN,
};
pub use self::state::{Section, SectionView, State};
