//! Party identifiers and the enumerations of the wire protocol.
//!
//! A `PartyId` is carried on the wire as a 32-bit little-endian integer.
//! Four values are reserved for wildcard groups; the remaining values below
//! `0x8000_0000` name a single client, and the values at or above it name a
//! single server (the server index is the value minus `0x8000_0000`).

use vstd::prelude::*;

verus! {

pub const ALL_SERVER_ID_WITH_ECHO: u32 = 0xFFFF_FFFF;
pub const ALL_CLIENT_ID_WITH_ECHO: u32 = 0x7FFF_FFFF;
pub const ALL_SERVER_ID: u32 = 0xFFFF_FFFE;
pub const ALL_CLIENT_ID: u32 = 0x7FFF_FFFE;
pub const OFFSET_SERVER_ID: u32 = 0x8000_0000;

#[derive(Clone, Copy, Debug, PartialEq, Eq, Structural)]
pub enum MessageCode {
    Special,
    Normal,
}

impl MessageCode {
    /// The byte that stands for this code on the wire.
    pub open spec fn spec_byte(self) -> u8 {
        match self {
            MessageCode::Special => 0x5E,
            MessageCode::Normal => 0x00,
        }
    }

    pub fn as_byte(self) -> (b: u8)
        ensures
            b == self.spec_byte(),
    {
        match self {
            MessageCode::Special => 0x5E,
            MessageCode::Normal => 0x00,
        }
    }

    /// Whether a byte stands for some message code.
    pub open spec fn spec_byte_valid(b: u8) -> bool {
        b == 0x5E || b == 0x00
    }

    pub fn from_byte(b: u8) -> (r: Option<MessageCode>)
        ensures
            r is Some <==> MessageCode::spec_byte_valid(b),
            r matches Some(c) ==> c.spec_byte() == b,
    {
        match b {
            0x5E => Some(MessageCode::Special),
            0x00 => Some(MessageCode::Normal),
            _ => None,
        }
    }
}

#[derive(Clone, Copy, Debug, PartialEq, Eq, Structural)]
pub enum PayloadKind {
    Command,
    Data,
    Info,
}

impl PayloadKind {
    /// The byte that stands for this kind on the wire.
    pub open spec fn spec_byte(self) -> u8 {
        match self {
            PayloadKind::Command => 0xC0,
            PayloadKind::Data => 0xDA,
            PayloadKind::Info => 0x1F,
        }
    }

    pub fn as_byte(self) -> (b: u8)
        ensures
            b == self.spec_byte(),
    {
        match self {
            PayloadKind::Command => 0xC0,
            PayloadKind::Data => 0xDA,
            PayloadKind::Info => 0x1F,
        }
    }

    /// Whether a byte stands for some payload kind.
    pub open spec fn spec_byte_valid(b: u8) -> bool {
        b == 0xC0 || b == 0xDA || b == 0x1F
    }

    pub fn from_byte(b: u8) -> (r: Option<PayloadKind>)
        ensures
            r is Some <==> PayloadKind::spec_byte_valid(b),
            r matches Some(k) ==> k.spec_byte() == b,
    {
        match b {
            0xC0 => Some(PayloadKind::Command),
            0xDA => Some(PayloadKind::Data),
            0x1F => Some(PayloadKind::Info),
            _ => None,
        }
    }
}

#[derive(Clone, Copy, Debug, PartialEq, Eq, Structural)]
pub enum PartyId {
    AllClients,
    AllServers,
    AllClientsWithEcho,
    AllServersWithEcho,
    Client(u32),
    Server(u32),
}

impl PartyId {
    /// The party named by a 32-bit wire value.
    pub open spec fn spec_decode(value: u32) -> PartyId {
        if value == ALL_CLIENT_ID {
            PartyId::AllClients
        } else if value == ALL_SERVER_ID {
            PartyId::AllServers
        } else if value == ALL_CLIENT_ID_WITH_ECHO {
            PartyId::AllClientsWithEcho
        } else if value == ALL_SERVER_ID_WITH_ECHO {
            PartyId::AllServersWithEcho
        } else if value >= OFFSET_SERVER_ID {
            PartyId::Server((value - OFFSET_SERVER_ID) as u32)
        } else {
            PartyId::Client(value)
        }
    }

    /// The 32-bit wire value of this party.
    pub open spec fn spec_repr(self) -> u32 {
        match self {
            PartyId::AllClientsWithEcho => ALL_CLIENT_ID_WITH_ECHO,
            PartyId::AllClients => ALL_CLIENT_ID,
            PartyId::AllServersWithEcho => ALL_SERVER_ID_WITH_ECHO,
            PartyId::AllServers => ALL_SERVER_ID,
            PartyId::Client(n) => n,
            PartyId::Server(n) => (OFFSET_SERVER_ID + n) as u32,
        }
    }

    /// The wire value can be computed without overflowing a `u32`.
    pub open spec fn reprable(self) -> bool {
        match self {
            PartyId::Server(n) => n <= 0x7FFF_FFFF,
            _ => true,
        }
    }

    /// The party has a wire value of its own: a single client or server
    /// index does not collide with the reserved wildcard values.
    pub open spec fn valid(self) -> bool {
        match self {
            PartyId::Client(n) => n < ALL_CLIENT_ID,
            PartyId::Server(n) => n < ALL_CLIENT_ID,
            _ => true,
        }
    }

    pub fn from_u32(party_id_value: u32) -> (r: Self)
        ensures
            r == PartyId::spec_decode(party_id_value),
            r.valid(),
            r.spec_repr() == party_id_value,
    {
        if party_id_value == ALL_CLIENT_ID {
            return Self::AllClients;
        }
        if party_id_value == ALL_SERVER_ID {
            return Self::AllServers;
        }
        if party_id_value == ALL_CLIENT_ID_WITH_ECHO {
            return Self::AllClientsWithEcho;
        }
        if party_id_value == ALL_SERVER_ID_WITH_ECHO {
            return Self::AllServersWithEcho;
        }
        if party_id_value >= OFFSET_SERVER_ID {
            return Self::Server(party_id_value - OFFSET_SERVER_ID);
        }
        Self::Client(party_id_value)
    }

    pub fn get_repr(&self) -> (r: u32)
        requires
            self.reprable(),
        ensures
            r == self.spec_repr(),
    {
        match self {
            Self::AllClientsWithEcho => ALL_CLIENT_ID_WITH_ECHO,
            Self::AllClients => ALL_CLIENT_ID,
            Self::AllServersWithEcho => ALL_SERVER_ID_WITH_ECHO,
            Self::AllServers => ALL_SERVER_ID,
            Self::Client(client_id) => *client_id,
            Self::Server(server_id) => OFFSET_SERVER_ID + *server_id,
        }
    }

    pub fn to_le_bytes(self) -> (r: [u8; 4])
        requires
            self.reprable(),
        ensures
            r@ == u32_le_bytes(self.spec_repr()),
    {
        let v = self.get_repr();
        u32_to_le_bytes(v)
    }

    pub fn is_single_client_id(&self) -> (r: bool)
        ensures
            r == (self matches PartyId::Client(_)),
    {
        matches!(self, Self::Client(_))
    }

    pub fn is_single_server_id(&self) -> (r: bool)
        ensures
            r == (self matches PartyId::Server(_)),
    {
        matches!(self, Self::Server(_))
    }
}

/// Decoding is the left inverse of encoding: every valid party comes back
/// unchanged from its wire value. (A `Client` or `Server` index at or above
/// `ALL_CLIENT_ID` has no wire value of its own and is excluded; for example,
/// `Client(ALL_CLIENT_ID)` would encode to the all-clients wildcard.)
pub proof fn lemma_decode_inverts_repr(p: PartyId)
    requires
        p.valid(),
    ensures
        PartyId::spec_decode(p.spec_repr()) == p,
{
}

/// Encoding is the left inverse of decoding: every 32-bit value decodes to a
/// valid party whose wire value is that value again.
pub proof fn lemma_repr_inverts_decode(value: u32)
    ensures
        PartyId::spec_decode(value).valid(),
        PartyId::spec_decode(value).spec_repr() == value,
{
}

/// The four bytes of a 32-bit value, least significant first.
pub open spec fn u32_le_bytes(x: u32) -> Seq<u8> {
    seq![
        (x & 0xff) as u8,
        ((x >> 8) & 0xff) as u8,
        ((x >> 16) & 0xff) as u8,
        ((x >> 24) & 0xff) as u8,
    ]
}

/// The 32-bit value read from four bytes, least significant first.
pub open spec fn u32_from_le(b0: u8, b1: u8, b2: u8, b3: u8) -> u32 {
    (b0 as u32) | ((b1 as u32) << 8) | ((b2 as u32) << 16) | ((b3 as u32) << 24)
}

/// Reading four little-endian bytes back gives the value they were made from.
pub proof fn lemma_u32_le_round_trip(x: u32)
    ensures
        u32_from_le(
            u32_le_bytes(x)[0],
            u32_le_bytes(x)[1],
            u32_le_bytes(x)[2],
            u32_le_bytes(x)[3],
        ) == x,
{
    assert(((x & 0xff) as u8) as u32 | ((((x >> 8) & 0xff) as u8) as u32) << 8
        | ((((x >> 16) & 0xff) as u8) as u32) << 16 | ((((x >> 24) & 0xff) as u8) as u32) << 24
        == x) by (bit_vector);
}

pub fn u32_to_le_bytes(x: u32) -> (r: [u8; 4])
    ensures
        r@ == u32_le_bytes(x),
{
    proof {
        assert(x & 0xff < 256 && (x >> 8) & 0xff < 256 && (x >> 16) & 0xff < 256 && (x >> 24)
            & 0xff < 256) by (bit_vector);
    }
    let r: [u8; 4] = [
        (x & 0xff) as u8,
        ((x >> 8) & 0xff) as u8,
        ((x >> 16) & 0xff) as u8,
        ((x >> 24) & 0xff) as u8,
    ];
    assert(r@ =~= u32_le_bytes(x));
    r
}

pub fn u32_from_le_bytes(b0: u8, b1: u8, b2: u8, b3: u8) -> (r: u32)
    ensures
        r == u32_from_le(b0, b1, b2, b3),
{
    (b0 as u32) | ((b1 as u32) << 8) | ((b2 as u32) << 16) | ((b3 as u32) << 24)
}

/// The two bytes of a 16-bit value, least significant first.
pub open spec fn u16_le_bytes(x: u16) -> Seq<u8> {
    seq![(x & 0xff) as u8, ((x >> 8) & 0xff) as u8]
}

/// The 16-bit value read from two bytes, least significant first.
pub open spec fn u16_from_le(b0: u8, b1: u8) -> u16 {
    (b0 as u16) | ((b1 as u16) << 8)
}

/// Reading two little-endian bytes back gives the value they were made from.
pub proof fn lemma_u16_le_round_trip(x: u16)
    ensures
        u16_from_le(u16_le_bytes(x)[0], u16_le_bytes(x)[1]) == x,
{
    assert(((x & 0xff) as u8) as u16 | ((((x >> 8) & 0xff) as u8) as u16) << 8 == x)
        by (bit_vector);
}

pub fn u16_to_le_bytes(x: u16) -> (r: [u8; 2])
    ensures
        r@ == u16_le_bytes(x),
{
    proof {
        assert(x & 0xff < 256 && (x >> 8) & 0xff < 256) by (bit_vector);
    }
    let r: [u8; 2] = [(x & 0xff) as u8, ((x >> 8) & 0xff) as u8];
    assert(r@ =~= u16_le_bytes(x));
    r
}

pub fn u16_from_le_bytes(b0: u8, b1: u8) -> (r: u16)
    ensures
        r == u16_from_le(b0, b1),
{
    (b0 as u16) | ((b1 as u16) << 8)
}

} // verus!
