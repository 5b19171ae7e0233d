//! Host Bus Messages (HBM): the management protocol spoken on HECI address
//! pair (0, 0) to negotiate the version, enumerate ME clients and connect.

use vstd::prelude::*;
use crate::error::{Error, Result};

verus! {

// HBM (Host Bus Message) command codes
pub const HBM_CMD_HOST_VERSION: u8 = 0x01;
pub const HBM_CMD_HOST_VERSION_RESP: u8 = 0x81;
pub const HBM_CMD_HOST_ENUM: u8 = 0x04;
pub const HBM_CMD_HOST_ENUM_RESP: u8 = 0x84;
pub const HBM_CMD_HOST_CLIENT_PROP: u8 = 0x05;
pub const HBM_CMD_HOST_CLIENT_PROP_RESP: u8 = 0x85;
pub const HBM_CMD_CONNECT: u8 = 0x06;
pub const HBM_CMD_CONNECT_RESP: u8 = 0x86;
pub const HBM_CMD_FLOW_CONTROL: u8 = 0x08;

pub const HBM_MAJOR_VERSION: u8 = 2;
pub const HBM_MINOR_VERSION: u8 = 0;

// HBM Client Disconnect Request/Response
pub const HBM_CMD_CLIENT_DISCONNECT_REQ: u8 = 0x07;
pub const HBM_CMD_CLIENT_DISCONNECT_RESP: u8 = 0x87;

/// AMTHI client UUID {12F80028-B4B7-4B2D-ACA8-46E0FF65814C}, in wire byte order.
pub const AMTHI_UUID: [u8; 16] = [
    0x28, 0x00, 0xf8, 0x12, 0xb7, 0xb4, 0x2d, 0x4b, 0xac, 0xa8, 0x46, 0xe0, 0xff, 0x65, 0x81, 0x4c,
];

/// Wire sizes of the packed messages.
pub const HBM_FLOW_CONTROL_SIZE: usize = 8;
pub const HBM_HOST_VERSION_RESP_SIZE: usize = 4;
pub const HBM_HOST_ENUM_RESP_SIZE: usize = 36;
pub const HBM_CLIENT_PROP_RESP_SIZE: usize = 28;
pub const HBM_CONNECT_RESP_SIZE: usize = 4;

pub struct HbmFlowControl {
    pub cmd: u8,
    pub me_addr: u8,
    pub host_addr: u8,
    pub reserved: [u8; 5],
}

pub struct HbmHostVersionReq {
    pub cmd: u8,
    pub minor: u8,
    pub major: u8,
    pub reserved: u8,
}

pub struct HbmHostVersionResp {
    pub cmd: u8,
    pub minor: u8,
    pub major: u8,
    pub supported: u8,
}

pub struct HbmHostEnumReq {
    pub cmd: u8,
    pub reserved: [u8; 3],
}

pub struct HbmHostEnumResp {
    pub cmd: u8,
    pub reserved: [u8; 3],
    pub valid_addresses: [u8; 32],
}

pub struct HbmClientPropReq {
    pub cmd: u8,
    pub me_addr: u8,
    pub reserved: [u8; 2],
}

pub struct HbmClientPropResp {
    pub cmd: u8,
    pub me_addr: u8,
    pub status: u8,
    pub reserved: u8,
    pub uuid: [u8; 16],
    pub protocol_ver: u8,
    pub max_connections: u8,
    pub fixed_address: u8,
    pub single_recv_buf: u8,
    pub max_msg_length: u32,
}

pub struct HbmConnectReq {
    pub cmd: u8,
    pub me_addr: u8,
    pub host_addr: u8,
    pub reserved: u8,
}

pub struct HbmConnectResp {
    pub cmd: u8,
    pub me_addr: u8,
    pub host_addr: u8,
    pub status: u8,
}

/// Little-endian u32 from four bytes.
pub open spec fn le32(b0: u8, b1: u8, b2: u8, b3: u8) -> u32 {
    (b0 as int + 0x100 * b1 as int + 0x1_0000 * b2 as int + 0x100_0000 * b3 as int) as u32
}

fn push4(v: &mut Vec<u8>, a: u8, b: u8, c: u8, d: u8)
    ensures
        final(v)@ == old(v)@ + seq![a, b, c, d],
{
    v.push(a);
    v.push(b);
    v.push(c);
    v.push(d);
    assert(v@ =~= old(v)@ + seq![a, b, c, d]);
}

impl HbmFlowControl {
    /// Packed wire form (8 bytes).
    pub fn to_bytes(&self) -> (r: Vec<u8>)
        ensures
            r@ == seq![self.cmd, self.me_addr, self.host_addr] + self.reserved@,
    {
        let mut v: Vec<u8> = Vec::new();
        push4(&mut v, self.cmd, self.me_addr, self.host_addr, self.reserved[0]);
        push4(&mut v, self.reserved[1], self.reserved[2], self.reserved[3], self.reserved[4]);
        assert(v@ =~= seq![self.cmd, self.me_addr, self.host_addr] + self.reserved@);
        v
    }
}

impl HbmHostVersionReq {
    pub fn to_bytes(&self) -> (r: Vec<u8>)
        ensures
            r@ == seq![self.cmd, self.minor, self.major, self.reserved],
    {
        let mut v: Vec<u8> = Vec::new();
        push4(&mut v, self.cmd, self.minor, self.major, self.reserved);
        v
    }
}

impl HbmHostVersionResp {
    pub fn from_bytes(b: &[u8]) -> (r: Self)
        requires
            b@.len() >= HBM_HOST_VERSION_RESP_SIZE,
        ensures
            r.cmd == b@[0] && r.minor == b@[1] && r.major == b@[2] && r.supported == b@[3],
    {
        HbmHostVersionResp { cmd: b[0], minor: b[1], major: b[2], supported: b[3] }
    }
}

impl HbmHostEnumReq {
    pub fn to_bytes(&self) -> (r: Vec<u8>)
        ensures
            r@ == seq![self.cmd] + self.reserved@,
    {
        let mut v: Vec<u8> = Vec::new();
        push4(&mut v, self.cmd, self.reserved[0], self.reserved[1], self.reserved[2]);
        assert(v@ =~= seq![self.cmd] + self.reserved@);
        v
    }
}

impl HbmHostEnumResp {
    pub fn from_bytes(b: &[u8]) -> (r: Self)
        requires
            b@.len() >= HBM_HOST_ENUM_RESP_SIZE,
        ensures
            r.cmd == b@[0],
            r.reserved@ == b@.subrange(1, 4),
            r.valid_addresses@ == b@.subrange(4, 36),
    {
        let mut valid = [0u8; 32];
        let mut i: usize = 0;
        while i < 32
            invariant
                i <= 32,
                b@.len() >= 36,
                forall|t: int| 0 <= t < i ==> valid@[t] == b@[4 + t],
            decreases 32 - i,
        {
            valid[i] = b[4 + i];
            i += 1;
        }
        let r = HbmHostEnumResp { cmd: b[0], reserved: [b[1], b[2], b[3]], valid_addresses: valid };
        assert(r.reserved@ =~= b@.subrange(1, 4));
        assert(r.valid_addresses@ =~= b@.subrange(4, 36));
        r
    }
}

impl HbmClientPropReq {
    pub fn to_bytes(&self) -> (r: Vec<u8>)
        ensures
            r@ == seq![self.cmd, self.me_addr] + self.reserved@,
    {
        let mut v: Vec<u8> = Vec::new();
        push4(&mut v, self.cmd, self.me_addr, self.reserved[0], self.reserved[1]);
        assert(v@ =~= seq![self.cmd, self.me_addr] + self.reserved@);
        v
    }
}

impl HbmClientPropResp {
    pub fn from_bytes(b: &[u8]) -> (r: Self)
        requires
            b@.len() >= HBM_CLIENT_PROP_RESP_SIZE,
        ensures
            r.cmd == b@[0] && r.me_addr == b@[1] && r.status == b@[2] && r.reserved == b@[3],
            r.uuid@ == b@.subrange(4, 20),
            r.protocol_ver == b@[20] && r.max_connections == b@[21] && r.fixed_address == b@[22]
                && r.single_recv_buf == b@[23],
            r.max_msg_length == le32(b@[24], b@[25], b@[26], b@[27]),
    {
        let mut uuid = [0u8; 16];
        let mut i: usize = 0;
        while i < 16
            invariant
                i <= 16,
                b@.len() >= 28,
                forall|t: int| 0 <= t < i ==> uuid@[t] == b@[4 + t],
            decreases 16 - i,
        {
            uuid[i] = b[4 + i];
            i += 1;
        }
        let max = (b[24] as u32) + (b[25] as u32) * 0x100 + (b[26] as u32) * 0x1_0000 + (b[27] as u32)
            * 0x100_0000;
        let r = HbmClientPropResp {
            cmd: b[0],
            me_addr: b[1],
            status: b[2],
            reserved: b[3],
            uuid,
            protocol_ver: b[20],
            max_connections: b[21],
            fixed_address: b[22],
            single_recv_buf: b[23],
            max_msg_length: max,
        };
        assert(r.uuid@ =~= b@.subrange(4, 20));
        r
    }
}

impl HbmConnectReq {
    pub fn to_bytes(&self) -> (r: Vec<u8>)
        ensures
            r@ == seq![self.cmd, self.me_addr, self.host_addr, self.reserved],
    {
        let mut v: Vec<u8> = Vec::new();
        push4(&mut v, self.cmd, self.me_addr, self.host_addr, self.reserved);
        v
    }
}

impl HbmConnectResp {
    pub fn from_bytes(b: &[u8]) -> (r: Self)
        requires
            b@.len() >= HBM_CONNECT_RESP_SIZE,
        ensures
            r.cmd == b@[0] && r.me_addr == b@[1] && r.host_addr == b@[2] && r.status == b@[3],
    {
        HbmConnectResp { cmd: b[0], me_addr: b[1], host_addr: b[2], status: b[3] }
    }
}

/// The flow-control credit the host grants the ME client at (`me_addr`, `host_addr`).
pub fn flow_control_message(me_addr: u8, host_addr: u8) -> (r: Vec<u8>)
    ensures
        r@ == seq![HBM_CMD_FLOW_CONTROL, me_addr, host_addr, 0u8, 0u8, 0u8, 0u8, 0u8],
{
    let fc = HbmFlowControl { cmd: HBM_CMD_FLOW_CONTROL, me_addr, host_addr, reserved: [0; 5] };
    let r = fc.to_bytes();
    assert(r@ =~= seq![HBM_CMD_FLOW_CONTROL, me_addr, host_addr, 0u8, 0u8, 0u8, 0u8, 0u8]);
    r
}

/// ME client address `i` is marked present in the enumeration bitmap.
pub open spec fn address_present(valid: Seq<u8>, i: int) -> bool {
    (valid[i / 8] >> ((i % 8) as u8)) & 1 == 1
}

/// The first present address in `from..256`, or 256 when there is none.
pub open spec fn next_present(valid: Seq<u8>, from: int) -> int
    decreases 256 - from,
{
    if from >= 256 {
        256
    } else if address_present(valid, from) {
        from
    } else {
        next_present(valid, from + 1)
    }
}


/// Bit `k` (0 = least significant) of byte `b`, by arithmetic.
pub open spec fn bit_of(b: u8, k: int) -> bool {
    (b as int / vstd::arithmetic::power2::pow2(k as nat) as int) % 2 == 1
}

proof fn lemma_shift_bit(b: u8, k: u8)
    requires
        k < 8,
    ensures
        ((b >> k) & 1 == 1) == bit_of(b, k as int),
{
    vstd::arithmetic::power2::lemma2_to64();
    if k == 0 {
        assert(((b >> 0u8) & 1 == 1) == ((b / 1) % 2 == 1)) by (bit_vector);
    } else if k == 1 {
        assert(((b >> 1u8) & 1 == 1) == ((b / 2) % 2 == 1)) by (bit_vector);
    } else if k == 2 {
        assert(((b >> 2u8) & 1 == 1) == ((b / 4) % 2 == 1)) by (bit_vector);
    } else if k == 3 {
        assert(((b >> 3u8) & 1 == 1) == ((b / 8) % 2 == 1)) by (bit_vector);
    } else if k == 4 {
        assert(((b >> 4u8) & 1 == 1) == ((b / 16) % 2 == 1)) by (bit_vector);
    } else if k == 5 {
        assert(((b >> 5u8) & 1 == 1) == ((b / 32) % 2 == 1)) by (bit_vector);
    } else if k == 6 {
        assert(((b >> 6u8) & 1 == 1) == ((b / 64) % 2 == 1)) by (bit_vector);
    } else {
        assert(((b >> 7u8) & 1 == 1) == ((b / 128) % 2 == 1)) by (bit_vector);
    }
}

/// The enumeration bitmap: ME client `i` is present exactly when bit `i % 8`
/// of byte `i / 8` is set; and the next client queried from `from` on is the
/// least present address at or after `from` (256 when there is none). After
/// an enumeration reply the first properties request (from address 1) so
/// names the least listed client.
pub proof fn lemma_client_bitmap(valid: Seq<u8>, from: int)
    requires
        valid.len() == 32,
        1 <= from <= 256,
    ensures
        forall|i: int| 0 <= i < 256 ==> address_present(valid, i) == bit_of(#[trigger] valid[i / 8], i % 8),
        from <= next_present(valid, from) <= 256,
        next_present(valid, from) < 256 ==> bit_of(
            valid[next_present(valid, from) / 8],
            next_present(valid, from) % 8,
        ),
        forall|t: int| from <= t < next_present(valid, from) ==> !bit_of(#[trigger] valid[t / 8], t % 8),
{
    assert forall|i: int| 0 <= i < 256 implies address_present(valid, i) == bit_of(
        #[trigger] valid[i / 8],
        i % 8,
    ) by {
        lemma_shift_bit(valid[i / 8], (i % 8) as u8);
    }
    lemma_next_present_least(valid, from);
}

proof fn lemma_next_present_least(valid: Seq<u8>, from: int)
    requires
        valid.len() == 32,
        0 <= from <= 256,
        forall|i: int| 0 <= i < 256 ==> address_present(valid, i) == bit_of(#[trigger] valid[i / 8], i % 8),
    ensures
        from <= next_present(valid, from) <= 256,
        next_present(valid, from) < 256 ==> bit_of(
            valid[next_present(valid, from) / 8],
            next_present(valid, from) % 8,
        ),
        forall|t: int| from <= t < next_present(valid, from) ==> !bit_of(#[trigger] valid[t / 8], t % 8),
    decreases 256 - from,
{
    if from < 256 {
        assert(address_present(valid, from) == bit_of(valid[from / 8], from % 8));
        if !address_present(valid, from) {
            lemma_next_present_least(valid, from + 1);
        }
    }
}

fn is_present(valid: &[u8; 32], i: u32) -> (r: bool)
    requires
        i < 256,
    ensures
        r == address_present(valid@, i as int),
{
    let byte = valid[(i / 8) as usize];
    let bit = (i % 8) as u8;
    assert(bit < 8 ==> ((byte & (1u8 << bit)) != 0) == ((byte >> bit) & 1 == 1)) by (bit_vector);
    byte & (1u8 << bit) != 0
}

/// Where the connection sequence stands.
#[derive(Clone, Copy, PartialEq, Eq, Structural)]
pub enum HbmConnectStage {
    /// The host version request is out.
    Version,
    /// The client enumeration request is out.
    Enumerate,
    /// A client properties request for `current` is out.
    Properties,
    /// The connect request is out.
    Connect,
    /// Waiting for the ME's first flow-control credit.
    InitialFlowControl,
    Done,
}

/// What the transport does next for the connection sequence.
pub enum HbmAction {
    /// Write this HBM message on address pair (0, 0), then read one message.
    Exchange(Vec<u8>),
    /// Read one message.
    Receive,
    /// The sequence ended.
    Finished(Result<()>),
}

/// Connection to an ME client by UUID: version exchange, enumeration, a
/// property query per present client until the UUID matches, then connect.
pub struct HbmConnect {
    pub target_uuid: [u8; 16],
    pub host_addr: u8,
    pub valid_addresses: [u8; 32],
    /// The client address whose properties were requested last.
    pub current: u32,
    pub found: bool,
    pub me_addr: u8,
    pub max_msg_len: u32,
    pub stage: HbmConnectStage,
}

impl HbmConnect {
    pub open spec fn wf(&self) -> bool {
        self.stage == HbmConnectStage::Properties ==> 1 <= self.current < 256
    }

    /// Starts the sequence: the first message is the host version request.
    pub fn start(target_uuid: [u8; 16], host_addr: u8) -> (r: (Self, HbmAction))
        ensures
            r.0.wf(),
            r.0.stage == HbmConnectStage::Version,
            r.0.target_uuid == target_uuid,
            r.0.host_addr == host_addr,
            !r.0.found,
            r.1 matches HbmAction::Exchange(m) && m@ == seq![
                HBM_CMD_HOST_VERSION,
                HBM_MINOR_VERSION,
                HBM_MAJOR_VERSION,
                0u8,
            ],
    {
        let req = HbmHostVersionReq {
            cmd: HBM_CMD_HOST_VERSION,
            minor: HBM_MINOR_VERSION,
            major: HBM_MAJOR_VERSION,
            reserved: 0,
        };
        let c = HbmConnect {
            target_uuid,
            host_addr,
            valid_addresses: [0; 32],
            current: 0,
            found: false,
            me_addr: 0,
            max_msg_len: 0,
            stage: HbmConnectStage::Version,
        };
        (c, HbmAction::Exchange(req.to_bytes()))
    }

    /// Query the next present client after `self.current`, or give up with `NotFound`.
    fn query_next(&mut self) -> (a: HbmAction)
        requires
            old(self).current < 256,
        ensures
            final(self).target_uuid == old(self).target_uuid,
            final(self).host_addr == old(self).host_addr,
            final(self).valid_addresses == old(self).valid_addresses,
            final(self).found == old(self).found,
            final(self).me_addr == old(self).me_addr,
            final(self).max_msg_len == old(self).max_msg_len,
            final(self).stage == HbmConnectStage::Properties ==> old(self).current < final(self).current < 256,
            ({
                let n = next_present(old(self).valid_addresses@, old(self).current + 1);
                if n < 256 {
                    &&& final(self).stage == HbmConnectStage::Properties
                    &&& final(self).current == n
                    &&& a matches HbmAction::Exchange(m) && m@ == seq![
                        HBM_CMD_HOST_CLIENT_PROP,
                        n as u8,
                        0u8,
                        0u8,
                    ]
                } else {
                    &&& final(self).stage == HbmConnectStage::Done
                    &&& a matches HbmAction::Finished(Err(Error::NotFound))
                }
            }),
    {
        let mut i = self.current + 1;
        while i < 256
            invariant
                old(self).current + 1 <= i <= 256,
                *self == *old(self),
                next_present(self.valid_addresses@, old(self).current + 1) == next_present(
                    self.valid_addresses@,
                    i as int,
                ),
            decreases 256 - i,
        {
            if is_present(&self.valid_addresses, i) {
                self.current = i;
                self.stage = HbmConnectStage::Properties;
                let req = HbmClientPropReq {
                    cmd: HBM_CMD_HOST_CLIENT_PROP,
                    me_addr: i as u8,
                    reserved: [0; 2],
                };
                let m = req.to_bytes();
                assert(m@ =~= seq![HBM_CMD_HOST_CLIENT_PROP, i as u8, 0u8, 0u8]);
                return HbmAction::Exchange(m);
            }
            i += 1;
        }
        self.stage = HbmConnectStage::Done;
        HbmAction::Finished(Err(Error::NotFound))
    }

    /// Connect to the matched client.
    fn connect_request(&mut self) -> (a: HbmAction)
        ensures
            final(self).stage == HbmConnectStage::Connect,
            final(self).target_uuid == old(self).target_uuid,
            final(self).host_addr == old(self).host_addr,
            final(self).valid_addresses == old(self).valid_addresses,
            final(self).current == old(self).current,
            final(self).found == old(self).found,
            final(self).me_addr == old(self).me_addr,
            final(self).max_msg_len == old(self).max_msg_len,
            a matches HbmAction::Exchange(m) && m@ == seq![
                HBM_CMD_CONNECT,
                old(self).me_addr,
                old(self).host_addr,
                0u8,
            ],
    {
        self.stage = HbmConnectStage::Connect;
        let req = HbmConnectReq {
            cmd: HBM_CMD_CONNECT,
            me_addr: self.me_addr,
            host_addr: self.host_addr,
            reserved: 0,
        };
        HbmAction::Exchange(req.to_bytes())
    }

    /// Advances the sequence with the outcome of the last exchange (the message
    /// read, or the error of the write or of the read).
    pub fn on_reply(&mut self, reply: Result<&[u8]>) -> (a: HbmAction)
        requires
            old(self).wf(),
            old(self).stage != HbmConnectStage::Done,
        ensures
            final(self).wf(),
            final(self).target_uuid == old(self).target_uuid,
            final(self).host_addr == old(self).host_addr,
            old(self).stage == HbmConnectStage::Version ==> match reply {
                Err(e) => a matches HbmAction::Finished(Err(x)) && x == e,
                Ok(d) => if d@.len() < 4 {
                    a matches HbmAction::Finished(Err(Error::ProtocolError))
                } else if d@[0] != HBM_CMD_HOST_VERSION_RESP || d@[3] == 0 {
                    a matches HbmAction::Finished(Err(Error::Unsupported))
                } else {
                    &&& final(self).stage == HbmConnectStage::Enumerate
                    &&& a matches HbmAction::Exchange(m) && m@ == seq![HBM_CMD_HOST_ENUM, 0u8, 0u8, 0u8]
                },
            },
            old(self).stage == HbmConnectStage::Enumerate ==> match reply {
                Err(e) => a matches HbmAction::Finished(Err(x)) && x == e,
                Ok(d) => if d@.len() < 36 {
                    a matches HbmAction::Finished(Err(Error::ProtocolError))
                } else if d@[0] != HBM_CMD_HOST_ENUM_RESP {
                    a matches HbmAction::Finished(Err(Error::DeviceError))
                } else {
                    let n = next_present(d@.subrange(4, 36), 1);
                    &&& final(self).valid_addresses@ == d@.subrange(4, 36)
                    &&& if n < 256 {
                        &&& final(self).stage == HbmConnectStage::Properties
                        &&& final(self).current == n
                        &&& a matches HbmAction::Exchange(m) && m@ == seq![
                            HBM_CMD_HOST_CLIENT_PROP,
                            n as u8,
                            0u8,
                            0u8,
                        ]
                    } else {
                        a matches HbmAction::Finished(Err(Error::NotFound))
                    }
                },
            },
            old(self).stage == HbmConnectStage::Properties ==> {
                let matched = match reply {
                    Ok(d) => d@.len() >= 28 && d@[0] == HBM_CMD_HOST_CLIENT_PROP_RESP && d@[2] == 0
                        && d@.subrange(4, 20) == old(self).target_uuid@,
                    Err(_) => false,
                };
                if matched {
                    let d = reply->Ok_0;
                    &&& final(self).found
                    &&& final(self).me_addr == d@[1]
                    &&& final(self).max_msg_len == le32(d@[24], d@[25], d@[26], d@[27])
                    &&& final(self).stage == HbmConnectStage::Connect
                    &&& a matches HbmAction::Exchange(m) && m@ == seq![
                        HBM_CMD_CONNECT,
                        d@[1],
                        old(self).host_addr,
                        0u8,
                    ]
                } else {
                    let n = next_present(old(self).valid_addresses@, old(self).current + 1);
                    &&& final(self).found == old(self).found
                    &&& if n < 256 {
                        &&& final(self).stage == HbmConnectStage::Properties
                        &&& final(self).current == n
                        &&& a matches HbmAction::Exchange(m) && m@ == seq![
                            HBM_CMD_HOST_CLIENT_PROP,
                            n as u8,
                            0u8,
                            0u8,
                        ]
                    } else {
                        a matches HbmAction::Finished(Err(Error::NotFound))
                    }
                }
            },
            old(self).stage == HbmConnectStage::Connect ==> match reply {
                Err(e) => a matches HbmAction::Finished(Err(x)) && x == e,
                Ok(d) => if d@.len() < 4 {
                    a matches HbmAction::Finished(Err(Error::ProtocolError))
                } else if d@[0] != HBM_CMD_CONNECT_RESP || d@[3] != 0 {
                    a matches HbmAction::Finished(Err(Error::DeviceError))
                } else {
                    &&& final(self).stage == HbmConnectStage::InitialFlowControl
                    &&& final(self).me_addr == old(self).me_addr
                    &&& final(self).max_msg_len == old(self).max_msg_len
                    &&& a matches HbmAction::Receive
                },
            },
            old(self).stage == HbmConnectStage::InitialFlowControl ==> {
                &&& final(self).stage == HbmConnectStage::Done
                &&& final(self).me_addr == old(self).me_addr
                &&& final(self).max_msg_len == old(self).max_msg_len
                &&& a matches HbmAction::Finished(Ok(()))
            },
            a matches HbmAction::Finished(_) ==> final(self).stage == HbmConnectStage::Done,
    {
        match self.stage {
            HbmConnectStage::Version => {
                match reply {
                    Err(e) => {
                        self.stage = HbmConnectStage::Done;
                        HbmAction::Finished(Err(e))
                    },
                    Ok(d) => {
                        if d.len() < HBM_HOST_VERSION_RESP_SIZE {
                            self.stage = HbmConnectStage::Done;
                            return HbmAction::Finished(Err(Error::ProtocolError));
                        }
                        let resp = HbmHostVersionResp::from_bytes(d);
                        if resp.cmd != HBM_CMD_HOST_VERSION_RESP || resp.supported == 0 {
                            self.stage = HbmConnectStage::Done;
                            return HbmAction::Finished(Err(Error::Unsupported));
                        }
                        self.stage = HbmConnectStage::Enumerate;
                        let req = HbmHostEnumReq { cmd: HBM_CMD_HOST_ENUM, reserved: [0; 3] };
                        let m = req.to_bytes();
                        assert(m@ =~= seq![HBM_CMD_HOST_ENUM, 0u8, 0u8, 0u8]);
                        HbmAction::Exchange(m)
                    },
                }
            },
            HbmConnectStage::Enumerate => {
                match reply {
                    Err(e) => {
                        self.stage = HbmConnectStage::Done;
                        HbmAction::Finished(Err(e))
                    },
                    Ok(d) => {
                        if d.len() < HBM_HOST_ENUM_RESP_SIZE {
                            self.stage = HbmConnectStage::Done;
                            return HbmAction::Finished(Err(Error::ProtocolError));
                        }
                        let resp = HbmHostEnumResp::from_bytes(d);
                        if resp.cmd != HBM_CMD_HOST_ENUM_RESP {
                            self.stage = HbmConnectStage::Done;
                            return HbmAction::Finished(Err(Error::DeviceError));
                        }
                        self.valid_addresses = resp.valid_addresses;
                        self.current = 0;
                        self.query_next()
                    },
                }
            },
            HbmConnectStage::Properties => {
                if let Ok(d) = reply {
                    if d.len() >= HBM_CLIENT_PROP_RESP_SIZE {
                        let resp = HbmClientPropResp::from_bytes(d);
                        if resp.cmd == HBM_CMD_HOST_CLIENT_PROP_RESP && resp.status == 0 {
                            if uuid_equal(&resp.uuid, &self.target_uuid) {
                                self.me_addr = resp.me_addr;
                                self.max_msg_len = resp.max_msg_length;
                                self.found = true;
                                return self.connect_request();
                            }
                        }
                    }
                }
                self.query_next()
            },
            HbmConnectStage::Connect => {
                match reply {
                    Err(e) => {
                        self.stage = HbmConnectStage::Done;
                        HbmAction::Finished(Err(e))
                    },
                    Ok(d) => {
                        if d.len() < HBM_CONNECT_RESP_SIZE {
                            self.stage = HbmConnectStage::Done;
                            return HbmAction::Finished(Err(Error::ProtocolError));
                        }
                        let resp = HbmConnectResp::from_bytes(d);
                        if resp.cmd != HBM_CMD_CONNECT_RESP || resp.status != 0 {
                            self.stage = HbmConnectStage::Done;
                            return HbmAction::Finished(Err(Error::DeviceError));
                        }
                        self.stage = HbmConnectStage::InitialFlowControl;
                        HbmAction::Receive
                    },
                }
            },
            _ => {
                self.stage = HbmConnectStage::Done;
                HbmAction::Finished(Ok(()))
            },
        }
    }
}

fn uuid_equal(a: &[u8; 16], b: &[u8; 16]) -> (r: bool)
    ensures
        r == (a@ == b@),
{
    let mut i: usize = 0;
    while i < 16
        invariant
            i <= 16,
            forall|t: int| 0 <= t < i ==> a@[t] == b@[t],
        decreases 16 - i,
    {
        if a[i] != b[i] {
            return false;
        }
        i += 1;
    }
    assert(a@ =~= b@);
    true
}

} // verus!
