//! What the tool shows of a device: addresses, identifiers, lengths and
//! errors rendered as text, and the decisions of its interactive flows.

use vstd::prelude::*;
use vstd::string::StringSliceAdditionalSpecFns;
use crate::amt::{AMT_CONTROL_MODE_ACM, AMT_CONTROL_MODE_PRE_PROVISIONING};
use crate::error::Error;
use crate::md5::hex_of;
use crate::str_util::{
    append_u32, c_len, decimal, digits_of, hex_char, lemma_c_len, lemma_digits_of_len, pow10, splice,
};

verus! {

/// The admin password set by CCM activation.
pub const DEFAULT_AMT_PASSWORD: &'static str = "P@ssw0rd";

/// Tries of the first PTHI call of the device information screen (AMT may
/// refuse PTHI calls for a while after a deactivation).
pub const CODE_VERSIONS_TRIES: u32 = 30;

// ---------------------------------------------------------------------------
// Addresses and identifiers
// ---------------------------------------------------------------------------

/// The first `i` octets of `a` in dotted decimal.
pub open spec fn ipv4_prefix(a: Seq<u8>, i: nat) -> Seq<u8>
    decreases i,
{
    if i == 0 {
        Seq::empty()
    } else if i == 1 {
        decimal(a[0] as nat)
    } else {
        ipv4_prefix(a, (i - 1) as nat) + seq![0x2Eu8] + decimal(a[i - 1] as nat)
    }
}

/// Dotted decimal IPv4 address.
pub open spec fn ipv4_text(a: Seq<u8>) -> Seq<u8> {
    ipv4_prefix(a, 4)
}

/// Decimal text of a byte: one to three digits.
proof fn lemma_decimal_octet(v: u8)
    ensures
        decimal(v as nat) == (if v >= 100 {
            seq![(0x30 + v / 100) as u8, (0x30 + (v / 10) % 10) as u8, (0x30 + v % 10) as u8]
        } else if v >= 10 {
            seq![(0x30 + v / 10) as u8, (0x30 + v % 10) as u8]
        } else {
            seq![(0x30 + v) as u8]
        }),
{
    reveal_with_fuel(digits_of, 4);
    if v >= 100 {
        assert(digits_of(v as nat / 10 / 10 / 10) == Seq::<u8>::empty());
        assert(decimal(v as nat) =~= seq![(0x30 + v / 100) as u8, (0x30 + (v / 10) % 10) as u8, (0x30 + v % 10) as u8]);
    } else if v >= 10 {
        assert(decimal(v as nat) =~= seq![(0x30 + v / 10) as u8, (0x30 + v % 10) as u8]);
    } else if v > 0 {
        assert(decimal(v as nat) =~= seq![(0x30 + v) as u8]);
    }
}

/// Writes `addr` in dotted decimal at the start of `buf`; returns its length.
pub fn format_ipv4(addr: &[u8; 4], buf: &mut [u8; 16]) -> (n: usize)
    ensures
        n == ipv4_text(addr@).len(),
        final(buf)@ == splice(old(buf)@, 0, ipv4_text(addr@)),
{
    let mut p: usize = 0;
    let mut i: usize = 0;
    assert(splice(old(buf)@, 0, ipv4_prefix(addr@, 0)) =~= old(buf)@);
    while i < 4
        invariant
            i <= 4,
            p == ipv4_prefix(addr@, i as nat).len(),
            p <= 4 * i,
            buf@ == splice(old(buf)@, 0, ipv4_prefix(addr@, i as nat)),
        decreases 4 - i,
    {
        let octet = addr[i];
        let ghost before = buf@;
        let ghost start = p;
        if i > 0 {
            buf[p] = 0x2E;
            p += 1;
        }
        if octet >= 100 {
            buf[p] = 0x30 + octet / 100;
            p += 1;
        }
        if octet >= 10 {
            buf[p] = 0x30 + (octet / 10) % 10;
            p += 1;
        }
        buf[p] = 0x30 + octet % 10;
        p += 1;
        proof {
            lemma_decimal_octet(octet);
            let piece = if i > 0 { seq![0x2Eu8] + decimal(octet as nat) } else { decimal(octet as nat) };
            assert(ipv4_prefix(addr@, (i + 1) as nat) == ipv4_prefix(addr@, i as nat) + piece);
            assert(buf@ =~= splice(old(buf)@, 0, ipv4_prefix(addr@, (i + 1) as nat)));
        }
        i += 1;
    }
    p
}

/// The hex digit of nibble `k % 3` (0: high, 1: low) of byte `b`.
pub open spec fn nibble_char(b: u8, high: bool) -> u8 {
    if high {
        hex_char(b as int / 16)
    } else {
        hex_char(b as int % 16)
    }
}

/// MAC address as six colon-separated pairs of lower-case hex digits.
pub open spec fn mac_text(a: Seq<u8>) -> Seq<u8> {
    Seq::new(17, |k: int| if k % 3 == 2 { 0x3Au8 } else { nibble_char(a[k / 3], k % 3 == 0) })
}

fn hex_digit_char(n: u8) -> (c: u8)
    requires
        n < 16,
    ensures
        c == hex_char(n as int),
{
    if n < 10 {
        0x30 + n
    } else {
        0x61 + n - 10
    }
}

/// Writes `addr` as `xx:xx:xx:xx:xx:xx` into the first 17 bytes of `buf`.
pub fn format_mac(addr: &[u8; 6], buf: &mut [u8; 18])
    ensures
        final(buf)@ == splice(old(buf)@, 0, mac_text(addr@)),
{
    let mut p: usize = 0;
    let mut i: usize = 0;
    while i < 6
        invariant
            i <= 6,
            p == if i == 0 { 0 } else { 3 * i - 1 },
            buf@.len() == 18,
            forall|k: int| 0 <= k < p ==> buf@[k] == mac_text(addr@)[k],
            forall|k: int| p <= k < 18 ==> buf@[k] == old(buf)@[k],
        decreases 6 - i,
    {
        let b = addr[i];
        if i > 0 {
            buf[p] = 0x3A;
            p += 1;
        }
        buf[p] = hex_digit_char(b / 16);
        p += 1;
        buf[p] = hex_digit_char(b % 16);
        p += 1;
        i += 1;
    }
    assert(buf@ =~= splice(old(buf)@, 0, mac_text(addr@)));
}

/// UUID in the usual 8-4-4-4-12 form: the first three fields little-endian,
/// the rest in byte order.
pub open spec fn uuid_text(u: Seq<u8>) -> Seq<u8> {
    let dash = seq![0x2Du8];
    hex_of(seq![u[3], u[2], u[1], u[0]]) + dash + hex_of(seq![u[5], u[4]]) + dash + hex_of(
        seq![u[7], u[6]],
    ) + dash + hex_of(u.subrange(8, 10)) + dash + hex_of(u.subrange(10, 16))
}

/// Position of the `i`-th byte shown in a UUID.
pub open spec fn uuid_order(i: int) -> int {
    if i < 4 {
        3 - i
    } else if i < 6 {
        9 - i
    } else if i < 8 {
        13 - i
    } else {
        i
    }
}

/// Writes `uuid` as text into `buf`.
pub fn format_uuid(uuid: &[u8; 16], buf: &mut [u8; 36])
    ensures
        final(buf)@ == uuid_text(uuid@),
{
    let order: [usize; 16] = [3, 2, 1, 0, 5, 4, 7, 6, 8, 9, 10, 11, 12, 13, 14, 15];
    let ghost t = uuid_text(uuid@);
    let ghost shown = Seq::new(16, |i: int| uuid@[uuid_order(i)]);
    assert(t =~= Seq::new(36, |k: int| {
        let j = if k < 8 { k } else if k < 13 { k - 1 } else if k < 18 { k - 2 } else if k < 23 { k - 3 } else { k - 4 };
        if k == 8 || k == 13 || k == 18 || k == 23 { 0x2Du8 } else { nibble_char(shown[j / 2], j % 2 == 0) }
    }));
    let mut p: usize = 0;
    let mut i: usize = 0;
    while i < 16
        invariant
            i <= 16,
            forall|j: int| 0 <= j < 16 ==> order@[j] == uuid_order(j),
            p == 2 * i + (if i > 10 { 4int } else if i > 8 { 3 } else if i > 6 { 2 } else if i > 4 { 1 } else { 0 }),
            p <= 36,
            buf@.len() == 36,
            forall|k: int| 0 <= k < p ==> buf@[k] == t[k],
            t == uuid_text(uuid@),
            t =~= Seq::new(36, |k: int| {
                let j = if k < 8 { k } else if k < 13 { k - 1 } else if k < 18 { k - 2 } else if k < 23 { k - 3 } else { k - 4 };
                if k == 8 || k == 13 || k == 18 || k == 23 { 0x2Du8 } else { nibble_char(shown[j / 2], j % 2 == 0) }
            }),
            shown == Seq::new(16, |i: int| uuid@[uuid_order(i)]),
        decreases 16 - i,
    {
        if i == 4 || i == 6 || i == 8 || i == 10 {
            buf[p] = 0x2D;
            p += 1;
        }
        assert(0 <= uuid_order(i as int) < 16);
        let b = uuid[order[i]];
        buf[p] = hex_digit_char(b / 16);
        buf[p + 1] = hex_digit_char(b % 16);
        p += 2;
        i += 1;
    }
    assert(buf@ =~= t);
}

// ---------------------------------------------------------------------------
// Lengths and errors
// ---------------------------------------------------------------------------

/// `(N chars)`.
pub open spec fn pwd_len_text(len: nat) -> Seq<u8> {
    seq![0x28u8] + decimal(len) + " chars)".spec_bytes()
}

/// Writes `(N chars)` for a password of `len` characters; returns its length.
pub fn format_pwd_len(buf: &mut [u8; 24], len: usize) -> (n: usize)
    requires
        len < 10_000_000_000,
    ensures
        n == pwd_len_text(len as nat).len(),
        final(buf)@ == splice(old(buf)@, 0, pwd_len_text(len as nat)),
{
    proof {
        reveal_strlit(" chars)");
        crate::str_util::lemma_text(" chars)");
        reveal_with_fuel(pow10, 11);
        assert(pow10(10) == 10000000000);
        assert(pow10(0) == 1);
        if len > 0 {
            lemma_digits_of_len(len as nat, 10);
        }
    }
    let mut t: Vec<u8> = Vec::new();
    t.push(0x28);
    let mut tmp = [0u8; 10];
    let mut v = len;
    let mut d: usize = 0;
    let ghost mut rest: Seq<u8> = Seq::empty();
    if len == 0 {
        t.push(0x30);
    } else {
        while v > 0
            invariant
                d <= 10,
                v as int * pow10(d as nat) <= len,
                digits_of(len as nat) == digits_of(v as nat) + Seq::new(d as nat, |k: int| tmp@[d - 1 - k]),
                pow10(10) == 10000000000,
                len < 10_000_000_000,
                len > 0,
            decreases v,
        {
            proof {
                if d == 10 {
                    assert(v as int * pow10(10) >= pow10(10)) by (nonlinear_arith)
                        requires
                            v > 0,
                            pow10(10) > 0,
                    ;
                }
            }
            let ghost old_tmp = tmp@;
            let ghost old_v = v;
            tmp[d] = (v % 10) as u8 + 0x30;
            v = v / 10;
            d += 1;
            proof {
                assert(pow10(d as nat) == 10 * pow10((d - 1) as nat));
                crate::str_util::lemma_pow10_pos((d - 1) as nat);
                assert(v as int * pow10(d as nat) <= len) by (nonlinear_arith)
                    requires
                        v == old_v / 10,
                        old_v as int * pow10((d - 1) as nat) <= len,
                        pow10(d as nat) == 10 * pow10((d - 1) as nat),
                        pow10((d - 1) as nat) >= 0,
                ;
                assert(digits_of(old_v as nat) == digits_of(v as nat).push((0x30 + old_v % 10) as u8));
                assert(Seq::new(d as nat, |k: int| tmp@[d - 1 - k]) =~= seq![tmp@[d - 1]] + Seq::new(
                    (d - 1) as nat,
                    |k: int| old_tmp[d - 2 - k],
                ));
                assert(digits_of(len as nat) =~= digits_of(v as nat) + Seq::new(d as nat, |k: int| tmp@[d - 1 - k]));
            }
        }
        let mut k: usize = d;
        while k > 0
            invariant
                k <= d <= 10,
                digits_of(len as nat) =~= Seq::new(d as nat, |j: int| tmp@[d - 1 - j]),
                t@ == seq![0x28u8] + Seq::new(d as nat, |j: int| tmp@[d - 1 - j]).take(d - k),
            decreases k,
        {
            k -= 1;
            t.push(tmp[k]);
            assert(t@ =~= seq![0x28u8] + Seq::new(d as nat, |j: int| tmp@[d - 1 - j]).take(d - k));
        }
    }
    crate::str_util::push_bytes(&mut t, " chars)".as_bytes());
    assert(t@ =~= pwd_len_text(len as nat));
    let mut i: usize = 0;
    while i < t.len()
        invariant
            i <= t@.len(),
            t@.len() <= 24,
            t@ == pwd_len_text(len as nat),
            buf@.len() == 24,
            forall|k: int| 0 <= k < i ==> buf@[k] == t@[k],
            forall|k: int| i <= k < 24 ==> buf@[k] == old(buf)@[k],
        decreases t@.len() - i,
    {
        buf[i] = t[i];
        i += 1;
    }
    assert(buf@ =~= splice(old(buf)@, 0, pwd_len_text(len as nat)));
    t.len()
}


/// The status text of a failed operation.
pub open spec fn error_text(e: Error) -> Seq<u8> {
    match e {
        Error::Timeout => "FAILED (Timeout)".spec_bytes(),
        Error::NotFound => "FAILED (Not Found)".spec_bytes(),
        Error::AccessDenied => "FAILED (Access Denied)".spec_bytes(),
        Error::DeviceError => "FAILED (Device Error)".spec_bytes(),
        Error::ProtocolError => "FAILED (Protocol Error)".spec_bytes(),
        Error::BufferTooSmall => "FAILED (Buffer Too Small)".spec_bytes(),
        Error::Unsupported => "FAILED (Unsupported)".spec_bytes(),
        Error::Aborted => "FAILED (Aborted)".spec_bytes(),
        Error::AmtStatus(c) => "FAILED (AMT ".spec_bytes() + decimal(c as nat) + seq![0x29u8],
        Error::HttpStatus(c) => "FAILED (HTTP ".spec_bytes() + decimal(c as nat) + seq![0x29u8],
    }
}

fn fixed_error_text(e: Error) -> (r: Option<&'static str>)
    ensures
        r matches Some(s) ==> s.spec_bytes() == error_text(e),
        r is None <==> (e is AmtStatus || e is HttpStatus),
{
    match e {
        Error::Timeout => Some("FAILED (Timeout)"),
        Error::NotFound => Some("FAILED (Not Found)"),
        Error::AccessDenied => Some("FAILED (Access Denied)"),
        Error::DeviceError => Some("FAILED (Device Error)"),
        Error::ProtocolError => Some("FAILED (Protocol Error)"),
        Error::BufferTooSmall => Some("FAILED (Buffer Too Small)"),
        Error::Unsupported => Some("FAILED (Unsupported)"),
        Error::Aborted => Some("FAILED (Aborted)"),
        Error::AmtStatus(_) => None,
        Error::HttpStatus(_) => None,
    }
}

/// Writes the status text of `e` at the start of `buf`; returns its length.
pub fn format_error(buf: &mut [u8; 40], e: Error) -> (n: usize)
    ensures
        n == error_text(e).len(),
        final(buf)@ == splice(old(buf)@, 0, error_text(e)),
{
    proof {
        reveal_strlit("FAILED (Timeout)");
        reveal_strlit("FAILED (Not Found)");
        reveal_strlit("FAILED (Access Denied)");
        reveal_strlit("FAILED (Device Error)");
        reveal_strlit("FAILED (Protocol Error)");
        reveal_strlit("FAILED (Buffer Too Small)");
        reveal_strlit("FAILED (Unsupported)");
        reveal_strlit("FAILED (Aborted)");
        reveal_strlit("FAILED (AMT ");
        reveal_strlit("FAILED (HTTP ");
        crate::str_util::lemma_text("FAILED (Timeout)");
        crate::str_util::lemma_text("FAILED (Not Found)");
        crate::str_util::lemma_text("FAILED (Access Denied)");
        crate::str_util::lemma_text("FAILED (Device Error)");
        crate::str_util::lemma_text("FAILED (Protocol Error)");
        crate::str_util::lemma_text("FAILED (Buffer Too Small)");
        crate::str_util::lemma_text("FAILED (Unsupported)");
        crate::str_util::lemma_text("FAILED (Aborted)");
        crate::str_util::lemma_text("FAILED (AMT ");
        crate::str_util::lemma_text("FAILED (HTTP ");
        reveal_with_fuel(pow10, 11);
        assert(pow10(10) == 10000000000);
    }
    let mut t: Vec<u8> = Vec::new();
    match fixed_error_text(e) {
        Some(msg) => crate::str_util::push_bytes(&mut t, msg.as_bytes()),
        None => {
            let code = match e {
                Error::AmtStatus(c) => {
                    crate::str_util::push_bytes(&mut t, "FAILED (AMT ".as_bytes());
                    c
                },
                Error::HttpStatus(c) => {
                    crate::str_util::push_bytes(&mut t, "FAILED (HTTP ".as_bytes());
                    c
                },
                _ => 0,
            };
            proof {
                if code > 0 {
                    lemma_digits_of_len(code as nat, 10);
                }
            }
            crate::str_util::push_u32(&mut t, code);
            t.push(0x29);
        },
    }
    assert(t@ =~= error_text(e));
    let mut i: usize = 0;
    while i < t.len()
        invariant
            i <= t@.len(),
            t@.len() <= 40,
            t@ == error_text(e),
            buf@.len() == 40,
            forall|k: int| 0 <= k < i ==> buf@[k] == t@[k],
            forall|k: int| i <= k < 40 ==> buf@[k] == old(buf)@[k],
        decreases t@.len() - i,
    {
        buf[i] = t[i];
        i += 1;
    }
    assert(buf@ =~= splice(old(buf)@, 0, error_text(e)));
    t.len()
}

// ---------------------------------------------------------------------------
// Labels
// ---------------------------------------------------------------------------

/// Human-readable provisioning state.
pub fn provisioning_state_str(state: u32) -> (r: &'static str)
    ensures
        state == 0 ==> r@ == "Pre-Provisioning"@,
        state == 1 ==> r@ == "In Provisioning"@,
        state == 2 ==> r@ == "Post-Provisioning"@,
        state > 2 ==> r@ == "Unknown"@,
{
    if state == 0 {
        "Pre-Provisioning"
    } else if state == 1 {
        "In Provisioning"
    } else if state == 2 {
        "Post-Provisioning"
    } else {
        "Unknown"
    }
}

/// Link status of a LAN interface.
pub fn link_status_str(link_status: u8) -> (r: &'static str)
    ensures
        link_status == 1 ==> r@ == "up"@,
        link_status != 1 ==> r@ == "down"@,
{
    if link_status == 1 {
        "up"
    } else {
        "down"
    }
}

/// Whether DHCP is on.
pub fn dhcp_str(enabled: bool) -> (r: &'static str)
    ensures
        enabled ==> r@ == "Enabled"@,
        !enabled ==> r@ == "Disabled"@,
{
    if enabled {
        "Enabled"
    } else {
        "Disabled"
    }
}

/// How many bytes of a local system account user name are shown: those
/// before its NUL, none when it has no NUL.
pub fn shown_name_len(name: &[u8]) -> (n: usize)
    ensures
        n == (if c_len(name@) < name@.len() { c_len(name@) } else { 0 }),
{
    let n = crate::str_util::ascii_len(name);
    if n < name.len() {
        n
    } else {
        0
    }
}

// ---------------------------------------------------------------------------
// Decisions of the interactive flows
// ---------------------------------------------------------------------------

/// What deactivation does for a control mode.
#[derive(PartialEq, Eq, Structural)]
pub enum DeactivateCheck {
    /// Pre-provisioning: nothing to deactivate.
    NothingToDo,
    /// Admin Control Mode: not deactivated from here.
    AdminControlMode,
    /// Client Control Mode (or another mode): ask the user to confirm.
    Confirm,
}

pub fn deactivate_check(mode: u32) -> (r: DeactivateCheck)
    ensures
        mode == AMT_CONTROL_MODE_PRE_PROVISIONING ==> r == DeactivateCheck::NothingToDo,
        mode == AMT_CONTROL_MODE_ACM ==> r == DeactivateCheck::AdminControlMode,
        mode != AMT_CONTROL_MODE_PRE_PROVISIONING && mode != AMT_CONTROL_MODE_ACM ==> r
            == DeactivateCheck::Confirm,
{
    if mode == AMT_CONTROL_MODE_PRE_PROVISIONING {
        DeactivateCheck::NothingToDo
    } else if mode == AMT_CONTROL_MODE_ACM {
        DeactivateCheck::AdminControlMode
    } else {
        DeactivateCheck::Confirm
    }
}

/// Activation proceeds only from pre-provisioning.
pub fn activation_allowed(mode: u32) -> (r: bool)
    ensures
        r == (mode == AMT_CONTROL_MODE_PRE_PROVISIONING),
{
    mode == AMT_CONTROL_MODE_PRE_PROVISIONING
}

/// A confirmation key: `y` or `Y`.
pub fn confirmed(ch: char) -> (r: bool)
    ensures
        r == (ch == 'y' || ch == 'Y'),
{
    ch == 'y' || ch == 'Y'
}

/// Entries of the main menu.
#[derive(PartialEq, Eq, Structural)]
pub enum MenuChoice {
    AmtInfo,
    Deactivate,
    Activate,
    SetDnsSuffix,
    Quit,
    Nothing,
}

/// The menu entry a key selects (letters in either case).
pub fn menu_choice(ch: char) -> (r: MenuChoice)
    ensures
        r == (if ch == 'a' || ch == 'A' {
            MenuChoice::AmtInfo
        } else if ch == 'b' || ch == 'B' {
            MenuChoice::Deactivate
        } else if ch == 'c' || ch == 'C' {
            MenuChoice::Activate
        } else if ch == 'd' || ch == 'D' {
            MenuChoice::SetDnsSuffix
        } else if ch == 'q' || ch == 'Q' {
            MenuChoice::Quit
        } else {
            MenuChoice::Nothing
        }),
{
    if ch == 'a' || ch == 'A' {
        MenuChoice::AmtInfo
    } else if ch == 'b' || ch == 'B' {
        MenuChoice::Deactivate
    } else if ch == 'c' || ch == 'C' {
        MenuChoice::Activate
    } else if ch == 'd' || ch == 'D' {
        MenuChoice::SetDnsSuffix
    } else if ch == 'q' || ch == 'Q' {
        MenuChoice::Quit
    } else {
        MenuChoice::Nothing
    }
}

} // verus!
