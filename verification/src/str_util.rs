//! Bounded, NUL-terminated ASCII string helpers over byte buffers.

use vstd::prelude::*;
use vstd::string::StringSliceAdditionalSpecFns;

verus! {

// ---------------------------------------------------------------------------
// Specification vocabulary
// ---------------------------------------------------------------------------

/// Length of the NUL-terminated prefix of `s` (all of `s` when it holds no NUL byte).
pub open spec fn c_len(s: Seq<u8>) -> nat
    decreases s.len(),
{
    if s.len() == 0 {
        0
    } else if s[0] == 0 {
        0
    } else {
        1 + c_len(s.drop_first())
    }
}

/// The bytes of `s` before its first NUL byte.
pub open spec fn c_str(s: Seq<u8>) -> Seq<u8> {
    s.take(c_len(s) as int)
}

/// How many of `n` bytes fit into a buffer of length `len` when written at `pos`.
pub open spec fn fit(len: int, pos: int, n: int) -> int {
    if pos >= len {
        0
    } else if n <= len - pos {
        n
    } else {
        len - pos
    }
}

/// `b` with the bytes of `t` written at `pos` (positions outside `b` are dropped).
pub open spec fn splice(b: Seq<u8>, pos: int, t: Seq<u8>) -> Seq<u8> {
    Seq::new(b.len(), |i: int| if pos <= i < pos + t.len() { t[i - pos] } else { b[i] })
}

/// The buffer that results from appending `s` at `pos`, truncated to what fits.
pub open spec fn appended(b: Seq<u8>, pos: int, s: Seq<u8>) -> Seq<u8> {
    splice(b, pos, s.take(fit(b.len() as int, pos, s.len() as int)))
}

/// `needle` occurs in `hay` starting at `i`.
pub open spec fn occurs_at(hay: Seq<u8>, needle: Seq<u8>, i: int) -> bool {
    0 <= i && i + needle.len() <= hay.len() && hay.subrange(i, i + needle.len()) == needle
}

/// First occurrence of `needle` in `hay` at or after `i`.
pub open spec fn find_from(hay: Seq<u8>, needle: Seq<u8>, i: int) -> Option<int>
    decreases hay.len() + 1 - i,
{
    if i < 0 || i + needle.len() > hay.len() {
        None
    } else if occurs_at(hay, needle, i) {
        Some(i)
    } else {
        find_from(hay, needle, i + 1)
    }
}

/// What `ascii_find` answers: the first position of the C string `needle` in the C string `hay`.
pub open spec fn find_spec(hay: Seq<u8>, needle: Seq<u8>) -> Option<int> {
    if c_len(needle) == 0 {
        Some(0)
    } else {
        find_from(c_str(hay), c_str(needle), 0)
    }
}

/// ASCII upper case letters mapped to lower case; other bytes unchanged.
pub open spec fn to_lower(c: u8) -> u8 {
    if 0x41 <= c <= 0x5A {
        (c + 32) as u8
    } else {
        c
    }
}

pub open spec fn eq_ignore_case(a: Seq<u8>, b: Seq<u8>) -> bool {
    a.len() == b.len() && forall|i: int| 0 <= i < a.len() ==> to_lower(a[i]) == to_lower(b[i])
}

/// Decimal digits of `v` without leading zeros (empty for 0).
pub open spec fn digits_of(v: nat) -> Seq<u8>
    decreases v,
{
    if v == 0 {
        Seq::empty()
    } else {
        digits_of(v / 10).push((0x30 + v % 10) as u8)
    }
}

/// Decimal text of `v`.
pub open spec fn decimal(v: nat) -> Seq<u8> {
    if v == 0 {
        seq![0x30u8]
    } else {
        digits_of(v)
    }
}

/// Lower-case hexadecimal digit for a nibble.
pub open spec fn hex_char(n: int) -> u8 {
    if n < 10 {
        (0x30 + n) as u8
    } else {
        (0x61 + n - 10) as u8
    }
}

/// Eight lower-case hexadecimal digits of `v`, most significant first.
pub open spec fn hex32(v: u32) -> Seq<u8> {
    Seq::new(8, |k: int| hex_char(((v as int) / pow16(7 - k)) % 16))
}

pub open spec fn pow16(e: int) -> int
    decreases e,
{
    if e <= 0 {
        1
    } else {
        16 * pow16(e - 1)
    }
}

pub open spec fn pow10(e: nat) -> int
    decreases e,
{
    if e == 0 {
        1
    } else {
        10 * pow10((e - 1) as nat)
    }
}

/// Position of the first byte at or after `j` that is `"` (or the end of `s`).
pub open spec fn quote_end(s: Seq<u8>, j: int) -> int
    decreases s.len() - j,
{
    if j < 0 || j >= s.len() || s[j] == 0x22 {
        j
    } else {
        quote_end(s, j + 1)
    }
}

pub open spec fn is_token_stop(c: u8) -> bool {
    c == 0x2C || c == 0x20 || c == 0x0D || c == 0x0A
}

/// Position of the first byte at or after `j` that is `,`, space, CR or LF (or the end of `s`).
pub open spec fn token_end(s: Seq<u8>, j: int) -> int
    decreases s.len() - j,
{
    if j < 0 || j >= s.len() || is_token_stop(s[j]) {
        j
    } else {
        token_end(s, j + 1)
    }
}

/// `key=` (key compared without regard to ASCII case) starts at `i` in `s`.
pub open spec fn key_at(s: Seq<u8>, k: Seq<u8>, i: int) -> bool {
    0 <= i && i + k.len() + 1 <= s.len() && eq_ignore_case(s.subrange(i, i + k.len()), k)
        && s[i + k.len()] == 0x3D
}

pub open spec fn first_key_from(s: Seq<u8>, k: Seq<u8>, i: int) -> Option<int>
    decreases s.len() - i,
{
    if i < 0 || i + k.len() + 1 > s.len() {
        None
    } else if key_at(s, k, i) {
        Some(i)
    } else {
        first_key_from(s, k, i + 1)
    }
}

/// Start and end of the value that follows position `start`: a quoted value
/// without its quotes, or a bare token.
pub open spec fn value_bounds(s: Seq<u8>, start: int) -> (int, int) {
    if start < s.len() && s[start] == 0x22 {
        (start + 1, quote_end(s, start + 1))
    } else {
        (start, token_end(s, start))
    }
}

/// The value of field `key` in `src` as `extract_field` finds it.
pub open spec fn field_value(src: Seq<u8>, key: Seq<u8>) -> Option<Seq<u8>> {
    let s = c_str(src);
    let k = c_str(key);
    if k.len() == 0 || s.len() == 0 {
        None
    } else {
        match first_key_from(s, k, 0) {
            Some(i) => {
                let (a, b) = value_bounds(s, i + k.len() + 1);
                Some(s.subrange(a, b))
            },
            None => None,
        }
    }
}

/// `buf` after receiving `text`, truncated, NUL-terminated where room is left.
pub open spec fn written_text(buf: Seq<u8>, text: Seq<u8>) -> Seq<u8> {
    let o = fit(buf.len() as int, 0, text.len() as int);
    if o < buf.len() {
        appended(buf, 0, text).update(o, 0u8)
    } else {
        appended(buf, 0, text)
    }
}

/// `out` after receiving as much of `v` as leaves room for a terminating NUL,
/// then that NUL.
pub open spec fn stored_bounded(out: Seq<u8>, v: Seq<u8>) -> Seq<u8> {
    let n = if v.len() < out.len() - 1 { v.len() as int } else { out.len() - 1 };
    stored_c_string(out, v.take(n))
}

/// `out` after receiving `v` as a NUL-terminated string truncated to its size.
pub open spec fn stored_c_string(out: Seq<u8>, v: Seq<u8>) -> Seq<u8> {
    let n = if v.len() <= out.len() { v.len() as int } else { out.len() as int };
    let w = splice(out, 0, v.take(n));
    if n < out.len() { w.update(n, 0u8) } else { w }
}

// ---------------------------------------------------------------------------
// Lemmas
// ---------------------------------------------------------------------------

pub proof fn lemma_c_len(s: Seq<u8>)
    ensures
        c_len(s) <= s.len(),
        forall|i: int| 0 <= i < c_len(s) ==> s[i] != 0,
        c_len(s) < s.len() ==> s[c_len(s) as int] == 0,
    decreases s.len(),
{
    if s.len() > 0 && s[0] != 0 {
        lemma_c_len(s.drop_first());
        assert forall|i: int| 0 <= i < c_len(s) implies s[i] != 0 by {
            if i > 0 {
                assert(s[i] == s.drop_first()[i - 1]);
            }
        }
    }
}

/// Any position that satisfies the three properties of `c_len` is `c_len`.
pub proof fn lemma_c_len_unique(s: Seq<u8>, n: int)
    requires
        0 <= n <= s.len(),
        forall|i: int| 0 <= i < n ==> s[i] != 0,
        n < s.len() ==> s[n] == 0,
    ensures
        c_len(s) == n,
{
    lemma_c_len(s);
    if c_len(s) < n {
        assert(s[c_len(s) as int] == 0);
    }
    if n < c_len(s) {
        assert(s[n] != 0);
    }
}



/// Appending `s1` and then, where it ended, `s2` leaves the buffer as
/// appending `s1 + s2` at once does: the writers compose.
pub proof fn lemma_append_compose(b: Seq<u8>, p: int, s1: Seq<u8>, s2: Seq<u8>)
    requires
        0 <= p,
    ensures
        appended(appended(b, p, s1), p + fit(b.len() as int, p, s1.len() as int), s2) == appended(
            b,
            p,
            s1 + s2,
        ),
        fit(b.len() as int, p, s1.len() as int) + fit(
            b.len() as int,
            p + fit(b.len() as int, p, s1.len() as int),
            s2.len() as int,
        ) == fit(b.len() as int, p, (s1 + s2).len() as int),
{
    let l = b.len() as int;
    let f1 = fit(l, p, s1.len() as int);
    let q = p + f1;
    let b1 = appended(b, p, s1);
    assert(b1.len() == l);
    let f2 = fit(l, q, s2.len() as int);
    let f = fit(l, p, (s1 + s2).len() as int);
    assert(f1 + f2 == f);
    assert(appended(b1, q, s2) =~= appended(b, p, s1 + s2));
}


proof fn lemma_quote_end_at(s: Seq<u8>, j: int, k: int)
    requires
        0 <= j <= k <= s.len(),
        forall|t: int| j <= t < k ==> #[trigger] s[t] != 0x22,
        k < s.len() ==> s[k] == 0x22,
    ensures
        quote_end(s, j) == k,
    decreases k - j,
{
    if j < k {
        lemma_quote_end_at(s, j + 1, k);
    }
}

/// Reading back a quoted field: in `key="value"`, with a non-empty key and
/// a value that hold no NUL (and a value without `"`), `extract_field`
/// finds `value` under `key`.
pub proof fn lemma_field_roundtrip(key: Seq<u8>, value: Seq<u8>)
    requires
        key.len() >= 1,
        forall|i: int| 0 <= i < key.len() ==> #[trigger] key[i] != 0,
        forall|i: int| 0 <= i < value.len() ==> #[trigger] value[i] != 0 && value[i] != 0x22,
    ensures
        field_value(key + seq![0x3Du8, 0x22u8] + value + seq![0x22u8], key) == Some(value),
{
    let src = key + seq![0x3Du8, 0x22u8] + value + seq![0x22u8];
    let n = key.len() as int;
    let m = value.len() as int;
    assert forall|i: int| 0 <= i < src.len() implies src[i] != 0 by {
        if i < n {
            assert(src[i] == key[i]);
        } else if n + 2 <= i < n + 2 + m {
            assert(src[i] == value[i - n - 2]);
        }
    }
    lemma_c_len_unique(src, src.len() as int);
    assert(c_str(src) =~= src);
    lemma_c_len_unique(key, key.len() as int);
    assert(c_str(key) =~= key);
    assert(src.subrange(0, n) =~= key);
    assert(key_at(src, key, 0));
    assert forall|t: int| n + 2 <= t < n + 2 + m implies #[trigger] src[t] != 0x22 by {
        assert(src[t] == value[t - n - 2]);
    }
    lemma_quote_end_at(src, n + 2, n + 2 + m);
    assert(src.subrange(n + 2, n + 2 + m) =~= value);
}

/// An ASCII text without NUL characters: its bytes are its characters, and it
/// is its own C string.
pub proof fn lemma_text(s: &str)
    requires
        vstd::string::is_ascii(s),
        forall|i: int| 0 <= i < s@.len() ==> s@[i] != '\0',
    ensures
        s.spec_bytes().len() == s@.len(),
        forall|i: int| 0 <= i < s@.len() ==> s.spec_bytes()[i] == s@[i] as u8,
        c_len(s.spec_bytes()) == s@.len(),
        c_str(s.spec_bytes()) == s.spec_bytes(),
{
    broadcast use vstd::string::is_ascii_spec_bytes;

    let b = s.spec_bytes();
    assert forall|i: int| 0 <= i < b.len() implies b[i] != 0 by {
        assert(s@[i] != '\0');
    }
    lemma_c_len_unique(b, b.len() as int);
    assert(c_str(b) =~= b);
}

/// The answer of `find_from` is an occurrence, and no earlier one exists.
pub proof fn lemma_find_from_first(hay: Seq<u8>, needle: Seq<u8>, i: int)
    requires
        0 <= i,
    ensures
        match find_from(hay, needle, i) {
            Some(p) => i <= p && occurs_at(hay, needle, p) && forall|t: int|
                i <= t < p ==> !occurs_at(hay, needle, t),
            None => forall|t: int| i <= t ==> !occurs_at(hay, needle, t),
        },
    decreases hay.len() + 1 - i,
{
    if i + needle.len() > hay.len() {
    } else if occurs_at(hay, needle, i) {
    } else {
        lemma_find_from_first(hay, needle, i + 1);
    }
}


/// Where `find_spec` answers, the needle lies inside the haystack's C string.
pub proof fn lemma_find_spec_bound(hay: Seq<u8>, needle: Seq<u8>)
    ensures
        find_spec(hay, needle) matches Some(p) ==> 0 <= p && p + c_len(needle) <= c_len(hay)
            && c_len(hay) <= hay.len(),
{
    lemma_c_len(hay);
    lemma_c_len(needle);
    if c_len(needle) > 0 {
        lemma_find_from_first(c_str(hay), c_str(needle), 0);
    }
}

pub proof fn lemma_quote_end(s: Seq<u8>, j: int)
    requires
        0 <= j,
    ensures
        j <= quote_end(s, j),
        j <= s.len() ==> quote_end(s, j) <= s.len(),
        forall|t: int| j <= t < quote_end(s, j) ==> s[t] != 0x22,
        quote_end(s, j) < s.len() ==> s[quote_end(s, j)] == 0x22,
    decreases s.len() - j,
{
    if j < s.len() && s[j] != 0x22 {
        lemma_quote_end(s, j + 1);
    }
}

pub proof fn lemma_token_end(s: Seq<u8>, j: int)
    requires
        0 <= j,
    ensures
        j <= token_end(s, j),
        j <= s.len() ==> token_end(s, j) <= s.len(),
        forall|t: int| j <= t < token_end(s, j) ==> !is_token_stop(s[t]),
        token_end(s, j) < s.len() ==> is_token_stop(s[token_end(s, j)]),
    decreases s.len() - j,
{
    if j < s.len() && !is_token_stop(s[j]) {
        lemma_token_end(s, j + 1);
    }
}

pub proof fn lemma_digits_of_len(v: nat, e: nat)
    requires
        v < pow10(e),
    ensures
        digits_of(v).len() <= e,
    decreases v,
{
    if v > 0 {
        assert(e > 0);
        assert(v / 10 < pow10((e - 1) as nat)) by (nonlinear_arith)
            requires
                v < pow10(e),
                pow10(e) == 10 * pow10((e - 1) as nat),
        ;
        lemma_digits_of_len(v / 10, (e - 1) as nat);
    }
}

pub proof fn lemma_pow10_pos(e: nat)
    ensures
        pow10(e) >= 1,
    decreases e,
{
    if e > 0 {
        lemma_pow10_pos((e - 1) as nat);
    }
}

// ---------------------------------------------------------------------------
// Executable functions
// ---------------------------------------------------------------------------

/// Length of a null-terminated ASCII byte string.
pub fn ascii_len(s: &[u8]) -> (n: usize)
    ensures
        n == c_len(s@),
        n <= s@.len(),
        forall|i: int| 0 <= i < n ==> s@[i] != 0u8,
        n < s@.len() ==> s@[n as int] == 0u8,
{
    let mut i: usize = 0;
    while i < s.len()
        invariant
            i <= s@.len(),
            forall|j: int| 0 <= j < i ==> s@[j] != 0u8,
        decreases s@.len() - i,
    {
        if s[i] == 0 {
            proof {
                lemma_c_len_unique(s@, i as int);
            }
            return i;
        }
        i += 1;
    }
    proof {
        lemma_c_len_unique(s@, i as int);
    }
    i
}

/// Byte-wise equality of `a[ai..ai+n]` and `b[bi..bi+n]`.
pub fn bytes_equal_at(a: &[u8], ai: usize, b: &[u8], bi: usize, n: usize) -> (r: bool)
    requires
        ai + n <= a.len(),
        bi + n <= b.len(),
    ensures
        r == (a@.subrange(ai as int, ai + n) == b@.subrange(bi as int, bi + n)),
{
    let mut k: usize = 0;
    while k < n
        invariant
            k <= n,
            ai + n <= a.len(),
            bi + n <= b.len(),
            forall|t: int| 0 <= t < k ==> #[trigger] a@.subrange(ai as int, ai + n)[t] == b@.subrange(bi as int, bi + n)[t],
        decreases n - k,
    {
        if a[ai + k] != b[bi + k] {
            assert(a@.subrange(ai as int, ai + n)[k as int] != b@.subrange(bi as int, bi + n)[k as int]);
            return false;
        }
        k += 1;
    }
    assert(a@.subrange(ai as int, ai + n) =~= b@.subrange(bi as int, bi + n));
    true
}

/// Find `needle` in `haystack` (both null-terminated or bounded by slice length).
pub fn ascii_find(haystack: &[u8], needle: &[u8]) -> (r: Option<usize>)
    ensures
        r matches Some(i) ==> find_spec(haystack@, needle@) == Some(i as int),
        r is None ==> find_spec(haystack@, needle@) is None,
{
    let h_len = ascii_len(haystack);
    let n_len = ascii_len(needle);
    if n_len == 0 {
        return Some(0);
    }
    let ghost h = c_str(haystack@);
    let ghost n = c_str(needle@);
    if n_len > h_len {
        return None;
    }
    let mut i: usize = 0;
    while i <= h_len - n_len
        invariant
            h == c_str(haystack@),
            n == c_str(needle@),
            h_len == h.len(),
            n_len == n.len(),
            h == haystack@.take(h_len as int),
            n == needle@.take(n_len as int),
            h_len <= haystack@.len(),
            n_len <= needle@.len(),
            0 < n_len <= h_len,
            i <= h_len - n_len + 1,
            find_from(h, n, 0) == find_from(h, n, i as int),
        decreases h_len - n_len + 1 - i,
    {
        let eq = bytes_equal_at(haystack, i, needle, 0, n_len);
        assert(h.subrange(i as int, i + n_len) == haystack@.subrange(i as int, i + n_len));
        assert(n == needle@.subrange(0, n_len as int));
        if eq {
            assert(occurs_at(h, n, i as int));
            assert(find_from(h, n, i as int) == Some(i as int));
            return Some(i);
        }
        i += 1;
    }
    None
}

/// Append bytes from `s` into `buf` at `pos`. Returns new position.
pub fn ascii_append(buf: &mut [u8], pos: usize, s: &[u8]) -> (r: usize)
    ensures
        r == pos + fit(old(buf)@.len() as int, pos as int, c_len(s@) as int),
        final(buf)@ == appended(old(buf)@, pos as int, c_str(s@)),
{
    let s_len = ascii_len(s);
    let avail = if pos <= buf.len() { buf.len() - pos } else { 0 };
    let copy_len = if s_len < avail { s_len } else { avail };
    copy_into(buf, pos, s, copy_len);
    assert(final(buf)@ =~= appended(old(buf)@, pos as int, c_str(s@)));
    pos + copy_len
}

/// Writes `s[..n]` at `buf[pos..]`.
fn copy_into(buf: &mut [u8], pos: usize, s: &[u8], n: usize)
    requires
        n <= s@.len(),
        n == 0 || pos + n <= old(buf).len(),
    ensures
        final(buf)@ == splice(old(buf)@, pos as int, s@.take(n as int)),
{
    let mut j: usize = 0;
    while j < n
        invariant
            j <= n,
            n <= s@.len(),
            n == 0 || pos + n <= buf.len(),
            buf@.len() == old(buf)@.len(),
            buf@ == splice(old(buf)@, pos as int, s@.take(j as int)),
        decreases n - j,
    {
        buf[pos + j] = s[j];
        j += 1;
        assert(buf@ =~= splice(old(buf)@, pos as int, s@.take(j as int)));
    }
    assert(buf@ =~= splice(old(buf)@, pos as int, s@.take(n as int)));
}

/// Append a raw byte slice (not null-terminated) into `buf` at `pos`. Returns new position.
pub fn append_bytes(buf: &mut [u8], pos: usize, s: &[u8]) -> (r: usize)
    ensures
        r == pos + fit(old(buf)@.len() as int, pos as int, s@.len() as int),
        final(buf)@ == appended(old(buf)@, pos as int, s@),
{
    let avail = if pos <= buf.len() { buf.len() - pos } else { 0 };
    let copy_len = if s.len() < avail { s.len() } else { avail };
    copy_into(buf, pos, s, copy_len);
    assert(final(buf)@ =~= appended(old(buf)@, pos as int, s@));
    pos + copy_len
}

/// Append a u32 as decimal ASCII into `buf` at `pos`. Returns new position.
pub fn append_u32(buf: &mut [u8], pos: usize, val: u32) -> (r: usize)
    ensures
        r == pos + fit(old(buf)@.len() as int, pos as int, decimal(val as nat).len() as int),
        final(buf)@ == appended(old(buf)@, pos as int, decimal(val as nat)),
{
    if val == 0 {
        let zero: [u8; 1] = [0x30];
        assert(zero@ =~= decimal(0));
        return append_bytes(buf, pos, &zero);
    }
    let mut tmp = [0u8; 10];
    let mut n = val;
    let mut i: usize = 0;
    proof {
        reveal_with_fuel(pow10, 11);
        assert(pow10(10) == 10000000000);
        assert(pow10(0) == 1);
    }
    while n > 0
        invariant
            i <= 10,
            n as int * pow10(i as nat) <= val,
            digits_of(val as nat) == digits_of(n as nat) + Seq::new(i as nat, |k: int| tmp@[i - 1 - k]),
            pow10(10) == 10000000000,
        decreases n,
    {
        proof {
            if i == 10 {
                assert(n as int * pow10(10) >= pow10(10)) by (nonlinear_arith)
                    requires n > 0, pow10(10) > 0;
            }
        }
        let ghost old_tmp = tmp@;
        let ghost old_n = n;
        tmp[i] = 0x30 + (n % 10) as u8;
        n = n / 10;
        i += 1;
        proof {
            assert(pow10(i as nat) == 10 * pow10((i - 1) as nat));
            lemma_pow10_pos((i - 1) as nat);
            assert(n as int * pow10(i as nat) <= val) by (nonlinear_arith)
                requires
                    n == old_n / 10,
                    old_n as int * pow10((i - 1) as nat) <= val,
                    pow10(i as nat) == 10 * pow10((i - 1) as nat),
                    pow10((i - 1) as nat) >= 0,
            ;
            assert(digits_of(old_n as nat) == digits_of(n as nat).push((0x30 + old_n % 10) as u8));
            assert(Seq::new(i as nat, |k: int| tmp@[i - 1 - k]) =~= seq![tmp@[i - 1]] + Seq::new((i - 1) as nat, |k: int| old_tmp[i - 2 - k]));
            assert(digits_of(val as nat) =~= digits_of(n as nat) + Seq::new(i as nat, |k: int| tmp@[i - 1 - k]));
        }
    }
    let ghost d = digits_of(val as nat);
    assert(d =~= Seq::new(i as nat, |k: int| tmp@[i - 1 - k]));
    let mut p = pos;
    let mut w: usize = 0;
    while w < i
        invariant
            w <= i <= 10,
            d.len() == i,
            d == Seq::new(i as nat, |k: int| tmp@[i - 1 - k]),
            buf@.len() == old(buf)@.len(),
            p == pos + fit(buf@.len() as int, pos as int, w as int),
            buf@ == splice(old(buf)@, pos as int, d.take(fit(buf@.len() as int, pos as int, w as int))),
        decreases i - w,
    {
        if p < buf.len() {
            buf[p] = tmp[i - 1 - w];
            p += 1;
        }
        w += 1;
        assert(buf@ =~= splice(old(buf)@, pos as int, d.take(fit(buf@.len() as int, pos as int, w as int))));
    }
    assert(decimal(val as nat) == d);
    p
}

/// Append a u32 as 8-digit zero-padded hex into `buf` at `pos`. Returns new position.
pub fn append_hex32(buf: &mut [u8], pos: usize, val: u32) -> (r: usize)
    ensures
        r == pos + fit(old(buf)@.len() as int, pos as int, 8),
        final(buf)@ == appended(old(buf)@, pos as int, hex32(val)),
{
    let hex: [u8; 16] = [
        0x30, 0x31, 0x32, 0x33, 0x34, 0x35, 0x36, 0x37,
        0x38, 0x39, 0x61, 0x62, 0x63, 0x64, 0x65, 0x66,
    ];
    let ghost d = hex32(val);
    let mut p = pos;
    let mut k: u32 = 0;
    while k < 8
        invariant
            k <= 8,
            d == hex32(val),
            forall|t: int| 0 <= t < 16 ==> hex@[t] == hex_char(t),
            buf@.len() == old(buf)@.len(),
            p == pos + fit(buf@.len() as int, pos as int, k as int),
            buf@ == splice(old(buf)@, pos as int, d.take(fit(buf@.len() as int, pos as int, k as int))),
        decreases 8 - k,
    {
        let shift: u32 = 4 * (7 - k);
        let nib = (val >> shift) & 0xF;
        proof {
            lemma_nibble(val, (7 - k) as u32);
        }
        if p < buf.len() {
            buf[p] = hex[nib as usize];
            p += 1;
        }
        k += 1;
        assert(buf@ =~= splice(old(buf)@, pos as int, d.take(fit(buf@.len() as int, pos as int, k as int))));
    }
    p
}

/// Shifting right by `4e` bits and masking with 0xF extracts nibble `e`.
proof fn lemma_nibble(v: u32, e: u32)
    requires
        e < 8,
    ensures
        ((v >> (4 * e)) & 0xF) as int == ((v as int) / pow16(e as int)) % 16,
        ((v >> (4 * e)) & 0xF) < 16,
{
    reveal_with_fuel(pow16, 8);
    assert(pow16(0) == 1 && pow16(1) == 16 && pow16(2) == 256 && pow16(3) == 4096 && pow16(4) == 65536
        && pow16(5) == 1048576 && pow16(6) == 16777216 && pow16(7) == 268435456);
    assert(((v >> (4 * e)) & 0xF) < 16) by (bit_vector);
    if e == 0 {
        assert(((v >> 0u32) & 0xF) == v % 16) by (bit_vector);
    } else if e == 1 {
        assert(((v >> 4u32) & 0xF) == (v / 16) % 16) by (bit_vector);
    } else if e == 2 {
        assert(((v >> 8u32) & 0xF) == (v / 256) % 16) by (bit_vector);
    } else if e == 3 {
        assert(((v >> 12u32) & 0xF) == (v / 4096) % 16) by (bit_vector);
    } else if e == 4 {
        assert(((v >> 16u32) & 0xF) == (v / 65536) % 16) by (bit_vector);
    } else if e == 5 {
        assert(((v >> 20u32) & 0xF) == (v / 1048576) % 16) by (bit_vector);
    } else if e == 6 {
        assert(((v >> 24u32) & 0xF) == (v / 16777216) % 16) by (bit_vector);
    } else {
        assert(((v >> 28u32) & 0xF) == (v / 268435456) % 16) by (bit_vector);
    }
}

/// ASCII lower case of one byte.
fn lower(c: u8) -> (r: u8)
    ensures
        r == to_lower(c),
{
    if c >= 0x41 && c <= 0x5A {
        c + 32
    } else {
        c
    }
}

/// Case-insensitive ASCII byte comparison.
pub fn ascii_eq_ignore_case(a: &[u8], b: &[u8]) -> (r: bool)
    ensures
        r == eq_ignore_case(a@, b@),
{
    if a.len() != b.len() {
        return false;
    }
    let mut i: usize = 0;
    while i < a.len()
        invariant
            a@.len() == b@.len(),
            i <= a@.len(),
            forall|t: int| 0 <= t < i ==> to_lower(a@[t]) == to_lower(b@[t]),
        decreases a@.len() - i,
    {
        if lower(a[i]) != lower(b[i]) {
            return false;
        }
        i += 1;
    }
    true
}

/// Stores `src[start..start+len]` into `out` as a NUL-terminated string truncated to `out`.
pub fn store_value(out: &mut [u8], src: &[u8], start: usize, len: usize) -> (copy: usize)
    requires
        start + len <= src.len(),
    ensures
        copy == (if len <= old(out)@.len() { len } else { old(out)@.len() as usize }),
        final(out)@ == stored_c_string(old(out)@, src@.subrange(start as int, start + len)),
{
    let copy = if len < out.len() { len } else { out.len() };
    let mut j: usize = 0;
    while j < copy
        invariant
            j <= copy,
            copy <= len,
            copy <= out@.len(),
            start + len <= src.len(),
            out@.len() == old(out)@.len(),
            out@ == splice(old(out)@, 0, src@.subrange(start as int, start + j)),
        decreases copy - j,
    {
        out[j] = src[start + j];
        j += 1;
        assert(out@ =~= splice(old(out)@, 0, src@.subrange(start as int, start + j)));
    }
    assert(src@.subrange(start as int, start + copy) =~= src@.subrange(start as int, start + len).take(copy as int));
    if copy < out.len() {
        out[copy] = 0;
    }
    assert(final(out)@ =~= stored_c_string(old(out)@, src@.subrange(start as int, start + len)));
    copy
}

/// Extract a field value from a string like `key="value"` or `key=value`.
/// Returns the value as a byte slice copied into `out`, and the length.
#[verifier::loop_isolation(false)]
pub fn extract_field(src: &[u8], key: &[u8], out: &mut [u8]) -> (r: usize)
    ensures
        match field_value(src@, key@) {
            Some(v) => {
                &&& r == (if v.len() <= old(out)@.len() { v.len() } else { old(out)@.len() })
                &&& final(out)@ == stored_c_string(old(out)@, v)
            },
            None => r == 0 && final(out)@ == old(out)@,
        },
{
    let src_len = ascii_len(src);
    let key_len = ascii_len(key);
    if key_len == 0 || src_len == 0 {
        return 0;
    }
    let ghost s = c_str(src@);
    let ghost k = c_str(key@);
    let mut i: usize = 0;
    while i < src_len && key_len < src_len - i
        invariant
            s == c_str(src@),
            k == c_str(key@),
            s == src@.take(src_len as int),
            k == key@.take(key_len as int),
            src_len == s.len(),
            key_len == k.len(),
            src_len <= src@.len(),
            key_len <= key@.len(),
            key_len > 0,
            first_key_from(s, k, 0) == first_key_from(s, k, i as int),
            out@ == old(out)@,
        decreases src_len - i,
    {
        let m = ascii_eq_ignore_case(&src[i..i + key_len], &key[0..key_len]);
        assert(src@.subrange(i as int, i + key_len) =~= s.subrange(i as int, i + key_len));
        assert(key@.subrange(0, key_len as int) =~= k);
        if m && src[i + key_len] == 0x3D {
            assert(key_at(s, k, i as int));
            assert(first_key_from(s, k, i as int) == Some(i as int));
            let val_start = i + key_len + 1;
            if val_start < src_len && src[val_start] == 0x22 {
                let inner_start = val_start + 1;
                let mut j = inner_start;
                proof {
                    lemma_quote_end(s, inner_start as int);
                }
                while j < src_len && src[j] != 0x22
                    invariant
                        inner_start <= j <= src_len,
                        src_len <= src@.len(),
                        s == src@.take(src_len as int),
                        quote_end(s, j as int) == quote_end(s, inner_start as int),
                    decreases src_len - j,
                {
                    j += 1;
                }
                assert(quote_end(s, j as int) == j);
                assert(src@.subrange(inner_start as int, j as int) =~= s.subrange(inner_start as int, j as int));
                return store_value(out, src, inner_start, j - inner_start);
            } else {
                let mut j = val_start;
                proof {
                    lemma_token_end(s, val_start as int);
                }
                while j < src_len && src[j] != 0x2C && src[j] != 0x20 && src[j] != 0x0D && src[j] != 0x0A
                    invariant
                        val_start <= j <= src_len,
                        src_len <= src@.len(),
                        s == src@.take(src_len as int),
                        token_end(s, j as int) == token_end(s, val_start as int),
                    decreases src_len - j,
                {
                    j += 1;
                }
                assert(token_end(s, j as int) == j);
                assert(src@.subrange(val_start as int, j as int) =~= s.subrange(val_start as int, j as int));
                return store_value(out, src, val_start, j - val_start);
            }
        }
        assert(!key_at(s, k, i as int));
        i += 1;
    }
    assert(first_key_from(s, k, i as int) is None);
    0
}

/// Appends `s` to `v`.
pub fn push_bytes(v: &mut Vec<u8>, s: &[u8])
    ensures
        final(v)@ == old(v)@ + s@,
{
    let mut i: usize = 0;
    while i < s.len()
        invariant
            i <= s@.len(),
            v@ == old(v)@ + s@.take(i as int),
        decreases s@.len() - i,
    {
        v.push(s[i]);
        i += 1;
        assert(v@ =~= old(v)@ + s@.take(i as int));
    }
    assert(s@.take(s@.len() as int) =~= s@);
}

/// Appends the C string `s` (its bytes before the first NUL) to `v`.
pub fn push_c_str(v: &mut Vec<u8>, s: &[u8])
    ensures
        final(v)@ == old(v)@ + c_str(s@),
{
    let n = ascii_len(s);
    let t = &s[0..n];
    assert(t@ =~= c_str(s@));
    push_bytes(v, t);
}


/// Appends the decimal text of `x` to `v`.
pub fn push_u32(v: &mut Vec<u8>, x: u32)
    ensures
        final(v)@ == old(v)@ + decimal(x as nat),
{
    let mut tmp = [0u8; 10];
    proof {
        reveal_with_fuel(pow10, 11);
        if x > 0 {
            lemma_digits_of_len(x as nat, 10);
        }
    }
    let n = append_u32(&mut tmp, 0, x);
    let t = &tmp[0..n];
    assert(t@ =~= decimal(x as nat));
    push_bytes(v, t);
}

} // verus!
