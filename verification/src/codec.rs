//! A verified codec for the persisted documents.
//!
//! Both stores persist by rendering their whole document to text and reading
//! it back. The wire format is a character stream: integers become eight
//! characters holding their little-endian bytes, strings are prefixed with
//! their length, records are concatenated in order. Every decoder is exact:
//! it accepts precisely the strings its encoder produces, and decoding an
//! encoding yields the document encoded.

use crate::ledger::{GroupV, GroupWarnings, UserV, UserWarnings, Warning, WarningV};
use crate::numfmt::push_char;
use crate::settings::{GuildSetting, GuildSettingV, GuildSettings, Settings, SettingsV, WarnBehavior};
use crate::timespec::TimeoutTime;
use vstd::bytes::*;
use vstd::prelude::*;

verus! {

/// Whether a character carries a single byte of the wire format.
pub open spec fn is_byte_char(c: char) -> bool {
    (c as u32) < 256
}

/// The encoding of a 64-bit integer: its little-endian bytes, one character
/// each.
pub open spec fn enc_u64(n: u64) -> Seq<char> {
    spec_u64_to_le_bytes(n).map_values(|b: u8| b as char)
}

/// Decode a 64-bit integer at `pos`, returning it with the position that
/// follows it.
pub open spec fn dec_u64_at(s: Seq<char>, pos: int) -> Option<(u64, int)> {
    if 0 <= pos && pos + 8 <= s.len() && (forall|i: int|
        pos <= i < pos + 8 ==> is_byte_char(#[trigger] s[i])) {
        Some((spec_u64_from_le_bytes(Seq::new(8, |i: int| s[pos + i] as u8)), pos + 8))
    } else {
        None
    }
}

pub proof fn lemma_enc_u64_len(n: u64)
    ensures
        enc_u64(n).len() == 8,
{
    lemma_auto_spec_u64_to_from_le_bytes();
}

pub proof fn lemma_dec_enc_u64(s: Seq<char>, pos: int, n: u64)
    requires
        0 <= pos,
        pos + 8 <= s.len(),
        s.subrange(pos, pos + 8) == enc_u64(n),
    ensures
        dec_u64_at(s, pos) == Some((n, pos + 8)),
{
    lemma_auto_spec_u64_to_from_le_bytes();
    let bytes = spec_u64_to_le_bytes(n);
    assert forall|i: int| pos <= i < pos + 8 implies is_byte_char(#[trigger] s[i]) by {
        assert(s[i] == s.subrange(pos, pos + 8)[i - pos]);
        assert(s[i] == bytes[i - pos] as char);
    }
    assert(Seq::new(8, |i: int| s[pos + i] as u8) =~= bytes) by {
        assert forall|i: int| 0 <= i < 8 implies Seq::new(8, |j: int| s[pos + j] as u8)[i]
            == bytes[i] by {
            assert(s[pos + i] == s.subrange(pos, pos + 8)[i]);
            assert(s[pos + i] == bytes[i] as char);
        }
    }
}

/// Append the encoding of a 64-bit integer.
pub fn write_u64(out: &mut String, n: u64)
    ensures
        final(out)@ == old(out)@ + enc_u64(n),
{
    let ghost g0: Seq<char> = out@;
    let bytes = u64_to_le_bytes(n);
    let mut i: usize = 0;
    while i < 8
        invariant
            bytes@ == spec_u64_to_le_bytes(n),
            bytes@.len() == 8,
            i <= 8,
            out@ == g0 + enc_u64(n).take(i as int),
        decreases 8 - i,
    {
        push_char(out, bytes[i] as char);
        proof {
            assert(enc_u64(n)[i as int] == bytes@[i as int] as char);
            assert(g0 + enc_u64(n).take(i + 1) =~= (g0 + enc_u64(n).take(i as int)).push(
                bytes@[i as int] as char,
            ));
        }
        i = i + 1;
    }
    proof {
        assert(enc_u64(n).take(8) =~= enc_u64(n));
    }
}

/// Read a 64-bit integer at `pos`.
pub fn read_u64(s: &str, pos: usize) -> (r: Option<(u64, usize)>)
    ensures
        match r {
            Some((n, p)) => dec_u64_at(s@, pos as int) == Some((n, p as int)),
            None => dec_u64_at(s@, pos as int) is None,
        },
{
    let len = s.unicode_len();
    if len < 8 || pos > len - 8 {
        return None;
    }
    let mut bytes: Vec<u8> = Vec::new();
    let mut i: usize = 0;
    while i < 8
        invariant
            pos + 8 <= len,
            len == s@.len(),
            bytes@.len() == i,
            i <= 8,
            forall|j: int|
                0 <= j < i ==> is_byte_char(#[trigger] s@[pos + j]) && bytes@[j] == s@[pos
                    + j] as u8,
        decreases 8 - i,
    {
        let c = s.get_char(pos + i);
        let u = c as u32;
        if u > 255 {
            proof {
                assert(!is_byte_char(s@[pos + i as int]));
            }
            return None;
        }
        bytes.push(u as u8);
        i = i + 1;
    }
    let n = u64_from_le_bytes(bytes.as_slice());
    proof {
        assert forall|ii: int| pos <= ii < pos + 8 implies is_byte_char(#[trigger] s@[ii]) by {
            assert(is_byte_char(s@[pos + (ii - pos)]));
        }
        assert(bytes@ =~= Seq::new(8, |j: int| s@[pos as int + j] as u8));
    }
    Some((n, pos + 8))
}

/// The shift that maps a signed 64-bit value onto an unsigned one, keeping
/// order.
pub open spec fn i64_bias(x: i64) -> u64 {
    (x as int + 0x8000000000000000) as u64
}

/// The inverse of [`i64_bias`].
pub open spec fn u64_unbias(n: u64) -> i64 {
    (n as int - 0x8000000000000000) as i64
}

/// The encoding of a signed 64-bit integer: its biased unsigned value.
pub open spec fn enc_i64(x: i64) -> Seq<char> {
    enc_u64(i64_bias(x))
}

/// Decode a signed 64-bit integer at `pos`.
pub open spec fn dec_i64_at(s: Seq<char>, pos: int) -> Option<(i64, int)> {
    match dec_u64_at(s, pos) {
        Some((n, p)) => Some((u64_unbias(n), p)),
        None => None,
    }
}

pub proof fn lemma_dec_enc_i64(s: Seq<char>, pos: int, x: i64)
    requires
        0 <= pos,
        pos + 8 <= s.len(),
        s.subrange(pos, pos + 8) == enc_i64(x),
    ensures
        dec_i64_at(s, pos) == Some((x, pos + 8)),
{
    lemma_dec_enc_u64(s, pos, i64_bias(x));
}

/// Append the encoding of a signed 64-bit integer.
pub fn write_i64(out: &mut String, x: i64)
    ensures
        final(out)@ == old(out)@ + enc_i64(x),
{
    let biased: u64 = ((x as i128) + 0x8000000000000000i128) as u64;
    proof {
        assert(biased == i64_bias(x));
    }
    write_u64(out, biased);
}

/// Read a signed 64-bit integer at `pos`.
pub fn read_i64(s: &str, pos: usize) -> (r: Option<(i64, usize)>)
    ensures
        match r {
            Some((x, p)) => dec_i64_at(s@, pos as int) == Some((x, p as int)),
            None => dec_i64_at(s@, pos as int) is None,
        },
{
    match read_u64(s, pos) {
        Some((n, p)) => {
            let x: i64 = ((n as i128) - 0x8000000000000000i128) as i64;
            proof {
                assert(x == u64_unbias(n));
            }
            Some((x, p))
        },
        None => None,
    }
}

/// The encoding of one byte: a single character.
pub open spec fn enc_u8(b: u8) -> Seq<char> {
    seq![b as char]
}

/// Decode one byte at `pos`.
pub open spec fn dec_u8_at(s: Seq<char>, pos: int) -> Option<(u8, int)> {
    if 0 <= pos && pos + 1 <= s.len() && is_byte_char(s[pos]) {
        Some((s[pos] as u8, pos + 1))
    } else {
        None
    }
}

pub proof fn lemma_dec_enc_u8(s: Seq<char>, pos: int, b: u8)
    requires
        0 <= pos,
        pos + 1 <= s.len(),
        s.subrange(pos, pos + 1) == enc_u8(b),
    ensures
        dec_u8_at(s, pos) == Some((b, pos + 1)),
{
    assert(s[pos] == s.subrange(pos, pos + 1)[0]);
}

/// Append the encoding of one byte.
pub fn write_u8(out: &mut String, b: u8)
    ensures
        final(out)@ == old(out)@ + enc_u8(b),
{
    push_char(out, b as char);
    proof {
        assert(final(out)@ =~= old(out)@ + enc_u8(b));
    }
}

/// Read one byte at `pos`.
pub fn read_u8(s: &str, pos: usize) -> (r: Option<(u8, usize)>)
    ensures
        match r {
            Some((b, p)) => dec_u8_at(s@, pos as int) == Some((b, p as int)),
            None => dec_u8_at(s@, pos as int) is None,
        },
{
    let len = s.unicode_len();
    if pos >= len {
        return None;
    }
    let c = s.get_char(pos);
    let u = c as u32;
    if u > 255 {
        return None;
    }
    Some((u as u8, pos + 1))
}

/// The encoding of a string: its character count, then its characters.
pub open spec fn enc_str(sv: Seq<char>) -> Seq<char> {
    enc_u64(sv.len() as u64) + sv
}

/// Decode a string at `pos`.
pub open spec fn dec_str_at(s: Seq<char>, pos: int) -> Option<(Seq<char>, int)> {
    match dec_u64_at(s, pos) {
        Some((n, p)) => if p + n <= s.len() {
            Some((s.subrange(p, p + n as int), p + n as int))
        } else {
            None
        },
        None => None,
    }
}

pub proof fn lemma_dec_enc_str(s: Seq<char>, pos: int, sv: Seq<char>)
    requires
        0 <= pos,
        sv.len() <= u64::MAX,
        pos + enc_str(sv).len() <= s.len(),
        s.subrange(pos, pos + enc_str(sv).len()) == enc_str(sv),
    ensures
        dec_str_at(s, pos) == Some((sv, pos + enc_str(sv).len())),
{
    lemma_enc_u64_len(sv.len() as u64);
    let n: u64 = sv.len() as u64;
    let total = enc_str(sv).len();
    assert(s.subrange(pos, pos + 8) =~= enc_u64(n)) by {
        assert forall|i: int| 0 <= i < 8 implies s.subrange(pos, pos + 8)[i] == enc_u64(n)[i] by {
            assert(s[pos + i] == s.subrange(pos, pos + total as int)[i]);
        }
    }
    lemma_dec_enc_u64(s, pos, n);
    assert(s.subrange(pos + 8, pos + 8 + n as int) =~= sv) by {
        assert forall|i: int| 0 <= i < n implies s.subrange(pos + 8, pos + 8 + n as int)[i]
            == sv[i] by {
            assert(s[pos + 8 + i] == s.subrange(pos, pos + total as int)[8 + i]);
            assert(enc_str(sv)[8 + i] == sv[i]);
        }
    }
}

/// Append the encoding of a string.
pub fn write_str(out: &mut String, sv: &str)
    ensures
        final(out)@ == old(out)@ + enc_str(sv@),
{
    let n = sv.unicode_len();
    write_u64(out, n as u64);
    out.append(sv);
}

/// Read a string at `pos`.
pub fn read_str(s: &str, pos: usize) -> (r: Option<(String, usize)>)
    ensures
        match r {
            Some((v, p)) => dec_str_at(s@, pos as int) == Some((v@, p as int)),
            None => dec_str_at(s@, pos as int) is None,
        },
{
    let (n, p) = match read_u64(s, pos) {
        Some(x) => x,
        None => {
            return None;
        },
    };
    let len = s.unicode_len();
    if n > (len - p) as u64 {
        return None;
    }
    let count = n as usize;
    let mut v = String::new();
    let mut i: usize = 0;
    while i < count
        invariant
            p + count <= len,
            len == s@.len(),
            i <= count,
            v@ =~= s@.subrange(p as int, p + i),
        decreases count - i,
    {
        let c = s.get_char(p + i);
        push_char(&mut v, c);
        proof {
            assert(v@ =~= s@.subrange(p as int, p + i + 1));
        }
        i = i + 1;
    }
    Some((v, p + count))
}

proof fn lemma_subrange_split(s: Seq<char>, pos: int, a: Seq<char>, b: Seq<char>)
    requires
        0 <= pos,
        pos + a.len() + b.len() <= s.len(),
        s.subrange(pos, pos + a.len() + b.len()) == a + b,
    ensures
        s.subrange(pos, pos + a.len()) == a,
        s.subrange(pos + a.len(), pos + a.len() + b.len()) == b,
{
    let total = a.len() + b.len();
    assert(s.subrange(pos, pos + a.len()) =~= a) by {
        assert forall|i: int| 0 <= i < a.len() implies s.subrange(pos, pos + a.len())[i]
            == a[i] by {
            assert(s[pos + i] == s.subrange(pos, pos + total)[i]);
        }
    }
    assert(s.subrange(pos + a.len(), pos + total) =~= b) by {
        assert forall|i: int| 0 <= i < b.len() implies s.subrange(pos + a.len(), pos + total)[i]
            == b[i] by {
            assert(s[pos + a.len() + i] == s.subrange(pos, pos + total)[a.len() + i]);
        }
    }
}

// ---------------------------------------------------------------------------
// The warning-ledger document.
// ---------------------------------------------------------------------------

/// The encoding of one warning: its reason, then its issue instant.
pub open spec fn enc_warning(w: WarningV) -> Seq<char> {
    enc_str(w.reason) + enc_i64(w.issued_at)
}

/// The encoding of a run of warnings, in order.
pub open spec fn enc_warning_seq(ws: Seq<WarningV>) -> Seq<char>
    decreases ws.len(),
{
    if ws.len() == 0 {
        Seq::empty()
    } else {
        enc_warning(ws[0]) + enc_warning_seq(ws.drop_first())
    }
}

/// The encoding of one member record: the member, the warning count, then
/// the warnings.
pub open spec fn enc_user(u: UserV) -> Seq<char> {
    enc_u64(u.member) + enc_u64(u.warnings.len() as u64) + enc_warning_seq(u.warnings)
}

/// The encoding of a run of member records, in order.
pub open spec fn enc_user_seq(us: Seq<UserV>) -> Seq<char>
    decreases us.len(),
{
    if us.len() == 0 {
        Seq::empty()
    } else {
        enc_user(us[0]) + enc_user_seq(us.drop_first())
    }
}

/// The encoding of one group record: the group, the member-record count,
/// then the member records.
pub open spec fn enc_group(g: GroupV) -> Seq<char> {
    enc_u64(g.group) + enc_u64(g.users.len() as u64) + enc_user_seq(g.users)
}

/// The encoding of a run of group records, in order.
pub open spec fn enc_group_seq(gs: Seq<GroupV>) -> Seq<char>
    decreases gs.len(),
{
    if gs.len() == 0 {
        Seq::empty()
    } else {
        enc_group(gs[0]) + enc_group_seq(gs.drop_first())
    }
}

/// The encoding of the whole ledger document: the group-record count, then
/// the group records.
pub open spec fn enc_ledger(lv: Seq<GroupV>) -> Seq<char> {
    enc_u64(lv.len() as u64) + enc_group_seq(lv)
}

/// Every count and length of the document fits the wire's 64-bit fields.
pub open spec fn warning_encodable(w: WarningV) -> bool {
    w.reason.len() <= u64::MAX
}

/// Every count and length of the document fits the wire's 64-bit fields.
pub open spec fn user_encodable(u: UserV) -> bool {
    &&& u.warnings.len() <= u64::MAX
    &&& forall|i: int| 0 <= i < u.warnings.len() ==> warning_encodable(#[trigger] u.warnings[i])
}

/// Every count and length of the document fits the wire's 64-bit fields.
pub open spec fn group_encodable(g: GroupV) -> bool {
    &&& g.users.len() <= u64::MAX
    &&& forall|i: int| 0 <= i < g.users.len() ==> user_encodable(#[trigger] g.users[i])
}

/// Every count and length of the document fits the wire's 64-bit fields.
pub open spec fn ledger_encodable(lv: Seq<GroupV>) -> bool {
    &&& lv.len() <= u64::MAX
    &&& forall|i: int| 0 <= i < lv.len() ==> group_encodable(#[trigger] lv[i])
}

/// Decode one warning at `pos`.
pub open spec fn dec_warning_at(s: Seq<char>, pos: int) -> Option<(WarningV, int)> {
    match dec_str_at(s, pos) {
        Some((reason, p)) => match dec_i64_at(s, p) {
            Some((t, p2)) => Some((WarningV { reason, issued_at: t }, p2)),
            None => None,
        },
        None => None,
    }
}

/// Decode a run of `k` warnings at `pos`.
pub open spec fn dec_warning_seq_at(s: Seq<char>, pos: int, k: u64) -> Option<(Seq<WarningV>, int)>
    decreases k,
{
    if k == 0 {
        Some((Seq::empty(), pos))
    } else {
        match dec_warning_at(s, pos) {
            Some((w, p)) => match dec_warning_seq_at(s, p, (k - 1) as u64) {
                Some((ws, p2)) => Some((seq![w] + ws, p2)),
                None => None,
            },
            None => None,
        }
    }
}

/// Decode one member record at `pos`.
pub open spec fn dec_user_at(s: Seq<char>, pos: int) -> Option<(UserV, int)> {
    match dec_u64_at(s, pos) {
        Some((member, p)) => match dec_u64_at(s, p) {
            Some((k, p2)) => match dec_warning_seq_at(s, p2, k) {
                Some((ws, p3)) => Some((UserV { member, warnings: ws }, p3)),
                None => None,
            },
            None => None,
        },
        None => None,
    }
}

/// Decode a run of `k` member records at `pos`.
pub open spec fn dec_user_seq_at(s: Seq<char>, pos: int, k: u64) -> Option<(Seq<UserV>, int)>
    decreases k,
{
    if k == 0 {
        Some((Seq::empty(), pos))
    } else {
        match dec_user_at(s, pos) {
            Some((u, p)) => match dec_user_seq_at(s, p, (k - 1) as u64) {
                Some((us, p2)) => Some((seq![u] + us, p2)),
                None => None,
            },
            None => None,
        }
    }
}

/// Decode one group record at `pos`.
pub open spec fn dec_group_at(s: Seq<char>, pos: int) -> Option<(GroupV, int)> {
    match dec_u64_at(s, pos) {
        Some((group, p)) => match dec_u64_at(s, p) {
            Some((k, p2)) => match dec_user_seq_at(s, p2, k) {
                Some((us, p3)) => Some((GroupV { group, users: us }, p3)),
                None => None,
            },
            None => None,
        },
        None => None,
    }
}

/// Decode a run of `k` group records at `pos`.
pub open spec fn dec_group_seq_at(s: Seq<char>, pos: int, k: u64) -> Option<(Seq<GroupV>, int)>
    decreases k,
{
    if k == 0 {
        Some((Seq::empty(), pos))
    } else {
        match dec_group_at(s, pos) {
            Some((g, p)) => match dec_group_seq_at(s, p, (k - 1) as u64) {
                Some((gs, p2)) => Some((seq![g] + gs, p2)),
                None => None,
            },
            None => None,
        }
    }
}

/// Decode a whole ledger document. The document must be consumed exactly.
pub open spec fn dec_ledger(s: Seq<char>) -> Option<Seq<GroupV>> {
    match dec_u64_at(s, 0) {
        Some((k, p)) => match dec_group_seq_at(s, p, k) {
            Some((lv, p2)) => if p2 == s.len() {
                Some(lv)
            } else {
                None
            },
            None => None,
        },
        None => None,
    }
}

proof fn lemma_dec_enc_warning(s: Seq<char>, pos: int, w: WarningV)
    requires
        0 <= pos,
        warning_encodable(w),
        pos + enc_warning(w).len() <= s.len(),
        s.subrange(pos, pos + enc_warning(w).len()) == enc_warning(w),
    ensures
        dec_warning_at(s, pos) == Some((w, pos + enc_warning(w).len())),
{
    lemma_enc_u64_len(w.reason.len() as u64);
    lemma_enc_u64_len(i64_bias(w.issued_at));
    lemma_subrange_split(s, pos, enc_str(w.reason), enc_i64(w.issued_at));
    lemma_dec_enc_str(s, pos, w.reason);
    lemma_dec_enc_i64(s, pos + enc_str(w.reason).len(), w.issued_at);
}

proof fn lemma_dec_enc_warning_seq(s: Seq<char>, pos: int, ws: Seq<WarningV>)
    requires
        0 <= pos,
        ws.len() <= u64::MAX,
        forall|i: int| 0 <= i < ws.len() ==> warning_encodable(#[trigger] ws[i]),
        pos + enc_warning_seq(ws).len() <= s.len(),
        s.subrange(pos, pos + enc_warning_seq(ws).len()) == enc_warning_seq(ws),
    ensures
        dec_warning_seq_at(s, pos, ws.len() as u64) == Some(
            (ws, pos + enc_warning_seq(ws).len()),
        ),
    decreases ws.len(),
{
    if ws.len() == 0 {
        assert(ws =~= Seq::<WarningV>::empty());
    } else {
        let head = enc_warning(ws[0]);
        let tail = enc_warning_seq(ws.drop_first());
        lemma_subrange_split(s, pos, head, tail);
        lemma_dec_enc_warning(s, pos, ws[0]);
        lemma_dec_enc_warning_seq(s, pos + head.len(), ws.drop_first());
        assert(seq![ws[0]] + ws.drop_first() =~= ws);
    }
}

proof fn lemma_dec_enc_user(s: Seq<char>, pos: int, u: UserV)
    requires
        0 <= pos,
        user_encodable(u),
        pos + enc_user(u).len() <= s.len(),
        s.subrange(pos, pos + enc_user(u).len()) == enc_user(u),
    ensures
        dec_user_at(s, pos) == Some((u, pos + enc_user(u).len())),
{
    lemma_enc_u64_len(u.member);
    lemma_enc_u64_len(u.warnings.len() as u64);
    let rest = enc_u64(u.warnings.len() as u64) + enc_warning_seq(u.warnings);
    assert(enc_u64(u.member) + rest =~= enc_user(u));
    lemma_subrange_split(s, pos, enc_u64(u.member), rest);
    lemma_dec_enc_u64(s, pos, u.member);
    lemma_subrange_split(s, pos + 8, enc_u64(u.warnings.len() as u64), enc_warning_seq(u.warnings));
    lemma_dec_enc_u64(s, pos + 8, u.warnings.len() as u64);
    lemma_dec_enc_warning_seq(s, pos + 16, u.warnings);
}

proof fn lemma_dec_enc_user_seq(s: Seq<char>, pos: int, us: Seq<UserV>)
    requires
        0 <= pos,
        us.len() <= u64::MAX,
        forall|i: int| 0 <= i < us.len() ==> user_encodable(#[trigger] us[i]),
        pos + enc_user_seq(us).len() <= s.len(),
        s.subrange(pos, pos + enc_user_seq(us).len()) == enc_user_seq(us),
    ensures
        dec_user_seq_at(s, pos, us.len() as u64) == Some((us, pos + enc_user_seq(us).len())),
    decreases us.len(),
{
    if us.len() == 0 {
        assert(us =~= Seq::<UserV>::empty());
    } else {
        let head = enc_user(us[0]);
        let tail = enc_user_seq(us.drop_first());
        lemma_subrange_split(s, pos, head, tail);
        lemma_dec_enc_user(s, pos, us[0]);
        lemma_dec_enc_user_seq(s, pos + head.len(), us.drop_first());
        assert(seq![us[0]] + us.drop_first() =~= us);
    }
}

proof fn lemma_dec_enc_group(s: Seq<char>, pos: int, g: GroupV)
    requires
        0 <= pos,
        group_encodable(g),
        pos + enc_group(g).len() <= s.len(),
        s.subrange(pos, pos + enc_group(g).len()) == enc_group(g),
    ensures
        dec_group_at(s, pos) == Some((g, pos + enc_group(g).len())),
{
    lemma_enc_u64_len(g.group);
    lemma_enc_u64_len(g.users.len() as u64);
    let rest = enc_u64(g.users.len() as u64) + enc_user_seq(g.users);
    assert(enc_u64(g.group) + rest =~= enc_group(g));
    lemma_subrange_split(s, pos, enc_u64(g.group), rest);
    lemma_dec_enc_u64(s, pos, g.group);
    lemma_subrange_split(s, pos + 8, enc_u64(g.users.len() as u64), enc_user_seq(g.users));
    lemma_dec_enc_u64(s, pos + 8, g.users.len() as u64);
    lemma_dec_enc_user_seq(s, pos + 16, g.users);
}

proof fn lemma_dec_enc_group_seq(s: Seq<char>, pos: int, gs: Seq<GroupV>)
    requires
        0 <= pos,
        gs.len() <= u64::MAX,
        forall|i: int| 0 <= i < gs.len() ==> group_encodable(#[trigger] gs[i]),
        pos + enc_group_seq(gs).len() <= s.len(),
        s.subrange(pos, pos + enc_group_seq(gs).len()) == enc_group_seq(gs),
    ensures
        dec_group_seq_at(s, pos, gs.len() as u64) == Some((gs, pos + enc_group_seq(gs).len())),
    decreases gs.len(),
{
    if gs.len() == 0 {
        assert(gs =~= Seq::<GroupV>::empty());
    } else {
        let head = enc_group(gs[0]);
        let tail = enc_group_seq(gs.drop_first());
        lemma_subrange_split(s, pos, head, tail);
        lemma_dec_enc_group(s, pos, gs[0]);
        lemma_dec_enc_group_seq(s, pos + head.len(), gs.drop_first());
        assert(seq![gs[0]] + gs.drop_first() =~= gs);
    }
}

/// Decoding an encoded ledger document yields the document encoded, entity
/// for entity and field for field.
pub proof fn lemma_ledger_round_trip(lv: Seq<GroupV>)
    requires
        ledger_encodable(lv),
    ensures
        dec_ledger(enc_ledger(lv)) == Some(lv),
{
    let s = enc_ledger(lv);
    lemma_enc_u64_len(lv.len() as u64);
    assert(s.subrange(0, s.len() as int) =~= s);
    lemma_subrange_split(s, 0, enc_u64(lv.len() as u64), enc_group_seq(lv));
    lemma_dec_enc_u64(s, 0, lv.len() as u64);
    lemma_dec_enc_group_seq(s, 8, lv);
}

// ---------------------------------------------------------------------------
// Executable encoding and decoding of the ledger document.
// ---------------------------------------------------------------------------

fn write_warning(out: &mut String, w: &Warning)
    ensures
        final(out)@ == old(out)@ + enc_warning(w@),
{
    let ghost g0: Seq<char> = out@;
    write_str(out, w.reason.as_str());
    write_i64(out, w.issued_at);
    proof {
        assert(out@ =~= g0 + enc_warning(w@));
    }
}

fn write_warning_seq(out: &mut String, ws: &Vec<Warning>)
    ensures
        final(out)@ == old(out)@ + enc_warning_seq(ws@.map_values(|w: Warning| w@)),
{
    let ghost wsv: Seq<WarningV> = ws@.map_values(|w: Warning| w@);
    let ghost g0: Seq<char> = out@;
    let mut i: usize = 0;
    while i < ws.len()
        invariant
            i <= ws@.len(),
            wsv == ws@.map_values(|w: Warning| w@),
            out@ == g0 + enc_warning_seq(wsv.take(i as int)),
        decreases ws@.len() - i,
    {
        write_warning(out, &ws[i]);
        proof {
            lemma_enc_warning_seq_push(wsv.take(i as int), wsv[i as int]);
            assert(wsv.take(i + 1) =~= wsv.take(i as int).push(wsv[i as int]));
            assert(g0 + enc_warning_seq(wsv.take(i as int)) + enc_warning(wsv[i as int]) =~= g0
                + (enc_warning_seq(wsv.take(i as int)) + enc_warning(wsv[i as int])));
        }
        i = i + 1;
    }
    proof {
        assert(wsv.take(wsv.len() as int) =~= wsv);
    }
}

proof fn lemma_enc_warning_seq_push(ws: Seq<WarningV>, w: WarningV)
    ensures
        enc_warning_seq(ws.push(w)) == enc_warning_seq(ws) + enc_warning(w),
    decreases ws.len(),
{
    let pushed = ws.push(w);
    if ws.len() == 0 {
        assert(pushed[0] == w);
        assert(pushed.drop_first() =~= Seq::<WarningV>::empty());
        assert(enc_warning_seq(pushed.drop_first()) == Seq::<char>::empty());
        assert(enc_warning_seq(ws) == Seq::<char>::empty());
        assert(enc_warning_seq(pushed) =~= enc_warning_seq(ws) + enc_warning(w));
    } else {
        lemma_enc_warning_seq_push(ws.drop_first(), w);
        assert(pushed.drop_first() =~= ws.drop_first().push(w));
        assert(pushed[0] == ws[0]);
        assert(enc_warning(ws[0]) + (enc_warning_seq(ws.drop_first()) + enc_warning(w)) =~= (
        enc_warning(ws[0]) + enc_warning_seq(ws.drop_first())) + enc_warning(w));
    }
}

proof fn lemma_enc_user_seq_push(us: Seq<UserV>, u: UserV)
    ensures
        enc_user_seq(us.push(u)) == enc_user_seq(us) + enc_user(u),
    decreases us.len(),
{
    let pushed = us.push(u);
    if us.len() == 0 {
        assert(pushed[0] == u);
        assert(pushed.drop_first() =~= Seq::<UserV>::empty());
        assert(enc_user_seq(pushed.drop_first()) == Seq::<char>::empty());
        assert(enc_user_seq(us) == Seq::<char>::empty());
        assert(enc_user_seq(pushed) =~= enc_user_seq(us) + enc_user(u));
    } else {
        lemma_enc_user_seq_push(us.drop_first(), u);
        assert(pushed.drop_first() =~= us.drop_first().push(u));
        assert(pushed[0] == us[0]);
        assert(enc_user(us[0]) + (enc_user_seq(us.drop_first()) + enc_user(u)) =~= (enc_user(us[0])
            + enc_user_seq(us.drop_first())) + enc_user(u));
    }
}

proof fn lemma_enc_group_seq_push(gs: Seq<GroupV>, g: GroupV)
    ensures
        enc_group_seq(gs.push(g)) == enc_group_seq(gs) + enc_group(g),
    decreases gs.len(),
{
    let pushed = gs.push(g);
    if gs.len() == 0 {
        assert(pushed[0] == g);
        assert(pushed.drop_first() =~= Seq::<GroupV>::empty());
        assert(enc_group_seq(pushed.drop_first()) == Seq::<char>::empty());
        assert(enc_group_seq(gs) == Seq::<char>::empty());
        assert(enc_group_seq(pushed) =~= enc_group_seq(gs) + enc_group(g));
    } else {
        lemma_enc_group_seq_push(gs.drop_first(), g);
        assert(pushed.drop_first() =~= gs.drop_first().push(g));
        assert(pushed[0] == gs[0]);
        assert(enc_group(gs[0]) + (enc_group_seq(gs.drop_first()) + enc_group(g)) =~= (enc_group(
            gs[0],
        ) + enc_group_seq(gs.drop_first())) + enc_group(g));
    }
}

fn write_user(out: &mut String, u: &UserWarnings)
    ensures
        final(out)@ == old(out)@ + enc_user(u@),
{
    let ghost g0: Seq<char> = out@;
    write_u64(out, u.member);
    write_u64(out, u.warnings.len() as u64);
    write_warning_seq(out, &u.warnings);
    proof {
        assert(out@ =~= g0 + enc_user(u@));
    }
}

fn write_group(out: &mut String, g: &GroupWarnings)
    ensures
        final(out)@ == old(out)@ + enc_group(g@),
{
    let ghost g0: Seq<char> = out@;
    write_u64(out, g.group);
    write_u64(out, g.users.len() as u64);
    let ghost usv: Seq<UserV> = g.users@.map_values(|u: UserWarnings| u@);
    let mut i: usize = 0;
    while i < g.users.len()
        invariant
            i <= g.users@.len(),
            usv == g.users@.map_values(|u: UserWarnings| u@),
            out@ == g0 + enc_u64(g.group) + enc_u64(g.users@.len() as u64) + enc_user_seq(
                usv.take(i as int),
            ),
        decreases g.users@.len() - i,
    {
        write_user(out, &g.users[i]);
        proof {
            lemma_enc_user_seq_push(usv.take(i as int), usv[i as int]);
            assert(usv.take(i + 1) =~= usv.take(i as int).push(usv[i as int]));
            assert(g0 + enc_u64(g.group) + enc_u64(g.users@.len() as u64) + enc_user_seq(
                usv.take(i as int),
            ) + enc_user(usv[i as int]) =~= g0 + enc_u64(g.group) + enc_u64(g.users@.len() as u64)
                + (enc_user_seq(usv.take(i as int)) + enc_user(usv[i as int])));
        }
        i = i + 1;
    }
    proof {
        assert(usv.take(usv.len() as int) =~= usv);
        assert(out@ =~= g0 + enc_group(g@));
    }
}

/// Render the whole ledger document.
pub fn encode_ledger(l: &crate::ledger::WarningLedger) -> (r: String)
    ensures
        r@ == enc_ledger(l@),
{
    let mut out = String::new();
    write_u64(&mut out, l.groups.len() as u64);
    let ghost gsv: Seq<GroupV> = l@;
    let mut i: usize = 0;
    while i < l.groups.len()
        invariant
            i <= l.groups@.len(),
            gsv == l.groups@.map_values(|g: GroupWarnings| g@),
            out@ == enc_u64(l.groups@.len() as u64) + enc_group_seq(gsv.take(i as int)),
        decreases l.groups@.len() - i,
    {
        write_group(&mut out, &l.groups[i]);
        proof {
            lemma_enc_group_seq_push(gsv.take(i as int), gsv[i as int]);
            assert(gsv.take(i + 1) =~= gsv.take(i as int).push(gsv[i as int]));
            assert(enc_u64(l.groups@.len() as u64) + enc_group_seq(gsv.take(i as int)) + enc_group(
                gsv[i as int],
            ) =~= enc_u64(l.groups@.len() as u64) + (enc_group_seq(gsv.take(i as int)) + enc_group(
                gsv[i as int],
            )));
        }
        i = i + 1;
    }
    proof {
        assert(gsv.take(gsv.len() as int) =~= gsv);
    }
    out
}

fn parse_warning(s: &str, pos: usize) -> (r: Option<(Warning, usize)>)
    ensures
        match r {
            Some((w, p)) => dec_warning_at(s@, pos as int) == Some((w@, p as int)),
            None => dec_warning_at(s@, pos as int) is None,
        },
{
    let (reason, p) = match read_str(s, pos) {
        Some(x) => x,
        None => {
            return None;
        },
    };
    let (t, p2) = match read_i64(s, p) {
        Some(x) => x,
        None => {
            return None;
        },
    };
    Some((Warning { reason, issued_at: t }, p2))
}

fn parse_warning_seq(s: &str, pos: usize, k: u64) -> (r: Option<(Vec<Warning>, usize)>)
    ensures
        match r {
            Some((ws, p)) => dec_warning_seq_at(s@, pos as int, k) == Some(
                (ws@.map_values(|w: Warning| w@), p as int),
            ),
            None => dec_warning_seq_at(s@, pos as int, k) is None,
        },
{
    let mut acc: Vec<Warning> = Vec::new();
    let mut cur: usize = pos;
    let mut j: u64 = 0;
    while j < k
        invariant
            j <= k,
            dec_warning_seq_at(s@, pos as int, k) == (match dec_warning_seq_at(
                s@,
                cur as int,
                (k - j) as u64,
            ) {
                Some((ws, p)) => Some(
                    ((acc@.map_values(|w: Warning| w@) + ws), p),
                ),
                None => None::<(Seq<WarningV>, int)>,
            }),
        decreases k - j,
    {
        let ghost accv: Seq<WarningV> = acc@.map_values(|w: Warning| w@);
        let (w, p) = match parse_warning(s, cur) {
            Some(x) => x,
            None => {
                return None;
            },
        };
        proof {
            if dec_warning_seq_at(s@, p as int, (k - j - 1) as u64) is Some {
                let (ws2, p2) = dec_warning_seq_at(s@, p as int, (k - j - 1) as u64)->Some_0;
                assert(accv + (seq![w@] + ws2) =~= accv.push(w@) + ws2);
            }
        }
        acc.push(w);
        cur = p;
        proof {
            assert(acc@.map_values(|x: Warning| x@) =~= accv.push(w@));
        }
        j = j + 1;
    }
    proof {
        assert(acc@.map_values(|x: Warning| x@) + Seq::<WarningV>::empty() =~= acc@.map_values(
            |x: Warning| x@,
        ));
    }
    Some((acc, cur))
}

fn parse_user(s: &str, pos: usize) -> (r: Option<(UserWarnings, usize)>)
    ensures
        match r {
            Some((u, p)) => dec_user_at(s@, pos as int) == Some((u@, p as int)) && u.wf(),
            None => dec_user_at(s@, pos as int) is None,
        },
{
    let (member, p) = match read_u64(s, pos) {
        Some(x) => x,
        None => {
            return None;
        },
    };
    let (k, p2) = match read_u64(s, p) {
        Some(x) => x,
        None => {
            return None;
        },
    };
    let (warnings, p3) = match parse_warning_seq(s, p2, k) {
        Some(x) => x,
        None => {
            return None;
        },
    };
    let count = warnings.len() as u64;
    Some((UserWarnings { member, warnings, warning_count: count }, p3))
}

fn parse_group(s: &str, pos: usize) -> (r: Option<(GroupWarnings, usize)>)
    ensures
        match r {
            Some((g, p)) => dec_group_at(s@, pos as int) == Some((g@, p as int)) && g.wf(),
            None => dec_group_at(s@, pos as int) is None,
        },
{
    let (group, p) = match read_u64(s, pos) {
        Some(x) => x,
        None => {
            return None;
        },
    };
    let (k, p2) = match read_u64(s, p) {
        Some(x) => x,
        None => {
            return None;
        },
    };
    let mut acc: Vec<UserWarnings> = Vec::new();
    let mut cur: usize = p2;
    let mut j: u64 = 0;
    while j < k
        invariant
            j <= k,
            dec_u64_at(s@, pos as int) == Some((group, p as int)),
            dec_u64_at(s@, p as int) == Some((k, p2 as int)),
            forall|i: int| 0 <= i < acc@.len() ==> (#[trigger] acc@[i]).wf(),
            dec_user_seq_at(s@, p2 as int, k) == (match dec_user_seq_at(
                s@,
                cur as int,
                (k - j) as u64,
            ) {
                Some((us, q)) => Some(((acc@.map_values(|u: UserWarnings| u@) + us), q)),
                None => None::<(Seq<UserV>, int)>,
            }),
        decreases k - j,
    {
        let ghost accv: Seq<UserV> = acc@.map_values(|u: UserWarnings| u@);
        let (u, q) = match parse_user(s, cur) {
            Some(x) => x,
            None => {
                proof {
                    assert(dec_user_seq_at(s@, cur as int, (k - j) as u64) is None);
                    assert(dec_user_seq_at(s@, p2 as int, k) is None);
                    assert(dec_u64_at(s@, pos as int) == Some((group, p as int)));
                    assert(dec_u64_at(s@, p as int) == Some((k, p2 as int)));
                    assert(dec_group_at(s@, pos as int) is None);
                }
                return None;
            },
        };
        proof {
            if dec_user_seq_at(s@, q as int, (k - j - 1) as u64) is Some {
                let (us2, q2) = dec_user_seq_at(s@, q as int, (k - j - 1) as u64)->Some_0;
                assert(accv + (seq![u@] + us2) =~= accv.push(u@) + us2);
            }
        }
        acc.push(u);
        cur = q;
        proof {
            assert(acc@.map_values(|x: UserWarnings| x@) =~= accv.push(u@));
        }
        j = j + 1;
    }
    proof {
        assert(acc@.map_values(|x: UserWarnings| x@) + Seq::<UserV>::empty() =~= acc@.map_values(
            |x: UserWarnings| x@,
        ));
    }
    Some((GroupWarnings { group, users: acc }, cur))
}

/// Read back a whole ledger document, or `None` where the text is not a
/// ledger document.
pub fn decode_ledger(s: &str) -> (r: Option<crate::ledger::WarningLedger>)
    ensures
        match r {
            Some(l) => l.wf() && dec_ledger(s@) == Some(l@),
            None => dec_ledger(s@) is None,
        },
{
    let (k, p) = match read_u64(s, 0) {
        Some(x) => x,
        None => {
            return None;
        },
    };
    let mut acc: Vec<GroupWarnings> = Vec::new();
    let mut cur: usize = p;
    let mut j: u64 = 0;
    while j < k
        invariant
            j <= k,
            dec_u64_at(s@, 0) == Some((k, p as int)),
            forall|i: int| 0 <= i < acc@.len() ==> (#[trigger] acc@[i]).wf(),
            dec_group_seq_at(s@, p as int, k) == (match dec_group_seq_at(
                s@,
                cur as int,
                (k - j) as u64,
            ) {
                Some((gs, q)) => Some(((acc@.map_values(|g: GroupWarnings| g@) + gs), q)),
                None => None::<(Seq<GroupV>, int)>,
            }),
        decreases k - j,
    {
        let ghost accv: Seq<GroupV> = acc@.map_values(|g: GroupWarnings| g@);
        let (g, q) = match parse_group(s, cur) {
            Some(x) => x,
            None => {
                proof {
                    assert(dec_group_seq_at(s@, cur as int, (k - j) as u64) is None);
                    assert(dec_group_seq_at(s@, p as int, k) is None);
                    assert(dec_u64_at(s@, 0) == Some((k, p as int)));
                    assert(dec_ledger(s@) is None);
                }
                return None;
            },
        };
        proof {
            if dec_group_seq_at(s@, q as int, (k - j - 1) as u64) is Some {
                let (gs2, q2) = dec_group_seq_at(s@, q as int, (k - j - 1) as u64)->Some_0;
                assert(accv + (seq![g@] + gs2) =~= accv.push(g@) + gs2);
            }
        }
        acc.push(g);
        cur = q;
        proof {
            assert(acc@.map_values(|x: GroupWarnings| x@) =~= accv.push(g@));
        }
        j = j + 1;
    }
    proof {
        assert(acc@.map_values(|x: GroupWarnings| x@) + Seq::<GroupV>::empty() =~= acc@.map_values(
            |x: GroupWarnings| x@,
        ));
    }
    let len = s.unicode_len();
    if cur != len {
        return None;
    }
    Some(crate::ledger::WarningLedger { groups: acc })
}

// ---------------------------------------------------------------------------
// The settings-store document.
// ---------------------------------------------------------------------------

/// The encoding of an optional 64-bit integer: a presence byte, then the
/// value if present.
pub open spec fn enc_opt_u64(o: Option<u64>) -> Seq<char> {
    match o {
        Some(v) => enc_u8(1) + enc_u64(v),
        None => enc_u8(0),
    }
}

/// Decode an optional 64-bit integer at `pos`.
pub open spec fn dec_opt_u64_at(s: Seq<char>, pos: int) -> Option<(Option<u64>, int)> {
    match dec_u8_at(s, pos) {
        Some((tag, p)) => if tag == 1 {
            match dec_u64_at(s, p) {
                Some((v, p2)) => Some((Some(v), p2)),
                None => None,
            }
        } else if tag == 0 {
            Some((None, p))
        } else {
            None
        },
        None => None,
    }
}

/// The encoding of an optional signed 64-bit integer.
pub open spec fn enc_opt_i64(o: Option<i64>) -> Seq<char> {
    match o {
        Some(v) => enc_u8(1) + enc_i64(v),
        None => enc_u8(0),
    }
}

/// Decode an optional signed 64-bit integer at `pos`.
pub open spec fn dec_opt_i64_at(s: Seq<char>, pos: int) -> Option<(Option<i64>, int)> {
    match dec_u8_at(s, pos) {
        Some((tag, p)) => if tag == 1 {
            match dec_i64_at(s, p) {
                Some((v, p2)) => Some((Some(v), p2)),
                None => None,
            }
        } else if tag == 0 {
            Some((None, p))
        } else {
            None
        },
        None => None,
    }
}

/// The encoding of an optional machine-sized integer: as an optional 64-bit
/// value.
pub open spec fn enc_opt_usize(o: Option<usize>) -> Seq<char> {
    match o {
        Some(v) => enc_u8(1) + enc_u64(v as u64),
        None => enc_u8(0),
    }
}

/// Decode an optional machine-sized integer at `pos`.
pub open spec fn dec_opt_usize_at(s: Seq<char>, pos: int) -> Option<(Option<usize>, int)> {
    match dec_opt_u64_at(s, pos) {
        Some((Some(v), p)) => if v <= usize::MAX {
            Some((Some(v as usize), p))
        } else {
            None
        },
        Some((None, p)) => Some((None, p)),
        None => None,
    }
}

/// The encoding of a sparse duration: its four optional components.
pub open spec fn enc_timespec(t: TimeoutTime) -> Seq<char> {
    enc_opt_i64(t.seconds) + (enc_opt_i64(t.minutes) + (enc_opt_i64(t.hours) + enc_opt_i64(
        t.days,
    )))
}

/// Decode a sparse duration at `pos`.
pub open spec fn dec_timespec_at(s: Seq<char>, pos: int) -> Option<(TimeoutTime, int)> {
    match dec_opt_i64_at(s, pos) {
        Some((seconds, p)) => match dec_opt_i64_at(s, p) {
            Some((minutes, p2)) => match dec_opt_i64_at(s, p2) {
                Some((hours, p3)) => match dec_opt_i64_at(s, p3) {
                    Some((days, p4)) => Some((TimeoutTime { seconds, minutes, hours, days }, p4)),
                    None => None,
                },
                None => None,
            },
            None => None,
        },
        None => None,
    }
}

/// The encoding of an escalation policy: a variant tag, then its payload.
pub open spec fn enc_behavior(b: WarnBehavior) -> Seq<char> {
    match b {
        WarnBehavior::Nothing => enc_u8(0),
        WarnBehavior::Ban(t) => enc_u8(1) + enc_u8(t),
        WarnBehavior::Kick(t) => enc_u8(2) + enc_u8(t),
        WarnBehavior::Timeout { warning_count, duration } => enc_u8(3) + (enc_u8(warning_count)
            + enc_timespec(duration)),
    }
}

/// Decode an escalation policy at `pos`.
pub open spec fn dec_behavior_at(s: Seq<char>, pos: int) -> Option<(WarnBehavior, int)> {
    match dec_u8_at(s, pos) {
        Some((tag, p)) => if tag == 0 {
            Some((WarnBehavior::Nothing, p))
        } else if tag == 1 {
            match dec_u8_at(s, p) {
                Some((t, p2)) => Some((WarnBehavior::Ban(t), p2)),
                None => None,
            }
        } else if tag == 2 {
            match dec_u8_at(s, p) {
                Some((t, p2)) => Some((WarnBehavior::Kick(t), p2)),
                None => None,
            }
        } else if tag == 3 {
            match dec_u8_at(s, p) {
                Some((t, p2)) => match dec_timespec_at(s, p2) {
                    Some((d, p3)) => Some(
                        (WarnBehavior::Timeout { warning_count: t, duration: d }, p3),
                    ),
                    None => None,
                },
                None => None,
            }
        } else {
            None
        },
        None => None,
    }
}

/// The encoding of a run of restricted terms, in order.
pub open spec fn enc_word_seq(ws: Seq<Seq<char>>) -> Seq<char>
    decreases ws.len(),
{
    if ws.len() == 0 {
        Seq::empty()
    } else {
        enc_str(ws[0]) + enc_word_seq(ws.drop_first())
    }
}

/// Decode a run of `k` restricted terms at `pos`.
pub open spec fn dec_word_seq_at(s: Seq<char>, pos: int, k: u64) -> Option<(Seq<Seq<char>>, int)>
    decreases k,
{
    if k == 0 {
        Some((Seq::empty(), pos))
    } else {
        match dec_str_at(s, pos) {
            Some((w, p)) => match dec_word_seq_at(s, p, (k - 1) as u64) {
                Some((ws, p2)) => Some((seq![w] + ws, p2)),
                None => None,
            },
            None => None,
        }
    }
}

/// The encoding of one group's configuration.
pub open spec fn enc_settings(sv: SettingsV) -> Seq<char> {
    enc_behavior(sv.warning_behavior) + (enc_opt_u64(sv.log_channel) + (enc_opt_usize(
        sv.wiki_limit,
    ) + (enc_u64(sv.restricted_words.len() as u64) + enc_word_seq(sv.restricted_words))))
}

/// Decode one group's configuration at `pos`.
pub open spec fn dec_settings_at(s: Seq<char>, pos: int) -> Option<(SettingsV, int)> {
    match dec_behavior_at(s, pos) {
        Some((b, p)) => match dec_opt_u64_at(s, p) {
            Some((log_channel, p2)) => match dec_opt_usize_at(s, p2) {
                Some((wiki_limit, p3)) => match dec_u64_at(s, p3) {
                    Some((k, p4)) => match dec_word_seq_at(s, p4, k) {
                        Some((ws, p5)) => Some(
                            (
                                SettingsV {
                                    wiki_limit,
                                    log_channel,
                                    restricted_words: ws,
                                    warning_behavior: b,
                                },
                                p5,
                            ),
                        ),
                        None => None,
                    },
                    None => None,
                },
                None => None,
            },
            None => None,
        },
        None => None,
    }
}

/// The encoding of one group's record: the group, then its configuration.
pub open spec fn enc_guild(g: GuildSettingV) -> Seq<char> {
    enc_u64(g.gid) + enc_settings(g.settings)
}

/// Decode one group's record at `pos`.
pub open spec fn dec_guild_at(s: Seq<char>, pos: int) -> Option<(GuildSettingV, int)> {
    match dec_u64_at(s, pos) {
        Some((gid, p)) => match dec_settings_at(s, p) {
            Some((sv, p2)) => Some((GuildSettingV { gid, settings: sv }, p2)),
            None => None,
        },
        None => None,
    }
}

/// The encoding of a run of group records, in order.
pub open spec fn enc_guild_seq(gs: Seq<GuildSettingV>) -> Seq<char>
    decreases gs.len(),
{
    if gs.len() == 0 {
        Seq::empty()
    } else {
        enc_guild(gs[0]) + enc_guild_seq(gs.drop_first())
    }
}

/// Decode a run of `k` group records at `pos`.
pub open spec fn dec_guild_seq_at(s: Seq<char>, pos: int, k: u64) -> Option<
    (Seq<GuildSettingV>, int),
>
    decreases k,
{
    if k == 0 {
        Some((Seq::empty(), pos))
    } else {
        match dec_guild_at(s, pos) {
            Some((g, p)) => match dec_guild_seq_at(s, p, (k - 1) as u64) {
                Some((gs, p2)) => Some((seq![g] + gs, p2)),
                None => None,
            },
            None => None,
        }
    }
}

/// The encoding of the whole settings-store document: the record count,
/// then the records.
pub open spec fn enc_store(gs: Seq<GuildSettingV>) -> Seq<char> {
    enc_u64(gs.len() as u64) + enc_guild_seq(gs)
}

/// Decode a whole settings-store document. The document must be consumed
/// exactly.
pub open spec fn dec_store(s: Seq<char>) -> Option<Seq<GuildSettingV>> {
    match dec_u64_at(s, 0) {
        Some((k, p)) => match dec_guild_seq_at(s, p, k) {
            Some((gs, p2)) => if p2 == s.len() {
                Some(gs)
            } else {
                None
            },
            None => None,
        },
        None => None,
    }
}

/// Every count and length of the document fits the wire's 64-bit fields.
pub open spec fn settings_encodable(sv: SettingsV) -> bool {
    &&& sv.restricted_words.len() <= u64::MAX
    &&& forall|i: int|
        0 <= i < sv.restricted_words.len() ==> (#[trigger] sv.restricted_words[i]).len()
            <= u64::MAX
}

/// Every count and length of the document fits the wire's 64-bit fields.
pub open spec fn store_encodable(gs: Seq<GuildSettingV>) -> bool {
    &&& gs.len() <= u64::MAX
    &&& forall|i: int| 0 <= i < gs.len() ==> settings_encodable((#[trigger] gs[i]).settings)
}

proof fn lemma_dec_enc_opt_u64(s: Seq<char>, pos: int, o: Option<u64>)
    requires
        0 <= pos,
        pos + enc_opt_u64(o).len() <= s.len(),
        s.subrange(pos, pos + enc_opt_u64(o).len()) == enc_opt_u64(o),
    ensures
        dec_opt_u64_at(s, pos) == Some((o, pos + enc_opt_u64(o).len())),
{
    match o {
        Some(v) => {
            lemma_enc_u64_len(v);
            lemma_subrange_split(s, pos, enc_u8(1), enc_u64(v));
            lemma_dec_enc_u8(s, pos, 1);
            lemma_dec_enc_u64(s, pos + 1, v);
        },
        None => {
            lemma_dec_enc_u8(s, pos, 0);
        },
    }
}

proof fn lemma_dec_enc_opt_i64(s: Seq<char>, pos: int, o: Option<i64>)
    requires
        0 <= pos,
        pos + enc_opt_i64(o).len() <= s.len(),
        s.subrange(pos, pos + enc_opt_i64(o).len()) == enc_opt_i64(o),
    ensures
        dec_opt_i64_at(s, pos) == Some((o, pos + enc_opt_i64(o).len())),
{
    match o {
        Some(v) => {
            lemma_enc_u64_len(i64_bias(v));
            lemma_subrange_split(s, pos, enc_u8(1), enc_i64(v));
            lemma_dec_enc_u8(s, pos, 1);
            lemma_dec_enc_i64(s, pos + 1, v);
        },
        None => {
            lemma_dec_enc_u8(s, pos, 0);
        },
    }
}

proof fn lemma_dec_enc_opt_usize(s: Seq<char>, pos: int, o: Option<usize>)
    requires
        0 <= pos,
        pos + enc_opt_usize(o).len() <= s.len(),
        s.subrange(pos, pos + enc_opt_usize(o).len()) == enc_opt_usize(o),
    ensures
        dec_opt_usize_at(s, pos) == Some((o, pos + enc_opt_usize(o).len())),
{
    match o {
        Some(v) => {
            assert(enc_opt_usize(o) == enc_opt_u64(Some(v as u64)));
            lemma_dec_enc_opt_u64(s, pos, Some(v as u64));
        },
        None => {
            assert(enc_opt_usize(o) == enc_opt_u64(None::<u64>));
            lemma_dec_enc_opt_u64(s, pos, None::<u64>);
        },
    }
}

proof fn lemma_dec_enc_timespec(s: Seq<char>, pos: int, t: TimeoutTime)
    requires
        0 <= pos,
        pos + enc_timespec(t).len() <= s.len(),
        s.subrange(pos, pos + enc_timespec(t).len()) == enc_timespec(t),
    ensures
        dec_timespec_at(s, pos) == Some((t, pos + enc_timespec(t).len())),
{
    let a = enc_opt_i64(t.seconds);
    let b = enc_opt_i64(t.minutes);
    let c = enc_opt_i64(t.hours);
    let d = enc_opt_i64(t.days);
    lemma_subrange_split(s, pos, a, b + (c + d));
    lemma_dec_enc_opt_i64(s, pos, t.seconds);
    lemma_subrange_split(s, pos + a.len(), b, c + d);
    lemma_dec_enc_opt_i64(s, pos + a.len(), t.minutes);
    lemma_subrange_split(s, pos + a.len() + b.len(), c, d);
    lemma_dec_enc_opt_i64(s, pos + a.len() + b.len(), t.hours);
    lemma_dec_enc_opt_i64(s, pos + a.len() + b.len() + c.len(), t.days);
}

proof fn lemma_dec_enc_behavior(s: Seq<char>, pos: int, b: WarnBehavior)
    requires
        0 <= pos,
        pos + enc_behavior(b).len() <= s.len(),
        s.subrange(pos, pos + enc_behavior(b).len()) == enc_behavior(b),
    ensures
        dec_behavior_at(s, pos) == Some((b, pos + enc_behavior(b).len())),
{
    match b {
        WarnBehavior::Nothing => {
            lemma_dec_enc_u8(s, pos, 0);
        },
        WarnBehavior::Ban(t) => {
            lemma_subrange_split(s, pos, enc_u8(1), enc_u8(t));
            lemma_dec_enc_u8(s, pos, 1);
            lemma_dec_enc_u8(s, pos + 1, t);
        },
        WarnBehavior::Kick(t) => {
            lemma_subrange_split(s, pos, enc_u8(2), enc_u8(t));
            lemma_dec_enc_u8(s, pos, 2);
            lemma_dec_enc_u8(s, pos + 1, t);
        },
        WarnBehavior::Timeout { warning_count, duration } => {
            lemma_subrange_split(s, pos, enc_u8(3), enc_u8(warning_count) + enc_timespec(duration));
            lemma_dec_enc_u8(s, pos, 3);
            lemma_subrange_split(s, pos + 1, enc_u8(warning_count), enc_timespec(duration));
            lemma_dec_enc_u8(s, pos + 1, warning_count);
            lemma_dec_enc_timespec(s, pos + 2, duration);
        },
    }
}

proof fn lemma_dec_enc_word_seq(s: Seq<char>, pos: int, ws: Seq<Seq<char>>)
    requires
        0 <= pos,
        ws.len() <= u64::MAX,
        forall|i: int| 0 <= i < ws.len() ==> (#[trigger] ws[i]).len() <= u64::MAX,
        pos + enc_word_seq(ws).len() <= s.len(),
        s.subrange(pos, pos + enc_word_seq(ws).len()) == enc_word_seq(ws),
    ensures
        dec_word_seq_at(s, pos, ws.len() as u64) == Some((ws, pos + enc_word_seq(ws).len())),
    decreases ws.len(),
{
    if ws.len() == 0 {
        assert(ws =~= Seq::<Seq<char>>::empty());
    } else {
        let head = enc_str(ws[0]);
        let tail = enc_word_seq(ws.drop_first());
        lemma_subrange_split(s, pos, head, tail);
        lemma_enc_u64_len(ws[0].len() as u64);
        lemma_dec_enc_str(s, pos, ws[0]);
        lemma_dec_enc_word_seq(s, pos + head.len(), ws.drop_first());
        assert(seq![ws[0]] + ws.drop_first() =~= ws);
    }
}

proof fn lemma_dec_enc_settings(s: Seq<char>, pos: int, sv: SettingsV)
    requires
        0 <= pos,
        settings_encodable(sv),
        pos + enc_settings(sv).len() <= s.len(),
        s.subrange(pos, pos + enc_settings(sv).len()) == enc_settings(sv),
    ensures
        dec_settings_at(s, pos) == Some((sv, pos + enc_settings(sv).len())),
{
    let a = enc_behavior(sv.warning_behavior);
    let b = enc_opt_u64(sv.log_channel);
    let c = enc_opt_usize(sv.wiki_limit);
    let d = enc_u64(sv.restricted_words.len() as u64);
    let e = enc_word_seq(sv.restricted_words);
    lemma_enc_u64_len(sv.restricted_words.len() as u64);
    lemma_subrange_split(s, pos, a, b + (c + (d + e)));
    lemma_dec_enc_behavior(s, pos, sv.warning_behavior);
    lemma_subrange_split(s, pos + a.len(), b, c + (d + e));
    lemma_dec_enc_opt_u64(s, pos + a.len(), sv.log_channel);
    lemma_subrange_split(s, pos + a.len() + b.len(), c, d + e);
    lemma_dec_enc_opt_usize(s, pos + a.len() + b.len(), sv.wiki_limit);
    lemma_subrange_split(s, pos + a.len() + b.len() + c.len(), d, e);
    lemma_dec_enc_u64(s, pos + a.len() + b.len() + c.len(), sv.restricted_words.len() as u64);
    lemma_dec_enc_word_seq(s, pos + a.len() + b.len() + c.len() + d.len(), sv.restricted_words);
}

proof fn lemma_dec_enc_guild(s: Seq<char>, pos: int, g: GuildSettingV)
    requires
        0 <= pos,
        settings_encodable(g.settings),
        pos + enc_guild(g).len() <= s.len(),
        s.subrange(pos, pos + enc_guild(g).len()) == enc_guild(g),
    ensures
        dec_guild_at(s, pos) == Some((g, pos + enc_guild(g).len())),
{
    lemma_enc_u64_len(g.gid);
    lemma_subrange_split(s, pos, enc_u64(g.gid), enc_settings(g.settings));
    lemma_dec_enc_u64(s, pos, g.gid);
    lemma_dec_enc_settings(s, pos + 8, g.settings);
}

proof fn lemma_dec_enc_guild_seq(s: Seq<char>, pos: int, gs: Seq<GuildSettingV>)
    requires
        0 <= pos,
        gs.len() <= u64::MAX,
        forall|i: int| 0 <= i < gs.len() ==> settings_encodable((#[trigger] gs[i]).settings),
        pos + enc_guild_seq(gs).len() <= s.len(),
        s.subrange(pos, pos + enc_guild_seq(gs).len()) == enc_guild_seq(gs),
    ensures
        dec_guild_seq_at(s, pos, gs.len() as u64) == Some((gs, pos + enc_guild_seq(gs).len())),
    decreases gs.len(),
{
    if gs.len() == 0 {
        assert(gs =~= Seq::<GuildSettingV>::empty());
    } else {
        let head = enc_guild(gs[0]);
        let tail = enc_guild_seq(gs.drop_first());
        lemma_subrange_split(s, pos, head, tail);
        lemma_dec_enc_guild(s, pos, gs[0]);
        lemma_dec_enc_guild_seq(s, pos + head.len(), gs.drop_first());
        assert(seq![gs[0]] + gs.drop_first() =~= gs);
    }
}

/// Decoding an encoded settings-store document yields the document encoded,
/// entity for entity and field for field.
pub proof fn lemma_store_round_trip(gs: Seq<GuildSettingV>)
    requires
        store_encodable(gs),
    ensures
        dec_store(enc_store(gs)) == Some(gs),
{
    let s = enc_store(gs);
    lemma_enc_u64_len(gs.len() as u64);
    assert(s.subrange(0, s.len() as int) =~= s);
    lemma_subrange_split(s, 0, enc_u64(gs.len() as u64), enc_guild_seq(gs));
    lemma_dec_enc_u64(s, 0, gs.len() as u64);
    lemma_dec_enc_guild_seq(s, 8, gs);
}

// ---------------------------------------------------------------------------
// Executable encoding and decoding of the settings-store document.
// ---------------------------------------------------------------------------

fn write_opt_u64(out: &mut String, o: &Option<u64>)
    ensures
        final(out)@ == old(out)@ + enc_opt_u64(*o),
{
    let ghost g0: Seq<char> = out@;
    match o {
        Some(v) => {
            write_u8(out, 1);
            write_u64(out, *v);
            proof {
                assert(out@ =~= g0 + enc_opt_u64(*o));
            }
        },
        None => {
            write_u8(out, 0);
        },
    }
}

fn read_opt_u64(s: &str, pos: usize) -> (r: Option<(Option<u64>, usize)>)
    ensures
        match r {
            Some((o, p)) => dec_opt_u64_at(s@, pos as int) == Some((o, p as int)),
            None => dec_opt_u64_at(s@, pos as int) is None,
        },
{
    let (tag, p) = match read_u8(s, pos) {
        Some(x) => x,
        None => {
            return None;
        },
    };
    if tag == 1 {
        match read_u64(s, p) {
            Some((v, p2)) => Some((Some(v), p2)),
            None => None,
        }
    } else if tag == 0 {
        Some((None, p))
    } else {
        None
    }
}

fn write_opt_i64(out: &mut String, o: &Option<i64>)
    ensures
        final(out)@ == old(out)@ + enc_opt_i64(*o),
{
    let ghost g0: Seq<char> = out@;
    match o {
        Some(v) => {
            write_u8(out, 1);
            write_i64(out, *v);
            proof {
                assert(out@ =~= g0 + enc_opt_i64(*o));
            }
        },
        None => {
            write_u8(out, 0);
        },
    }
}

fn read_opt_i64(s: &str, pos: usize) -> (r: Option<(Option<i64>, usize)>)
    ensures
        match r {
            Some((o, p)) => dec_opt_i64_at(s@, pos as int) == Some((o, p as int)),
            None => dec_opt_i64_at(s@, pos as int) is None,
        },
{
    let (tag, p) = match read_u8(s, pos) {
        Some(x) => x,
        None => {
            return None;
        },
    };
    if tag == 1 {
        match read_i64(s, p) {
            Some((v, p2)) => Some((Some(v), p2)),
            None => None,
        }
    } else if tag == 0 {
        Some((None, p))
    } else {
        None
    }
}

fn write_opt_usize(out: &mut String, o: &Option<usize>)
    ensures
        final(out)@ == old(out)@ + enc_opt_usize(*o),
{
    let ghost g0: Seq<char> = out@;
    match o {
        Some(v) => {
            write_u8(out, 1);
            write_u64(out, *v as u64);
            proof {
                assert(out@ =~= g0 + enc_opt_usize(*o));
            }
        },
        None => {
            write_u8(out, 0);
        },
    }
}

fn read_opt_usize(s: &str, pos: usize) -> (r: Option<(Option<usize>, usize)>)
    ensures
        match r {
            Some((o, p)) => dec_opt_usize_at(s@, pos as int) == Some((o, p as int)),
            None => dec_opt_usize_at(s@, pos as int) is None,
        },
{
    match read_opt_u64(s, pos) {
        Some((Some(v), p)) => if v <= usize::MAX as u64 {
            Some((Some(v as usize), p))
        } else {
            None
        },
        Some((None, p)) => Some((None, p)),
        None => None,
    }
}

fn write_timespec(out: &mut String, t: &TimeoutTime)
    ensures
        final(out)@ == old(out)@ + enc_timespec(*t),
{
    let ghost g0: Seq<char> = out@;
    write_opt_i64(out, &t.seconds);
    write_opt_i64(out, &t.minutes);
    write_opt_i64(out, &t.hours);
    write_opt_i64(out, &t.days);
    proof {
        assert(out@ =~= g0 + enc_timespec(*t));
    }
}

fn read_timespec(s: &str, pos: usize) -> (r: Option<(TimeoutTime, usize)>)
    ensures
        match r {
            Some((t, p)) => dec_timespec_at(s@, pos as int) == Some((t, p as int)),
            None => dec_timespec_at(s@, pos as int) is None,
        },
{
    let (seconds, p) = match read_opt_i64(s, pos) {
        Some(x) => x,
        None => {
            return None;
        },
    };
    let (minutes, p2) = match read_opt_i64(s, p) {
        Some(x) => x,
        None => {
            return None;
        },
    };
    let (hours, p3) = match read_opt_i64(s, p2) {
        Some(x) => x,
        None => {
            return None;
        },
    };
    let (days, p4) = match read_opt_i64(s, p3) {
        Some(x) => x,
        None => {
            return None;
        },
    };
    Some((TimeoutTime { seconds, minutes, hours, days }, p4))
}

fn write_behavior(out: &mut String, b: &WarnBehavior)
    ensures
        final(out)@ == old(out)@ + enc_behavior(*b),
{
    let ghost g0: Seq<char> = out@;
    match b {
        WarnBehavior::Nothing => {
            write_u8(out, 0);
        },
        WarnBehavior::Ban(t) => {
            write_u8(out, 1);
            write_u8(out, *t);
            proof {
                assert(out@ =~= g0 + enc_behavior(*b));
            }
        },
        WarnBehavior::Kick(t) => {
            write_u8(out, 2);
            write_u8(out, *t);
            proof {
                assert(out@ =~= g0 + enc_behavior(*b));
            }
        },
        WarnBehavior::Timeout { warning_count, duration } => {
            write_u8(out, 3);
            write_u8(out, *warning_count);
            write_timespec(out, duration);
            proof {
                assert(out@ =~= g0 + enc_behavior(*b));
            }
        },
    }
}

fn read_behavior(s: &str, pos: usize) -> (r: Option<(WarnBehavior, usize)>)
    ensures
        match r {
            Some((b, p)) => dec_behavior_at(s@, pos as int) == Some((b, p as int)),
            None => dec_behavior_at(s@, pos as int) is None,
        },
{
    let (tag, p) = match read_u8(s, pos) {
        Some(x) => x,
        None => {
            return None;
        },
    };
    if tag == 0 {
        Some((WarnBehavior::Nothing, p))
    } else if tag == 1 {
        match read_u8(s, p) {
            Some((t, p2)) => Some((WarnBehavior::Ban(t), p2)),
            None => None,
        }
    } else if tag == 2 {
        match read_u8(s, p) {
            Some((t, p2)) => Some((WarnBehavior::Kick(t), p2)),
            None => None,
        }
    } else if tag == 3 {
        let (t, p2) = match read_u8(s, p) {
            Some(x) => x,
            None => {
                return None;
            },
        };
        match read_timespec(s, p2) {
            Some((d, p3)) => Some((WarnBehavior::Timeout { warning_count: t, duration: d }, p3)),
            None => None,
        }
    } else {
        None
    }
}

proof fn lemma_enc_word_seq_push(ws: Seq<Seq<char>>, w: Seq<char>)
    ensures
        enc_word_seq(ws.push(w)) == enc_word_seq(ws) + enc_str(w),
    decreases ws.len(),
{
    let pushed = ws.push(w);
    if ws.len() == 0 {
        assert(pushed[0] == w);
        assert(pushed.drop_first() =~= Seq::<Seq<char>>::empty());
        assert(enc_word_seq(pushed.drop_first()) == Seq::<char>::empty());
        assert(enc_word_seq(ws) == Seq::<char>::empty());
        assert(enc_word_seq(pushed) =~= enc_word_seq(ws) + enc_str(w));
    } else {
        lemma_enc_word_seq_push(ws.drop_first(), w);
        assert(pushed.drop_first() =~= ws.drop_first().push(w));
        assert(pushed[0] == ws[0]);
        assert(enc_str(ws[0]) + (enc_word_seq(ws.drop_first()) + enc_str(w)) =~= (enc_str(ws[0])
            + enc_word_seq(ws.drop_first())) + enc_str(w));
    }
}

proof fn lemma_enc_guild_seq_push(gs: Seq<GuildSettingV>, g: GuildSettingV)
    ensures
        enc_guild_seq(gs.push(g)) == enc_guild_seq(gs) + enc_guild(g),
    decreases gs.len(),
{
    let pushed = gs.push(g);
    if gs.len() == 0 {
        assert(pushed[0] == g);
        assert(pushed.drop_first() =~= Seq::<GuildSettingV>::empty());
        assert(enc_guild_seq(pushed.drop_first()) == Seq::<char>::empty());
        assert(enc_guild_seq(gs) == Seq::<char>::empty());
        assert(enc_guild_seq(pushed) =~= enc_guild_seq(gs) + enc_guild(g));
    } else {
        lemma_enc_guild_seq_push(gs.drop_first(), g);
        assert(pushed.drop_first() =~= gs.drop_first().push(g));
        assert(pushed[0] == gs[0]);
        assert(enc_guild(gs[0]) + (enc_guild_seq(gs.drop_first()) + enc_guild(g)) =~= (enc_guild(
            gs[0],
        ) + enc_guild_seq(gs.drop_first())) + enc_guild(g));
    }
}

fn write_settings(out: &mut String, sv: &Settings)
    ensures
        final(out)@ == old(out)@ + enc_settings(sv@),
{
    let ghost g0: Seq<char> = out@;
    write_behavior(out, &sv.warning_behavior);
    write_opt_u64(out, &sv.log_channel);
    write_opt_usize(out, &sv.wiki_limit);
    write_u64(out, sv.restricted_words.len() as u64);
    let ghost wsv: Seq<Seq<char>> = sv.restricted_words@.map_values(|w: String| w@);
    let ghost g1: Seq<char> = out@;
    let mut i: usize = 0;
    while i < sv.restricted_words.len()
        invariant
            i <= sv.restricted_words@.len(),
            wsv == sv.restricted_words@.map_values(|w: String| w@),
            out@ == g1 + enc_word_seq(wsv.take(i as int)),
        decreases sv.restricted_words@.len() - i,
    {
        write_str(out, sv.restricted_words[i].as_str());
        proof {
            lemma_enc_word_seq_push(wsv.take(i as int), wsv[i as int]);
            assert(wsv.take(i + 1) =~= wsv.take(i as int).push(wsv[i as int]));
            assert(g1 + enc_word_seq(wsv.take(i as int)) + enc_str(wsv[i as int]) =~= g1 + (
            enc_word_seq(wsv.take(i as int)) + enc_str(wsv[i as int])));
        }
        i = i + 1;
    }
    proof {
        assert(wsv.take(wsv.len() as int) =~= wsv);
        assert(out@ =~= g0 + enc_settings(sv@));
    }
}

fn parse_settings(s: &str, pos: usize) -> (r: Option<(Settings, usize)>)
    ensures
        match r {
            Some((sv, p)) => dec_settings_at(s@, pos as int) == Some((sv@, p as int)),
            None => dec_settings_at(s@, pos as int) is None,
        },
{
    let (b, p) = match read_behavior(s, pos) {
        Some(x) => x,
        None => {
            return None;
        },
    };
    let (log_channel, p2) = match read_opt_u64(s, p) {
        Some(x) => x,
        None => {
            return None;
        },
    };
    let (wiki_limit, p3) = match read_opt_usize(s, p2) {
        Some(x) => x,
        None => {
            return None;
        },
    };
    let (k, p4) = match read_u64(s, p3) {
        Some(x) => x,
        None => {
            return None;
        },
    };
    let mut acc: Vec<String> = Vec::new();
    let mut cur: usize = p4;
    let mut j: u64 = 0;
    while j < k
        invariant
            j <= k,
            dec_behavior_at(s@, pos as int) == Some((b, p as int)),
            dec_opt_u64_at(s@, p as int) == Some((log_channel, p2 as int)),
            dec_opt_usize_at(s@, p2 as int) == Some((wiki_limit, p3 as int)),
            dec_u64_at(s@, p3 as int) == Some((k, p4 as int)),
            dec_word_seq_at(s@, p4 as int, k) == (match dec_word_seq_at(
                s@,
                cur as int,
                (k - j) as u64,
            ) {
                Some((ws, q)) => Some(((acc@.map_values(|w: String| w@) + ws), q)),
                None => None::<(Seq<Seq<char>>, int)>,
            }),
        decreases k - j,
    {
        let ghost accv: Seq<Seq<char>> = acc@.map_values(|w: String| w@);
        let (w, q) = match read_str(s, cur) {
            Some(x) => x,
            None => {
                proof {
                    assert(dec_word_seq_at(s@, cur as int, (k - j) as u64) is None);
                    assert(dec_word_seq_at(s@, p4 as int, k) is None);
                    assert(dec_settings_at(s@, pos as int) is None);
                }
                return None;
            },
        };
        proof {
            if dec_word_seq_at(s@, q as int, (k - j - 1) as u64) is Some {
                let (ws2, q2) = dec_word_seq_at(s@, q as int, (k - j - 1) as u64)->Some_0;
                assert(accv + (seq![w@] + ws2) =~= accv.push(w@) + ws2);
            }
        }
        acc.push(w);
        cur = q;
        proof {
            assert(acc@.map_values(|x: String| x@) =~= accv.push(w@));
        }
        j = j + 1;
    }
    proof {
        assert(acc@.map_values(|x: String| x@) + Seq::<Seq<char>>::empty() =~= acc@.map_values(
            |x: String| x@,
        ));
    }
    let settings = Settings {
        wiki_limit,
        log_channel,
        restricted_words: acc,
        warning_behavior: b,
    };
    proof {
        assert(settings@ =~~= dec_settings_at(s@, pos as int)->Some_0.0);
    }
    Some((settings, cur))
}

/// Render the whole settings-store document.
pub fn encode_settings_store(store: &GuildSettings) -> (r: String)
    ensures
        r@ == enc_store(store@),
{
    let mut out = String::new();
    write_u64(&mut out, store.guilds.len() as u64);
    let ghost gsv: Seq<GuildSettingV> = store@;
    let mut i: usize = 0;
    while i < store.guilds.len()
        invariant
            i <= store.guilds@.len(),
            gsv == store.guilds@.map_values(|g: GuildSetting| g@),
            out@ == enc_u64(store.guilds@.len() as u64) + enc_guild_seq(gsv.take(i as int)),
        decreases store.guilds@.len() - i,
    {
        let ghost g1: Seq<char> = out@;
        write_u64(&mut out, store.guilds[i].gid);
        write_settings(&mut out, &store.guilds[i].settings);
        proof {
            assert(out@ =~= g1 + enc_guild(gsv[i as int]));
            lemma_enc_guild_seq_push(gsv.take(i as int), gsv[i as int]);
            assert(gsv.take(i + 1) =~= gsv.take(i as int).push(gsv[i as int]));
            assert(enc_u64(store.guilds@.len() as u64) + enc_guild_seq(gsv.take(i as int))
                + enc_guild(gsv[i as int]) =~= enc_u64(store.guilds@.len() as u64) + (enc_guild_seq(
                gsv.take(i as int),
            ) + enc_guild(gsv[i as int])));
        }
        i = i + 1;
    }
    proof {
        assert(gsv.take(gsv.len() as int) =~= gsv);
    }
    out
}

/// Read back a whole settings-store document, or `None` where the text is
/// not a settings-store document.
pub fn decode_settings_store(s: &str) -> (r: Option<GuildSettings>)
    ensures
        match r {
            Some(store) => dec_store(s@) == Some(store@),
            None => dec_store(s@) is None,
        },
{
    let (k, p) = match read_u64(s, 0) {
        Some(x) => x,
        None => {
            return None;
        },
    };
    let mut acc: Vec<GuildSetting> = Vec::new();
    let mut cur: usize = p;
    let mut j: u64 = 0;
    while j < k
        invariant
            j <= k,
            dec_u64_at(s@, 0) == Some((k, p as int)),
            dec_guild_seq_at(s@, p as int, k) == (match dec_guild_seq_at(
                s@,
                cur as int,
                (k - j) as u64,
            ) {
                Some((gs, q)) => Some(((acc@.map_values(|g: GuildSetting| g@) + gs), q)),
                None => None::<(Seq<GuildSettingV>, int)>,
            }),
        decreases k - j,
    {
        let ghost accv: Seq<GuildSettingV> = acc@.map_values(|g: GuildSetting| g@);
        let (gid, q) = match read_u64(s, cur) {
            Some(x) => x,
            None => {
                proof {
                    assert(dec_guild_at(s@, cur as int) is None);
                    assert(dec_guild_seq_at(s@, cur as int, (k - j) as u64) is None);
                    assert(dec_guild_seq_at(s@, p as int, k) is None);
                    assert(dec_store(s@) is None);
                }
                return None;
            },
        };
        let (settings, q2) = match parse_settings(s, q) {
            Some(x) => x,
            None => {
                proof {
                    assert(dec_guild_at(s@, cur as int) is None);
                    assert(dec_guild_seq_at(s@, cur as int, (k - j) as u64) is None);
                    assert(dec_guild_seq_at(s@, p as int, k) is None);
                    assert(dec_store(s@) is None);
                }
                return None;
            },
        };
        let g = GuildSetting { gid, settings };
        proof {
            assert(dec_guild_at(s@, cur as int) == Some((g@, q2 as int)));
            if dec_guild_seq_at(s@, q2 as int, (k - j - 1) as u64) is Some {
                let (gs2, q3) = dec_guild_seq_at(s@, q2 as int, (k - j - 1) as u64)->Some_0;
                assert(accv + (seq![g@] + gs2) =~= accv.push(g@) + gs2);
            }
        }
        acc.push(g);
        cur = q2;
        proof {
            assert(acc@.map_values(|x: GuildSetting| x@) =~= accv.push(g@));
        }
        j = j + 1;
    }
    proof {
        assert(acc@.map_values(|x: GuildSetting| x@) + Seq::<GuildSettingV>::empty()
            =~= acc@.map_values(|x: GuildSetting| x@));
    }
    let len = s.unicode_len();
    if cur != len {
        return None;
    }
    Some(GuildSettings { guilds: acc })
}

} // verus!
