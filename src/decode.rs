//! Reading tree objects back. Any MessagePack array of maps is accepted:
//! keys may be integers or decimal strings, integers and lengths may use any
//! width, unknown keys and values of other types are passed over, and a
//! later value for a key wins.

use vstd::prelude::*;
use vstd::utf8::{decode_utf8, valid_utf8};
use vstd::slice::slice_subrange;
use crate::tree::{
    array_head, be16, be32, be64, bin_bytes, encodable, entries_bytes, entry_bytes, key_bytes, name_bytes, str_bytes, tree_bytes,
    uint_bytes, TreeEntry, TreeEntryView, views,
};

verus! {

/// The header of one MessagePack item, with what the tree reader needs of it.
pub enum Head {
    /// A non-negative integer of any width.
    Uint(u64),
    /// A negative integer.
    Neg,
    /// A string's bytes.
    Str(Seq<u8>),
    /// A binary's bytes.
    Bin(Seq<u8>),
    /// An array of the given number of items.
    Arr(nat),
    /// A map of the given number of pairs.
    Mp(nat),
    /// Nil, a boolean, a float or an extension.
    Other,
}

pub open spec fn rd16(s: Seq<u8>, o: int) -> u16 {
    ((s[o] as u16) << 8u16) | (s[o + 1] as u16)
}

pub open spec fn rd32(s: Seq<u8>, o: int) -> u32 {
    ((s[o] as u32) << 24u32) | ((s[o + 1] as u32) << 16u32) | ((s[o + 2] as u32) << 8u32) | (s[o + 3] as u32)
}

pub open spec fn rd64(s: Seq<u8>, o: int) -> u64 {
    ((rd32(s, o) as u64) << 32u64) | (rd32(s, o + 4) as u64)
}

/// A head whose fixed part is `fixed` bytes and whose body is `n` bytes.
pub open spec fn sized(s: Seq<u8>, fixed: nat, n: nat, h: Head) -> Option<(Head, nat)> {
    if s.len() >= fixed + n {
        Some((h, fixed + n))
    } else {
        None
    }
}

/// The string or binary body of `n` bytes after `fixed` header bytes.
pub open spec fn body(s: Seq<u8>, fixed: nat, n: nat) -> Seq<u8> {
    s.subrange(fixed as int, (fixed + n) as int)
}

/// The item header at the front of `s`, and the bytes it spans together
/// with any string, binary, float or extension body.
#[verifier::opaque]
pub open spec fn head(s: Seq<u8>) -> Option<(Head, nat)> {
    if s.len() == 0 {
        None
    } else {
        let b = s[0];
        if b <= 0x7f {
            Some((Head::Uint(b as u64), 1))
        } else if b <= 0x8f {
            Some((Head::Mp((b - 0x80) as nat), 1))
        } else if b <= 0x9f {
            Some((Head::Arr((b - 0x90) as nat), 1))
        } else if b <= 0xbf {
            let n = (b - 0xa0) as nat;
            sized(s, 1, n, Head::Str(body(s, 1, n)))
        } else if b == 0xc0 || b == 0xc2 || b == 0xc3 {
            Some((Head::Other, 1))
        } else if b >= 0xe0 {
            Some((Head::Neg, 1))
        } else if s.len() < 2 {
            None
        } else if b == 0xc4 || b == 0xd9 {
            let n = s[1] as nat;
            sized(s, 2, n, if b == 0xc4 { Head::Bin(body(s, 2, n)) } else { Head::Str(body(s, 2, n)) })
        } else if b == 0xc7 {
            sized(s, 3, s[1] as nat, Head::Other)
        } else if b == 0xcc {
            Some((Head::Uint(s[1] as u64), 2))
        } else if b == 0xd0 {
            Some((if s[1] < 0x80 { Head::Uint(s[1] as u64) } else { Head::Neg }, 2))
        } else if b == 0xd4 {
            sized(s, 3, 0, Head::Other)
        } else if s.len() < 3 {
            None
        } else if b == 0xc5 || b == 0xda {
            let n = rd16(s, 1) as nat;
            sized(s, 3, n, if b == 0xc5 { Head::Bin(body(s, 3, n)) } else { Head::Str(body(s, 3, n)) })
        } else if b == 0xc8 {
            sized(s, 4, rd16(s, 1) as nat, Head::Other)
        } else if b == 0xcd {
            Some((Head::Uint(rd16(s, 1) as u64), 3))
        } else if b == 0xd1 {
            Some((if s[1] < 0x80 { Head::Uint(rd16(s, 1) as u64) } else { Head::Neg }, 3))
        } else if b == 0xd5 {
            sized(s, 4, 0, Head::Other)
        } else if b == 0xdc {
            Some((Head::Arr(rd16(s, 1) as nat), 3))
        } else if b == 0xde {
            Some((Head::Mp(rd16(s, 1) as nat), 3))
        } else if s.len() < 5 {
            None
        } else if b == 0xc6 || b == 0xdb {
            let n = rd32(s, 1) as nat;
            sized(s, 5, n, if b == 0xc6 { Head::Bin(body(s, 5, n)) } else { Head::Str(body(s, 5, n)) })
        } else if b == 0xc9 {
            sized(s, 6, rd32(s, 1) as nat, Head::Other)
        } else if b == 0xca {
            Some((Head::Other, 5))
        } else if b == 0xce {
            Some((Head::Uint(rd32(s, 1) as u64), 5))
        } else if b == 0xd2 {
            Some((if s[1] < 0x80 { Head::Uint(rd32(s, 1) as u64) } else { Head::Neg }, 5))
        } else if b == 0xd6 {
            sized(s, 6, 0, Head::Other)
        } else if b == 0xdd {
            Some((Head::Arr(rd32(s, 1) as nat), 5))
        } else if b == 0xdf {
            Some((Head::Mp(rd32(s, 1) as nat), 5))
        } else if b == 0xd7 {
            sized(s, 10, 0, Head::Other)
        } else if b == 0xd8 {
            sized(s, 18, 0, Head::Other)
        } else if s.len() < 9 {
            None
        } else if b == 0xcb {
            Some((Head::Other, 9))
        } else if b == 0xcf {
            Some((Head::Uint(rd64(s, 1)), 9))
        } else if b == 0xd3 {
            Some((if s[1] < 0x80 { Head::Uint(rd64(s, 1)) } else { Head::Neg }, 9))
        } else {
            None
        }
    }
}

/// How many items follow a header inside its container.
pub open spec fn children(h: Head) -> nat {
    match h {
        Head::Arr(n) => n,
        Head::Mp(n) => 2 * n,
        _ => 0,
    }
}

/// The bytes that `pending` complete items span at the front of `s`.
pub open spec fn skip_items(s: Seq<u8>, pending: nat) -> Option<nat>
    decreases s.len(),
{
    if pending == 0 {
        Some(0)
    } else if pending > s.len() {
        None
    } else {
        match head(s) {
            None => None,
            Some((h, l)) => if l == 0 || l > s.len() {
                None
            } else {
                match skip_items(s.skip(l as int), (pending - 1 + children(h)) as nat) {
                    None => None,
                    Some(k) => Some(l + k),
                }
            },
        }
    }
}

/// The exec form of [`Head`]: bodies are given as offset and length.
enum HeadX {
    Uint(u64),
    Neg,
    Str(usize, usize),
    Bin(usize, usize),
    Arr(u64),
    Mp(u64),
    Other,
}

spec fn head_view(h: HeadX, d: Seq<u8>) -> Head {
    match h {
        HeadX::Uint(v) => Head::Uint(v),
        HeadX::Neg => Head::Neg,
        HeadX::Str(o, n) => Head::Str(d.subrange(o as int, o + n)),
        HeadX::Bin(o, n) => Head::Bin(d.subrange(o as int, o + n)),
        HeadX::Arr(n) => Head::Arr(n as nat),
        HeadX::Mp(n) => Head::Mp(n as nat),
        HeadX::Other => Head::Other,
    }
}

spec fn head_bodies_in(h: HeadX, len: nat) -> bool {
    match h {
        HeadX::Str(o, n) => o + n <= len,
        HeadX::Bin(o, n) => o + n <= len,
        _ => true,
    }
}

fn x16(d: &[u8], o: usize) -> (r: u16)
    requires
        o + 2 <= d@.len(),
    ensures
        r == rd16(d@, o as int),
{
    ((d[o] as u16) << 8u16) | (d[o + 1] as u16)
}

fn x32(d: &[u8], o: usize) -> (r: u32)
    requires
        o + 4 <= d@.len(),
    ensures
        r == rd32(d@, o as int),
{
    ((d[o] as u32) << 24u32) | ((d[o + 1] as u32) << 16u32) | ((d[o + 2] as u32) << 8u32) | (d[o + 3] as u32)
}

fn x64(d: &[u8], o: usize) -> (r: u64)
    requires
        o + 8 <= d@.len(),
    ensures
        r == rd64(d@, o as int),
{
    let _n = d.len();
    ((x32(d, o) as u64) << 32u64) | (x32(d, o + 4) as u64)
}

/// Reads the header of the item at `pos`.
fn read_head(d: &[u8], pos: usize) -> (r: Option<(HeadX, usize)>)
    requires
        pos <= d@.len(),
    ensures
        match head(d@.skip(pos as int)) {
            None => r is None,
            Some((h, l)) => r matches Some((hx, lx)) && lx == l && head_view(hx, d@) == h && pos + l
                <= d@.len() && head_bodies_in(hx, d@.len()),
        },
{
    let ghost s = d@.skip(pos as int);
    reveal(head);
    let total = d.len();
    let avail = total - pos;
    if avail == 0 {
        return None;
    }
    let b = d[pos];
    assert(s[0] == b);
    if b <= 0x7f {
        return Some((HeadX::Uint(b as u64), 1));
    } else if b <= 0x8f {
        return Some((HeadX::Mp((b - 0x80) as u64), 1));
    } else if b <= 0x9f {
        return Some((HeadX::Arr((b - 0x90) as u64), 1));
    } else if b <= 0xbf {
        let n = (b - 0xa0) as usize;
        if avail < 1 + n {
            return None;
        }
        assert(d@.subrange(pos + 1, pos + 1 + n) =~= body(s, 1, n as nat));
        return Some((HeadX::Str(pos + 1, n), 1 + n));
    } else if b == 0xc0 || b == 0xc2 || b == 0xc3 {
        return Some((HeadX::Other, 1));
    } else if b >= 0xe0 {
        return Some((HeadX::Neg, 1));
    } else if avail < 2 {
        return None;
    }
    let b1 = d[pos + 1];
    assert(s[1] == b1);
    if b == 0xc4 || b == 0xd9 {
        let n = b1 as usize;
        if avail - 2 < n {
            return None;
        }
        assert(d@.subrange(pos + 2, pos + 2 + n) =~= body(s, 2, n as nat));
        if b == 0xc4 {
            return Some((HeadX::Bin(pos + 2, n), 2 + n));
        } else {
            return Some((HeadX::Str(pos + 2, n), 2 + n));
        }
    } else if b == 0xc7 {
        let n = b1 as usize;
        if avail < 3 || avail - 3 < n {
            return None;
        }
        return Some((HeadX::Other, 3 + n));
    } else if b == 0xcc {
        return Some((HeadX::Uint(b1 as u64), 2));
    } else if b == 0xd0 {
        if b1 < 0x80 {
            return Some((HeadX::Uint(b1 as u64), 2));
        } else {
            return Some((HeadX::Neg, 2));
        }
    } else if b == 0xd4 {
        if avail < 3 {
            return None;
        }
        return Some((HeadX::Other, 3));
    } else if avail < 3 {
        return None;
    }
    let v16 = x16(d, pos + 1);
    assert(v16 == rd16(s, 1));
    if b == 0xc5 || b == 0xda {
        let n = v16 as usize;
        if avail - 3 < n {
            return None;
        }
        assert(d@.subrange(pos + 3, pos + 3 + n) =~= body(s, 3, n as nat));
        if b == 0xc5 {
            return Some((HeadX::Bin(pos + 3, n), 3 + n));
        } else {
            return Some((HeadX::Str(pos + 3, n), 3 + n));
        }
    } else if b == 0xc8 {
        let n = v16 as usize;
        if avail < 4 || avail - 4 < n {
            return None;
        }
        return Some((HeadX::Other, 4 + n));
    } else if b == 0xcd {
        return Some((HeadX::Uint(v16 as u64), 3));
    } else if b == 0xd1 {
        if b1 < 0x80 {
            return Some((HeadX::Uint(v16 as u64), 3));
        } else {
            return Some((HeadX::Neg, 3));
        }
    } else if b == 0xd5 {
        if avail < 4 {
            return None;
        }
        return Some((HeadX::Other, 4));
    } else if b == 0xdc {
        return Some((HeadX::Arr(v16 as u64), 3));
    } else if b == 0xde {
        return Some((HeadX::Mp(v16 as u64), 3));
    } else if avail < 5 {
        return None;
    }
    let v32 = x32(d, pos + 1);
    assert(v32 == rd32(s, 1));
    if b == 0xc6 || b == 0xdb {
        let n = v32 as u64;
        if ((avail - 5) as u64) < n {
            return None;
        }
        let n = n as usize;
        assert(d@.subrange(pos + 5, pos + 5 + n) =~= body(s, 5, n as nat));
        if b == 0xc6 {
            return Some((HeadX::Bin(pos + 5, n), 5 + n));
        } else {
            return Some((HeadX::Str(pos + 5, n), 5 + n));
        }
    } else if b == 0xc9 {
        let n = v32 as u64;
        if avail < 6 || ((avail - 6) as u64) < n {
            return None;
        }
        return Some((HeadX::Other, 6 + n as usize));
    } else if b == 0xca {
        return Some((HeadX::Other, 5));
    } else if b == 0xce {
        return Some((HeadX::Uint(v32 as u64), 5));
    } else if b == 0xd2 {
        if b1 < 0x80 {
            return Some((HeadX::Uint(v32 as u64), 5));
        } else {
            return Some((HeadX::Neg, 5));
        }
    } else if b == 0xd6 {
        if avail < 6 {
            return None;
        }
        return Some((HeadX::Other, 6));
    } else if b == 0xdd {
        return Some((HeadX::Arr(v32 as u64), 5));
    } else if b == 0xdf {
        return Some((HeadX::Mp(v32 as u64), 5));
    } else if b == 0xd7 {
        if avail < 10 {
            return None;
        }
        return Some((HeadX::Other, 10));
    } else if b == 0xd8 {
        if avail < 18 {
            return None;
        }
        return Some((HeadX::Other, 18));
    } else if avail < 9 {
        return None;
    }
    let v64 = x64(d, pos + 1);
    assert(v64 == rd64(s, 1));
    if b == 0xcb {
        Some((HeadX::Other, 9))
    } else if b == 0xcf {
        Some((HeadX::Uint(v64), 9))
    } else if b == 0xd3 {
        if b1 < 0x80 {
            Some((HeadX::Uint(v64), 9))
        } else {
            Some((HeadX::Neg, 9))
        }
    } else {
        None
    }
}

/// The position just past `count` complete items starting at `pos`.
fn skip(d: &[u8], pos: usize, count: u64) -> (r: Option<usize>)
    requires
        pos <= d@.len(),
    ensures
        match skip_items(d@.skip(pos as int), count as nat) {
            None => r is None,
            Some(k) => r matches Some(q) && q == pos + k && q <= d@.len(),
        },
{
    let total = d.len();
    let mut p = pos;
    let mut pending: u128 = count as u128;
    loop
        invariant
            pos <= p <= d@.len(),
            total == d@.len(),
            pending <= 3 * (u64::MAX as u128),
            skip_items(d@.skip(pos as int), count as nat) == match skip_items(d@.skip(p as int), pending as nat) {
                Some(k) => Some(((p - pos) + k) as nat),
                None => None::<nat>,
            },
        decreases d@.len() - p,
    {
        if pending == 0 {
            return Some(p);
        }
        let avail = total - p;
        if pending > avail as u128 {
            return None;
        }
        assert(pending <= u64::MAX);
        match read_head(d, p) {
            None => {
                return None;
            },
            Some((h, l)) => {
                if l == 0 {
                    return None;
                }
                let c: u128 = match h {
                    HeadX::Arr(n) => n as u128,
                    HeadX::Mp(n) => 2 * (n as u128),
                    _ => 0,
                };
                assert(children(head_view(h, d@)) == c);
                assert(d@.skip(p as int).skip(l as int) =~= d@.skip(p + l));
                pending = pending - 1 + c;
                p = p + l;
            },
        }
    }
}

/// The default fields of an entry before any key is read.
pub open spec fn empty_entry() -> TreeEntryView {
    TreeEntryView { name: Seq::empty(), kind: 0, mode: 0, size: 0, hash: Seq::empty() }
}

pub open spec fn is_digit(c: u8) -> bool {
    0x30 <= c <= 0x39
}

/// The value of a run of decimal digits.
pub open spec fn dec_value(b: Seq<u8>) -> nat
    decreases b.len(),
{
    if b.len() == 0 {
        0
    } else {
        dec_value(b.drop_last()) * 10 + (b.last() - 0x30) as nat
    }
}

/// A key string without its optional leading `+`.
pub open spec fn key_digits(b: Seq<u8>) -> Seq<u8> {
    if b.len() > 0 && b[0] == 0x2b {
        b.drop_first()
    } else {
        b
    }
}

/// One or more decimal digits.
pub open spec fn all_digits(b: Seq<u8>) -> bool {
    b.len() > 0 && forall|i: int| 0 <= i < b.len() ==> is_digit(#[trigger] b[i])
}

/// The field a decimal-string key names: its number when the string is an
/// optional `+` and one or more digits worth 1 to 5, else 0 (no field).
pub open spec fn str_key(b: Seq<u8>) -> u8 {
    if all_digits(key_digits(b)) && 1 <= dec_value(key_digits(b)) <= 5 {
        dec_value(key_digits(b)) as u8
    } else {
        0
    }
}

/// The field a key names (0 for none), or `None` for a key that is neither
/// integer nor string, whose pair is passed over.
pub open spec fn field_of(h: Head) -> Option<u8> {
    match h {
        Head::Uint(v) => Some(
            if 1 <= v <= 5 {
                v as u8
            } else {
                0
            },
        ),
        Head::Neg => Some(0),
        Head::Str(b) => Some(str_key(b)),
        _ => None,
    }
}

/// An integer value as an unsigned number; a negative one reads as 0.
pub open spec fn int_of(h: Head) -> Option<u64> {
    match h {
        Head::Uint(v) => Some(v),
        Head::Neg => Some(0),
        _ => None,
    }
}

/// The entry after reading the value `vh` under field `f`. A value of the
/// wrong type leaves the entry as it was; a name that is not UTF-8 reads as
/// empty.
pub open spec fn apply(e: TreeEntryView, f: u8, vh: Head) -> TreeEntryView {
    if f == 1 {
        match vh {
            Head::Str(b) => TreeEntryView {
                name: if valid_utf8(b) {
                    decode_utf8(b)
                } else {
                    Seq::empty()
                },
                kind: e.kind,
                mode: e.mode,
                size: e.size,
                hash: e.hash,
            },
            _ => e,
        }
    } else if f == 2 {
        match int_of(vh) {
            Some(v) => TreeEntryView { name: e.name, kind: v as u8, mode: e.mode, size: e.size, hash: e.hash },
            None => e,
        }
    } else if f == 3 {
        match int_of(vh) {
            Some(v) => TreeEntryView { name: e.name, kind: e.kind, mode: v as u32, size: e.size, hash: e.hash },
            None => e,
        }
    } else if f == 4 {
        match int_of(vh) {
            Some(v) => TreeEntryView { name: e.name, kind: e.kind, mode: e.mode, size: v, hash: e.hash },
            None => e,
        }
    } else if f == 5 {
        match vh {
            Head::Bin(b) => TreeEntryView { name: e.name, kind: e.kind, mode: e.mode, size: e.size, hash: b },
            _ => e,
        }
    } else {
        e
    }
}

/// The entry after the pair whose key starts `s` and whose value starts
/// `kl` bytes later.
pub open spec fn step(e: TreeEntryView, s: Seq<u8>, kl: nat) -> TreeEntryView {
    match head(s) {
        Some((kh, _)) => match field_of(kh) {
            Some(f) => match head(s.skip(kl as int)) {
                Some((vh, _)) => apply(e, f, vh),
                None => e,
            },
            None => e,
        },
        None => e,
    }
}

/// Reading `m` key/value pairs into `e`: the entry and the bytes spanned.
pub open spec fn pairs(s: Seq<u8>, m: nat, e: TreeEntryView) -> Option<(TreeEntryView, nat)>
    decreases m,
{
    if m == 0 {
        Some((e, 0))
    } else {
        match skip_items(s, 1) {
            None => None,
            Some(kl) => match skip_items(s.skip(kl as int), 1) {
                None => None,
                Some(vl) => match pairs(s.skip((kl + vl) as int), (m - 1) as nat, step(e, s, kl)) {
                    None => None,
                    Some((e2, l)) => Some((e2, kl + vl + l)),
                },
            },
        }
    }
}

/// One entry, a map, at the front of `s`.
pub open spec fn entry_at(s: Seq<u8>) -> Option<(TreeEntryView, nat)> {
    match head(s) {
        Some((Head::Mp(m), l)) => match pairs(s.skip(l as int), m, empty_entry()) {
            Some((e, k)) => Some((e, l + k)),
            None => None,
        },
        _ => None,
    }
}

/// `n` entries one after another at the front of `s`.
pub open spec fn entries_at(s: Seq<u8>, n: nat) -> Option<(Seq<TreeEntryView>, nat)>
    decreases n,
{
    if n == 0 {
        Some((Seq::empty(), 0))
    } else {
        match entry_at(s) {
            None => None,
            Some((e, l)) => match entries_at(s.skip(l as int), (n - 1) as nat) {
                None => None,
                Some((es, k)) => Some((seq![e] + es, l + k)),
            },
        }
    }
}

/// The entries a tree object holds, or `None` where the bytes do not start
/// with a well-formed array of maps.
pub open spec fn tree_entries(s: Seq<u8>) -> Option<Seq<TreeEntryView>> {
    match head(s) {
        Some((Head::Arr(n), l)) => match entries_at(s.skip(l as int), n) {
            Some((es, _)) => Some(es),
            None => None,
        },
        _ => None,
    }
}

/// Relies on `std::str::from_utf8`: it succeeds exactly on valid UTF-8,
/// and the text then has those bytes as its encoding.
#[verifier::external_body]
fn utf8_text(b: &[u8]) -> (r: Option<String>)
    ensures
        r is Some <==> valid_utf8(b@),
        r matches Some(t) ==> t@ == decode_utf8(b@),
{
    match std::str::from_utf8(b) {
        Ok(t) => Some(t.to_string()),
        Err(_) => None,
    }
}

fn str_key_x(b: &[u8]) -> (r: u8)
    ensures
        r == str_key(b@),
{
    let n = b.len();
    let start: usize = if n > 0 && b[0] == 0x2b { 1 } else { 0 };
    let ghost digits = key_digits(b@);
    assert(digits =~= b@.subrange(start as int, n as int));
    if start == n {
        return 0;
    }
    let mut v: u64 = 0;
    let mut i: usize = start;
    while i < n
        invariant
            start <= i <= n,
            n == b@.len(),
            start < n,
            digits == key_digits(b@),
            digits == b@.subrange(start as int, n as int),
            v <= 69,
            forall|k: int| start <= k < i ==> is_digit(b@[k]),
            v <= 5 ==> v == dec_value(b@.subrange(start as int, i as int)),
            v > 5 ==> dec_value(b@.subrange(start as int, i as int)) > 5,
        decreases n - i,
    {
        let c = b[i];
        if c < 0x30 || c > 0x39 {
            assert(!is_digit(digits[i - start]));
            assert(!all_digits(digits));
            return 0;
        }
        assert(b@.subrange(start as int, i + 1).drop_last() =~= b@.subrange(start as int, i as int));
        if v > 5 {
            v = 6;
        } else {
            v = v * 10 + (c - 0x30) as u64;
        }
        i = i + 1;
    }
    assert(b@.subrange(start as int, n as int) =~= digits);
    assert forall|k: int| 0 <= k < digits.len() implies is_digit(#[trigger] digits[k]) by {
        assert(digits[k] == b@[start + k]);
    }
    if 1 <= v && v <= 5 {
        v as u8
    } else {
        0
    }
}

fn field_of_x(d: &[u8], h: &HeadX) -> (r: Option<u8>)
    requires
        head_bodies_in(*h, d@.len()),
    ensures
        r == field_of(head_view(*h, d@)),
{
    let _total = d.len();
    match h {
        HeadX::Uint(v) => Some(
            if 1 <= *v && *v <= 5 {
                *v as u8
            } else {
                0
            },
        ),
        HeadX::Neg => Some(0),
        HeadX::Str(o, n) => Some(str_key_x(slice_subrange(d, *o, *o + *n))),
        _ => None,
    }
}

fn int_of_x(h: &HeadX) -> (r: Option<u64>)
    ensures
        forall|d: Seq<u8>| r == int_of(#[trigger] head_view(*h, d)),
{
    match h {
        HeadX::Uint(v) => Some(*v),
        HeadX::Neg => Some(0),
        _ => None,
    }
}

fn apply_x(e: &mut TreeEntry, f: u8, d: &[u8], vh: &HeadX)
    requires
        head_bodies_in(*vh, d@.len()),
    ensures
        final(e)@ == apply(old(e)@, f, head_view(*vh, d@)),
{
    let _total = d.len();
    let iv = int_of_x(vh);
    assert(iv == int_of(head_view(*vh, d@)));
    if f == 1 {
        if let HeadX::Str(o, n) = vh {
            match utf8_text(slice_subrange(d, *o, *o + *n)) {
                Some(t) => e.name = t,
                None => e.name = String::new(),
            }
        }
    } else if f == 2 {
        if let Some(v) = iv {
            e.kind = v as u8;
        }
    } else if f == 3 {
        if let Some(v) = iv {
            e.mode = v as u32;
        }
    } else if f == 4 {
        if let Some(v) = iv {
            e.size = v;
        }
    } else if f == 5 {
        if let HeadX::Bin(o, n) = vh {
            e.hash = vstd::slice::slice_to_vec(slice_subrange(d, *o, *o + *n));
        }
    }
}

/// Applies the pair whose key is at `p` and whose value is at `vpos`.
fn read_pair(d: &[u8], p: usize, vpos: usize, e: &mut TreeEntry)
    requires
        p <= vpos <= d@.len(),
    ensures
        final(e)@ == step(old(e)@, d@.skip(p as int), (vpos - p) as nat),
{
    let ghost s = d@.skip(p as int);
    assert(s.skip(vpos - p) =~= d@.skip(vpos as int));
    match read_head(d, p) {
        Some((kh, _)) => {
            match field_of_x(d, &kh) {
                Some(f) => {
                    match read_head(d, vpos) {
                        Some((vh, _)) => apply_x(e, f, d, &vh),
                        None => {},
                    }
                },
                None => {},
            }
        },
        None => {},
    }
}

/// Reads one entry, a map, at `pos`; returns it and the position after it.
fn read_entry(d: &[u8], pos: usize) -> (r: Option<(TreeEntry, usize)>)
    requires
        pos <= d@.len(),
    ensures
        match entry_at(d@.skip(pos as int)) {
            None => r is None,
            Some((e, l)) => r matches Some((x, q)) && x@ == e && q == pos + l && q <= d@.len(),
        },
{
    let (m, hl) = match read_head(d, pos) {
        Some((HeadX::Mp(m), hl)) => (m, hl),
        _ => {
            return None;
        },
    };
    let _total = d.len();
    assert(d@.skip(pos as int).skip(hl as int) =~= d@.skip(pos + hl));
    let start = pos + hl;
    let mut e = TreeEntry { name: String::new(), kind: 0, mode: 0, size: 0, hash: Vec::new() };
    assert(e@ == empty_entry());
    let mut p = start;
    let mut i: u64 = 0;
    while i < m
        invariant
            start <= p <= d@.len(),
            start == pos + hl,
            head(d@.skip(pos as int)) == Some((Head::Mp(m as nat), hl as nat)),
            d@.skip(pos as int).skip(hl as int) == d@.skip(start as int),
            i <= m,
            pairs(d@.skip(start as int), m as nat, empty_entry()) == match pairs(d@.skip(p as int), (m - i) as nat, e@) {
                Some((e2, k)) => Some((e2, ((p - start) + k) as nat)),
                None => None::<(TreeEntryView, nat)>,
            },
        decreases m - i,
    {
        let ghost s = d@.skip(p as int);
        let vpos = match skip(d, p, 1) {
            Some(q) => q,
            None => {
                assert(pairs(d@.skip(p as int), (m - i) as nat, e@) is None);
                return None;
            },
        };
        assert(p <= vpos <= d@.len());
        let ghost kl = (vpos - p) as nat;
        assert(s.skip(kl as int) =~= d@.skip(vpos as int));
        let end = match skip(d, vpos, 1) {
            Some(q) => q,
            None => {
                assert(pairs(d@.skip(p as int), (m - i) as nat, e@) is None);
                return None;
            },
        };
        assert(vpos <= end <= d@.len());
        let ghost vl = (end - vpos) as nat;
        assert(s.skip((kl + vl) as int) =~= d@.skip(end as int));
        read_pair(d, p, vpos, &mut e);
        p = end;
        i = i + 1;
    }
    assert(pairs(d@.skip(p as int), 0, e@) == Some((e@, 0nat)));
    Some((e, p))
}

/// Reads a tree object: its entries in stored order, or `None` where the
/// bytes are not a well-formed array of maps.
pub fn decode_tree(data: &[u8]) -> (r: Option<Vec<TreeEntry>>)
    ensures
        match tree_entries(data@) {
            None => r is None,
            Some(es) => r matches Some(v) && views(v@) == es,
        },
{
    assert(data@.skip(0) =~= data@);
    let (n, hl) = match read_head(data, 0) {
        Some((HeadX::Arr(n), hl)) => (n, hl),
        _ => {
            return None;
        },
    };
    assert(data@.skip(0) =~= data@);
    let _total = data.len();
    let start = hl;
    let mut out: Vec<TreeEntry> = Vec::new();
    let mut p = start;
    let mut i: u64 = 0;
    while i < n
        invariant
            start <= p <= data@.len(),
            start == hl,
            head(data@) == Some((Head::Arr(n as nat), hl as nat)),
            data@.len() <= usize::MAX,
            i <= n,
            entries_at(data@.skip(start as int), n as nat) == match entries_at(data@.skip(p as int), (n - i) as nat) {
                Some((es, k)) => Some((views(out@) + es, ((p - start) + k) as nat)),
                None => None::<(Seq<TreeEntryView>, nat)>,
            },
        decreases n - i,
    {
        let (e, q) = match read_entry(data, p) {
            Some(x) => x,
            None => {
                assert(entries_at(data@.skip(p as int), (n - i) as nat) is None);
                return None;
            },
        };
        let ghost old_out = out@;
        assert(data@.skip(p as int).skip(q - p) =~= data@.skip(q as int));
        out.push(e);
        assert(views(out@) =~= views(old_out) + seq![e@]);
        proof {
            let rest = entries_at(data@.skip(q as int), (n - i - 1) as nat);
            if let Some((es, k)) = rest {
                assert(views(old_out) + (seq![e@] + es) =~= views(out@) + es);
            }
        }
        p = q;
        i = i + 1;
    }
    assert(views(out@) + Seq::<TreeEntryView>::empty() =~= views(out@));
    Some(out)
}

// ---- reading back what the encoder writes ----

proof fn lemma_be16_back(s: Seq<u8>, o: int, v: u16)
    requires
        0 <= o,
        o + 2 <= s.len(),
        s.subrange(o, o + 2) == be16(v),
    ensures
        rd16(s, o) == v,
{
    assert(s[o] == s.subrange(o, o + 2)[0] && s[o + 1] == s.subrange(o, o + 2)[1]);
    assert(((((v >> 8u16) as u8) as u16) << 8u16) | (((v & 0xffu16) as u8) as u16) == v) by (bit_vector);
}

proof fn lemma_be32_back(s: Seq<u8>, o: int, v: u32)
    requires
        0 <= o,
        o + 4 <= s.len(),
        s.subrange(o, o + 4) == be32(v),
    ensures
        rd32(s, o) == v,
{
    let w = s.subrange(o, o + 4);
    assert(s[o] == w[0] && s[o + 1] == w[1] && s[o + 2] == w[2] && s[o + 3] == w[3]);
    assert(((((v >> 24u32) as u8) as u32) << 24u32) | (((((v >> 16u32) & 0xffu32) as u8) as u32) << 16u32)
        | (((((v >> 8u32) & 0xffu32) as u8) as u32) << 8u32) | (((v & 0xffu32) as u8) as u32) == v) by (bit_vector);
}

proof fn lemma_be64_back(s: Seq<u8>, o: int, v: u64)
    requires
        0 <= o,
        o + 8 <= s.len(),
        s.subrange(o, o + 8) == be64(v),
    ensures
        rd64(s, o) == v,
{
    let hi = (v >> 32u64) as u32;
    let lo = (v & 0xffff_ffffu64) as u32;
    assert(s.subrange(o, o + 4) =~= s.subrange(o, o + 8).subrange(0, 4));
    assert(s.subrange(o + 4, o + 8) =~= s.subrange(o, o + 8).subrange(4, 8));
    assert(be64(v).subrange(0, 4) =~= be32(hi));
    assert(be64(v).subrange(4, 8) =~= be32(lo));
    lemma_be32_back(s, o, hi);
    lemma_be32_back(s, o + 4, lo);
    assert((((((v >> 32u64) as u32) as u64) << 32u64) | (((v & 0xffff_ffffu64) as u32) as u64)) == v) by (bit_vector);
}

proof fn lemma_head_uint(v: u64, rest: Seq<u8>)
    ensures
        head(uint_bytes(v) + rest) == Some((Head::Uint(v), uint_bytes(v).len())),
{
    reveal(head);
    let s = uint_bytes(v) + rest;
    if v < 128 {
    } else if v < 256 {
    } else if v < 65536 {
        assert(s.subrange(1, 3) =~= be16(v as u16));
        lemma_be16_back(s, 1, v as u16);
    } else if v <= 0xffff_ffff {
        assert(s.subrange(1, 5) =~= be32(v as u32));
        lemma_be32_back(s, 1, v as u32);
    } else {
        assert(s.subrange(1, 9) =~= be64(v));
        lemma_be64_back(s, 1, v);
    }
}

proof fn lemma_head_str(b: Seq<u8>, rest: Seq<u8>)
    requires
        b.len() <= 0xffff_ffff,
    ensures
        head(str_bytes(b) + rest) == Some((Head::Str(b), str_bytes(b).len())),
{
    reveal(head);
    let s = str_bytes(b) + rest;
    let n = b.len();
    if n < 32 {
        assert(body(s, 1, n) =~= b);
    } else if n < 256 {
        assert(body(s, 2, n) =~= b);
    } else if n < 65536 {
        assert(s.subrange(1, 3) =~= be16(n as u16));
        lemma_be16_back(s, 1, n as u16);
        assert(body(s, 3, n) =~= b);
    } else {
        assert(s.subrange(1, 5) =~= be32(n as u32));
        lemma_be32_back(s, 1, n as u32);
        assert(body(s, 5, n) =~= b);
    }
}

proof fn lemma_head_bin(b: Seq<u8>, rest: Seq<u8>)
    requires
        b.len() <= 0xffff_ffff,
    ensures
        head(bin_bytes(b) + rest) == Some((Head::Bin(b), bin_bytes(b).len())),
{
    reveal(head);
    let s = bin_bytes(b) + rest;
    let n = b.len();
    if n < 256 {
        assert(body(s, 2, n) =~= b);
    } else if n < 65536 {
        assert(s.subrange(1, 3) =~= be16(n as u16));
        lemma_be16_back(s, 1, n as u16);
        assert(body(s, 3, n) =~= b);
    } else {
        assert(s.subrange(1, 5) =~= be32(n as u32));
        lemma_be32_back(s, 1, n as u32);
        assert(body(s, 5, n) =~= b);
    }
}

proof fn lemma_head_key(k: u8, rest: Seq<u8>)
    requires
        1 <= k <= 5,
    ensures
        head(key_bytes(k) + rest) == Some((Head::Str(seq![(0x30 + k) as u8]), 2nat)),
        field_of(Head::Str(seq![(0x30 + k) as u8])) == Some(k),
{
    reveal(head);
    let s = key_bytes(k) + rest;
    assert(body(s, 1, 1) =~= seq![(0x30 + k) as u8]);
    let d = seq![(0x30 + k) as u8];
    assert(key_digits(d) == d);
    assert(d.drop_last() =~= Seq::<u8>::empty());
    assert(dec_value(d.drop_last()) == 0);
    assert(d.last() == (0x30 + k) as u8);
    assert(dec_value(d) == dec_value(d.drop_last()) * 10 + (d.last() - 0x30) as nat);
    assert(dec_value(d) == k);
    assert(all_digits(d));
}

proof fn lemma_head_array(n: nat, rest: Seq<u8>)
    requires
        n <= 0xffff_ffff,
    ensures
        head(array_head(n) + rest) == Some((Head::Arr(n), array_head(n).len())),
{
    reveal(head);
    let s = array_head(n) + rest;
    if n < 16 {
    } else if n < 65536 {
        assert(s.subrange(1, 3) =~= be16(n as u16));
        lemma_be16_back(s, 1, n as u16);
    } else {
        assert(s.subrange(1, 5) =~= be32(n as u32));
        lemma_be32_back(s, 1, n as u32);
    }
}

proof fn lemma_head_map5(rest: Seq<u8>)
    ensures
        head(seq![0x85u8] + rest) == Some((Head::Mp(5), 1nat)),
{
    reveal(head);
}

proof fn lemma_skip_one(s: Seq<u8>, h: Head, l: nat)
    requires
        head(s) == Some((h, l)),
        children(h) == 0,
        1 <= l <= s.len(),
    ensures
        skip_items(s, 1) == Some(l),
{
    assert(skip_items(s.skip(l as int), 0) == Some(0nat));
}

proof fn lemma_pair(s: Seq<u8>, k: u8, vpiece: Seq<u8>, vh: Head, rest: Seq<u8>, m: nat, e: TreeEntryView)
    requires
        1 <= k <= 5,
        m >= 1,
        s == key_bytes(k) + vpiece + rest,
        head(vpiece + rest) == Some((vh, vpiece.len())),
        children(vh) == 0,
        vpiece.len() >= 1,
    ensures
        pairs(s, m, e) == match pairs(rest, (m - 1) as nat, apply(e, k, vh)) {
            Some((e2, l)) => Some((e2, 2 + vpiece.len() + l)),
            None => None,
        },
{
    let kh = Head::Str(seq![(0x30 + k) as u8]);
    assert(s =~= key_bytes(k) + (vpiece + rest));
    lemma_head_key(k, vpiece + rest);
    lemma_skip_one(s, kh, 2);
    assert(s.skip(2) =~= vpiece + rest);
    lemma_skip_one(vpiece + rest, vh, vpiece.len());
    assert(s.skip(2 + vpiece.len() as int) =~= rest);
    assert(step(e, s, 2) == apply(e, k, vh));
}

proof fn lemma_entry_back(e: TreeEntryView, rest: Seq<u8>)
    requires
        name_bytes(e).len() <= 0xffff_ffff,
        e.hash.len() <= 0xffff_ffff,
    ensures
        entry_at(entry_bytes(e) + rest) == Some((e, entry_bytes(e).len())),
{
    let nb = name_bytes(e);
    let v1 = str_bytes(nb);
    let v2 = uint_bytes(e.kind as u64);
    let v3 = uint_bytes(e.mode as u64);
    let v4 = uint_bytes(e.size);
    let v5 = bin_bytes(e.hash);
    let s5 = key_bytes(5) + v5 + rest;
    let s4 = key_bytes(4) + v4 + s5;
    let s3 = key_bytes(3) + v3 + s4;
    let s2 = key_bytes(2) + v2 + s3;
    let s1 = key_bytes(1) + v1 + s2;
    let s = entry_bytes(e) + rest;
    assert(s =~= seq![0x85u8] + s1);
    lemma_head_map5(s1);
    assert(s.skip(1) =~= s1);
    lemma_head_str(nb, s2);
    lemma_head_uint(e.kind as u64, s3);
    lemma_head_uint(e.mode as u64, s4);
    lemma_head_uint(e.size, s5);
    lemma_head_bin(e.hash, rest);
    let e0 = empty_entry();
    vstd::utf8::encode_utf8_valid_utf8(e.name);
    vstd::utf8::encode_utf8_decode_utf8(e.name);
    let e1 = apply(e0, 1, Head::Str(nb));
    let e2 = apply(e1, 2, Head::Uint(e.kind as u64));
    let e3 = apply(e2, 3, Head::Uint(e.mode as u64));
    let e4 = apply(e3, 4, Head::Uint(e.size));
    let e5 = apply(e4, 5, Head::Bin(e.hash));
    assert(e5 == e);
    lemma_pair(s5, 5, v5, Head::Bin(e.hash), rest, 1, e4);
    lemma_pair(s4, 4, v4, Head::Uint(e.size), s5, 2, e3);
    lemma_pair(s3, 3, v3, Head::Uint(e.mode as u64), s4, 3, e2);
    lemma_pair(s2, 2, v2, Head::Uint(e.kind as u64), s3, 4, e1);
    lemma_pair(s1, 1, v1, Head::Str(nb), s2, 5, e0);
    assert(pairs(rest, 0, e5) == Some((e5, 0nat)));
}

proof fn lemma_entries_bytes_front(e: TreeEntryView, es: Seq<TreeEntryView>)
    ensures
        entries_bytes(seq![e] + es) == entry_bytes(e) + entries_bytes(es),
    decreases es.len(),
{
    if es.len() == 0 {
        assert(seq![e] + es =~= seq![e]);
        assert(seq![e].drop_last() =~= Seq::<TreeEntryView>::empty());
        assert(es =~= Seq::<TreeEntryView>::empty());
        assert(entries_bytes(Seq::<TreeEntryView>::empty()) == Seq::<u8>::empty());
        assert(seq![e].last() == e);
        assert(entries_bytes(seq![e]) == entries_bytes(Seq::<TreeEntryView>::empty()) + entry_bytes(e));
        assert(entry_bytes(e) + Seq::<u8>::empty() =~= entry_bytes(e));
        assert(Seq::<u8>::empty() + entry_bytes(e) =~= entry_bytes(e));
    } else {
        lemma_entries_bytes_front(e, es.drop_last());
        assert((seq![e] + es).drop_last() =~= seq![e] + es.drop_last());
        assert((seq![e] + es).last() == es.last());
        assert(entries_bytes(seq![e] + es) =~= entry_bytes(e) + entries_bytes(es));
    }
}

proof fn lemma_entries_back(es: Seq<TreeEntryView>, rest: Seq<u8>)
    requires
        encodable(es),
    ensures
        entries_at(entries_bytes(es) + rest, es.len()) == Some((es, entries_bytes(es).len())),
    decreases es.len(),
{
    if es.len() == 0 {
        assert(entries_bytes(es) + rest =~= rest);
        assert(es =~= Seq::<TreeEntryView>::empty());
    } else {
        let e = es[0];
        let t = es.drop_first();
        assert(es =~= seq![e] + t);
        lemma_entries_bytes_front(e, t);
        assert(encodable(t)) by {
            assert forall|i: int| 0 <= i < t.len() implies name_bytes(#[trigger] t[i]).len() <= 0xffff_ffff
                && t[i].hash.len() <= 0xffff_ffff by {
                assert(t[i] == es[i + 1]);
            }
        }
        assert(name_bytes(es[0]).len() <= 0xffff_ffff);
        lemma_entries_back(t, rest);
        let s = entries_bytes(es) + rest;
        assert(s =~= entry_bytes(e) + (entries_bytes(t) + rest));
        lemma_entry_back(e, entries_bytes(t) + rest);
        assert(s.skip(entry_bytes(e).len() as int) =~= entries_bytes(t) + rest);
        assert(seq![e] + t == es);
    }
}

/// Reading back a tree object gives the entries it was written from, in
/// the order they were written.
pub proof fn lemma_tree_round_trip(es: Seq<TreeEntryView>)
    requires
        encodable(es),
    ensures
        tree_entries(tree_bytes(es)) == Some(es),
{
    let body = entries_bytes(es);
    lemma_head_array(es.len(), body);
    lemma_entries_back(es, Seq::empty());
    assert(body + Seq::<u8>::empty() =~= body);
    assert(tree_bytes(es).skip(array_head(es.len()).len() as int) =~= body);
}

} // verus!
