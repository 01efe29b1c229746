//! The 1C V8 container format (`.cf`, `.epf`, `.hbk`).
//!
//! ```text
//! file: [16-byte header][element table block][blocks...]
//! block header: "\r\n" + 8 hex (data size) + " " + 8 hex (page size)
//!               + " " + 8 hex (next page address) + " " + "\r\n"   = 31 bytes
//! element table: triples of u32 (header address, data address, 0x7fffffff)
//! element header: 8 bytes created, 8 bytes modified, 4 zero bytes,
//!                 name in UTF-16LE, 4 zero bytes
//! element data: raw deflate or as is; may itself be a container
//! ```
//!
//! Every address comes from the file itself; on a damaged container it points
//! anywhere, so every read is clamped to the buffer and a broken block is an
//! error, never a panic.

use std::io::Read;
use vstd::prelude::*;
use vstd::utf8::{decode_utf8, valid_utf8};
use crate::text::{chars_of, debug_quoted, debug_text, decimal, push_chars, push_decimal, push_str, string_of, trim, trimmed};

verus! {

/// The empty address: both "no continuation" and the filler of the third word
/// of an element-table triple.
pub const EMPTY: u32 = 0x7FFF_FFFF;

/// Length of a block header.
pub const HDR: usize = 31;

/// A refused container.
#[derive(Debug)]
pub struct ContainerError(pub String);

impl ContainerError {
    /// The text of the refusal.
    pub fn message(&self) -> (res: String)
        ensures
            res@ == self.0@,
    {
        self.0.clone()
    }
}

// ── bytes ──────────────────────────────────────────────────────────────────

/// `buf[from..to]` with Python slice semantics: out-of-range bounds are
/// clamped to the buffer instead of failing.
pub open spec fn window(buf: Seq<u8>, from: int, to: int) -> Seq<u8> {
    let f = if from < buf.len() { from } else { buf.len() as int };
    let t = if to < f { f } else if to > buf.len() { buf.len() as int } else { to };
    buf.subrange(f, t)
}

fn slice(buf: &[u8], from: usize, to: usize) -> (res: &[u8])
    ensures
        res@ == window(buf@, from as int, to as int),
{
    let f = if from < buf.len() { from } else { buf.len() };
    let t = if to < f { f } else if to > buf.len() { buf.len() } else { to };
    &buf[f..t]
}

pub proof fn lemma_window_len(buf: Seq<u8>, from: int, to: int)
    requires
        0 <= from,
    ensures
        window(buf, from, to).len() <= buf.len(),
        from <= to ==> window(buf, from, to).len() <= to - from,
{
}

/// `window(buf, from, from + extra)` without overflow: past the end of the
/// buffer every bound reads the same.
fn window_at(buf: &[u8], from: usize, extra: usize) -> (res: &[u8])
    ensures
        res@ == window(buf@, from as int, from + extra),
{
    let n = buf.len();
    assert(buf@.len() == n);
    slice(buf, from, from.saturating_add(extra))
}

/// A little-endian `u32` at `off`; `0` when fewer than four bytes remain.
pub open spec fn le32(buf: Seq<u8>, off: int) -> u32 {
    let b = window(buf, off, off + 4);
    if b.len() < 4 {
        0
    } else {
        (b[0] + b[1] * 256 + b[2] * 65536 + b[3] * 16777216) as u32
    }
}

fn u32_le(buf: &[u8], off: usize) -> (res: u32)
    ensures
        res == le32(buf@, off as int),
{
    let b = window_at(buf, off, 4);
    if b.len() < 4 {
        return 0;
    }
    b[0] as u32 + b[1] as u32 * 256 + b[2] as u32 * 65536 + b[3] as u32 * 16777216
}

// ── hex fields ─────────────────────────────────────────────────────────────

/// The value of a hexadecimal digit.
pub open spec fn hex_digit(c: char) -> Option<nat> {
    if '0' <= c && c <= '9' {
        Some((c as nat - '0' as nat) as nat)
    } else if 'a' <= c && c <= 'f' {
        Some((c as nat - 'a' as nat + 10) as nat)
    } else if 'A' <= c && c <= 'F' {
        Some((c as nat - 'A' as nat + 10) as nat)
    } else {
        None
    }
}

/// Every character is a hexadecimal digit.
pub open spec fn all_hex(s: Seq<char>) -> bool {
    forall|i: int| 0 <= i < s.len() ==> (#[trigger] hex_digit(s[i])) is Some
}

/// The number written by hexadecimal digits.
pub open spec fn hex_number(s: Seq<char>) -> nat
    decreases s.len(),
{
    if s.len() == 0 {
        0
    } else {
        hex_number(s.drop_last()) * 16 + hex_digit(s.last()).unwrap()
    }
}

/// `u32::from_str_radix(s, 16)`: an optional `+`, then at least one
/// hexadecimal digit, and a value that fits in `u32`.
pub open spec fn radix16(s: Seq<char>) -> Option<u32> {
    let d = if s.len() > 0 && s[0] == '+' { s.drop_first() } else { s };
    if d.len() == 0 || !all_hex(d) {
        None
    } else if hex_number(d) <= u32::MAX {
        Some(hex_number(d) as u32)
    } else {
        None
    }
}

/// A header field: its bytes read as UTF-8 text, trimmed, in hexadecimal.
pub open spec fn header_field(raw: Seq<u8>) -> Option<u32> {
    if valid_utf8(raw) {
        radix16(trim(decode_utf8(raw)))
    } else {
        None
    }
}

/// Why a header field is refused: its bytes are not UTF-8, or their text
/// (quoted) is not hexadecimal.
pub open spec fn field_refusal(raw: Seq<u8>) -> Seq<char> {
    if valid_utf8(raw) {
        let quoted = debug_text(decode_utf8(raw));
        "ru: Не hex в заголовке блока: "@ + quoted + ", en: Block header is not hex: "@ + quoted
    } else {
        "ru: Не hex в заголовке блока, en: Block header is not hex"@
    }
}

/// The bytes as UTF-8 text; `None` when they are not valid UTF-8.
///
/// Trusted: `std::str::from_utf8` accepts exactly the valid UTF-8 sequences
/// and then holds the characters they encode.
#[verifier::external_body]
pub(crate) fn utf8_text(bytes: &[u8]) -> (res: Option<String>)
    ensures
        res is Some <==> valid_utf8(bytes@),
        res matches Some(s) ==> s@ == decode_utf8(bytes@),
{
    match std::str::from_utf8(bytes) {
        Ok(s) => Some(s.to_string()),
        Err(_) => None,
    }
}

fn hex_digit_exec(c: char) -> (res: Option<u32>)
    ensures
        match res {
            Some(v) => hex_digit(c) == Some(v as nat),
            None => hex_digit(c) is None,
        },
{
    if '0' <= c && c <= '9' {
        Some(c as u32 - '0' as u32)
    } else if 'a' <= c && c <= 'f' {
        Some(c as u32 - 'a' as u32 + 10)
    } else if 'A' <= c && c <= 'F' {
        Some(c as u32 - 'A' as u32 + 10)
    } else {
        None
    }
}

proof fn lemma_hex_number_prefix(s: Seq<char>, i: int, j: int)
    requires
        0 <= i <= j <= s.len(),
        all_hex(s),
    ensures
        hex_number(s.take(i)) <= hex_number(s.take(j)),
    decreases j - i,
{
    if i < j {
        lemma_hex_number_prefix(s, i, j - 1);
        assert(s.take(j).drop_last() =~= s.take(j - 1));
        assert(hex_digit(s[j - 1]) is Some);
        assert(s.take(j).last() == s[j - 1]);
    }
}

fn radix16_exec(s: &[char]) -> (res: Option<u32>)
    ensures
        res == radix16(s@),
{
    let n = s.len();
    let start: usize = if n > 0 && s[0] == '+' { 1 } else { 0 };
    let ghost d = if s@.len() > 0 && s@[0] == '+' { s@.drop_first() } else { s@ };
    assert(d =~= s@.subrange(start as int, n as int));
    if start == n {
        return None;
    }
    let mut v: u64 = 0;
    let mut i: usize = start;
    while i < n
        invariant
            start <= i <= n,
            n == s@.len(),
            d == s@.subrange(start as int, n as int),
            d == (if s@.len() > 0 && s@[0] == '+' { s@.drop_first() } else { s@ }),
            d.len() > 0,
            forall|k: int| 0 <= k < i - start ==> (#[trigger] hex_digit(d[k])) is Some,
            v as nat == hex_number(d.take(i - start)),
            v <= u32::MAX,
        decreases n - i,
    {
        let ghost k = i - start;
        match hex_digit_exec(s[i]) {
            Some(h) => {
                assert(d[k] == s@[i as int]);
                assert(d.take(k + 1).drop_last() =~= d.take(k));
                assert(d.take(k + 1).last() == d[k]);
                let w = v * 16 + h as u64;
                if w > u32::MAX as u64 {
                    proof {
                        assert(hex_number(d.take(k + 1)) == w);
                        // Every remaining character must be a digit for a value
                        // to exist at all; if one is not, there is none either.
                        if all_hex(d) {
                            lemma_hex_number_prefix(d, k + 1, d.len() as int);
                            assert(d.take(d.len() as int) =~= d);
                        }
                    }
                    return None;
                }
                v = w;
                i = i + 1;
            },
            None => {
                assert(d[k] == s@[i as int]);
                assert(!all_hex(d));
                return None;
            },
        }
    }
    assert(d.take(n - start) =~= d);
    assert(all_hex(d));
    Some(v as u32)
}

/// The eight hex digits of a block-header field as a number.
fn hex_field(head: &[u8], from: usize, to: usize) -> (res: Result<u32, ContainerError>)
    ensures
        match res {
            Ok(v) => header_field(window(head@, from as int, to as int)) == Some(v),
            Err(e) => header_field(window(head@, from as int, to as int)) is None
                && e.0@ == field_refusal(window(head@, from as int, to as int)),
        },
{
    let raw = slice(head, from, to);
    let text = match utf8_text(raw) {
        Some(t) => t,
        None => {
            return Err(ContainerError(String::from_str("ru: Не hex в заголовке блока, en: Block header is not hex")));
        },
    };
    let cs = chars_of(text.as_str());
    let t = trimmed(&cs);
    match radix16_exec(&t) {
        Some(v) => Ok(v),
        None => {
            let quoted = debug_quoted(&cs);
            let mut msg: Vec<char> = Vec::new();
            push_str(&mut msg, "ru: Не hex в заголовке блока: ");
            push_str(&mut msg, quoted.as_str());
            push_str(&mut msg, ", en: Block header is not hex: ");
            push_str(&mut msg, quoted.as_str());
            Err(ContainerError(string_of(&msg)))
        },
    }
}

// ── blocks ─────────────────────────────────────────────────────────────────

/// The smaller of two integers.
pub open spec fn min(a: int, b: int) -> int {
    if a < b { a } else { b }
}

/// The data gathered by following continuation pages from `next`, having
/// gathered `acc` of `size` bytes so far; `None` when a page header is cut off
/// or holds a field that is not hexadecimal. An empty page ends the chain.
pub open spec fn page_chain(buf: Seq<u8>, next: int, acc: Seq<u8>, size: int) -> Option<Seq<u8>>
    decreases size - acc.len(),
{
    if next == EMPTY as int || acc.len() >= size || next < 0 {
        Some(acc)
    } else {
        let head = window(buf, next, next + HDR as int);
        if head.len() < HDR as int {
            None
        } else {
            match header_field(window(head, 11, 19)) {
                None => None,
                Some(page) => match header_field(window(head, 20, 28)) {
                    None => None,
                    Some(nxt) => {
                        let pos = next + HDR as int;
                        let chunk = window(buf, pos, pos + min(page as int, size - acc.len()));
                        if chunk.len() == 0 {
                            Some(acc)
                        } else {
                            proof {
                                lemma_window_len(buf, pos, pos + min(page as int, size - acc.len()));
                            }
                            page_chain(buf, nxt as int, acc + chunk, size)
                        }
                    },
                },
            }
        }
    }
}

/// The data of the block whose header is at `addr`, joined from its pages;
/// `None` when there is no block header there or a page is broken.
#[verifier::opaque]
pub open spec fn block_at(buf: Seq<u8>, addr: int) -> Option<Seq<u8>> {
    let head = window(buf, addr, addr + HDR as int);
    if head.len() < HDR as int || head[0] != 13u8 || head[1] != 10u8 {
        None
    } else {
        match header_field(window(head, 2, 10)) {
            None => None,
            Some(size) => match header_field(window(head, 11, 19)) {
                None => None,
                Some(page) => match header_field(window(head, 20, 28)) {
                    None => None,
                    Some(next) => {
                        let pos = addr + HDR as int;
                        let first = window(buf, pos, pos + min(page as int, size as int));
                        match page_chain(buf, next as int, first, size as int) {
                            None => None,
                            Some(data) => Some(data.take(min(data.len() as int, size as int))),
                        }
                    },
                },
            },
        }
    }
}

/// A refusal that names an address: the Russian words, the address, the
/// English words, the address.
pub open spec fn at_address(ru: Seq<char>, en: Seq<char>, addr: int) -> Seq<char> {
    ru + decimal(addr as nat) + en + decimal(addr as nat)
}

/// No block header at `addr`.
pub open spec fn no_header_text(addr: int) -> Seq<char> {
    at_address("ru: Не заголовок блока по адресу "@, ", en: Not a block header at address "@, addr)
}

/// The page header at `addr` is cut off by the end of the file.
pub open spec fn truncated_text(addr: int) -> Seq<char> {
    at_address("ru: Обрыв цепочки страниц на адресе "@, ", en: Page chain truncated at address "@, addr)
}

/// Why [`page_chain`] with the same arguments is `None`: the first broken
/// page on the way (empty where it is not `None`).
pub open spec fn chain_refusal(buf: Seq<u8>, next: int, acc: Seq<u8>, size: int) -> Seq<char>
    decreases size - acc.len(),
{
    if next == EMPTY as int || acc.len() >= size || next < 0 {
        Seq::empty()
    } else {
        let head = window(buf, next, next + HDR as int);
        if head.len() < HDR as int {
            truncated_text(next)
        } else {
            match header_field(window(head, 11, 19)) {
                None => field_refusal(window(head, 11, 19)),
                Some(page) => match header_field(window(head, 20, 28)) {
                    None => field_refusal(window(head, 20, 28)),
                    Some(nxt) => {
                        let pos = next + HDR as int;
                        let chunk = window(buf, pos, pos + min(page as int, size - acc.len()));
                        if chunk.len() == 0 {
                            Seq::empty()
                        } else {
                            proof {
                                lemma_window_len(buf, pos, pos + min(page as int, size - acc.len()));
                            }
                            chain_refusal(buf, nxt as int, acc + chunk, size)
                        }
                    },
                },
            }
        }
    }
}

/// Why [`block_at`] with the same arguments is `None`.
#[verifier::opaque]
pub open spec fn block_refusal(buf: Seq<u8>, addr: int) -> Seq<char> {
    let head = window(buf, addr, addr + HDR as int);
    if head.len() < HDR as int || head[0] != 13u8 || head[1] != 10u8 {
        no_header_text(addr)
    } else {
        match header_field(window(head, 2, 10)) {
            None => field_refusal(window(head, 2, 10)),
            Some(size) => match header_field(window(head, 11, 19)) {
                None => field_refusal(window(head, 11, 19)),
                Some(page) => match header_field(window(head, 20, 28)) {
                    None => field_refusal(window(head, 20, 28)),
                    Some(next) => {
                        let pos = addr + HDR as int;
                        let first = window(buf, pos, pos + min(page as int, size as int));
                        chain_refusal(buf, next as int, first, size as int)
                    },
                },
            },
        }
    }
}

fn push_bytes(out: &mut Vec<u8>, v: &[u8])
    ensures
        final(out)@ == old(out)@ + v@,
{
    let mut i: usize = 0;
    while i < v.len()
        invariant
            0 <= i <= v.len(),
            out@ == old(out)@ + v@.subrange(0, i as int),
        decreases v.len() - i,
    {
        out.push(v[i]);
        i = i + 1;
        assert(v@.subrange(0, i as int) == v@.subrange(0, i - 1) + seq![v@[i - 1]]);
    }
    assert(v@.subrange(0, v@.len() as int) == v@);
}

fn address_error(ru: &str, en: &str, addr: usize) -> (res: ContainerError)
    ensures
        res.0@ == at_address(ru@, en@, addr as int),
{
    let mut msg: Vec<char> = Vec::new();
    push_str(&mut msg, ru);
    push_decimal(&mut msg, addr as u64);
    push_str(&mut msg, en);
    push_decimal(&mut msg, addr as u64);
    ContainerError(string_of(&msg))
}

/// The data of a block, joined from its continuation pages.
pub fn read_block(buf: &[u8], addr: usize) -> (res: Result<Vec<u8>, ContainerError>)
    ensures
        match res {
            Ok(v) => block_at(buf@, addr as int) == Some(v@),
            Err(e) => block_at(buf@, addr as int) is None && e.0@ == block_refusal(buf@, addr as int),
        },
{
    reveal(block_at);
    reveal(block_refusal);
    let head = window_at(buf, addr, HDR);
    if head.len() < HDR || head[0] != 13u8 || head[1] != 10u8 {
        return Err(address_error(
            "ru: Не заголовок блока по адресу ",
            ", en: Not a block header at address ",
            addr,
        ));
    }
    let data_size = match hex_field(head, 2, 10) {
        Ok(v) => v as usize,
        Err(e) => { return Err(e); },
    };
    let page_size = match hex_field(head, 11, 19) {
        Ok(v) => v as usize,
        Err(e) => { return Err(e); },
    };
    let mut next_addr = match hex_field(head, 20, 28) {
        Ok(v) => v as usize,
        Err(e) => { return Err(e); },
    };

    let mut out: Vec<u8> = Vec::new();
    let take = if page_size < data_size { page_size } else { data_size };
    let first = if addr <= usize::MAX - HDR { window_at(buf, addr + HDR, take) } else { slice(buf, buf.len(), buf.len()) };
    assert(first@ == window(buf@, addr + HDR, addr + HDR + take));
    push_bytes(&mut out, first);
    let ghost start_next = next_addr as int;
    let ghost start_acc = out@;
    assert(block_at(buf@, addr as int) == match page_chain(buf@, start_next, start_acc, data_size as int) {
        None => None,
        Some(d) => Some(d.take(min(d.len() as int, data_size as int))),
    });
    assert(block_refusal(buf@, addr as int) == chain_refusal(buf@, start_next, start_acc, data_size as int));

    while next_addr != EMPTY as usize && out.len() < data_size
        invariant
            next_addr <= u32::MAX,
            data_size <= u32::MAX,
            out@.len() <= data_size,
            page_chain(buf@, next_addr as int, out@, data_size as int)
                == page_chain(buf@, start_next, start_acc, data_size as int),
            block_at(buf@, addr as int) == match page_chain(buf@, start_next, start_acc, data_size as int) {
                None => None,
                Some(d) => Some(d.take(min(d.len() as int, data_size as int))),
            },
            chain_refusal(buf@, next_addr as int, out@, data_size as int)
                == chain_refusal(buf@, start_next, start_acc, data_size as int),
            block_refusal(buf@, addr as int) == chain_refusal(buf@, start_next, start_acc, data_size as int),
        ensures
            out@.len() <= data_size,
            page_chain(buf@, next_addr as int, out@, data_size as int) == Some(out@),
            page_chain(buf@, next_addr as int, out@, data_size as int)
                == page_chain(buf@, start_next, start_acc, data_size as int),
            block_at(buf@, addr as int) == match page_chain(buf@, start_next, start_acc, data_size as int) {
                None => None,
                Some(d) => Some(d.take(min(d.len() as int, data_size as int))),
            },
            chain_refusal(buf@, next_addr as int, out@, data_size as int)
                == chain_refusal(buf@, start_next, start_acc, data_size as int),
            block_refusal(buf@, addr as int) == chain_refusal(buf@, start_next, start_acc, data_size as int),
        decreases data_size - out@.len(),
    {
        let head = window_at(buf, next_addr, HDR);
        if head.len() < HDR {
            return Err(address_error(
                "ru: Обрыв цепочки страниц на адресе ",
                ", en: Page chain truncated at address ",
                next_addr,
            ));
        }
        let page = match hex_field(head, 11, 19) {
            Ok(v) => v as usize,
            Err(e) => { return Err(e); },
        };
        let nxt = match hex_field(head, 20, 28) {
            Ok(v) => v as usize,
            Err(e) => { return Err(e); },
        };
        let rest = data_size - out.len();
        let take = if page < rest { page } else { rest };
        let chunk = if next_addr <= usize::MAX - HDR { window_at(buf, next_addr + HDR, take) } else { slice(buf, buf.len(), buf.len()) };
        assert(chunk@ == window(buf@, next_addr + HDR, next_addr + HDR + take));
        if chunk.len() == 0 {
            assert(page_chain(buf@, next_addr as int, out@, data_size as int) == Some(out@));
            break;
        }
        push_bytes(&mut out, chunk);
        next_addr = nxt;
    }
    proof {
        assert(out@.len() <= data_size);
        assert(out@.take(min(out@.len() as int, data_size as int)) =~= out@);
    }
    out.truncate(data_size);
    Ok(out)
}

/// Whether the bytes look like a container: the empty address in the first
/// word and `\r\n` at byte 16, with room for at least one block header.
pub open spec fn looks_like_container(buf: Seq<u8>) -> bool {
    buf.len() >= 16 + HDR && le32(buf, 0) == EMPTY && buf[16] == 13u8 && buf[17] == 10u8
}

/// Whether the bytes look like a container.
pub fn is_container(buf: &[u8]) -> (res: bool)
    ensures
        res == looks_like_container(buf@),
{
    if buf.len() < 16 + HDR {
        return false;
    }
    if u32_le(buf, 0) != EMPTY {
        return false;
    }
    buf[16] == 13u8 && buf[17] == 10u8
}

// ── element names ──────────────────────────────────────────────────────────

/// UTF-16 decoding with every unpaired surrogate replaced by U+FFFD.
pub open spec fn utf16_lossy(u: Seq<u16>) -> Seq<char>
    decreases u.len(),
{
    if u.len() == 0 {
        Seq::<char>::empty()
    } else if u[0] < 0xD800 || u[0] >= 0xE000 {
        seq![u[0] as char] + utf16_lossy(u.drop_first())
    } else if u[0] < 0xDC00 && u.len() > 1 && 0xDC00 <= u[1] && u[1] < 0xE000 {
        seq![(0x10000 + (u[0] - 0xD800) * 0x400 + (u[1] - 0xDC00)) as char]
            + utf16_lossy(u.subrange(2, u.len() as int))
    } else {
        seq!['\u{FFFD}'] + utf16_lossy(u.drop_first())
    }
}

/// Text from UTF-16 code units.
///
/// Trusted: `String::from_utf16_lossy` decodes UTF-16 and replaces each
/// unpaired surrogate with U+FFFD, which is what [`utf16_lossy`] states.
#[verifier::external_body]
fn from_utf16_lossy(units: &[u16]) -> (res: String)
    ensures
        res@ == utf16_lossy(units@),
{
    String::from_utf16_lossy(units)
}

/// Whether four zero bytes start at `i`.
pub open spec fn zero_run_at(t: Seq<u8>, i: int) -> bool {
    i + 4 <= t.len() && t[i] == 0 && t[i + 1] == 0 && t[i + 2] == 0 && t[i + 3] == 0
}

/// The first position at or after `i` where four zero bytes start; the length
/// when there is none.
pub open spec fn first_zero_run(t: Seq<u8>, i: int) -> int
    decreases t.len() - i,
{
    if i + 4 > t.len() {
        t.len() as int
    } else if zero_run_at(t, i) {
        i
    } else {
        first_zero_run(t, i + 1)
    }
}

/// Byte pairs as little-endian code units.
pub open spec fn le_units(b: Seq<u8>) -> Seq<u16> {
    Seq::new(b.len() / 2, |k: int| (b[2 * k] + b[2 * k + 1] * 256) as u16)
}

/// The text without trailing NUL characters.
pub open spec fn trim_end_nul(s: Seq<char>) -> Seq<char>
    decreases s.len(),
{
    if s.len() > 0 && s.last() == '\0' {
        trim_end_nul(s.drop_last())
    } else {
        s
    }
}

/// An element's name from its header: the UTF-16LE text between the two
/// dates plus four zero bytes and the next four zero bytes.
#[verifier::opaque]
pub open spec fn element_name_of(head: Seq<u8>) -> Seq<char> {
    let tail = window(head, 20, head.len() as int);
    let name = tail.take(first_zero_run(tail, 0));
    let even = if name.len() % 2 == 1 { name.push(0u8) } else { name };
    trim_end_nul(utf16_lossy(le_units(even)))
}

proof fn lemma_first_zero_run_bounds(t: Seq<u8>, i: int)
    requires
        0 <= i,
    ensures
        first_zero_run(t, i) <= t.len(),
        i <= t.len() ==> i <= first_zero_run(t, i),
    decreases t.len() - i,
{
    if i + 4 <= t.len() && !zero_run_at(t, i) {
        lemma_first_zero_run_bounds(t, i + 1);
    }
}

fn element_name(head: &[u8]) -> (res: String)
    ensures
        res@ == element_name_of(head@),
{
    reveal(element_name_of);
    let tail = slice(head, 20, head.len());
    let n = tail.len();
    let mut end: usize = 0;
    while end < n && n - end >= 4
        && !(tail[end] == 0 && tail[end + 1] == 0 && tail[end + 2] == 0 && tail[end + 3] == 0)
        invariant
            0 <= end <= n,
            n == tail@.len(),
            first_zero_run(tail@, 0) == first_zero_run(tail@, end as int),
        decreases n - end,
    {
        end = end + 1;
    }
    if n - end < 4 {
        end = n;
    }
    proof {
        lemma_first_zero_run_bounds(tail@, 0);
    }
    assert(end == first_zero_run(tail@, 0));
    let mut name: Vec<u8> = Vec::new();
    push_bytes(&mut name, slice(tail, 0, end));
    assert(name@ =~= tail@.take(end as int));
    if name.len() % 2 == 1 {
        name.push(0u8);
    }
    let nl = name.len();
    let half = nl / 2;
    let mut units: Vec<u16> = Vec::new();
    let mut k: usize = 0;
    while k < half
        invariant
            0 <= k <= half,
            half == name@.len() / 2,
            nl == name@.len(),
            units@.len() == k,
            forall|j: int| 0 <= j < k ==> units@[j] == le_units(name@)[j],
        decreases half - k,
    {
        let a = k + k;
        units.push(name[a] as u16 + name[a + 1] as u16 * 256);
        k = k + 1;
    }
    assert(units@ =~= le_units(name@));
    let decoded = from_utf16_lossy(&units);
    let cs = chars_of(decoded.as_str());
    let mut len = cs.len();
    assert(cs@.take(len as int) =~= cs@);
    while len > 0 && cs[len - 1] == '\0'
        invariant
            len <= cs@.len(),
            trim_end_nul(cs@) == trim_end_nul(cs@.take(len as int)),
        decreases len,
    {
        assert(cs@.take(len as int).drop_last() =~= cs@.take(len - 1));
        len = len - 1;
    }
    assert(cs@.subrange(0, len as int) =~= cs@.take(len as int));
    string_of(&cs[0..len])
}

// ── element table ──────────────────────────────────────────────────────────

/// The elements named by the table `toc` from offset `off`, after `acc`;
/// triples with an empty address are skipped, and `None` when a named block is
/// broken.
pub open spec fn table_items(buf: Seq<u8>, toc: Seq<u8>, off: int, acc: Seq<(Seq<char>, Seq<u8>)>)
    -> Option<Seq<(Seq<char>, Seq<u8>)>>
    decreases toc.len() - off,
{
    if off < 0 || off + 12 > toc.len() {
        Some(acc)
    } else {
        let h = le32(toc, off);
        let d = le32(toc, off + 4);
        if h == EMPTY || d == EMPTY {
            table_items(buf, toc, off + 12, acc)
        } else {
            match block_at(buf, h as int) {
                None => None,
                Some(head) => match block_at(buf, d as int) {
                    None => None,
                    Some(data) => table_items(buf, toc, off + 12, acc.push((element_name_of(head), data))),
                },
            }
        }
    }
}

/// The `(name, data)` elements of a container, in table order; `None` when
/// the table or a block it names is broken.
pub open spec fn container_items(buf: Seq<u8>) -> Option<Seq<(Seq<char>, Seq<u8>)>> {
    match block_at(buf, 16) {
        None => None,
        Some(toc) => table_items(buf, toc, 0, Seq::empty()),
    }
}

/// Why [`table_items`] from offset `off` is `None`: the first broken block
/// the table names from there.
pub open spec fn table_refusal(buf: Seq<u8>, toc: Seq<u8>, off: int) -> Seq<char>
    decreases toc.len() - off,
{
    if off < 0 || off + 12 > toc.len() {
        Seq::empty()
    } else {
        let h = le32(toc, off);
        let d = le32(toc, off + 4);
        if h == EMPTY || d == EMPTY {
            table_refusal(buf, toc, off + 12)
        } else {
            match block_at(buf, h as int) {
                None => block_refusal(buf, h as int),
                Some(_) => match block_at(buf, d as int) {
                    None => block_refusal(buf, d as int),
                    Some(_) => table_refusal(buf, toc, off + 12),
                },
            }
        }
    }
}

/// Why [`container_items`] is `None`: the broken table block, or the first
/// broken block it names.
pub open spec fn container_refusal(buf: Seq<u8>) -> Seq<char> {
    match block_at(buf, 16) {
        None => block_refusal(buf, 16),
        Some(toc) => table_refusal(buf, toc, 0),
    }
}

/// The views of a list of named byte blobs.
pub open spec fn items_view(items: Seq<(String, Vec<u8>)>) -> Seq<(Seq<char>, Seq<u8>)> {
    items.map_values(|p: (String, Vec<u8>)| (p.0@, p.1@))
}

/// The `(name, data)` elements of a container. The data is given as it lies,
/// not inflated: the help book's `FileStorage` is already a ZIP.
pub fn parse(buf: &[u8]) -> (res: Result<Vec<(String, Vec<u8>)>, ContainerError>)
    ensures
        match res {
            Ok(items) => container_items(buf@) == Some(items_view(items@)),
            Err(e) => container_items(buf@) is None && e.0@ == container_refusal(buf@),
        },
{
    let toc = match read_block(buf, 16) {
        Ok(t) => t,
        Err(e) => { return Err(e); },
    };
    let mut items: Vec<(String, Vec<u8>)> = Vec::new();
    let mut off: usize = 0;
    assert(items_view(items@) =~= Seq::<(Seq<char>, Seq<u8>)>::empty());
    while off < toc.len() && toc.len() - off >= 12
        invariant
            off <= toc@.len() + 12,
            block_at(buf@, 16) == Some(toc@),
            table_items(buf@, toc@, off as int, items_view(items@))
                == table_items(buf@, toc@, 0, Seq::empty()),
            table_refusal(buf@, toc@, off as int) == table_refusal(buf@, toc@, 0),
        decreases toc@.len() - off,
    {
        let h = u32_le(&toc, off);
        let d = u32_le(&toc, off + 4);
        let ghost v0 = items_view(items@);
        let ghost o0 = off as int;
        off = off + 12;
        if h == EMPTY || d == EMPTY {
            assert(table_items(buf@, toc@, o0, v0) == table_items(buf@, toc@, off as int, v0));
            assert(table_refusal(buf@, toc@, o0) == table_refusal(buf@, toc@, off as int));
            continue;
        }
        let head = match read_block(buf, h as usize) {
            Ok(b) => b,
            Err(e) => { return Err(e); },
        };
        let data = match read_block(buf, d as usize) {
            Ok(b) => b,
            Err(e) => { return Err(e); },
        };
        let name = element_name(&head);
        let ghost before = items@;
        items.push((name, data));
        proof {
            assert(items_view(items@) =~= items_view(before).push((element_name_of(head@), data@)));
            assert(table_items(buf@, toc@, o0, v0) == table_items(buf@, toc@, off as int, items_view(items@)));
            assert(table_refusal(buf@, toc@, o0) == table_refusal(buf@, toc@, off as int));
        }
    }
    proof {
        if off < toc@.len() {
            assert(off as int + 12 > toc@.len());
        }
    }
    Ok(items)
}

// ── nested containers ──────────────────────────────────────────────────────

/// What `flate2`'s raw-deflate decoder, read to the end, gives of the bytes;
/// `None` when it reports an error. The decoder stops at the end of the
/// deflate stream, so bytes after it are ignored.
pub uninterp spec fn raw_inflate(data: Seq<u8>) -> Option<Seq<u8>>;

/// Raw deflate decoding.
///
/// Trusted: `flate2::read::DeflateDecoder` reading to the end — `Some` with
/// the inflated bytes, `None` when the decoder reports an error.
#[verifier::external_body]
fn deflate_decode(data: &[u8]) -> (res: Option<Vec<u8>>)
    ensures
        match res {
            Some(v) => raw_inflate(data@) == Some(v@),
            None => raw_inflate(data@) is None,
        },
{
    let mut out = Vec::new();
    let mut decoder = flate2::read::DeflateDecoder::new(data);
    match decoder.read_to_end(&mut out) {
        Ok(_) => Some(out),
        Err(_) => None,
    }
}

/// Element data as it is used: inflated when it is raw deflate, otherwise the
/// bytes themselves (some elements lie uncompressed, and only an attempt tells
/// them apart).
pub open spec fn inflated(data: Seq<u8>) -> Seq<u8> {
    match raw_inflate(data) {
        Some(v) => v,
        None => data,
    }
}

/// Raw deflate; on failure, the source bytes.
pub fn inflate(data: &[u8]) -> (res: Vec<u8>)
    ensures
        res@ == inflated(data@),
{
    match deflate_decode(data) {
        Some(v) => v,
        None => vstd::slice::slice_to_vec(data),
    }
}

/// The path of an element under `prefix`: `prefix/name`, or the name alone at
/// the top.
pub open spec fn joined_path(prefix: Seq<char>, name: Seq<char>) -> Seq<char> {
    if prefix.len() == 0 { name } else { prefix + "/"@ + name }
}

/// The leaves of a container, nested containers unfolded into `/` paths,
/// with at most `depth` levels of nesting; `None` when a container on the way
/// is broken or nests deeper.
pub open spec fn walk_leaves(buf: Seq<u8>, prefix: Seq<char>, depth: nat) -> Option<Seq<(Seq<char>, Seq<u8>)>>
    decreases depth, 0int,
{
    if depth == 0 {
        None
    } else {
        match container_items(buf) {
            None => None,
            Some(items) => walk_list(items, prefix, (depth - 1) as nat),
        }
    }
}

/// [`walk_leaves`] over a list of elements, in order.
pub open spec fn walk_list(items: Seq<(Seq<char>, Seq<u8>)>, prefix: Seq<char>, depth: nat)
    -> Option<Seq<(Seq<char>, Seq<u8>)>>
    decreases depth, items.len(),
{
    if items.len() == 0 {
        Some(Seq::empty())
    } else {
        let data = inflated(items[0].1);
        let path = joined_path(prefix, items[0].0);
        let first = if looks_like_container(data) {
            walk_leaves(data, path, depth)
        } else {
            Some(seq![(path, data)])
        };
        match first {
            None => None,
            Some(f) => match walk_list(items.drop_first(), prefix, depth) {
                None => None,
                Some(rest) => Some(f + rest),
            },
        }
    }
}

/// Nesting allowed to [`walk`]: more than any stack could hold.
pub open spec fn walk_depth() -> nat {
    u64::MAX as nat
}

/// Containers nested deeper than [`walk`] follows.
pub open spec fn depth_text() -> Seq<char> {
    "ru: Слишком глубокая вложенность контейнеров, en: Containers nest too deep"@
}

fn depth_error() -> (res: ContainerError)
    ensures
        res.0@ == depth_text(),
{
    ContainerError(String::from_str("ru: Слишком глубокая вложенность контейнеров, en: Containers nest too deep"))
}

/// Why [`walk_leaves`] with the same arguments is `None`: nesting too deep,
/// or the first broken container on the way.
pub open spec fn walk_refusal(buf: Seq<u8>, prefix: Seq<char>, depth: nat) -> Seq<char>
    decreases depth, 0int,
{
    if depth == 0 {
        depth_text()
    } else {
        match container_items(buf) {
            None => container_refusal(buf),
            Some(items) => list_refusal(items, prefix, (depth - 1) as nat),
        }
    }
}

/// Why [`walk_list`] with the same arguments is `None`: the refusal of the
/// first nested container that fails.
pub open spec fn list_refusal(items: Seq<(Seq<char>, Seq<u8>)>, prefix: Seq<char>, depth: nat) -> Seq<char>
    decreases depth, items.len(),
{
    if items.len() == 0 {
        Seq::empty()
    } else {
        let data = inflated(items[0].1);
        let path = joined_path(prefix, items[0].0);
        if looks_like_container(data) && walk_leaves(data, path, depth) is None {
            walk_refusal(data, path, depth)
        } else {
            list_refusal(items.drop_first(), prefix, depth)
        }
    }
}

fn walk_within(buf: &[u8], prefix: &[char], depth: u64) -> (res: Result<Vec<(String, Vec<u8>)>, ContainerError>)
    ensures
        match res {
            Ok(items) => walk_leaves(buf@, prefix@, depth as nat) == Some(items_view(items@)),
            Err(e) => walk_leaves(buf@, prefix@, depth as nat) is None && e.0@ == walk_refusal(buf@, prefix@, depth as nat),
        },
    decreases depth, 1int,
{
    if depth == 0 {
        return Err(depth_error());
    }
    let items = match parse(buf) {
        Ok(v) => v,
        Err(e) => { return Err(e); },
    };
    let ghost iv = items_view(items@);
    assert(walk_leaves(buf@, prefix@, depth as nat) == walk_list(iv, prefix@, (depth - 1) as nat));
    assert(walk_refusal(buf@, prefix@, depth as nat) == list_refusal(iv, prefix@, (depth - 1) as nat));
    let mut out: Vec<(String, Vec<u8>)> = Vec::new();
    let mut i: usize = 0;
    assert(iv.subrange(0, 0) =~= Seq::<(Seq<char>, Seq<u8>)>::empty());
    assert(items_view(out@) =~= Seq::<(Seq<char>, Seq<u8>)>::empty());
    assert(iv.subrange(0, iv.len() as int) =~= iv);
    while i < items.len()
        invariant
            0 <= i <= items@.len(),
            iv == items_view(items@),
            depth > 0,
            walk_leaves(buf@, prefix@, depth as nat) == walk_list(iv, prefix@, (depth - 1) as nat),
            walk_list(iv, prefix@, (depth - 1) as nat) == match walk_list(iv.subrange(i as int, iv.len() as int), prefix@, (depth - 1) as nat) {
                None => None,
                Some(rest) => Some(items_view(out@) + rest),
            },
            walk_refusal(buf@, prefix@, depth as nat)
                == list_refusal(iv.subrange(i as int, iv.len() as int), prefix@, (depth - 1) as nat),
        decreases items@.len() - i,
    {
        let ghost sub = iv.subrange(i as int, iv.len() as int);
        assert(sub[0] == (items@[i as int].0@, items@[i as int].1@));
        assert(sub.drop_first() =~= iv.subrange(i + 1, iv.len() as int));
        let data = inflate(&items[i].1);
        let name = chars_of(items[i].0.as_str());
        let mut path: Vec<char> = Vec::new();
        if prefix.len() == 0 {
            push_chars(&mut path, &name);
        } else {
            push_chars(&mut path, prefix);
            push_str(&mut path, "/");
            push_chars(&mut path, &name);
        }
        assert(path@ == joined_path(prefix@, name@));
        let ghost before = out@;
        let ghost f: Seq<(Seq<char>, Seq<u8>)>;
        if is_container(&data) {
            let mut inner = match walk_within(&data, &path, depth - 1) {
                Ok(v) => v,
                Err(e) => {
                    assert(walk_list(sub, prefix@, (depth - 1) as nat) is None);
                    assert(list_refusal(sub, prefix@, (depth - 1) as nat) == e.0@);
                    return Err(e);
                },
            };
            proof {
                f = items_view(inner@);
            }
            let ghost inner_before = inner@;
            out.append(&mut inner);
            proof {
                assert(items_view(out@) =~= items_view(before) + items_view(inner_before));
            }
        } else {
            proof {
                f = seq![(path@, data@)];
            }
            out.push((string_of(&path), data));
            proof {
                assert(items_view(out@) =~= items_view(before) + f);
            }
        }
        proof {
            let rest_opt = walk_list(sub.drop_first(), prefix@, (depth - 1) as nat);
            if let Some(r) = rest_opt {
                assert(items_view(before) + (f + r) =~= (items_view(before) + f) + r);
            }
        }
        i = i + 1;
    }
    Ok(out)
}

/// The `(path, data)` leaves of a container, nested containers unfolded into
/// `/`-joined paths under `prefix`.
pub fn walk(buf: &[u8], prefix: &str) -> (res: Result<Vec<(String, Vec<u8>)>, ContainerError>)
    ensures
        match res {
            Ok(items) => walk_leaves(buf@, prefix@, walk_depth()) == Some(items_view(items@)),
            Err(e) => walk_leaves(buf@, prefix@, walk_depth()) is None && e.0@ == walk_refusal(buf@, prefix@, walk_depth()),
        },
{
    let p = chars_of(prefix);
    walk_within(buf, &p, u64::MAX)
}

} // verus!
