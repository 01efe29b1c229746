//! The data directory of the server: its layout of subdirectories and the
//! space they take, written for a person.

use vstd::prelude::*;
use vstd::arithmetic::power2::pow2;
use crate::platform::joined;
use crate::text::{debug_quoted, debug_text, decimal, push_decimal, push_str, string_of};

verus! {

/// The data directory and its subdirectories for languages, cache and logs.
#[derive(Debug, Clone)]
pub struct DataManager {
    data_path: String,
    languages_path: String,
    cache_path: String,
    logs_path: String,
}

/// Space taken by the data directory, in bytes.
#[derive(Debug, Clone)]
pub struct DiskUsage {
    pub total: u64,
    pub languages: u64,
    pub cache: u64,
    pub logs: u64,
}

/// Why a data directory is refused: it does not exist.
pub open spec fn missing_dir_text(path: Seq<char>) -> Seq<char> {
    "ru: Папка данных не существует: "@ + debug_text(path) + ", en: Data directory does not exist: "@ + debug_text(path)
}

impl DataManager {
    pub closed spec fn root(&self) -> Seq<char> {
        self.data_path@
    }

    /// The subdirectories, in the order they are created.
    pub closed spec fn subdirectories_view(&self) -> Seq<Seq<char>> {
        seq![self.languages_path@, self.cache_path@, self.logs_path@]
    }

    /// The manager of a data directory that must exist (`exists`, as seen on
    /// disk); its subdirectories are `languages`, `cache` and `logs` under it.
    pub fn new(data_path: String, exists: bool) -> (res: Result<Self, String>)
        ensures
            match res {
                Ok(m) => exists && m.root() == data_path@ && m.subdirectories_view() == seq![
                    joined(data_path@, "languages"@),
                    joined(data_path@, "cache"@),
                    joined(data_path@, "logs"@),
                ],
                Err(msg) => !exists && msg@ == missing_dir_text(data_path@),
            },
    {
        if !exists {
            let chars = crate::text::chars_of(data_path.as_str());
            let quoted = debug_quoted(&chars);
            let mut out: Vec<char> = Vec::new();
            push_str(&mut out, "ru: Папка данных не существует: ");
            push_str(&mut out, quoted.as_str());
            push_str(&mut out, ", en: Data directory does not exist: ");
            push_str(&mut out, quoted.as_str());
            return Err(string_of(&out));
        }
        let languages_path = crate::platform::join_path(data_path.as_str(), "languages");
        let cache_path = crate::platform::join_path(data_path.as_str(), "cache");
        let logs_path = crate::platform::join_path(data_path.as_str(), "logs");
        Ok(DataManager { data_path, languages_path, cache_path, logs_path })
    }

    /// The root of the data directory.
    pub fn data_path(&self) -> (res: &str)
        ensures
            res@ == self.root(),
    {
        self.data_path.as_str()
    }

    /// The subdirectories to create when they are missing.
    pub fn subdirectories(&self) -> (res: Vec<String>)
        ensures
            res@.map_values(|s: String| s@) == self.subdirectories_view(),
    {
        let mut out: Vec<String> = Vec::new();
        out.push(self.languages_path.clone());
        out.push(self.cache_path.clone());
        out.push(self.logs_path.clone());
        assert(out@.map_values(|s: String| s@) =~= self.subdirectories_view());
        out
    }

    /// The space taken, from the sizes of the three subdirectories in order.
    pub fn get_disk_usage(&self, languages: u64, cache: u64, logs: u64) -> (res: DiskUsage)
        requires
            languages + cache + logs <= u64::MAX,
        ensures
            res.total == languages + cache + logs,
            res.languages == languages,
            res.cache == cache,
            res.logs == logs,
    {
        DiskUsage { total: languages + cache + logs, languages, cache, logs }
    }
}

/// The number of low bits a `u64` loses when it becomes an `f64` (53 bits of
/// mantissa).
pub open spec fn excess_bits(b: nat) -> nat
    decreases b,
{
    if b < 0x20_0000_0000_0000 { 0 } else { 1 + excess_bits(b / 2) }
}

/// `n / d` rounded to the nearest integer, ties to even.
pub open spec fn div_round_even(n: nat, d: nat) -> nat
    recommends
        d > 0,
{
    let q = n / d;
    let r = n % d;
    if 2 * r > d || (2 * r == d && q % 2 == 1) { q + 1 } else { q }
}

/// The value an integer takes as an `f64`: rounded to 53 significant bits,
/// ties to even.
pub open spec fn as_double(b: nat) -> nat {
    div_round_even(b, pow2(excess_bits(b))) * pow2(excess_bits(b))
}

/// Two decimals of a number given in hundredths.
pub open spec fn hundredths_text(h: nat) -> Seq<char> {
    decimal(h / 100) + "."@ + (if h % 100 < 10 { "0"@ } else { Seq::empty() }) + decimal(h % 100)
}

/// A size for a person: bytes below a kibibyte, else KB, MB or GB with two
/// decimals, as `{:.2}` writes the `f64` quotient.
pub open spec fn size_text(bytes: nat) -> Seq<char> {
    if bytes >= 0x4000_0000 {
        hundredths_text(div_round_even(as_double(bytes) * 100, 0x4000_0000)) + " GB"@
    } else if bytes >= 0x10_0000 {
        hundredths_text(div_round_even(bytes * 100, 0x10_0000)) + " MB"@
    } else if bytes >= 0x400 {
        hundredths_text(div_round_even(bytes * 100, 0x400)) + " KB"@
    } else {
        decimal(bytes) + " bytes"@
    }
}

fn round_even(n: u128, d: u128) -> (res: u128)
    requires
        d > 0,
        n / d + 1 <= u128::MAX,
    ensures
        res == div_round_even(n as nat, d as nat),
        res <= n / d + 1,
{
    let q = n / d;
    let r = n % d;
    if r > d - r || (r == d - r && q % 2 == 1) { q + 1 } else { q }
}

proof fn lemma_excess_step(b: nat)
    requires
        b >= 0x20_0000_0000_0000,
    ensures
        excess_bits(b) == 1 + excess_bits(b / 2),
{
}

fn push_hundredths(out: &mut Vec<char>, h: u128)
    requires
        h / 100 <= u64::MAX,
    ensures
        final(out)@ == old(out)@ + hundredths_text(h as nat),
{
    push_decimal(out, (h / 100) as u64);
    push_str(out, ".");
    let frac = (h % 100) as u64;
    if frac < 10 {
        push_str(out, "0");
    }
    push_decimal(out, frac);
    proof {
        reveal_strlit(".");
        reveal_strlit("0");
    }
}

impl DiskUsage {
    /// A size for a person: `500 bytes`, `1.00 KB`, `1.50 MB`, `2.00 GB`.
    pub fn format_size(bytes: u64) -> (res: String)
        ensures
            res@ == size_text(bytes as nat),
    {
        let mut out: Vec<char> = Vec::new();
        if bytes >= 0x4000_0000 {
            let mut shift_pow: u128 = 1;
            let mut q: u128 = bytes as u128;
            let ghost mut e: nat = 0;
            proof {
                vstd::arithmetic::power2::lemma2_to64();
            }
            while q >= 0x20_0000_0000_0000
                invariant
                    shift_pow == pow2(e),
                    q == bytes as nat / pow2(e),
                    excess_bits(bytes as nat) == e + excess_bits(q as nat),
                    shift_pow <= 0x1_0000_0000_0000_0000,
                    q * shift_pow <= bytes,
                    pow2(e) > 0,
                    q >= 1,
                decreases q,
            {
                proof {
                    lemma_excess_step(q as nat);
                    vstd::arithmetic::power2::lemma_pow2_adds(e, 1);
                    vstd::arithmetic::power2::lemma2_to64();
                    vstd::arithmetic::div_mod::lemma_div_denominator(bytes as int, pow2(e) as int, 2);
                    vstd::arithmetic::mul::lemma_mul_is_commutative(pow2(e) as int, 2);
                    assert(shift_pow * 2 <= 0x1_0000_0000_0000_0000) by (nonlinear_arith)
                        requires
                            q >= 0x20_0000_0000_0000,
                            q * shift_pow <= bytes,
                            bytes <= u64::MAX,
                    ;
                    assert((q / 2) * (shift_pow * 2) <= bytes) by (nonlinear_arith)
                        requires
                            q * shift_pow <= bytes,
                    ;
                }
                shift_pow = shift_pow * 2;
                q = q / 2;
                proof {
                    e = e + 1;
                }
            }
            proof {
                assert(excess_bits(q as nat) == 0);
                vstd::arithmetic::div_mod::lemma_fundamental_div_mod(bytes as int, shift_pow as int);
            }
            let rounded = round_even(bytes as u128, shift_pow);
            proof {
                assert(q >= 1);
                assert(rounded * shift_pow <= (bytes as u128 / shift_pow + 1) * shift_pow) by (nonlinear_arith)
                    requires
                        rounded <= bytes as u128 / shift_pow + 1,
                ;
                assert((bytes as u128 / shift_pow + 1) * shift_pow == (bytes as u128 / shift_pow) * shift_pow + shift_pow) by (nonlinear_arith);
                assert((bytes as u128 / shift_pow) * shift_pow <= bytes) by (nonlinear_arith)
                    requires
                        shift_pow > 0,
                        bytes as int == shift_pow * (bytes as u128 / shift_pow) + bytes as u128 % shift_pow,
                ;
                assert(shift_pow <= bytes) by (nonlinear_arith)
                    requires
                        q >= 1,
                        q * shift_pow <= bytes,
                ;
            }
            let value: u128 = rounded * shift_pow;
            assert(value == as_double(bytes as nat));
            assert(value <= 2 * (bytes as u128));
            let h = round_even(value * 100, 0x4000_0000);
            push_hundredths(&mut out, h);
            push_str(&mut out, " GB");
        } else if bytes >= 0x10_0000 {
            let h = round_even((bytes as u128) * 100, 0x10_0000);
            push_hundredths(&mut out, h);
            push_str(&mut out, " MB");
        } else if bytes >= 0x400 {
            let h = round_even((bytes as u128) * 100, 0x400);
            push_hundredths(&mut out, h);
            push_str(&mut out, " KB");
        } else {
            push_decimal(&mut out, bytes);
            push_str(&mut out, " bytes");
        }
        string_of(&out)
    }
}

} // verus!
