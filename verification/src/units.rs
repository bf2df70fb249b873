//! Unit-scaled number formatting: byte rates as `"X.XX MiB"` / `"X.XX KiB"` /
//! `"X B"`, and kilobyte totals as used/total memory strings. Fractions are
//! written with two decimal places, rounding half to even as Rust's fixed
//! precision float formatting does.

use vstd::prelude::*;

use crate::text::{
    dec_digit_char, digit_char, div_round_half_even, push_dec_u64, push_str_chars,
    round_half_even, spec_dec,
};

verus! {

/// A number of hundredths written with two decimal places: `h == 123` is `"1.23"`.
pub open spec fn spec_fixed2(h: nat) -> Seq<char> {
    spec_dec(h / 100) + seq!['.', dec_digit_char(((h / 10) % 10) as int), dec_digit_char(
        (h % 10) as int,
    )]
}

/// Appends `h` hundredths as `"<whole>.<two digits>"`.
pub fn push_fixed2(out: &mut Vec<char>, h: u64)
    ensures
        final(out)@ == old(out)@ + spec_fixed2(h as nat),
{
    push_dec_u64(out, h / 100);
    out.push('.');
    out.push(digit_char((h / 10) % 10));
    out.push(digit_char(h % 10));
    proof {
        assert(out@ =~= old(out)@ + spec_fixed2(h as nat));
    }
}

/// A byte count scaled for display: above one MiB it is written in MiB with
/// two decimals, above one KiB in KiB with two decimals, otherwise in plain
/// bytes. `v * 25 / 262144` is `v * 100 / 2^20` in lowest terms, and
/// `v * 25 / 256` is `v * 100 / 2^10`.
pub open spec fn spec_rate_chars(v: nat) -> Seq<char> {
    if v > 1048576 {
        spec_fixed2(round_half_even(v as int * 25, 262144) as nat) + " MiB"@
    } else if v > 1024 {
        spec_fixed2(round_half_even(v as int * 25, 256) as nat) + " KiB"@
    } else {
        spec_dec(v) + " B"@
    }
}

/// Appends the scaled form of the byte count `v` to `out`.
pub fn push_rate_chars(out: &mut Vec<char>, v: u64)
    ensures
        final(out)@ == old(out)@ + spec_rate_chars(v as nat),
{
    if v > 1048576 {
        proof {
            vstd::arithmetic::div_mod::lemma_div_is_ordered(
                v as int * 25,
                u64::MAX as int * 25,
                262144,
            );
        }
        let h = div_round_half_even(v as u128 * 25, 262144);
        push_fixed2(out, h as u64);
        push_str_chars(out, " MiB");
    } else if v > 1024 {
        let h = div_round_half_even(v as u128 * 25, 256);
        push_fixed2(out, h as u64);
        push_str_chars(out, " KiB");
    } else {
        push_dec_u64(out, v);
        push_str_chars(out, " B");
    }
}

/// A kilobyte count scaled for display: above 1024 KiB it is written in MiB
/// with two decimals, otherwise in plain KiB. The unit name itself is not
/// part of this sequence.
pub open spec fn spec_kib_chars(v: nat) -> Seq<char> {
    if v > 1024 {
        spec_fixed2(round_half_even(v as int * 25, 256) as nat)
    } else {
        spec_dec(v)
    }
}

/// Whether `v` KiB is displayed in MiB.
pub open spec fn kib_shown_as_mib(v: nat) -> bool {
    v > 1024
}

/// Appends the scaled form of `v` KiB (digits only, no unit name).
pub fn push_kib_chars(out: &mut Vec<char>, v: u32)
    ensures
        final(out)@ == old(out)@ + spec_kib_chars(v as nat),
{
    if v > 1024 {
        let h = div_round_half_even(v as u128 * 25, 256);
        push_fixed2(out, h as u64);
    } else {
        push_dec_u64(out, v as u64);
    }
}

/// The memory status line for `total` and `available` kilobytes: used and
/// total, each scaled by `spec_kib_chars` and tagged `MiB` or `KiB`, or the
/// single character `0` when the total is zero.
pub open spec fn spec_meminfo_chars(total: nat, available: nat) -> Seq<char> {
    let used = (total - available) as nat;
    if total == 0 {
        "0"@
    } else {
        spec_kib_chars(used) + (if kib_shown_as_mib(used) {
            " MiB / "@
        } else {
            " KiB / "@
        }) + spec_kib_chars(total) + (if kib_shown_as_mib(total) {
            " MiB"@
        } else {
            " KiB"@
        })
    }
}

/// Formats total and available memory, both in kilobytes, as
/// `"<used> MiB / <total> MiB"` (each side in KiB when at most 1024 KiB).
pub fn format_meminfo(total: u32, available: u32) -> (r: Vec<char>)
    requires
        available <= total,
    ensures
        r@ == spec_meminfo_chars(total as nat, available as nat),
{
    let mut out: Vec<char> = Vec::new();
    if total == 0 {
        push_str_chars(&mut out, "0");
        proof {
            assert(out@ =~= "0"@);
        }
        return out;
    }
    let used = total - available;
    push_kib_chars(&mut out, used);
    if used > 1024 {
        push_str_chars(&mut out, " MiB / ");
    } else {
        push_str_chars(&mut out, " KiB / ");
    }
    push_kib_chars(&mut out, total);
    if total > 1024 {
        push_str_chars(&mut out, " MiB");
    } else {
        push_str_chars(&mut out, " KiB");
    }
    proof {
        assert(out@ =~= spec_meminfo_chars(total as nat, available as nat));
    }
    out
}

} // verus!
