//! What the command line shows of profiles and clones: human-readable sizes,
//! the width of the profile listing's directory column, and how verbose its
//! log is.
use vstd::prelude::*;

use vstd::utf8::encode_utf8;

use crate::profile::{has_dir, profile_views, ProfileInfo, ProfileView};
use crate::text::{decimal, push_decimal};

verus! {

pub const KIB: u64 = 1024;

pub const MIB: u64 = 1024 * KIB;

pub const GIB: u64 = 1024 * MIB;

/// `bytes` in units of `value`, with one truncated decimal: `whole.tenths unit`.
pub open spec fn scaled(bytes: u64, value: u64, unit: Seq<char>) -> Seq<char> {
    decimal((bytes / value) as nat) + "."@ + decimal((((bytes % value) * 10) / (value as int)) as nat) + " "@ + unit
}

/// A byte count as a human-readable size: plain bytes below 1 KiB, otherwise
/// the largest of KiB, MiB and GiB that fits, with one truncated decimal.
pub open spec fn human_size_text(bytes: u64) -> Seq<char> {
    if bytes >= GIB {
        scaled(bytes, GIB, "GiB"@)
    } else if bytes >= MIB {
        scaled(bytes, MIB, "MiB"@)
    } else if bytes >= KIB {
        scaled(bytes, KIB, "KiB"@)
    } else {
        decimal(bytes as nat) + " B"@
    }
}

fn push_scaled(s: &mut String, bytes: u64, value: u64, unit: &str)
    requires
        1 <= value <= GIB,
    ensures
        final(s)@ == old(s)@ + scaled(bytes, value, unit@),
{
    let whole = bytes / value;
    assert((bytes % value) * 10 < value * 10) by (nonlinear_arith)
        requires
            value >= 1,
    ;
    let tenths = (bytes % value) * 10 / value;
    push_decimal(s, whole);
    s.append(".");
    push_decimal(s, tenths);
    s.append(" ");
    s.append(unit);
}

/// Format a byte count as a human-readable size, in integer arithmetic so no
/// precision is lost.
pub fn human_size(bytes: u64) -> (r: String)
    ensures
        r@ == human_size_text(bytes),
{
    let mut s = String::new();
    if bytes >= GIB {
        push_scaled(&mut s, bytes, GIB, "GiB");
    } else if bytes >= MIB {
        push_scaled(&mut s, bytes, MIB, "MiB");
    } else if bytes >= KIB {
        push_scaled(&mut s, bytes, KIB, "KiB");
    } else {
        push_decimal(&mut s, bytes);
        s.append(" B");
    }
    assert(s@ =~= human_size_text(bytes));
    s
}

/// `whole.tenths unit` is the byte count `bytes` shown in units of
/// `value`, truncated to one decimal: `whole` whole units and `tenths`
/// tenths of a unit fit into `bytes`, one more tenth does not.
pub open spec fn truncated_to_tenths(bytes: int, value: int, whole: int, tenths: int) -> bool {
    &&& 0 <= whole
    &&& 0 <= tenths < 10
    &&& whole * value * 10 + tenths * value <= bytes * 10
    &&& bytes * 10 < whole * value * 10 + (tenths + 1) * value
}

proof fn lemma_scaled_is_truncated(bytes: u64, value: u64)
    requires
        value > 0,
    ensures
        truncated_to_tenths(
            bytes as int,
            value as int,
            (bytes / value) as int,
            (((bytes % value) * 10) / (value as int)) as int,
        ),
{
    let b = bytes as int;
    let v = value as int;
    let w = b / v;
    let r = b % v;
    let t = (r * 10) / v;
    vstd::arithmetic::div_mod::lemma_fundamental_div_mod(b, v);
    vstd::arithmetic::div_mod::lemma_fundamental_div_mod(r * 10, v);
    assert(0 <= r < v);
    assert(0 <= (r * 10) % v < v);
    assert(b == v * w + r);
    assert(r * 10 == v * t + (r * 10) % v);
    assert(0 <= w) by (nonlinear_arith)
        requires
            b >= 0,
            v > 0,
            b == v * w + r,
            r < v,
    ;
    assert(0 <= t < 10) by (nonlinear_arith)
        requires
            0 <= r < v,
            r * 10 == v * t + (r * 10) % v,
            0 <= (r * 10) % v < v,
    ;
    assert(w * v * 10 + t * v <= b * 10 && b * 10 < w * v * 10 + (t + 1) * v) by (nonlinear_arith)
        requires
            b == v * w + r,
            r * 10 == v * t + (r * 10) % v,
            0 <= (r * 10) % v < v,
    ;
}

/// A size of 1 KiB or more is shown as the largest of GiB, MiB and KiB that
/// it reaches, with the count of that unit truncated to one decimal; a
/// smaller size is shown as plain bytes.
pub proof fn lemma_human_size_truncates(bytes: u64)
    ensures
        bytes < KIB ==> human_size_text(bytes) == decimal(bytes as nat) + " B"@,
        bytes >= KIB ==> exists|value: int, unit: Seq<char>, whole: int, tenths: int|
            #![trigger truncated_to_tenths(bytes as int, value, whole, tenths), unit.len()]
            {
                &&& (bytes >= GIB && value == GIB && unit == "GiB"@) || (MIB <= bytes < GIB && value == MIB
                    && unit == "MiB"@) || (KIB <= bytes < MIB && value == KIB && unit == "KiB"@)
                &&& truncated_to_tenths(bytes as int, value, whole, tenths)
                &&& human_size_text(bytes) == decimal(whole as nat) + "."@ + decimal(tenths as nat)
                    + " "@ + unit
            },
{
    if bytes >= KIB {
        let v: u64 = if bytes >= GIB { GIB } else if bytes >= MIB { MIB } else { KIB };
        let unit = if bytes >= GIB { "GiB"@ } else if bytes >= MIB { "MiB"@ } else { "KiB"@ };
        lemma_scaled_is_truncated(bytes, v);
        let w = (bytes / v) as int;
        let t = (((bytes % v) * 10) / (v as int)) as int;
        assert(truncated_to_tenths(bytes as int, v as int, w, t));
        assert(unit.len() == unit.len());
        assert(human_size_text(bytes) == decimal(w as nat) + "."@ + decimal(t as nat) + " "@ + unit);
    }
}

/// The length in bytes of a directory name, as `str::len` gives it.
pub open spec fn byte_len(dir: Seq<char>) -> usize {
    encode_utf8(dir).len() as usize
}

/// The longest directory name of `ps`, in bytes (0 for none).
pub open spec fn widest_dir(ps: Seq<ProfileView>) -> usize
    decreases ps.len(),
{
    if ps.len() == 0 {
        0
    } else {
        let w = widest_dir(ps.drop_last());
        let l = byte_len(ps.last().dir);
        if w < l { l } else { w }
    }
}

/// The width of the listing's directory column: the longest directory name,
/// but at least the width of the `DIRECTORY` header.
pub open spec fn column_width(ps: Seq<ProfileView>) -> usize {
    let w = widest_dir(ps);
    if w < 9 { 9 } else { w }
}

/// The width of the directory column when listing `profiles`.
pub fn dir_column_width(profiles: &[ProfileInfo]) -> (r: usize)
    ensures
        r == column_width(profile_views(profiles@)),
{
    let ghost ps = profile_views(profiles@);
    let n = profiles.len();
    let mut w: usize = 0;
    for i in 0..n
        invariant
            n == profiles@.len(),
            ps == profile_views(profiles@),
            w == widest_dir(ps.take(i as int)),
    {
        assert(ps.take(i + 1).drop_last() =~= ps.take(i as int));
        assert(ps[i as int] == profiles@[i as int]@);
        let l = profiles[i].dir.as_str().len();
        if w < l {
            w = l;
        }
    }
    assert(ps.take(n as int) =~= ps);
    if w < 9 { 9 } else { w }
}

/// Whether a profile with directory `dir` is among `profiles`.
pub fn lists_dir(profiles: &[ProfileInfo], dir: &str) -> (r: bool)
    ensures
        r == has_dir(profile_views(profiles@), dir@),
{
    let ghost ps = profile_views(profiles@);
    let n = profiles.len();
    for i in 0..n
        invariant
            n == profiles@.len(),
            ps == profile_views(profiles@),
            forall|j: int| 0 <= j < i ==> #[trigger] ps[j].dir != dir@,
    {
        assert(ps[i as int] == profiles@[i as int]@);
        if crate::text::same_text(profiles[i].dir.as_str(), dir) {
            assert(ps[i as int].dir == dir@);
            return true;
        }
    }
    false
}

/// The log filter for a verbosity count: warnings only by default, then
/// `info`, `debug` and `trace` for one, two and more `-v` flags.
pub open spec fn log_filter_of(verbosity: u8) -> Seq<char> {
    if verbosity == 0 {
        "warn"@
    } else if verbosity == 1 {
        "info"@
    } else if verbosity == 2 {
        "debug"@
    } else {
        "trace"@
    }
}

/// The log filter used when the environment names none.
pub fn default_log_filter(verbosity: u8) -> (r: &'static str)
    ensures
        r@ == log_filter_of(verbosity),
{
    match verbosity {
        0 => "warn",
        1 => "info",
        2 => "debug",
        _ => "trace",
    }
}

} // verus!
