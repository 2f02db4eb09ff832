//! Risk scoring of a single process from one sample of its metrics.
use vstd::prelude::*;
use vstd::string::StringExecFns;

use vstd::arithmetic::power2::{lemma_pow2_adds, lemma_pow2_pos, lemma_pow2_strictly_increases, pow2};

use crate::float::{
    compare_with_int, div_round_even, div_round_even_exec, exp_field, fields, frac_field,
    is_infinite, is_nan, is_negative, lemma_div_round_even_scale, magnitude, pow2_u128,
    round_sig, round_sig_exec, scale_exp, significand, unit,
};
use crate::models::{MetricsView, ProcessMetadata, ProcessMetrics, ProcessRisk, RiskLevel, RiskView, string_views};
use crate::text::{
    chars_of, contains, contains_exec, decimal, digit_char, digit_to_char, push_char,
    push_decimal_u128, to_lowercase, lowercase,
};

verus! {

/// Points for CPU usage at or above 100 %.
pub const CPU_WEIGHT: u64 = 40;

/// Points for memory at or above the baseline.
pub const MEM_WEIGHT: u64 = 30;

/// Points for a suspicious process name.
pub const SUSPICIOUS_WEIGHT: u64 = 20;

/// CPU usage (percent) above which CPU is reported as critical.
pub const CPU_HIGH_THRESHOLD: u64 = 80;

/// CPU usage (percent) above which CPU is reported as high.
pub const CPU_MEDIUM_THRESHOLD: u64 = 20;

/// CPU usage (percent) that earns all CPU points.
pub const CPU_FULL: u64 = 100;

/// Memory (KiB) above which memory is reported as high: 1000 MiB.
pub const MEM_HIGH_THRESHOLD_KIB: u64 = 1_024_000;

/// Memory (KiB) that earns all memory points: 1 GiB.
pub const MEM_BASELINE_KIB: u64 = 1_048_576;

/// Score at which the level is at least `Medium`.
pub const MEDIUM_FROM: u8 = 20;

/// Score at which the level is at least `High`.
pub const HIGH_FROM: u8 = 60;

/// Score at which the level is `Critical`.
pub const CRITICAL_FROM: u8 = 90;

/// Process names (lower case) that mark a process as suspicious when they
/// occur anywhere in its lower-cased name.
pub open spec fn suspicious_names() -> Seq<Seq<char>> {
    seq![
        "nc"@,
        "netcat"@,
        "nmap"@,
        "wireshark"@,
        "keylogger"@,
        "powershell.exe"@,
        "cmd.exe"@,
        "mimikatz"@,
    ]
}

/// The lower-cased name `lower` contains one of the suspicious names.
pub open spec fn is_suspicious_lower(lower: Seq<char>) -> bool {
    exists|i: int| 0 <= i < suspicious_names().len() && contains(lower, #[trigger] suspicious_names()[i])
}

/// The process name `name` is suspicious.
pub open spec fn is_suspicious_name(name: Seq<char>) -> bool {
    is_suspicious_lower(lowercase(name))
}

pub open spec fn min_nat(a: nat, b: nat) -> nat {
    if a <= b {
        a
    } else {
        b
    }
}

/// The CPU reading `b` (bits of an `f32`, in percent) is above `t` percent,
/// as `cpu > t` compares on the `f32`: never for a NaN or a negative value.
pub open spec fn cpu_above(b: u32, t: nat) -> bool {
    !is_nan(b) && !is_negative(b) && (is_infinite(b) || magnitude(b) > t * unit())
}

/// `cpu.min(100.0)` for the CPU reading `b`, in units of 2^-149 percent (a
/// NaN gives 100, as `f32::min` returns the other side); `None` for minus
/// infinity, which no finite amount of the other points makes up for.
pub open spec fn capped_cpu(b: u32) -> Option<int> {
    if is_nan(b) {
        Some((100 * unit()) as int)
    } else if is_infinite(b) {
        if is_negative(b) {
            None
        } else {
            Some((100 * unit()) as int)
        }
    } else if is_negative(b) {
        Some(-magnitude(b))
    } else if magnitude(b) >= 100 * unit() {
        Some((100 * unit()) as int)
    } else {
        Some(magnitude(b) as int)
    }
}

/// The memory `kib` as the score and the factor take it: memory in MiB is
/// `kib as f64 / 1024.0` narrowed to an `f32`, which holds `kib` rounded to
/// 53 and then to 24 significant bits, divided by 1024. This is that rounded
/// number of KiB.
pub open spec fn memory_reading(kib: nat) -> nat {
    round_sig(round_sig(kib, 53), 24)
}

/// A total `t`, in units of `u` points, as a score: rounded toward zero and
/// kept within 0..=100 (`raw.min(100.0) as u8`).
pub open spec fn clamp_score(t: int, u: int) -> nat {
    if t < u {
        0
    } else if t / u > 100 {
        100
    } else {
        (t / u) as nat
    }
}

/// The risk score for the capped CPU reading `cpu` (units of 2^-149
/// percent), the memory reading `mem` (KiB) and the name check: 40 points
/// per 100 % of CPU, 30 points per GiB of memory up to 1 GiB, and 20 points
/// for a suspicious name, summed exactly (in units of 1/(5 * 2^149) points),
/// rounded toward zero and capped at 100.
pub open spec fn risk_score(cpu: Option<int>, mem: nat, suspicious: bool) -> nat {
    match cpu {
        None => 0,
        Some(c) => clamp_score(
            2 * c + 150 * min_nat(mem, MEM_BASELINE_KIB as nat) * pow2(129) + if suspicious {
                100 * pow2(149)
            } else {
                0
            },
            (5 * pow2(149)) as int,
        ),
    }
}

/// The level a score falls in: below 20 `Low`, below 60 `Medium`, below 90
/// `High`, otherwise `Critical`.
pub open spec fn level_for_score(score: nat) -> RiskLevel {
    if score < MEDIUM_FROM {
        RiskLevel::Low
    } else if score < HIGH_FROM {
        RiskLevel::Medium
    } else if score < CRITICAL_FROM {
        RiskLevel::High
    } else {
        RiskLevel::Critical
    }
}

/// A non-negative CPU reading written with one decimal (`{:.1}`): the exact
/// value rounded to tenths, halves to even; `inf` for infinity.
pub open spec fn percent_one_decimal(b: u32) -> Seq<char> {
    if is_infinite(b) {
        "inf"@
    } else {
        let tenths = div_round_even(10 * magnitude(b), unit());
        decimal(tenths / 10).push('.').push(digit_char(tenths % 10))
    }
}

/// The factor reported for CPU usage, if any.
pub open spec fn cpu_factor(b: u32) -> Option<Seq<char>> {
    if cpu_above(b, CPU_HIGH_THRESHOLD as nat) {
        Some("Critical CPU: "@ + percent_one_decimal(b) + "%"@)
    } else if cpu_above(b, CPU_MEDIUM_THRESHOLD as nat) {
        Some("High CPU: "@ + percent_one_decimal(b) + "%"@)
    } else {
        None
    }
}

/// The factor reported for memory, if any: above 1000 MiB, in whole MiB
/// (`{:.0}` of the `f32`: rounded to nearest, halves to even).
pub open spec fn memory_factor(memory_kib: nat) -> Option<Seq<char>> {
    let r = memory_reading(memory_kib);
    if r > MEM_HIGH_THRESHOLD_KIB {
        Some("High Memory: "@ + decimal(div_round_even(r, 1024)) + " MiB"@)
    } else {
        None
    }
}

/// The factor reported for a suspicious name, if any.
pub open spec fn name_factor(name: Seq<char>) -> Option<Seq<char>> {
    if is_suspicious_name(name) {
        Some("Suspicious Name: "@ + name)
    } else {
        None
    }
}

pub open spec fn opt_seq<T>(o: Option<T>) -> Seq<T> {
    match o {
        Some(x) => seq![x],
        None => seq![],
    }
}

/// The factors, in the order CPU, memory, name.
pub open spec fn risk_factors(name: Seq<char>, cpu_bits: u32, memory_kib: nat) -> Seq<Seq<char>> {
    opt_seq(cpu_factor(cpu_bits)) + opt_seq(memory_factor(memory_kib)) + opt_seq(name_factor(name))
}

/// The risk `analyze_process` assigns to a process named `name` with the
/// sample `m`.
pub open spec fn risk_view_of(name: Seq<char>, m: MetricsView) -> RiskView {
    let score = risk_score(
        capped_cpu(m.cpu_usage_bits),
        memory_reading(m.memory_usage as nat),
        is_suspicious_name(name),
    );
    RiskView {
        score: score as u8,
        level: level_for_score(score),
        factors: risk_factors(name, m.cpu_usage_bits, m.memory_usage as nat),
    }
}

/// Whether the lower-cased name contains one of the suspicious names.
pub fn is_suspicious_lowercase(lower: &str) -> (r: bool)
    ensures
        r == is_suspicious_lower(lower@),
{
    let names = ["nc", "netcat", "nmap", "wireshark", "keylogger", "powershell.exe", "cmd.exe", "mimikatz"];
    let hay = chars_of(lower);
    let mut i: usize = 0;
    proof {
        reveal_strlit("nc");
        reveal_strlit("netcat");
        reveal_strlit("nmap");
        reveal_strlit("wireshark");
        reveal_strlit("keylogger");
        reveal_strlit("powershell.exe");
        reveal_strlit("cmd.exe");
        reveal_strlit("mimikatz");
    }
    assert(names@.map_values(|s: &str| s@) =~= suspicious_names());
    while i < 8
        invariant
            i <= 8,
            names@.len() == 8,
            names@.map_values(|s: &str| s@) == suspicious_names(),
            hay@ == lower@,
            forall|j: int| 0 <= j < i ==> !contains(lower@, #[trigger] suspicious_names()[j]),
        decreases 8 - i,
    {
        let pat = chars_of(names[i]);
        assert(pat@ == suspicious_names()[i as int]);
        if contains_exec(&hay, &pat) {
            return true;
        }
        i = i + 1;
    }
    false
}

/// Whether the process name is suspicious (checked on its lower-cased form).
pub fn is_suspicious(name: &str) -> (r: bool)
    ensures
        r == is_suspicious_name(name@),
{
    let lower = to_lowercase(name);
    is_suspicious_lowercase(lower.as_str())
}

/// Whether the CPU reading is above `t` percent.
fn cpu_above_exec(b: u32, t: u64) -> (r: bool)
    requires
        t <= 1024,
    ensures
        r == cpu_above(b, t as nat),
{
    let (e, f) = fields(b);
    if b >= 0x8000_0000 {
        return false;
    }
    if e == 255 {
        return f == 0;
    }
    compare_with_int(b, t) == 1
}

/// A finite reading with an exponent field of at least 135 is at least 256 in size.
proof fn lemma_large_magnitude(b: u32)
    requires
        135 <= exp_field(b) < 255,
    ensures
        magnitude(b) >= 256 * unit(),
{
    let s = scale_exp(b);
    lemma_pow2_adds(23, 134);
    lemma_pow2_adds(8, 149);
    vstd::arithmetic::power2::lemma2_to64();
    if s > 134 {
        lemma_pow2_strictly_increases(134, s);
    }
    assert(significand(b) * pow2(s) >= pow2(23) * pow2(134)) by (nonlinear_arith)
        requires
            significand(b) >= pow2(23),
            pow2(s) >= pow2(134),
    ;
}

/// A reading with an exponent field of at most 130 is below 16.
proof fn lemma_small_magnitude(b: u32)
    requires
        exp_field(b) <= 130,
    ensures
        magnitude(b) < 16 * unit(),
{
    let s = scale_exp(b);
    lemma_pow2_adds(24, 129);
    lemma_pow2_adds(4, 149);
    vstd::arithmetic::power2::lemma2_to64();
    if s < 129 {
        lemma_pow2_strictly_increases(s, 129);
    }
    lemma_pow2_pos(s);
    assert(significand(b) * pow2(s) < pow2(24) * pow2(129)) by (nonlinear_arith)
        requires
            significand(b) < pow2(24),
            pow2(s) <= pow2(129),
            pow2(s) > 0,
    ;
}

/// Scaling a total and its unit alike, and adding less than one scaled step,
/// keeps the score.
proof fn lemma_clamp_scaled(x: int, u: int, k: int, r: int)
    requires
        u > 0,
        k > 0,
        0 <= r < k,
    ensures
        clamp_score(x * k + r, u * k) == clamp_score(x, u),
{
    let q = x / u;
    let m = x % u;
    vstd::arithmetic::div_mod::lemma_fundamental_div_mod(x, u);
    assert(x * k + r == q * (u * k) + (m * k + r)) by (nonlinear_arith)
        requires
            x == u * q + m,
    ;
    assert(0 <= m * k + r < u * k) by (nonlinear_arith)
        requires
            0 <= m < u,
            k > 0,
            0 <= r < k,
    ;
    vstd::arithmetic::div_mod::lemma_fundamental_div_mod_converse(x * k + r, u * k, q, m * k + r);
    assert(x * k + r < u * k <==> x < u) by (nonlinear_arith)
        requires
            k > 0,
            0 <= r < k,
    ;
}

/// A total given in units of `u` as a score.
fn clamp_exec(t: u128, u: u128) -> (r: u8)
    requires
        u > 0,
    ensures
        r as nat == clamp_score(t as int, u as int),
        r <= 100,
{
    if t < u {
        0
    } else if t / u > 100 {
        100
    } else {
        (t / u) as u8
    }
}

/// The risk score of the CPU reading `b`, the memory reading `r` (KiB) and
/// the name check.
fn score_of(b: u32, r: u128, suspicious: bool) -> (score: u8)
    requires
        r <= 0x100_0000_0000_0000_0000,
    ensures
        score as nat == risk_score(capped_cpu(b), r as nat, suspicious),
        score <= 100,
{
    let rm: u128 = if r < 0x10_0000 {
        r
    } else {
        0x10_0000
    };
    let ghost rmn = min_nat(r as nat, MEM_BASELINE_KIB as nat);
    assert(rm == rmn);
    let ghost sp: int = if suspicious {
        (100 * pow2(149)) as int
    } else {
        0
    };
    let ghost big_u: int = (5 * pow2(149)) as int;
    let (e, f) = fields(b);
    let neg = b >= 0x8000_0000;
    proof {
        vstd::arithmetic::power2::lemma2_to64();
        lemma_pow2_adds(20, 129);
        lemma_pow2_adds(40, 89);
        lemma_pow2_adds(60, 89);
        lemma_pow2_adds(32, 8);
        lemma_pow2_adds(32, 28);
        assert(pow2(40) == 0x100_0000_0000) by (nonlinear_arith)
            requires
                pow2(40) == pow2(32) * pow2(8),
                pow2(32) == 0x1_0000_0000,
                pow2(8) == 0x100,
        ;
        assert(pow2(60) == 0x1000_0000_0000_0000) by (nonlinear_arith)
            requires
                pow2(60) == pow2(32) * pow2(28),
                pow2(32) == 0x1_0000_0000,
                pow2(28) == 0x1000_0000,
        ;
        lemma_pow2_pos(89);
        lemma_pow2_pos(129);
        lemma_pow2_pos(149);
    }
    let full = if e == 255 {
        f != 0 || !neg
    } else if neg {
        false
    } else {
        compare_with_int(b, 100) >= 0
    };
    if full {
        // 40 points of CPU: the total is N * 2^129 with N in units of 1/(5 * 2^20).
        let p20: u128 = 0x10_0000;
        let n: u128 = 200 * p20 + 150 * rm + if suspicious {
            100 * p20
        } else {
            0
        };
        proof {
            assert(capped_cpu(b) == Some((100 * unit()) as int));
            assert(2 * (100 * pow2(149)) + 150 * rmn * pow2(129) + sp == (n as int) * pow2(129)) by (nonlinear_arith)
                requires
                    pow2(149) == p20 * pow2(129),
                    n == 200 * p20 + 150 * rmn + if suspicious { 100 * p20 } else { 0 },
                    sp == if suspicious { 100 * pow2(149) } else { 0 },
            ;
            assert(big_u == (5 * p20) * pow2(129)) by (nonlinear_arith)
                requires
                    pow2(149) == p20 * pow2(129),
                    big_u == 5 * pow2(149),
            ;
            lemma_clamp_scaled(n as int, (5 * p20) as int, pow2(129) as int, 0);
        }
        return clamp_exec(n, 5 * p20);
    }
    if e == 255 {
        // Minus infinity.
        return 0;
    }
    let m: u128 = if e == 0 {
        f as u128
    } else {
        f as u128 + 0x80_0000
    };
    assert(m == significand(b));
    if e >= 135 {
        proof {
            lemma_large_magnitude(b);
            assert(neg);
            assert(capped_cpu(b) == Some(-magnitude(b)));
            assert(2 * (-magnitude(b)) + 150 * rmn * pow2(129) + sp < big_u) by (nonlinear_arith)
                requires
                    magnitude(b) >= 256 * pow2(149),
                    rmn <= 0x10_0000,
                    pow2(149) == 0x10_0000 * pow2(129),
                    pow2(129) > 0,
                    sp <= 100 * pow2(149),
                    big_u == 5 * pow2(149),
            ;
        }
        return 0;
    }
    let d: u32 = if e == 0 {
        149
    } else {
        150 - e
    };
    let ghost sc = scale_exp(b);
    assert(sc + d == 149);
    assert(d >= 16);
    proof {
        if !neg {
            assert(magnitude(b) < 100 * unit());
            assert(capped_cpu(b) == Some(magnitude(b) as int));
        } else {
            assert(capped_cpu(b) == Some(-magnitude(b)));
        }
    }
    let ghost c: int = if neg {
        -magnitude(b)
    } else {
        magnitude(b) as int
    };
    assert(capped_cpu(b) == Some(c));
    if d <= 90 {
        let dd: u32 = if d < 20 {
            20
        } else {
            d
        };
        let p = pow2_u128(dd);
        let q = pow2_u128(dd - d);
        let w = pow2_u128(dd - 20);
        proof {
            vstd::arithmetic::power2::lemma2_to64();
            lemma_pow2_adds((dd - d) as nat, (149 - dd) as nat);
            lemma_pow2_adds((dd - 20) as nat, (149 - dd) as nat);
            lemma_pow2_adds(dd as nat, (149 - dd) as nat);
            lemma_pow2_pos((149 - dd) as nat);
            lemma_pow2_strictly_increases(dd as nat, 91);
            lemma_pow2_adds(64, 27);
            if dd - d > 0 {
                lemma_pow2_strictly_increases((dd - d) as nat, 5);
            }
            if dd - 20 < 71 {
                lemma_pow2_strictly_increases((dd - 20) as nat, 71);
            }
            lemma_pow2_adds(64, 7);
            assert(pow2(5) == 32) by {
                vstd::arithmetic::power2::lemma2_to64();
            }
            assert(pow2(91) == 0x800_0000_0000_0000_0000_0000) by (nonlinear_arith)
                requires
                    pow2(91) == pow2(64) * pow2(27),
                    pow2(64) == 0x1_0000_0000_0000_0000,
                    pow2(27) == 0x800_0000,
            ;
            assert(p < 0x800_0000_0000_0000_0000_0000);
            assert(q <= 32);
            assert(w < 0x80_0000_0000_0000_0000);
        }
        assert(m * q <= 0x1000_0000_0000) by (nonlinear_arith)
            requires
                m < 0x100_0000,
                q <= 32,
        ;
        let mv: u128 = m * q;
        assert(150 * rm * w < 0x100_0000_0000_0000_0000_0000_0000) by (nonlinear_arith)
            requires
                rm <= 0x10_0000,
                w < 0x80_0000_0000_0000_0000,
        ;
        let base: u128 = 150 * rm * w + if suspicious {
            100 * p
        } else {
            0
        };
        let ghost k = pow2((149 - dd) as nat);
        proof {
            assert(magnitude(b) == mv * k) by (nonlinear_arith)
                requires
                    magnitude(b) == m * pow2(sc),
                    pow2(sc) == q * k,
                    mv == m * q,
            ;
            assert(150 * rmn * pow2(129) == (150 * rm * w) * k) by (nonlinear_arith)
                requires
                    pow2(129) == w * k,
                    rm == rmn,
            ;
            assert(sp == (if suspicious { 100 * p } else { 0 }) * k) by (nonlinear_arith)
                requires
                    pow2(149) == p * k,
                    sp == if suspicious { 100 * pow2(149) } else { 0 },
            ;
            assert(big_u == (5 * p) * k) by (nonlinear_arith)
                requires
                    pow2(149) == p * k,
                    big_u == 5 * pow2(149),
            ;
        }
        if !neg {
            let n: u128 = 2 * mv + base;
            proof {
                assert(2 * c + 150 * rmn * pow2(129) + sp == (n as int) * k) by (nonlinear_arith)
                    requires
                        c == mv * k,
                        150 * rmn * pow2(129) == (150 * rm * w) * k,
                        sp == (if suspicious { 100 * p } else { 0 }) * k,
                        n == 2 * mv + base,
                        base == 150 * rm * w + if suspicious { 100 * p } else { 0 },
                ;
                lemma_clamp_scaled(n as int, (5 * p) as int, k as int, 0);
            }
            return clamp_exec(n, 5 * p);
        } else {
            let ghost x: int = base - 2 * mv;
            proof {
                assert(2 * c + 150 * rmn * pow2(129) + sp == x * k) by (nonlinear_arith)
                    requires
                        c == -(mv * k),
                        150 * rmn * pow2(129) == (150 * rm * w) * k,
                        sp == (if suspicious { 100 * p } else { 0 }) * k,
                        x == base - 2 * mv,
                        base == 150 * rm * w + if suspicious { 100 * p } else { 0 },
                ;
                lemma_clamp_scaled(x, (5 * p) as int, k as int, 0);
            }
            if base < 2 * mv {
                return 0;
            }
            return clamp_exec(base - 2 * mv, 5 * p);
        }
    }
    // A reading below 2^-36 in size: it moves the total by less than one unit of 1/(5 * 2^60) points.
    let m60: u128 = 150 * rm * 0x100_0000_0000 + if suspicious {
        100 * 0x1000_0000_0000_0000
    } else {
        0
    };
    let u60: u128 = 5 * 0x1000_0000_0000_0000;
    let ghost k = pow2(89);
    let ghost tiny: int = 2 * m * pow2(sc);
    proof {
        lemma_pow2_adds(sc, (89 - sc) as nat);
        lemma_pow2_pos(sc);
        lemma_pow2_pos((89 - sc) as nat);
        lemma_pow2_strictly_increases(25, (89 - sc) as nat);
        assert(tiny < k) by (nonlinear_arith)
            requires
                tiny == 2 * m * pow2(sc),
                m < 0x100_0000,
                k == pow2(sc) * pow2((89 - sc) as nat),
                pow2((89 - sc) as nat) > pow2(25),
                pow2(25) == 0x200_0000,
                pow2(sc) > 0,
        ;
        assert(tiny >= 0) by (nonlinear_arith)
            requires
                tiny == 2 * m * pow2(sc),
                pow2(sc) > 0,
        ;
        assert(magnitude(b) * 2 == tiny) by (nonlinear_arith)
            requires
                magnitude(b) == m * pow2(sc),
                tiny == 2 * m * pow2(sc),
        ;
        assert(150 * rmn * pow2(129) + sp == (m60 as int) * k) by (nonlinear_arith)
            requires
                pow2(129) == pow2(40) * pow2(89),
                pow2(149) == pow2(60) * pow2(89),
                pow2(40) == 0x100_0000_0000,
                pow2(60) == 0x1000_0000_0000_0000,
                k == pow2(89),
                rm == rmn,
                m60 == 150 * rm * 0x100_0000_0000 + if suspicious { 100 * 0x1000_0000_0000_0000int } else { 0 },
                sp == if suspicious { 100 * pow2(149) } else { 0 },
        ;
        assert(big_u == (u60 as int) * k) by (nonlinear_arith)
            requires
                pow2(149) == pow2(60) * pow2(89),
                pow2(60) == 0x1000_0000_0000_0000,
                k == pow2(89),
                big_u == 5 * pow2(149),
                u60 == 5 * 0x1000_0000_0000_0000int,
        ;
    }
    if !neg || m == 0 {
        proof {
            if neg {
                assert(tiny == 0) by (nonlinear_arith)
                    requires
                        tiny == 2 * m * pow2(sc),
                        m == 0,
                ;
            }
            lemma_clamp_scaled(m60 as int, u60 as int, k as int, if neg { 0 } else { tiny });
        }
        clamp_exec(m60, u60)
    } else {
        proof {
            assert(tiny > 0) by (nonlinear_arith)
                requires
                    tiny == 2 * m * pow2(sc),
                    m > 0,
                    pow2(sc) > 0,
            ;
            assert((m60 as int) * k - tiny == (m60 - 1) * k + (k - tiny)) by (nonlinear_arith);
            lemma_clamp_scaled(m60 - 1, u60 as int, k as int, k - tiny);
        }
        if m60 == 0 {
            return 0;
        }
        clamp_exec(m60 - 1, u60)
    }
}

/// Appends a CPU reading above 20 % with one decimal.
fn push_percent_one_decimal(s: &mut String, b: u32)
    requires
        cpu_above(b, CPU_MEDIUM_THRESHOLD as nat),
    ensures
        final(s)@ == old(s)@ + percent_one_decimal(b),
{
    let (e, f) = fields(b);
    if e == 255 {
        s.append("inf");
        return;
    }
    let m: u128 = if e == 0 {
        f as u128
    } else {
        f as u128 + 0x80_0000
    };
    assert(m == significand(b));
    proof {
        vstd::arithmetic::power2::lemma2_to64();
        lemma_pow2_pos(149);
        if e <= 130 {
            lemma_small_magnitude(b);
        }
    }
    if e >= 150 {
        let x = pow2_u128((e - 150) as u32);
        proof {
            lemma_pow2_adds((e - 150) as nat, 149);
            if e - 150 < 104 {
                lemma_pow2_strictly_increases((e - 150) as nat, 104);
            }
            lemma_pow2_adds(64, 40);
            lemma_pow2_adds(32, 8);
            assert(pow2(104) == 0x100_0000_0000_0000_0000_0000_0000) by (nonlinear_arith)
                requires
                    pow2(104) == pow2(64) * pow2(40),
                    pow2(40) == pow2(32) * pow2(8),
                    pow2(64) == 0x1_0000_0000_0000_0000,
                    pow2(32) == 0x1_0000_0000,
                    pow2(8) == 0x100,
            ;
        }
        assert(m * x < 0x1_0000_0000_0000_0000_0000_0000_0000_0000) by (nonlinear_arith)
            requires
                m < 0x100_0000,
                x <= 0x100_0000_0000_0000_0000_0000_0000,
        ;
        let v: u128 = m * x;
        proof {
            let tenths = div_round_even(10 * magnitude(b), unit());
            assert(10 * magnitude(b) == (10 * v) * unit()) by (nonlinear_arith)
                requires
                    magnitude(b) == m * pow2(scale_exp(b)),
                    pow2(scale_exp(b)) == x * pow2(149),
                    v == m * x,
            ;
            vstd::arithmetic::div_mod::lemma_fundamental_div_mod_converse(
                (10 * magnitude(b)) as int,
                unit() as int,
                (10 * v) as int,
                0,
            );
            assert(tenths == 10 * v);
            assert(tenths / 10 == v);
            assert(tenths % 10 == 0);
        }
        push_decimal_u128(s, v);
        push_char(s, '.');
        push_char(s, '0');
        assert(digit_char(0) == '0');
        return;
    }
    let d: u32 = 150 - e;
    let p = pow2_u128(d);
    proof {
        lemma_pow2_adds(d as nat, (149 - d) as nat);
        lemma_pow2_pos((149 - d) as nat);
        lemma_div_round_even_scale((10 * m) as nat, p as nat, pow2((149 - d) as nat));
        assert(10 * magnitude(b) == (10 * m) * pow2((149 - d) as nat)) by (nonlinear_arith)
            requires
                magnitude(b) == m * pow2(scale_exp(b)),
                scale_exp(b) == 149 - d,
        ;
        assert(unit() == p * pow2((149 - d) as nat));
    }
    let tenths = div_round_even_exec(10 * m, p);
    push_decimal_u128(s, tenths / 10);
    push_char(s, '.');
    push_char(s, digit_to_char((tenths % 10) as u8));
}

/// Scores and levels processes.
#[derive(Debug)]
pub struct BehaviorAnalyzer {}

impl Default for BehaviorAnalyzer {
    fn default() -> (r: Self)
        ensures
            r == (BehaviorAnalyzer {}),
    {
        BehaviorAnalyzer {}
    }
}

impl BehaviorAnalyzer {
    pub fn new() -> (r: Self)
        ensures
            r == (BehaviorAnalyzer {}),
    {
        BehaviorAnalyzer {}
    }

    /// Scores one process from one sample.
    pub fn analyze_process(&self, metadata: &ProcessMetadata, metrics: &ProcessMetrics) -> (r:
        ProcessRisk)
        ensures
            r@ == risk_view_of(metadata.name@, metrics@),
            r.score <= 100,
    {
        let cpu = metrics.cpu_usage_bits;
        let suspicious = is_suspicious(metadata.name.as_str());
        let mut factors: Vec<String> = Vec::new();

        // 1. CPU: up to 40 points.
        if cpu_above_exec(cpu, CPU_HIGH_THRESHOLD) {
            let mut f = String::from_str("Critical CPU: ");
            push_percent_one_decimal(&mut f, cpu);
            f.append("%");
            factors.push(f);
        } else if cpu_above_exec(cpu, CPU_MEDIUM_THRESHOLD) {
            let mut f = String::from_str("High CPU: ");
            push_percent_one_decimal(&mut f, cpu);
            f.append("%");
            factors.push(f);
        }
        let ghost f1 = factors@;

        // 2. Memory: up to 30 points, on the memory as an `f32` number of MiB holds it.
        let r53 = round_sig_exec(metrics.memory_usage as u128, 53);
        let mem = round_sig_exec(r53, 24);
        assert(mem == memory_reading(metrics.memory_usage as nat));
        if mem > MEM_HIGH_THRESHOLD_KIB as u128 {
            let mut f = String::from_str("High Memory: ");
            push_decimal_u128(&mut f, div_round_even_exec(mem, 1024));
            f.append(" MiB");
            factors.push(f);
        }
        let ghost f2 = factors@;

        // 3. Suspicious name: 20 points.
        if suspicious {
            let mut f = String::from_str("Suspicious Name: ");
            f.append(metadata.name.as_str());
            factors.push(f);
        }

        // 4. Normalize.
        let score = score_of(cpu, mem, suspicious);
        let level = if score < MEDIUM_FROM {
            RiskLevel::Low
        } else if score < HIGH_FROM {
            RiskLevel::Medium
        } else if score < CRITICAL_FROM {
            RiskLevel::High
        } else {
            RiskLevel::Critical
        };
        assert(string_views(factors@) =~= risk_factors(
            metadata.name@,
            cpu,
            metrics.memory_usage as nat,
        ));
        ProcessRisk { score, level, factors }
    }
}

} // verus!
