use vstd::prelude::*;
use vstd::string::StringSliceAdditionalSpecFns;

verus! {

pub open spec fn digit_of(d: int) -> char {
    seq!['0', '1', '2', '3', '4', '5', '6', '7', '8', '9'][d]
}

/// Decimal digits of `n`, no leading zeros.
pub open spec fn decimal(n: nat) -> Seq<char>
    decreases n,
{
    if n < 10 {
        seq![digit_of(n as int)]
    } else {
        decimal(n / 10) + seq![digit_of((n % 10) as int)]
    }
}

/// `n / d`, rounded to the nearest integer, ties to even.
pub open spec fn div_round_even(n: int, d: int) -> int
    recommends
        d > 0,
{
    let q = n / d;
    let r = n % d;
    if 2 * r > d || (2 * r == d && q % 2 == 1) {
        q + 1
    } else {
        q
    }
}

/// `n / 10^k` written with `k` digits after the point.
pub open spec fn fixed_point(n: nat, k: nat) -> Seq<char>
    decreases k,
{
    if k == 0 {
        decimal(n)
    } else if k == 1 {
        decimal(n / 10) + seq!['.', digit_of((n % 10) as int)]
    } else {
        decimal(n / 100) + seq!['.', digit_of(((n / 10) % 10) as int), digit_of((n % 10) as int)]
    }
}

pub open spec fn kib() -> int {
    1024
}

/// A byte count in B, KB, MB or GB, with one decimal (two for GB).
pub open spec fn size_text(bytes: nat) -> Seq<char> {
    if bytes >= kib() * kib() * kib() {
        fixed_point(div_round_even(bytes as int * 100, kib() * kib() * kib()) as nat, 2) + " GB"@
    } else if bytes >= kib() * kib() {
        fixed_point(div_round_even(bytes as int * 10, kib() * kib()) as nat, 1) + " MB"@
    } else if bytes >= kib() {
        fixed_point(div_round_even(bytes as int * 10, kib()) as nat, 1) + " KB"@
    } else {
        decimal(bytes) + " B"@
    }
}

fn digit_str(d: u64) -> (r: &'static str)
    requires
        d < 10,
    ensures
        r@ == seq![digit_of(d as int)],
{
    proof {
        reveal_strlit("0");
        reveal_strlit("1");
        reveal_strlit("2");
        reveal_strlit("3");
        reveal_strlit("4");
        reveal_strlit("5");
        reveal_strlit("6");
        reveal_strlit("7");
        reveal_strlit("8");
        reveal_strlit("9");
    }
    let r = match d {
        0 => "0",
        1 => "1",
        2 => "2",
        3 => "3",
        4 => "4",
        5 => "5",
        6 => "6",
        7 => "7",
        8 => "8",
        _ => "9",
    };
    proof {
        assert(r@ =~= seq![digit_of(d as int)]);
    }
    r
}

/// Appends the decimal digits of `n`.
fn push_decimal(s: String, n: u64) -> (r: String)
    ensures
        r@ == s@ + decimal(n as nat),
    decreases n,
{
    if n < 10 {
        s.concat(digit_str(n))
    } else {
        let s2 = push_decimal(s, n / 10);
        let r = s2.concat(digit_str(n % 10));
        proof {
            assert(r@ =~= s@ + decimal(n as nat));
        }
        r
    }
}

fn push_fixed_point(s: String, n: u64, k: u64) -> (r: String)
    requires
        k <= 2,
    ensures
        r@ == s@ + fixed_point(n as nat, k as nat),
{
    proof {
        reveal_strlit(".");
    }
    if k == 0 {
        push_decimal(s, n)
    } else if k == 1 {
        let r = push_decimal(s, n / 10).concat(".").concat(digit_str(n % 10));
        proof {
            assert(r@ =~= s@ + fixed_point(n as nat, k as nat));
        }
        r
    } else {
        let r = push_decimal(s, n / 100).concat(".").concat(digit_str((n / 10) % 10)).concat(
            digit_str(n % 10),
        );
        proof {
            assert(r@ =~= s@ + fixed_point(n as nat, k as nat));
        }
        r
    }
}

/// `n * m / d` rounded half to even, for `d` a power of two up to 2^30.
fn scaled_round(n: u64, m: u64, d: u64) -> (r: u64)
    requires
        d > 0,
        m <= 100,
        n as int * m as int <= u64::MAX,
        n as int * m as int / d as int + 1 <= u64::MAX,
    ensures
        r as int == div_round_even(n as int * m as int, d as int),
{
    let x = n * m;
    let q = x / d;
    let r = x % d;
    if r > d - r || (r == d - r && q % 2 == 1) {
        q + 1
    } else {
        q
    }
}

const KB: u64 = 1024;

const MB: u64 = 1048576;

const GB: u64 = 1073741824;

/// A byte count as text: `500 B`, `1.0 KB`, `1.0 MB`, `1.00 GB`.
pub fn format_size(bytes: u64) -> (r: String)
    ensures
        r@ == size_text(bytes as nat),
{
    proof {
        reveal_strlit(" GB");
        reveal_strlit(" MB");
        reveal_strlit(" KB");
        reveal_strlit(" B");
    }
    if bytes >= GB {
        let hundredths = if bytes <= u64::MAX / 100 {
            scaled_round(bytes, 100, GB)
        } else {
            // 100 * bytes would overflow: split off the whole gigabytes.
            let whole = bytes / GB;
            let frac = scaled_round(bytes % GB, 100, GB);
            proof {
                assert(bytes as int * 100 == whole * 100 * GB as int + (bytes % GB) as int * 100)
                    by (nonlinear_arith)
                    requires
                        whole == bytes / GB,
                        GB > 0,
                ;
                lemma_round_shift(whole as int * 100, (bytes % GB) as int * 100, GB as int);
            }
            whole * 100 + frac
        };
        push_fixed_point(String::new(), hundredths, 2).concat(" GB")
    } else if bytes >= MB {
        push_fixed_point(String::new(), scaled_round(bytes, 10, MB), 1).concat(" MB")
    } else if bytes >= KB {
        push_fixed_point(String::new(), scaled_round(bytes, 10, KB), 1).concat(" KB")
    } else {
        push_decimal(String::new(), bytes).concat(" B")
    }
}

/// Rounding commutes with adding a whole multiple of the divisor.
proof fn lemma_round_shift(a: int, b: int, d: int)
    requires
        d > 0,
        a >= 0,
        b >= 0,
        a % 2 == 0,
    ensures
        div_round_even(a * d + b, d) == a + div_round_even(b, d),
{
    let q = b / d;
    let r = b % d;
    vstd::arithmetic::div_mod::lemma_fundamental_div_mod(b, d);
    assert(a * d + b == (a + q) * d + r) by (nonlinear_arith)
        requires
            b == d * q + r,
    ;
    vstd::arithmetic::div_mod::lemma_fundamental_div_mod_converse(a * d + b, d, a + q, r);
}


/// `c` with an ASCII capital made small.
pub open spec fn ascii_lower(c: char) -> char {
    if 65 <= c as u32 <= 90 {
        ((c as u32 + 32) as u32) as char
    } else {
        c
    }
}

/// `r` is `s` with its ASCII capitals made small.
pub open spec fn is_ascii_lowered(r: Seq<char>, s: Seq<char>) -> bool {
    r == s.map_values(|c: char| ascii_lower(c))
}

/// Relies on str::to_ascii_lowercase: `A` to `Z` become `a` to `z`, every
/// other character stays as it is.
#[verifier::external_body]
fn ascii_lowercase(s: &str) -> (r: String)
    ensures
        is_ascii_lowered(r@, s@),
{
    s.to_ascii_lowercase()
}

/// Position of the last `c` among the first `k` characters of `s`.
pub open spec fn last_index_of(s: Seq<char>, c: char, k: int) -> Option<int>
    decreases k,
{
    if k <= 0 {
        None
    } else if s[k - 1] == c {
        Some(k - 1)
    } else {
        last_index_of(s, c, k - 1)
    }
}

/// The extension of a file name: what follows its last dot, when that is
/// non-empty, at most ten bytes long and free of slashes.
pub open spec fn extension_of(name: Seq<char>) -> Option<Seq<char>> {
    match last_index_of(name, '.', name.len() as int) {
        Some(i) => {
            let e = name.subrange(i + 1, name.len() as int);
            if e.len() > 0 && vstd::utf8::encode_utf8(e).len() <= 10 && !e.contains('/') {
                Some(e)
            } else {
                None
            }
        },
        None => None,
    }
}

/// The extension of a file name, lowercased with a leading dot (`.rs`), or
/// `(no ext)`.
pub fn extension_label(file_name: &str) -> (r: String)
    ensures
        match extension_of(file_name@) {
            Some(e) => r@.len() == e.len() + 1 && r@[0] == '.' && is_ascii_lowered(
                r@.drop_first(),
                e,
            ),
            None => r@ == "(no ext)"@,
        },
{
    proof {
        reveal_strlit("(no ext)");
    }
    let n = file_name.unicode_len();
    let mut k: usize = n;
    while k > 0
        invariant
            n == file_name@.len(),
            0 <= k <= n,
            last_index_of(file_name@, '.', n as int) == last_index_of(file_name@, '.', k as int),
        ensures
            k == 0 || file_name@[k - 1] == '.',
        decreases k,
    {
        if file_name.get_char(k - 1) == '.' {
            break;
        }
        k = k - 1;
    }
    if k == 0 {
        return String::from_str("(no ext)");
    }
    assert(last_index_of(file_name@, '.', n as int) == Some(k - 1));
    let ext = file_name.substring_char(k, n);
    assert(ext@ == file_name@.subrange(k as int, n as int));
    let m = ext.unicode_len();
    let mut j: usize = 0;
    while j < m
        invariant
            m == ext@.len(),
            0 <= j <= m,
            0 < k <= n,
            n == file_name@.len(),
            ext@ == file_name@.subrange(k as int, n as int),
            last_index_of(file_name@, '.', n as int) == Some(k - 1),
            forall|t: int| 0 <= t < j ==> ext@[t] != '/',
        decreases m - j,
    {
        if ext.get_char(j) == '/' {
            assert(ext@.contains('/')) by {
                assert(ext@[j as int] == '/');
            }
            return String::from_str("(no ext)");
        }
        j = j + 1;
    }
    if ext.is_empty() || ext.as_bytes().len() > 10 {
        return String::from_str("(no ext)");
    }
    proof {
        reveal_strlit(".");
    }
    let low = ascii_lowercase(ext);
    assert(low@.len() == ext@.len());
    let r = String::from_str(".").concat(low.as_str());
    proof {
        assert(ext.spec_bytes() == vstd::utf8::encode_utf8(ext@));
        assert(vstd::utf8::encode_utf8(ext@).len() <= 10);
        assert(ext@.len() > 0);
        assert(!ext@.contains('/'));
        assert(extension_of(file_name@) == Some(ext@));
        assert(r@ == "."@ + low@);
        assert("."@ == seq!['.']);
        assert(r@.drop_first() =~= low@);
        assert(is_ascii_lowered(low@, ext@));
    }
    r
}

} // verus!
