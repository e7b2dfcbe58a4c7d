//! Character-sequence primitives shared by the routing logic: ASCII
//! lowercasing, searching, prefix/suffix tests and decimal formatting,
//! each specified over `Seq<char>` views.

use vstd::prelude::*;
use vstd::string::*;

verus! {

/// ASCII lowercase of one character; other characters are unchanged.
pub open spec fn lower_char(c: char) -> char {
    if 65 <= c as u32 && c as u32 <= 90 {
        (((c as u32) + 32) as u8) as char
    } else {
        c
    }
}

/// ASCII lowercase of a character sequence.
pub open spec fn lower_seq(s: Seq<char>) -> Seq<char> {
    s.map_values(|c: char| lower_char(c))
}

/// Index of the first occurrence of `c` in `s`, or -1 when absent.
pub open spec fn find_idx(s: Seq<char>, c: char) -> int
    decreases s.len(),
{
    if s.len() == 0 {
        -1
    } else if s[0] == c {
        0
    } else {
        let r = find_idx(s.skip(1), c);
        if r < 0 {
            -1
        } else {
            r + 1
        }
    }
}

/// Index of the last occurrence of `c` in `s`, or -1 when absent.
pub open spec fn rfind_idx(s: Seq<char>, c: char) -> int
    decreases s.len(),
{
    if s.len() == 0 {
        -1
    } else if s[s.len() - 1] == c {
        s.len() - 1
    } else {
        rfind_idx(s.drop_last(), c)
    }
}

pub proof fn lemma_find_idx(s: Seq<char>, c: char)
    ensures
        find_idx(s, c) == -1 ==> (forall|i: int| 0 <= i < s.len() ==> s[i] != c),
        find_idx(s, c) != -1 ==> 0 <= find_idx(s, c) < s.len() && s[find_idx(s, c)] == c && (
        forall|i: int| 0 <= i < find_idx(s, c) ==> s[i] != c),
    decreases s.len(),
{
    if s.len() == 0 {
    } else if s[0] == c {
    } else {
        lemma_find_idx(s.skip(1), c);
        let t = s.skip(1);
        assert(forall|i: int| 0 <= i < t.len() ==> #[trigger] t[i] == s[i + 1]);
        let r = find_idx(t, c);
        if r == -1 {
            assert forall|i: int| 0 <= i < s.len() implies s[i] != c by {
                if i > 0 {
                    assert(t[i - 1] == s[i]);
                }
            }
        } else {
            assert(s[r + 1] == t[r]);
            assert forall|i: int| 0 <= i < r + 1 implies s[i] != c by {
                if i > 0 {
                    assert(t[i - 1] == s[i]);
                }
            }
        }
    }
}

pub proof fn lemma_rfind_idx(s: Seq<char>, c: char)
    ensures
        rfind_idx(s, c) == -1 ==> (forall|i: int| 0 <= i < s.len() ==> s[i] != c),
        rfind_idx(s, c) != -1 ==> 0 <= rfind_idx(s, c) < s.len() && s[rfind_idx(s, c)] == c && (
        forall|i: int| rfind_idx(s, c) < i < s.len() ==> s[i] != c),
    decreases s.len(),
{
    if s.len() == 0 {
    } else if s[s.len() - 1] == c {
    } else {
        lemma_rfind_idx(s.drop_last(), c);
        assert(forall|i: int| 0 <= i < s.drop_last().len() ==> s.drop_last()[i] == s[i]);
    }
}

/// Relies on `String::push` from std: appends exactly the one character.
#[verifier::external_body]
pub fn push_char(s: &mut String, c: char)
    ensures
        final(s)@ == old(s)@.push(c),
{
    s.push(c);
}

/// ASCII lowercase of one character, executable form.
pub fn char_to_lower(c: char) -> (r: char)
    ensures
        r == lower_char(c),
{
    let n = c as u32;
    if 65 <= n && n <= 90 {
        ((n + 32) as u8) as char
    } else {
        c
    }
}

/// ASCII-lowercased copy of a string.
pub fn str_to_lowercase(s: &str) -> (r: String)
    ensures
        r@ == lower_seq(s@),
{
    let n = s.unicode_len();
    let mut out = String::new();
    let mut i: usize = 0;
    while i < n
        invariant
            n == s@.len(),
            i <= n,
            out@ == lower_seq(s@.subrange(0, i as int)),
        decreases n - i,
    {
        let c = s.get_char(i);
        let l = char_to_lower(c);
        push_char(&mut out, l);
        proof {
            assert(lower_seq(s@.subrange(0, i + 1)) =~= lower_seq(s@.subrange(0, i as int)).push(
                lower_char(s@[i as int])));
        }
        i += 1;
    }
    proof {
        assert(s@.subrange(0, n as int) =~= s@);
    }
    out
}

/// String equality on views.
pub fn str_eq(a: &str, b: &str) -> (r: bool)
    ensures
        r == (a@ == b@),
{
    let sa = String::from_str(a);
    let sb = String::from_str(b);
    sa == sb
}

pub open spec fn is_prefix_of(p: Seq<char>, s: Seq<char>) -> bool {
    p.len() <= s.len() && s.subrange(0, p.len() as int) == p
}

pub open spec fn is_suffix_of(p: Seq<char>, s: Seq<char>) -> bool {
    p.len() <= s.len() && s.subrange(s.len() - p.len(), s.len() as int) == p
}

pub fn str_starts_with(s: &str, p: &str) -> (r: bool)
    ensures
        r == is_prefix_of(p@, s@),
{
    let sl = s.unicode_len();
    let pl = p.unicode_len();
    if pl > sl {
        false
    } else {
        let sub = s.substring_char(0, pl);
        str_eq(sub, p)
    }
}

pub fn str_ends_with(s: &str, p: &str) -> (r: bool)
    ensures
        r == is_suffix_of(p@, s@),
{
    let sl = s.unicode_len();
    let pl = p.unicode_len();
    if pl > sl {
        false
    } else {
        let sub = s.substring_char(sl - pl, sl);
        str_eq(sub, p)
    }
}

/// First occurrence of `c` in `s`.
pub fn str_find(s: &str, c: char) -> (r: Option<usize>)
    ensures
        match r {
            Some(i) => find_idx(s@, c) == i as int && i < s@.len() && s@[i as int] == c,
            None => find_idx(s@, c) == -1,
        },
{
    let n = s.unicode_len();
    let mut i: usize = 0;
    while i < n
        invariant
            n == s@.len(),
            i <= n,
            forall|j: int| 0 <= j < i ==> s@[j] != c,
        decreases n - i,
    {
        if s.get_char(i) == c {
            proof {
                lemma_find_idx(s@, c);
            }
            return Some(i);
        }
        i += 1;
    }
    proof {
        lemma_find_idx(s@, c);
    }
    None
}

/// Last occurrence of `c` in `s`.
pub fn str_rfind(s: &str, c: char) -> (r: Option<usize>)
    ensures
        match r {
            Some(i) => rfind_idx(s@, c) == i as int && i < s@.len() && s@[i as int] == c,
            None => rfind_idx(s@, c) == -1,
        },
{
    let n = s.unicode_len();
    let mut i: usize = n;
    while i > 0
        invariant
            n == s@.len(),
            i <= n,
            forall|j: int| i <= j < n ==> s@[j] != c,
        decreases i,
    {
        i -= 1;
        if s.get_char(i) == c {
            proof {
                lemma_rfind_idx(s@, c);
            }
            return Some(i);
        }
    }
    proof {
        lemma_rfind_idx(s@, c);
    }
    None
}

pub open spec fn contains_char(s: Seq<char>, c: char) -> bool {
    exists|i: int| 0 <= i < s.len() && s[i] == c
}

pub fn str_contains_char(s: &str, c: char) -> (r: bool)
    ensures
        r == contains_char(s@, c),
{
    proof {
        lemma_find_idx(s@, c);
    }
    match str_find(s, c) {
        Some(i) => {
            assert(s@[i as int] == c);
            true
        },
        None => false,
    }
}

/// Two consecutive `/` characters somewhere in `s`.
pub open spec fn has_double_slash(s: Seq<char>) -> bool {
    exists|i: int| 0 <= i && i + 1 < s.len() && #[trigger] s[i] == '/' && s[i + 1] == '/'
}

pub fn str_has_double_slash(s: &str) -> (r: bool)
    ensures
        r == has_double_slash(s@),
{
    let n = s.unicode_len();
    if n < 2 {
        return false;
    }
    let mut i: usize = 1;
    while i < n
        invariant
            n == s@.len(),
            1 <= i <= n,
            forall|j: int| 0 <= j && j + 1 < i ==> !(#[trigger] s@[j] == '/' && s@[j + 1] == '/'),
        decreases n - i,
    {
        if s.get_char(i - 1) == '/' && s.get_char(i) == '/' {
            assert(s@[i - 1] == '/' && s@[i as int] == '/');
            return true;
        }
        i += 1;
    }
    false
}

/// Decimal digit character for a value below ten.
pub open spec fn digit_char(d: int) -> char {
    ((48 + d) as u8) as char
}

/// Decimal representation of `n`, most significant digit first.
pub open spec fn dec_str(n: nat) -> Seq<char>
    decreases n,
{
    if n < 10 {
        seq![digit_char(n as int)]
    } else {
        dec_str(n / 10).push(digit_char((n % 10) as int))
    }
}

/// Decimal formatting of an unsigned number.
pub fn fmt_u64(n: u64) -> (r: String)
    ensures
        r@ == dec_str(n as nat),
    decreases n,
{
    if n < 10 {
        let mut s = String::new();
        push_char(&mut s, ((48 + n as u8)) as char);
        proof {
            assert(s@ =~= seq![digit_char(n as int)]);
        }
        s
    } else {
        let mut s = fmt_u64(n / 10);
        push_char(&mut s, (48 + (n % 10) as u8) as char);
        s
    }
}

/// Numeric value of a digit sequence, most significant first.
pub open spec fn dec_value(s: Seq<char>) -> int
    decreases s.len(),
{
    if s.len() == 0 {
        0
    } else {
        dec_value(s.drop_last()) * 10 + (s[s.len() - 1] as u32 - 48)
    }
}

pub open spec fn all_digits(s: Seq<char>) -> bool {
    forall|i: int| 0 <= i < s.len() ==> 48 <= (#[trigger] s[i]) as u32 <= 57
}

/// Parse an unsigned decimal port number; `None` when the string is empty,
/// holds a non-digit, or exceeds `u16::MAX`.
pub fn parse_u16(s: &str) -> (r: Option<u16>)
    ensures
        match r {
            Some(v) => s@.len() > 0 && all_digits(s@) && dec_value(s@) == v as int,
            None => s@.len() == 0 || !all_digits(s@) || dec_value(s@) > u16::MAX,
        },
{
    let n = s.unicode_len();
    if n == 0 {
        return None;
    }
    let mut acc: u32 = 0;
    let mut i: usize = 0;
    while i < n
        invariant
            n == s@.len(),
            i <= n,
            all_digits(s@.subrange(0, i as int)),
            acc as int == dec_value(s@.subrange(0, i as int)),
            acc <= 0xffff,
        decreases n - i,
    {
        let c = s.get_char(i);
        let code = c as u32;
        if code < 48 || code > 57 {
            assert(!all_digits(s@)) by {
                assert(s@[i as int] == c);
            }
            return None;
        }
        let d = code - 48;
        let next: u32 = acc * 10 + d;
        proof {
            assert(s@.subrange(0, i + 1).drop_last() =~= s@.subrange(0, i as int));
            assert(dec_value(s@.subrange(0, i + 1)) == acc * 10 + d);
        }
        if next > 0xffff {
            proof {
                let ext = s@.subrange(0, i + 1);
                assert(ext =~= s@.subrange(0, i as int).push(c));
                assert forall|j: int| 0 <= j < ext.len() implies 48 <= (#[trigger] ext[j]) as u32
                    <= 57 by {
                    if j < i {
                        assert(ext[j] == s@.subrange(0, i as int)[j]);
                    }
                }
                lemma_dec_value_monotonic(s@, i + 1);
            }
            return None;
        }
        acc = next;
        i += 1;
        proof {
            assert(all_digits(s@.subrange(0, i as int)));
        }
    }
    proof {
        assert(s@.subrange(0, n as int) =~= s@);
    }
    Some(acc as u16)
}

/// Parse an unsigned decimal number; `None` when the string is empty,
/// holds a non-digit, or exceeds `u64::MAX`.
pub fn parse_u64(s: &str) -> (r: Option<u64>)
    ensures
        match r {
            Some(v) => s@.len() > 0 && all_digits(s@) && dec_value(s@) == v as int,
            None => s@.len() == 0 || !all_digits(s@) || dec_value(s@) > u64::MAX,
        },
{
    let n = s.unicode_len();
    if n == 0 {
        return None;
    }
    let mut acc: u64 = 0;
    let mut i: usize = 0;
    while i < n
        invariant
            n == s@.len(),
            i <= n,
            all_digits(s@.subrange(0, i as int)),
            acc as int == dec_value(s@.subrange(0, i as int)),
        decreases n - i,
    {
        let c = s.get_char(i);
        let code = c as u32;
        if code < 48 || code > 57 {
            assert(!all_digits(s@)) by {
                assert(s@[i as int] == c);
            }
            return None;
        }
        let d = (code - 48) as u64;
        if acc > (u64::MAX - d) / 10 {
            proof {
                let ext = s@.subrange(0, i + 1);
                assert(ext.drop_last() =~= s@.subrange(0, i as int));
                assert(dec_value(ext) == acc * 10 + d);
                assert forall|j: int| 0 <= j < ext.len() implies 48 <= (#[trigger] ext[j]) as u32
                    <= 57 by {
                    if j < i {
                        assert(ext[j] == s@.subrange(0, i as int)[j]);
                    }
                }
                assert(dec_value(ext) > u64::MAX) by (nonlinear_arith)
                    requires
                        dec_value(ext) == acc * 10 + d,
                        acc > (u64::MAX - d) / 10,
                        0 <= d <= 9,
                        acc >= 0,
                ;
                lemma_dec_value_monotonic_u64(s@, i + 1);
            }
            return None;
        }
        let next: u64 = acc * 10 + d;
        proof {
            assert(s@.subrange(0, i + 1).drop_last() =~= s@.subrange(0, i as int));
            assert(dec_value(s@.subrange(0, i + 1)) == acc * 10 + d);
            assert(all_digits(s@.subrange(0, i + 1))) by {
                assert(forall|j: int|
                    0 <= j < i ==> #[trigger] s@.subrange(0, i + 1)[j] == s@.subrange(
                        0,
                        i as int,
                    )[j]);
            }
        }
        acc = next;
        i += 1;
    }
    proof {
        assert(s@.subrange(0, n as int) =~= s@);
    }
    Some(acc)
}

/// Once a decimal prefix exceeds `u64::MAX`, the whole digit string does too.
proof fn lemma_dec_value_monotonic_u64(s: Seq<char>, k: int)
    requires
        0 < k <= s.len(),
        dec_value(s.subrange(0, k)) > u64::MAX,
        all_digits(s.subrange(0, k)),
    ensures
        dec_value(s) > u64::MAX || !all_digits(s),
    decreases s.len() - k,
{
    if k == s.len() {
        assert(s.subrange(0, k) =~= s);
    } else if 48 <= s[k] as u32 && s[k] as u32 <= 57 {
        let ext = s.subrange(0, k + 1);
        assert(ext.drop_last() =~= s.subrange(0, k));
        assert(dec_value(ext) == dec_value(s.subrange(0, k)) * 10 + (s[k] as u32 - 48));
        assert(dec_value(ext) > u64::MAX) by (nonlinear_arith)
            requires
                dec_value(ext) == dec_value(s.subrange(0, k)) * 10 + (s[k] as u32 - 48),
                dec_value(s.subrange(0, k)) > u64::MAX,
                s[k] as u32 >= 48,
        ;
        assert forall|j: int| 0 <= j < ext.len() implies 48 <= (#[trigger] ext[j]) as u32 <= 57 by {
            if j < k {
                assert(ext[j] == s.subrange(0, k)[j]);
            }
        }
        lemma_dec_value_monotonic_u64(s, k + 1);
    } else {
        assert(!(48 <= s[k] as u32 <= 57));
    }
}

/// Once a decimal prefix exceeds `u16::MAX`, the whole digit string does too.
proof fn lemma_dec_value_monotonic(s: Seq<char>, k: int)
    requires
        0 < k <= s.len(),
        dec_value(s.subrange(0, k)) > u16::MAX,
        all_digits(s.subrange(0, k)),
    ensures
        dec_value(s) > u16::MAX || !all_digits(s),
    decreases s.len() - k,
{
    if k == s.len() {
        assert(s.subrange(0, k) =~= s);
    } else if 48 <= s[k] as u32 && s[k] as u32 <= 57 {
        let ext = s.subrange(0, k + 1);
        assert(ext.drop_last() =~= s.subrange(0, k));
        assert(dec_value(ext) == dec_value(s.subrange(0, k)) * 10 + (s[k] as u32 - 48));
        assert forall|j: int| 0 <= j < ext.len() implies 48 <= (#[trigger] ext[j]) as u32 <= 57 by {
            if j < k {
                assert(ext[j] == s.subrange(0, k)[j]);
            }
        }
        lemma_dec_value_monotonic(s, k + 1);
    } else {
        assert(!(48 <= s[k] as u32 <= 57));
    }
}

} // verus!
