//! Decimal strings: the canonical base-10 rendering of an integer, parsing of
//! signed and unsigned decimal strings, and the half-open stepped sequence
//! `start, start + step, ...` that both range modes iterate over.

use vstd::prelude::*;

verus! {

/// The ten decimal digit characters, as a spec-level predicate.
pub open spec fn is_digit(c: char) -> bool {
    c == '0' || c == '1' || c == '2' || c == '3' || c == '4' || c == '5' || c == '6' || c == '7'
        || c == '8' || c == '9'
}

/// Numeric value of a digit character (meaningful only when `is_digit`).
pub open spec fn digit_val(c: char) -> int {
    if c == '0' {
        0
    } else if c == '1' {
        1
    } else if c == '2' {
        2
    } else if c == '3' {
        3
    } else if c == '4' {
        4
    } else if c == '5' {
        5
    } else if c == '6' {
        6
    } else if c == '7' {
        7
    } else if c == '8' {
        8
    } else {
        9
    }
}

/// The digit character for a value below ten.
pub open spec fn digit_char(d: int) -> char {
    if d == 0 {
        '0'
    } else if d == 1 {
        '1'
    } else if d == 2 {
        '2'
    } else if d == 3 {
        '3'
    } else if d == 4 {
        '4'
    } else if d == 5 {
        '5'
    } else if d == 6 {
        '6'
    } else if d == 7 {
        '7'
    } else if d == 8 {
        '8'
    } else {
        '9'
    }
}

/// Canonical decimal rendering of a non-negative integer: most significant
/// digit first, no leading zeros (except for zero itself).
pub open spec fn u_dec_str(n: nat) -> Seq<char>
    decreases n,
{
    if n < 10 {
        seq![digit_char(n as int)]
    } else {
        u_dec_str(n / 10).push(digit_char((n % 10) as int))
    }
}

/// Canonical decimal rendering of an integer, with a leading minus sign for
/// negative values.
pub open spec fn dec_str_of(n: int) -> Seq<char> {
    if n < 0 {
        seq!['-'] + u_dec_str((-n) as nat)
    } else {
        u_dec_str(n as nat)
    }
}

/// A one-character string slice for a digit value.
fn digit_str(d: u128) -> (r: &'static str)
    requires
        d < 10,
    ensures
        r@ =~= seq![digit_char(d as int)],
{
    proof {
        reveal_strlit("0");
        reveal_strlit("1");
        reveal_strlit("2");
        reveal_strlit("3");
        reveal_strlit("4");
        reveal_strlit("5");
        reveal_strlit("6");
        reveal_strlit("7");
        reveal_strlit("8");
        reveal_strlit("9");
    }
    if d == 0 {
        "0"
    } else if d == 1 {
        "1"
    } else if d == 2 {
        "2"
    } else if d == 3 {
        "3"
    } else if d == 4 {
        "4"
    } else if d == 5 {
        "5"
    } else if d == 6 {
        "6"
    } else if d == 7 {
        "7"
    } else if d == 8 {
        "8"
    } else {
        "9"
    }
}

/// Renders a non-negative value in decimal.
fn u_dec_string(n: u128) -> (r: String)
    ensures
        r@ == u_dec_str(n as nat),
    decreases n,
{
    if n < 10 {
        digit_str(n).to_owned()
    } else {
        let mut s = u_dec_string(n / 10);
        s.append(digit_str(n % 10));
        proof {
            assert(s@ =~= u_dec_str((n / 10) as nat).push(digit_char((n % 10) as int)));
        }
        s
    }
}

/// Renders a signed value in decimal, as `to_string` on an integer does.
pub fn render_i128(n: i128) -> (r: String)
    ensures
        r@ == dec_str_of(n as int),
{
    if n >= 0 {
        u_dec_string(n as u128)
    } else {
        // magnitude of n, computed without overflowing at i128::MIN
        let mag: u128 = ((-(n + 1)) as u128) + 1;
        proof {
            assert(mag as int == -(n as int));
        }
        let mut s = String::new();
        proof {
            reveal_strlit("-");
        }
        s.append("-");
        let digits = u_dec_string(mag);
        s.append(digits.as_str());
        proof {
            assert(s@ =~= seq!['-'] + u_dec_str((-(n as int)) as nat));
        }
        s
    }
}

/// Every character of the sequence is a decimal digit.
pub open spec fn is_digit_seq(s: Seq<char>) -> bool {
    forall|i: int| 0 <= i < s.len() ==> is_digit(#[trigger] s[i])
}

/// Value of a sequence of decimal digits, most significant first.
pub open spec fn dec_val(s: Seq<char>) -> int
    decreases s.len(),
{
    if s.len() == 0 {
        0
    } else {
        dec_val(s.drop_last()) * 10 + digit_val(s.last())
    }
}

/// A digit body: at least one character, all of them digits.
pub open spec fn is_digit_body(s: Seq<char>) -> bool {
    s.len() >= 1 && is_digit_seq(s)
}

/// A signed decimal string as `str::parse` of a signed integer accepts it:
/// an optional `+` or `-` sign followed by one or more digits.
pub open spec fn is_int_str(s: Seq<char>) -> bool {
    if s.len() > 0 && (s[0] == '-' || s[0] == '+') {
        is_digit_body(s.skip(1))
    } else {
        is_digit_body(s)
    }
}

/// Value of a signed decimal string (meaningful only when `is_int_str`).
pub open spec fn int_str_val(s: Seq<char>) -> int {
    if s.len() > 0 && s[0] == '-' {
        -dec_val(s.skip(1))
    } else if s.len() > 0 && s[0] == '+' {
        dec_val(s.skip(1))
    } else {
        dec_val(s)
    }
}

/// An unsigned decimal string as `str::parse` of an unsigned integer accepts
/// it: an optional `+` sign followed by one or more digits.
pub open spec fn is_uint_str(s: Seq<char>) -> bool {
    if s.len() > 0 && s[0] == '+' {
        is_digit_body(s.skip(1))
    } else {
        is_digit_body(s)
    }
}

/// Value of an unsigned decimal string (meaningful only when `is_uint_str`).
pub open spec fn uint_str_val(s: Seq<char>) -> int {
    if s.len() > 0 && s[0] == '+' {
        dec_val(s.skip(1))
    } else {
        dec_val(s)
    }
}

/// The value fits in the signed type the number modes use.
pub open spec fn i128_in_range(n: int) -> bool {
    i128::MIN <= n <= i128::MAX
}

/// The value of a digit sequence is never negative.
pub proof fn lemma_dec_val_nonneg(s: Seq<char>)
    ensures
        dec_val(s) >= 0,
    decreases s.len(),
{
    if s.len() > 0 {
        lemma_dec_val_nonneg(s.drop_last());
    }
}

/// Extending a digit sequence to the right can only grow its value.
pub proof fn lemma_dec_val_prefix(s: Seq<char>, j: int)
    requires
        0 <= j <= s.len(),
    ensures
        dec_val(s.take(j)) <= dec_val(s),
    decreases s.len() - j,
{
    if j == s.len() {
        assert(s.take(j) =~= s);
    } else {
        lemma_dec_val_prefix(s, j + 1);
        let t = s.take(j + 1);
        assert(t.drop_last() =~= s.take(j));
        lemma_dec_val_nonneg(s.take(j));
        assert(dec_val(t) == dec_val(s.take(j)) * 10 + digit_val(t.last()));
    }
}

/// The digit character for a value, if the character is one.
fn digit_of(c: char) -> (r: Option<u8>)
    ensures
        r is Some <==> is_digit(c),
        r is Some ==> is_digit(c) && r->0 as int == digit_val(c),
{
    if c == '0' {
        Some(0)
    } else if c == '1' {
        Some(1)
    } else if c == '2' {
        Some(2)
    } else if c == '3' {
        Some(3)
    } else if c == '4' {
        Some(4)
    } else if c == '5' {
        Some(5)
    } else if c == '6' {
        Some(6)
    } else if c == '7' {
        Some(7)
    } else if c == '8' {
        Some(8)
    } else if c == '9' {
        Some(9)
    } else {
        None
    }
}

/// Reads the digit body `s[start..]`, accumulating its value as long as it
/// stays within `limit`.
fn parse_digit_body(s: &str, start: usize, limit: u128) -> (r: Option<u128>)
    requires
        start <= s@.len(),
        limit >= 9,
    ensures
        r is Some <==> (is_digit_body(s@.skip(start as int)) && dec_val(s@.skip(start as int))
            <= limit),
        r is Some ==> r->0 as int == dec_val(s@.skip(start as int)),
{
    let ghost body = s@.skip(start as int);
    let n = s.unicode_len();
    if n == start {
        assert(!is_digit_body(body));
        return None;
    }
    let mut acc: u128 = 0;
    let mut i = start;
    while i < n
        invariant
            start < n == s@.len(),
            start <= i <= n,
            body == s@.skip(start as int),
            limit >= 9,
            is_digit_seq(s@.subrange(start as int, i as int)),
            acc as int == dec_val(s@.subrange(start as int, i as int)),
            acc <= limit,
        ensures
            i == n,
            is_digit_seq(body),
            acc as int == dec_val(body),
            acc <= limit,
        decreases n - i,
    {
        let c = s.get_char(i);
        let d = match digit_of(c) {
            Some(d) => d,
            None => {
                assert(body[i - start] == c);
                assert(!is_digit_seq(body));
                return None;
            },
        };
        let ghost pre = s@.subrange(start as int, i as int);
        let ghost ext = s@.subrange(start as int, i + 1 as int);
        proof {
            assert(ext.drop_last() =~= pre);
            assert(ext.last() == c);
        }
        if acc > (limit - d as u128) / 10 {
            // every longer prefix is at least this large, so the whole body
            // overflows the limit
            proof {
                assert(acc * 10 + d as int > limit) by (nonlinear_arith)
                    requires
                        acc > (limit - d as u128) / 10 && d <= 9 && limit >= d,
                ;
                if is_digit_seq(body) {
                    lemma_dec_val_prefix(body, i + 1 - start);
                    assert(body.take(i + 1 - start) =~= ext);
                }
            }
            return None;
        }
        proof {
            assert(acc * 10 + d as u128 <= limit) by (nonlinear_arith)
                requires
                    acc <= (limit - d as u128) / 10 && d as u128 <= limit,
            ;
        }
        acc = acc * 10 + d as u128;
        i = i + 1;
        proof {
            assert(is_digit_seq(ext)) by {
                assert forall|j: int| 0 <= j < ext.len() implies is_digit(#[trigger] ext[j]) by {
                    if j < ext.len() - 1 {
                        assert(ext[j] == pre[j]);
                    }
                }
            }
        }
    }
    proof {
        assert(s@.subrange(start as int, n as int) =~= body);
    }
    Some(acc)
}

/// Parses a signed decimal string exactly as `str::parse::<i128>` does: an
/// optional sign, then digits, rejecting values outside the type's range.
pub fn parse_i128(s: &str) -> (r: Option<i128>)
    ensures
        r is Some <==> (is_int_str(s@) && i128::MIN <= int_str_val(s@) <= i128::MAX),
        r is Some ==> r->0 as int == int_str_val(s@),
{
    let n = s.unicode_len();
    if n == 0 {
        return None;
    }
    let c0 = s.get_char(0);
    let neg = c0 == '-';
    let signed = neg || c0 == '+';
    let start: usize = if signed {
        1
    } else {
        0
    };
    let limit: u128 = if neg {
        i128::MAX as u128 + 1
    } else {
        i128::MAX as u128
    };
    proof {
        if !signed {
            assert(s@.skip(0) =~= s@);
        }
        lemma_dec_val_nonneg(s@.skip(start as int));
    }
    match parse_digit_body(s, start, limit) {
        Some(v) => {
            if neg {
                if v == i128::MAX as u128 + 1 {
                    Some(i128::MIN)
                } else {
                    Some(-(v as i128))
                }
            } else {
                Some(v as i128)
            }
        },
        None => None,
    }
}

/// Parses an unsigned decimal string exactly as `str::parse::<usize>` does:
/// an optional `+`, then digits, rejecting values above `usize::MAX`.
pub fn parse_usize(s: &str) -> (r: Option<usize>)
    ensures
        r is Some <==> (is_uint_str(s@) && uint_str_val(s@) <= usize::MAX),
        r is Some ==> r->0 as int == uint_str_val(s@),
{
    let n = s.unicode_len();
    if n == 0 {
        return None;
    }
    let c0 = s.get_char(0);
    let start: usize = if c0 == '+' {
        1
    } else {
        0
    };
    proof {
        if c0 != '+' {
            assert(s@.skip(0) =~= s@);
        }
        lemma_dec_val_nonneg(s@.skip(start as int));
    }
    match parse_digit_body(s, start, usize::MAX as u128) {
        Some(v) => Some(v as usize),
        None => None,
    }
}

/// How many elements the half-open stepped sequence over `[a, b)` with
/// increment `k` has: `ceil((b - a) / k)`, and none when the range is empty.
pub open spec fn stepped_len(a: int, b: int, k: int) -> nat {
    if a >= b {
        0
    } else {
        ((b - a + k - 1) / k) as nat
    }
}

/// The half-open stepped sequence `a, a + k, a + 2k, ...`, each element
/// strictly below `b`.
pub open spec fn stepped(a: int, b: int, k: int) -> Seq<int> {
    Seq::new(stepped_len(a, b, k), |i: int| a + i * k)
}

/// Peeling one element off the front of a non-empty stepped sequence leaves
/// the stepped sequence that starts one increment later.
pub proof fn lemma_stepped_unfold(a: int, b: int, k: int)
    requires
        k >= 1,
        a < b,
    ensures
        stepped(a, b, k) =~= seq![a] + stepped(a + k, b, k),
{
    if a + k < b {
        assert((b - a + k - 1) / k == (b - (a + k) + k - 1) / k + 1) by (nonlinear_arith)
            requires
                k >= 1 && a + k < b,
        ;
    } else {
        assert((b - a + k - 1) / k == 1) by (nonlinear_arith)
            requires
                k >= 1 && a < b && a + k >= b,
        ;
    }
    let s1 = seq![a] + stepped(a + k, b, k);
    assert forall|i: int| 0 <= i < s1.len() implies s1[i] == stepped(a, b, k)[i] by {
        if i >= 1 {
            assert((a + k) + (i - 1) * k == a + i * k) by (nonlinear_arith);
        }
    }
}

/// Every element of the stepped sequence lies in the half-open range.
pub proof fn lemma_stepped_in_range(a: int, b: int, k: int, i: int)
    requires
        k >= 1,
        0 <= i < stepped_len(a, b, k),
    ensures
        a <= stepped(a, b, k)[i] < b,
{
    assert(i * k >= 0) by (nonlinear_arith)
        requires
            i >= 0 && k >= 1,
    ;
    assert(a + i * k < b) by (nonlinear_arith)
        requires
            k >= 1 && a < b && 0 <= i < (b - a + k - 1) / k,
    ;
}

} // verus!
