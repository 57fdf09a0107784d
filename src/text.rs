//! Character-level text handling: whitespace, lines, tokens and numerals.

use vstd::prelude::*;

verus! {

/// Unicode `White_Space`, the set that `char::is_whitespace` tests.
pub open spec fn is_space(c: char) -> bool {
    c == ' ' || ('\t' <= c && c <= '\r') || c == '\u{85}' || c == '\u{A0}' || c == '\u{1680}'
        || ('\u{2000}' <= c && c <= '\u{200A}') || c == '\u{2028}' || c == '\u{2029}'
        || c == '\u{202F}' || c == '\u{205F}' || c == '\u{3000}'
}

pub open spec fn is_digit(c: char) -> bool {
    '0' <= c && c <= '9'
}

pub open spec fn all_digits(d: Seq<char>) -> bool {
    forall|i: int| 0 <= i < d.len() ==> is_digit(#[trigger] d[i])
}

/// The views of a sequence of character vectors.
pub open spec fn texts(v: Seq<Vec<char>>) -> Seq<Seq<char>> {
    v.map_values(|x: Vec<char>| x@)
}

/// Splitting at `'\n'`, read from the left: the finished pieces and the open one.
pub open spec fn line_state(s: Seq<char>) -> (Seq<Seq<char>>, Seq<char>)
    decreases s.len(),
{
    if s.len() == 0 {
        (Seq::empty(), Seq::empty())
    } else {
        let (done, cur) = line_state(s.drop_last());
        if s.last() == '\n' {
            (done.push(cur), Seq::empty())
        } else {
            (done, cur.push(s.last()))
        }
    }
}

/// The lines of `s`: its pieces between `'\n'`s, where a final empty piece is no line.
pub open spec fn lines_of(s: Seq<char>) -> Seq<Seq<char>> {
    let (done, cur) = line_state(s);
    if cur.len() == 0 {
        done
    } else {
        done.push(cur)
    }
}

/// Splitting at whitespace, read from the left: the finished tokens and the open one.
pub open spec fn token_state(s: Seq<char>) -> (Seq<Seq<char>>, Seq<char>)
    decreases s.len(),
{
    if s.len() == 0 {
        (Seq::empty(), Seq::empty())
    } else {
        let (done, cur) = token_state(s.drop_last());
        if is_space(s.last()) {
            if cur.len() > 0 {
                (done.push(cur), Seq::empty())
            } else {
                (done, Seq::empty())
            }
        } else {
            (done, cur.push(s.last()))
        }
    }
}

/// The maximal runs of non-whitespace characters of `s`, in order.
pub open spec fn tokens_of(s: Seq<char>) -> Seq<Seq<char>> {
    let (done, cur) = token_state(s);
    if cur.len() > 0 {
        done.push(cur)
    } else {
        done
    }
}

/// The value of a string of decimal digits.
pub open spec fn digits_value(d: Seq<char>) -> int
    decreases d.len(),
{
    if d.len() == 0 {
        0
    } else {
        10 * digits_value(d.drop_last()) + (d.last() as int - '0' as int)
    }
}

pub open spec fn digit_char(n: nat) -> char {
    if n < 10 {
        (n + '0' as nat) as char
    } else {
        '?'
    }
}

/// The decimal numeral of `n`, without leading zeros.
pub open spec fn nat_text(n: nat) -> Seq<char>
    decreases n,
{
    if n < 10 {
        seq![digit_char(n)]
    } else {
        nat_text(n / 10).push(digit_char(n % 10))
    }
}

/// The decimal numeral of `i`, with a `'-'` before a negative one.
pub open spec fn int_text(i: int) -> Seq<char> {
    if i < 0 {
        seq!['-'] + nat_text((-i) as nat)
    } else {
        nat_text(i as nat)
    }
}

pub fn is_space_char(c: char) -> (r: bool)
    ensures
        r == is_space(c),
{
    c == ' ' || ('\t' <= c && c <= '\r') || c == '\u{85}' || c == '\u{A0}' || c == '\u{1680}'
        || ('\u{2000}' <= c && c <= '\u{200A}') || c == '\u{2028}' || c == '\u{2029}'
        || c == '\u{202F}' || c == '\u{205F}' || c == '\u{3000}'
}

/// The characters of `s`, in order.
pub fn chars_of(s: &str) -> (r: Vec<char>)
    ensures
        r@ == s@,
{
    let mut out: Vec<char> = Vec::new();
    for c in it: s.chars()
        invariant
            it.seq() == s@,
            out@ == it.seq().take(it.index() as int),
    {
        out.push(c);
    }
    out
}

/// Relies on `String`'s `FromIterator<char>`: the string of the given characters.
#[verifier::external_body]
pub(crate) fn string_of(v: &Vec<char>) -> (r: String)
    ensures
        r@ == v@,
{
    v.iter().collect()
}

/// The lines of `s` (see `lines_of`).
pub fn split_lines(s: &Vec<char>) -> (r: Vec<Vec<char>>)
    ensures
        texts(r@) == lines_of(s@),
{
    let mut done: Vec<Vec<char>> = Vec::new();
    let mut cur: Vec<char> = Vec::new();
    let mut i: usize = 0;
    while i < s.len()
        invariant
            0 <= i <= s.len(),
            line_state(s@.take(i as int)) == (texts(done@), cur@),
        decreases s.len() - i,
    {
        assert(s@.take(i + 1).drop_last() =~= s@.take(i as int));
        let c = s[i];
        if c == '\n' {
            let finished = cur;
            cur = Vec::new();
            proof {
                assert(texts(done@.push(finished)) =~= texts(done@).push(finished@));
            }
            done.push(finished);
        } else {
            cur.push(c);
        }
        i += 1;
    }
    assert(s@.take(s.len() as int) =~= s@);
    if cur.len() > 0 {
        proof {
            assert(texts(done@.push(cur)) =~= texts(done@).push(cur@));
        }
        done.push(cur);
    }
    done
}

/// The whitespace-separated tokens of `s` (see `tokens_of`).
pub fn split_tokens(s: &Vec<char>) -> (r: Vec<Vec<char>>)
    ensures
        texts(r@) == tokens_of(s@),
{
    let mut done: Vec<Vec<char>> = Vec::new();
    let mut cur: Vec<char> = Vec::new();
    let mut i: usize = 0;
    while i < s.len()
        invariant
            0 <= i <= s.len(),
            token_state(s@.take(i as int)) == (texts(done@), cur@),
        decreases s.len() - i,
    {
        assert(s@.take(i + 1).drop_last() =~= s@.take(i as int));
        let c = s[i];
        if is_space_char(c) {
            if cur.len() > 0 {
                let finished = cur;
                cur = Vec::new();
                proof {
                    assert(texts(done@.push(finished)) =~= texts(done@).push(finished@));
                }
                done.push(finished);
            } else {
                cur = Vec::new();
            }
        } else {
            cur.push(c);
        }
        i += 1;
    }
    assert(s@.take(s.len() as int) =~= s@);
    if cur.len() > 0 {
        proof {
            assert(texts(done@.push(cur)) =~= texts(done@).push(cur@));
        }
        done.push(cur);
    }
    done
}

fn digit_of(d: u8) -> (c: char)
    requires
        d < 10,
    ensures
        c == digit_char(d as nat),
{
    match d {
        0 => '0',
        1 => '1',
        2 => '2',
        3 => '3',
        4 => '4',
        5 => '5',
        6 => '6',
        7 => '7',
        8 => '8',
        _ => '9',
    }
}

/// Appends the decimal numeral of `n` to `out`.
pub fn push_nat_text(n: u128, out: &mut Vec<char>)
    ensures
        final(out)@ == old(out)@ + nat_text(n as nat),
    decreases n,
{
    if n >= 10 {
        push_nat_text(n / 10, out);
    }
    out.push(digit_of((n % 10) as u8));
    assert(nat_text(n as nat) =~= if n < 10 { seq![digit_char(n as nat)] } else { nat_text((n / 10) as nat).push(digit_char((n % 10) as nat)) });
}

/// The decimal numeral of `i` as a string.
pub fn int_to_text(i: i64) -> (r: String)
    ensures
        r@ == int_text(i as int),
{
    let mut v: Vec<char> = Vec::new();
    if i < 0 {
        v.push('-');
        let m: u128 = if i == i64::MIN { 9223372036854775808u128 } else { (-i) as u128 };
        push_nat_text(m, &mut v);
    } else {
        push_nat_text(i as u128, &mut v);
    }
    string_of(&v)
}

/// Why a token is not an `i32` numeral.
#[derive(Clone, Copy, Debug, PartialEq, Eq, Structural)]
pub enum IntErrorKind {
    Empty,
    InvalidDigit,
    PosOverflow,
    NegOverflow,
}

pub open spec fn has_sign(s: Seq<char>) -> bool {
    s.len() > 0 && (s[0] == '+' || s[0] == '-')
}

/// `s` without its leading sign, if it has one.
pub open spec fn unsigned_part(s: Seq<char>) -> Seq<char> {
    if has_sign(s) {
        s.drop_first()
    } else {
        s
    }
}

pub open spec fn is_negative(s: Seq<char>) -> bool {
    s.len() > 0 && s[0] == '-'
}

/// The value of a signed numeral: an optional sign, then digits.
pub open spec fn numeral_value(s: Seq<char>) -> int {
    if is_negative(s) {
        -digits_value(unsigned_part(s))
    } else {
        digits_value(unsigned_part(s))
    }
}

/// How `s` reads as an `i32`: an optional `+` or `-`, then one or more ASCII
/// digits, with a value in range.
pub open spec fn i32_reading(s: Seq<char>) -> Result<i32, IntErrorKind> {
    if s.len() == 0 {
        Err(IntErrorKind::Empty)
    } else if unsigned_part(s).len() == 0 || !all_digits(unsigned_part(s)) {
        Err(IntErrorKind::InvalidDigit)
    } else if numeral_value(s) > i32::MAX {
        Err(IntErrorKind::PosOverflow)
    } else if numeral_value(s) < i32::MIN {
        Err(IntErrorKind::NegOverflow)
    } else {
        Ok(numeral_value(s) as i32)
    }
}

pub open spec fn int_error_text(k: IntErrorKind) -> Seq<char> {
    match k {
        IntErrorKind::Empty => "cannot parse integer from empty string"@,
        IntErrorKind::InvalidDigit => "invalid digit found in string"@,
        IntErrorKind::PosOverflow => "number too large to fit in target type"@,
        IntErrorKind::NegOverflow => "number too small to fit in target type"@,
    }
}

pub fn int_error_message(k: IntErrorKind) -> (r: &'static str)
    ensures
        r@ == int_error_text(k),
{
    match k {
        IntErrorKind::Empty => "cannot parse integer from empty string",
        IntErrorKind::InvalidDigit => "invalid digit found in string",
        IntErrorKind::PosOverflow => "number too large to fit in target type",
        IntErrorKind::NegOverflow => "number too small to fit in target type",
    }
}

proof fn lemma_digits_step(s: Seq<char>, a: int, j: int)
    requires
        0 <= a <= j < s.len(),
    ensures
        digits_value(s.subrange(a, j + 1)) == 10 * digits_value(s.subrange(a, j)) + (s[j] as int
            - '0' as int),
{
    assert(s.subrange(a, j + 1).drop_last() =~= s.subrange(a, j));
}

/// Reads `s` as an `i32` (see `i32_reading`).
pub fn read_i32(s: &Vec<char>) -> (r: Result<i32, IntErrorKind>)
    ensures
        r == i32_reading(s@),
{
    let n = s.len();
    if n == 0 {
        return Err(IntErrorKind::Empty);
    }
    let start: usize = if s[0] == '+' || s[0] == '-' { 1 } else { 0 };
    let neg = s[0] == '-';
    assert(unsigned_part(s@) =~= s@.subrange(start as int, n as int));
    if start == n {
        return Err(IntErrorKind::InvalidDigit);
    }
    let mut acc: u64 = 0;
    let mut big = false;
    let mut j: usize = start;
    while j < n
        invariant
            start <= j <= n,
            n == s.len(),
            unsigned_part(s@) == s@.subrange(start as int, n as int),
            neg == is_negative(s@),
            all_digits(s@.subrange(start as int, j as int)),
            digits_value(s@.subrange(start as int, j as int)) >= 0,
            !big ==> acc == digits_value(s@.subrange(start as int, j as int)) && acc <= 2147483648,
            big ==> digits_value(s@.subrange(start as int, j as int)) > 2147483648,
        decreases n - j,
    {
        let c = s[j];
        if !('0' <= c && c <= '9') {
            assert(!is_digit(s@.subrange(start as int, n as int)[j - start]));
            return Err(IntErrorKind::InvalidDigit);
        }
        proof {
            lemma_digits_step(s@, start as int, j as int);
            assert(s@.subrange(start as int, j + 1) =~= s@.subrange(start as int, j as int).push(c));
        }
        if !big {
            acc = acc * 10 + (c as u64 - '0' as u64);
            if acc > 2147483648 {
                big = true;
            }
        }
        j += 1;
    }
    if neg {
        if big {
            Err(IntErrorKind::NegOverflow)
        } else {
            Ok((-(acc as i64)) as i32)
        }
    } else {
        if big || acc > 2147483647 {
            Err(IntErrorKind::PosOverflow)
        } else {
            Ok(acc as i32)
        }
    }
}

/// Reading a fixed-point numeral from the left: value of the digits so far,
/// digits after the point, digit count, whether a point was seen, and whether
/// the text is still well formed. At most 18 digits are taken.
pub open spec fn decimal_scan(b: Seq<char>) -> (int, nat, nat, bool, bool)
    decreases b.len(),
{
    if b.len() == 0 {
        (0, 0, 0, false, true)
    } else {
        let (v, sc, n, dot, ok) = decimal_scan(b.drop_last());
        let c = b.last();
        if !ok {
            (v, sc, n, dot, false)
        } else if is_digit(c) {
            if n >= 18 {
                (v, sc, n, dot, false)
            } else {
                (10 * v + (c as int - '0' as int), if dot { sc + 1 } else { sc }, n + 1, dot, true)
            }
        } else if c == '.' && !dot {
            (v, sc, n, true, true)
        } else {
            (v, sc, n, dot, false)
        }
    }
}

/// The value of a fixed-point numeral `[+-]digits[.digits]` (one to 18
/// digits, on either side of the point) as units and a count of decimal
/// places: the numeral stands for `units / 10^places`.
pub open spec fn decimal_reading(s: Seq<char>) -> Option<(int, nat)> {
    let (v, sc, n, dot, ok) = decimal_scan(unsigned_part(s));
    if ok && n >= 1 {
        Some((if is_negative(s) { -v } else { v }, sc))
    } else {
        None
    }
}

/// Reads `s` as a fixed-point numeral (see `decimal_reading`).
pub fn read_decimal(s: &Vec<char>) -> (r: Option<(i64, u32)>)
    ensures
        match r {
            Some((u, k)) => decimal_reading(s@) == Some((u as int, k as nat)) && k <= 18
                && -1000000000000000000 < u < 1000000000000000000,
            None => decimal_reading(s@) is None,
        },
{
    let n = s.len();
    let start: usize = if n > 0 && (s[0] == '+' || s[0] == '-') { 1 } else { 0 };
    let neg = n > 0 && s[0] == '-';
    assert(unsigned_part(s@) =~= s@.subrange(start as int, n as int));
    let mut v: i64 = 0;
    let mut sc: u32 = 0;
    let mut cnt: u32 = 0;
    let mut dot = false;
    let mut j: usize = start;
    while j < n
        invariant
            start <= j <= n,
            n == s.len(),
            unsigned_part(s@) == s@.subrange(start as int, n as int),
            neg == is_negative(s@),
            decimal_scan(s@.subrange(start as int, j as int)) == (v as int, sc as nat, cnt as nat, dot, true),
            0 <= v < crate::text::pow10(cnt as nat),
            cnt <= 18,
            sc <= cnt,
        decreases n - j,
    {
        let c = s[j];
        assert(s@.subrange(start as int, j + 1).drop_last() =~= s@.subrange(start as int, j as int));
        if '0' <= c && c <= '9' {
            if cnt >= 18 {
                assert(s@.subrange(start as int, n as int).take(j + 1 - start) =~= s@.subrange(start as int, j + 1));
                proof { lemma_scan_stays_bad(s@.subrange(start as int, n as int), j + 1 - start); }
                return None;
            }
            proof { lemma_pow10_step(cnt as nat); }
            v = 10 * v + (c as i64 - '0' as i64);
            cnt += 1;
            if dot {
                sc += 1;
            }
        } else if c == '.' && !dot {
            dot = true;
        } else {
            assert(s@.subrange(start as int, n as int).take(j + 1 - start) =~= s@.subrange(start as int, j + 1));
            proof { lemma_scan_stays_bad(s@.subrange(start as int, n as int), j + 1 - start); }
            return None;
        }
        j += 1;
    }
    if cnt == 0 {
        return None;
    }
    proof {
        lemma_pow10_step(17);
        lemma_pow10_monotone(cnt as nat, 18);
    }
    if neg {
        Some((-v, sc))
    } else {
        Some((v, sc))
    }
}

pub open spec fn pow10(n: nat) -> int
    decreases n,
{
    if n == 0 {
        1
    } else {
        10 * pow10((n - 1) as nat)
    }
}

pub proof fn lemma_pow10_step(n: nat)
    ensures
        pow10(n + 1) == 10 * pow10(n),
        n <= 17 ==> pow10(n) <= 100000000000000000,
        pow10(n) >= 1,
    decreases n,
{
    if n > 0 {
        lemma_pow10_step((n - 1) as nat);
    }
    if n <= 17 {
        lemma_pow10_monotone(n, 17);
        assert(pow10(17) == 100000000000000000) by {
            reveal_with_fuel(pow10, 18);
        }
    }
}

pub proof fn lemma_pow10_monotone(a: nat, b: nat)
    requires
        a <= b,
    ensures
        pow10(a) <= pow10(b),
    decreases b,
{
    if a < b {
        lemma_pow10_monotone(a, (b - 1) as nat);
        lemma_pow10_nonneg((b - 1) as nat);
    }
}

proof fn lemma_pow10_nonneg(n: nat)
    ensures
        pow10(n) >= 1,
    decreases n,
{
    if n > 0 {
        lemma_pow10_nonneg((n - 1) as nat);
    }
}

/// Once the scan has found the text ill formed, it stays so.
proof fn lemma_scan_stays_bad(b: Seq<char>, k: int)
    requires
        0 <= k <= b.len(),
        !decimal_scan(b.take(k)).4,
    ensures
        !decimal_scan(b).4,
    decreases b.len() - k,
{
    if k < b.len() {
        assert(b.take(k + 1).drop_last() =~= b.take(k));
        lemma_scan_stays_bad(b, k + 1);
    } else {
        assert(b.take(k) =~= b);
    }
}

/// A new string holding `lit`.
pub fn text(lit: &str) -> (r: String)
    ensures
        r@ == lit@,
{
    broadcast use vstd::string::group_string_axioms;

    lit.to_string()
}

/// Appends the decimal numeral of `n` to `s`.
pub fn append_nat(s: &mut String, n: u128)
    ensures
        final(s)@ == old(s)@ + nat_text(n as nat),
{
    let mut v: Vec<char> = Vec::new();
    push_nat_text(n, &mut v);
    assert(v@ =~= nat_text(n as nat));
    let t = string_of(&v);
    s.append(t.as_str());
}

/// Appends the decimal numeral of `v` to `s`.
pub fn append_int(s: &mut String, v: i64)
    ensures
        final(s)@ == old(s)@ + int_text(v as int),
{
    let t = int_to_text(v);
    s.append(t.as_str());
}

/// The position of the first `c` in `s`, or `s.len()` where there is none.
pub open spec fn first_index(s: Seq<char>, c: char) -> int
    decreases s.len(),
{
    if s.len() == 0 {
        0
    } else if s[0] == c {
        0
    } else {
        1 + first_index(s.drop_first(), c)
    }
}

pub proof fn lemma_first_index(s: Seq<char>, c: char, j: int)
    requires
        0 <= j <= s.len(),
        forall|i: int| 0 <= i < j ==> s[i] != c,
        j == s.len() || s[j] == c,
    ensures
        first_index(s, c) == j,
    decreases j,
{
    if j > 0 {
        lemma_first_index(s.drop_first(), c, j - 1);
    }
}

/// The position of the first `c` in `s` at or after `from`, or `s.len()`.
pub fn find_char(s: &Vec<char>, from: usize, c: char) -> (r: usize)
    requires
        from <= s.len(),
    ensures
        from <= r <= s.len(),
        r == from + first_index(s@.subrange(from as int, s.len() as int), c),
{
    let mut j: usize = from;
    while j < s.len() && s[j] != c
        invariant
            from <= j <= s.len(),
            forall|i: int| from <= i < j ==> s@[i] != c,
        decreases s.len() - j,
    {
        j += 1;
    }
    proof {
        lemma_first_index(s@.subrange(from as int, s.len() as int), c, j - from);
    }
    j
}

/// The characters of `s` from `a` up to `b`.
pub fn slice_chars(s: &Vec<char>, a: usize, b: usize) -> (r: Vec<char>)
    requires
        a <= b <= s.len(),
    ensures
        r@ == s@.subrange(a as int, b as int),
{
    let mut out: Vec<char> = Vec::new();
    let mut j: usize = a;
    while j < b
        invariant
            a <= j <= b <= s.len(),
            out@ == s@.subrange(a as int, j as int),
        decreases b - j,
    {
        out.push(s[j]);
        j += 1;
        assert(out@ =~= s@.subrange(a as int, j as int));
    }
    out
}

/// Whether `s` begins with `p`.
pub open spec fn starts_with(s: Seq<char>, p: Seq<char>) -> bool {
    s.len() >= p.len() && s.take(p.len() as int) == p
}

/// Whether `s` ends with `p`.
pub open spec fn ends_with(s: Seq<char>, p: Seq<char>) -> bool {
    s.len() >= p.len() && s.subrange(s.len() - p.len(), s.len() as int) == p
}

pub fn has_prefix(s: &Vec<char>, p: &Vec<char>) -> (r: bool)
    ensures
        r == starts_with(s@, p@),
{
    if s.len() < p.len() {
        return false;
    }
    let mut j: usize = 0;
    while j < p.len()
        invariant
            p.len() <= s.len(),
            j <= p.len(),
            forall|i: int| 0 <= i < j ==> s@[i] == p@[i],
        decreases p.len() - j,
    {
        if s[j] != p[j] {
            assert(s@.take(p.len() as int)[j as int] != p@[j as int]);
            return false;
        }
        j += 1;
    }
    assert(s@.take(p.len() as int) =~= p@);
    true
}

pub fn has_suffix_at(s: &Vec<char>, end: usize, p: &Vec<char>) -> (r: bool)
    requires
        end <= s.len(),
    ensures
        r == ends_with(s@.take(end as int), p@),
{
    if end < p.len() {
        return false;
    }
    let start = end - p.len();
    let ghost t = s@.take(end as int);
    let mut j: usize = 0;
    while j < p.len()
        invariant
            start + p.len() == end <= s.len(),
            j <= p.len(),
            t == s@.take(end as int),
            forall|i: int| 0 <= i < j ==> s@[start + i] == p@[i],
        decreases p.len() - j,
    {
        if s[start + j] != p[j] {
            assert(t.subrange(t.len() - p@.len(), t.len() as int)[j as int] != p@[j as int]);
            return false;
        }
        j += 1;
    }
    assert(t.subrange(t.len() - p@.len(), t.len() as int) =~= p@);
    true
}

/// Bytes that UTF-8 takes for `c`.
pub open spec fn utf8_width(c: char) -> nat {
    if (c as u32) < 0x80 {
        1
    } else if (c as u32) < 0x800 {
        2
    } else if (c as u32) < 0x10000 {
        3
    } else {
        4
    }
}

/// Bytes that UTF-8 takes for `s`: what `str::len` counts.
pub open spec fn utf8_len(s: Seq<char>) -> nat
    decreases s.len(),
{
    if s.len() == 0 {
        0
    } else {
        utf8_len(s.drop_last()) + utf8_width(s.last())
    }
}

pub fn utf8_length(s: &Vec<char>) -> (r: u64)
    requires
        s.len() <= 0x1000_0000_0000,
    ensures
        r == utf8_len(s@),
{
    let mut n: u64 = 0;
    let mut j: usize = 0;
    while j < s.len()
        invariant
            j <= s.len() <= 0x1000_0000_0000,
            n == utf8_len(s@.take(j as int)),
            n <= 4 * j,
        decreases s.len() - j,
    {
        assert(s@.take(j + 1).drop_last() =~= s@.take(j as int));
        let c = s[j];
        let w: u64 = if (c as u32) < 0x80 {
            1
        } else if (c as u32) < 0x800 {
            2
        } else if (c as u32) < 0x10000 {
            3
        } else {
            4
        };
        n = n + w;
        j += 1;
    }
    assert(s@.take(s.len() as int) =~= s@);
    n
}

pub proof fn lemma_utf8_len_at_least(s: Seq<char>)
    ensures
        utf8_len(s) >= s.len(),
    decreases s.len(),
{
    if s.len() > 0 {
        lemma_utf8_len_at_least(s.drop_last());
    }
}

/// Whether two texts are the same.
pub fn same_text(a: &str, b: &str) -> (r: bool)
    ensures
        r == (a@ == b@),
{
    let x = chars_of(a);
    let y = chars_of(b);
    if x.len() != y.len() {
        return false;
    }
    let mut j: usize = 0;
    while j < x.len()
        invariant
            x@ == a@,
            y@ == b@,
            x.len() == y.len(),
            j <= x.len(),
            forall|i: int| 0 <= i < j ==> x@[i] == y@[i],
        decreases x.len() - j,
    {
        if x[j] != y[j] {
            assert(x@[j as int] != y@[j as int]);
            return false;
        }
        j += 1;
    }
    assert(x@ =~= y@);
    true
}

/// A scanned numeral's digits have a value below `10^count`, and there are at
/// most 18 of them, at least as many as follow the point.
pub proof fn lemma_scan_bounds(b: Seq<char>)
    ensures
        0 <= decimal_scan(b).0 < pow10(decimal_scan(b).2),
        decimal_scan(b).2 <= 18,
        decimal_scan(b).1 <= decimal_scan(b).2,
    decreases b.len(),
{
    if b.len() > 0 {
        lemma_scan_bounds(b.drop_last());
        let (v, sc, n, dot, ok) = decimal_scan(b.drop_last());
        lemma_pow10_step(n);
    } else {
        assert(pow10(0) == 1);
    }
}

proof fn lemma_line_state_len(s: Seq<char>)
    ensures
        line_state(s).0.len() + (if line_state(s).1.len() > 0 {
            1int
        } else {
            0int
        }) <= s.len(),
    decreases s.len(),
{
    if s.len() > 0 {
        lemma_line_state_len(s.drop_last());
    }
}

/// A text has no more lines than characters.
pub proof fn lemma_lines_len(s: Seq<char>)
    ensures
        lines_of(s).len() <= s.len(),
{
    lemma_line_state_len(s);
}

} // verus!
