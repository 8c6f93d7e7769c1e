//! Text helpers shared by the compiler stages: decimal rendering of
//! integers, text equality, and the grammars of integer and floating-point
//! literals that Rust's `str::parse` accepts.

use vstd::prelude::*;

verus! {

/// `String::push` appends one character at the end of the string.
pub assume_specification[ std::string::String::push ](text: &mut std::string::String, ch: char)
    ensures
        final(text)@ == old(text)@.push(ch),
;

/// The decimal digit character for a value below ten.
pub open spec fn digit_char(d: nat) -> char {
    if d == 0 { '0' }
    else if d == 1 { '1' }
    else if d == 2 { '2' }
    else if d == 3 { '3' }
    else if d == 4 { '4' }
    else if d == 5 { '5' }
    else if d == 6 { '6' }
    else if d == 7 { '7' }
    else if d == 8 { '8' }
    else { '9' }
}

/// Decimal text of a natural number, without leading zeros.
pub open spec fn nat_text(n: nat) -> Seq<char>
    decreases n,
{
    if n < 10 {
        seq![digit_char(n)]
    } else {
        nat_text(n / 10).push(digit_char(n % 10))
    }
}

/// Decimal text of an integer, as `Display` writes it for Rust integers.
pub open spec fn int_text(i: int) -> Seq<char> {
    if i < 0 {
        seq!['-'] + nat_text((-i) as nat)
    } else {
        nat_text(i as nat)
    }
}

fn digit(d: u128) -> (c: char)
    requires
        d < 10,
    ensures
        c == digit_char(d as nat),
{
    if d == 0 { '0' }
    else if d == 1 { '1' }
    else if d == 2 { '2' }
    else if d == 3 { '3' }
    else if d == 4 { '4' }
    else if d == 5 { '5' }
    else if d == 6 { '6' }
    else if d == 7 { '7' }
    else if d == 8 { '8' }
    else { '9' }
}

/// Appends the decimal text of `n` to `s`.
pub fn push_nat_text(s: &mut String, n: u128)
    ensures
        final(s)@ == old(s)@ + nat_text(n as nat),
    decreases n,
{
    if n >= 10 {
        push_nat_text(s, n / 10);
    }
    let c = digit(n % 10);
    s.push(c);
    assert(final(s)@ =~= old(s)@ + nat_text(n as nat));
}

/// Appends the decimal text of `i` to `s`.
pub fn push_int_text(s: &mut String, i: i64)
    ensures
        final(s)@ == old(s)@ + int_text(i as int),
{
    if i < 0 {
        s.push('-');
        let m: u64 = (0i128 - (i as i128)) as u64;
        push_nat_text(s, m as u128);
        assert(final(s)@ =~= old(s)@ + int_text(i as int));
    } else {
        push_nat_text(s, i as u128);
    }
}

/// Whether two pieces of text hold the same characters.
pub fn text_eq(a: &str, b: &str) -> (res: bool)
    ensures
        res == (a@ == b@),
{
    let n = a.unicode_len();
    if n != b.unicode_len() {
        return false;
    }
    let mut i: usize = 0;
    while i < n
        invariant
            n == a@.len(),
            n == b@.len(),
            i <= n,
            forall|j: int| 0 <= j < i ==> a@[j] == b@[j],
        decreases n - i,
    {
        if a.get_char(i) != b.get_char(i) {
            return false;
        }
        i += 1;
    }
    assert(a@ =~= b@);
    true
}

/// Whether a character is an ASCII decimal digit.
pub open spec fn is_digit(c: char) -> bool {
    '0' <= c && c <= '9'
}

/// The value of a decimal digit character.
pub open spec fn digit_value(c: char) -> int {
    c as int - 48
}

/// Whether every character of `s` is a decimal digit.
pub open spec fn all_digits(s: Seq<char>) -> bool {
    forall|i: int| 0 <= i < s.len() ==> is_digit(#[trigger] s[i])
}

/// The value of a sequence of decimal digits, most significant first.
pub open spec fn digits_value(s: Seq<char>) -> int
    decreases s.len(),
{
    if s.len() == 0 {
        0
    } else {
        digits_value(s.drop_last()) * 10 + digit_value(s.last())
    }
}

/// `s` without a leading `+` or `-`.
pub open spec fn strip_sign(s: Seq<char>) -> Seq<char> {
    if s.len() > 0 && (s[0] == '+' || s[0] == '-') {
        s.drop_first()
    } else {
        s
    }
}

/// The value that `str::parse::<i64>` gives for `s`: an optional sign
/// followed by at least one decimal digit, with a value in the range of
/// `i64`; `None` for any other text.
pub open spec fn i64_literal(s: Seq<char>) -> Option<i64> {
    let body = strip_sign(s);
    if body.len() == 0 || !all_digits(body) {
        None
    } else {
        let v = if s[0] == '-' { -digits_value(body) } else { digits_value(body) };
        if i64::MIN <= v && v <= i64::MAX {
            Some(v as i64)
        } else {
            None
        }
    }
}

proof fn lemma_digits_value_nonneg(s: Seq<char>)
    requires
        all_digits(s),
    ensures
        digits_value(s) >= 0,
    decreases s.len(),
{
    if s.len() > 0 {
        lemma_digits_value_nonneg(s.drop_last());
    }
}

proof fn lemma_digits_value_prefix(s: Seq<char>, k: int)
    requires
        all_digits(s),
        0 <= k <= s.len(),
    ensures
        digits_value(s.take(k)) <= digits_value(s),
    decreases s.len(),
{
    if k < s.len() {
        assert(s.drop_last().take(k) =~= s.take(k));
        lemma_digits_value_prefix(s.drop_last(), k);
        lemma_digits_value_nonneg(s.drop_last());
    } else {
        assert(s.take(k) =~= s);
    }
}

/// Parses `s` as `str::parse::<i64>` does.
pub fn parse_i64(s: &str) -> (res: Option<i64>)
    ensures
        res == i64_literal(s@),
{
    let n = s.unicode_len();
    if n == 0 {
        return None;
    }
    let first = s.get_char(0);
    let start: usize = if first == '+' || first == '-' { 1 } else { 0 };
    let ghost body = strip_sign(s@);
    assert(body =~= s@.skip(start as int));
    if start == n {
        return None;
    }
    let mut acc: u64 = 0;
    let mut i: usize = start;
    let limit: u64 = 0x8000_0000_0000_0000;
    while i < n
        invariant
            n == s@.len(),
            start <= i <= n,
            start < n,
            body =~= s@.skip(start as int),
            body == strip_sign(s@),
            all_digits(body.take(i - start)),
            acc == digits_value(body.take(i - start)),
            acc <= limit,
            limit == 0x8000_0000_0000_0000u64,
        decreases n - i,
    {
        let c = s.get_char(i);
        if !('0' <= c && c <= '9') {
            assert(body[i - start] == c);
            assert(!is_digit(body[i - start]));
            assert(!all_digits(body));
            return None;
        }
        let d = (c as u32 - 48) as u64;
        assert(d == digit_value(c) && d <= 9);
        assert(body.take(i + 1 - start).drop_last() =~= body.take(i - start));
        assert(body.take(i + 1 - start).last() == c);
        if acc > 922_337_203_685_477_580 || acc * 10 + d > limit {
            proof {
                assert(digits_value(body.take(i + 1 - start)) == acc * 10 + d);
                assert(acc * 10 + d > limit);
                assert(all_digits(body.take(i + 1 - start)));
                if all_digits(body) {
                    lemma_digits_value_prefix(body, i + 1 - start);
                }
            }
            return None;
        }
        acc = acc * 10 + d;
        i += 1;
    }
    assert(body.take(n - start) =~= body);
    if first == '-' {
        let v: i128 = 0i128 - (acc as i128);
        Some(v as i64)
    } else {
        if acc > 0x7fff_ffff_ffff_ffff {
            return None;
        }
        Some(acc as i64)
    }
}


/// Index of the first occurrence in `s` of `a` or `b`; the length of `s`
/// when neither occurs.
pub open spec fn first_of(s: Seq<char>, a: char, b: char) -> int
    decreases s.len(),
{
    if s.len() == 0 {
        0
    } else if s[0] == a || s[0] == b {
        0
    } else {
        1 + first_of(s.drop_first(), a, b)
    }
}

proof fn lemma_first_of(s: Seq<char>, a: char, b: char, k: int)
    requires
        0 <= k <= s.len(),
        forall|j: int| 0 <= j < k ==> s[j] != a && s[j] != b,
        k == s.len() || s[k] == a || s[k] == b,
    ensures
        first_of(s, a, b) == k,
    decreases s.len(),
{
    if k > 0 {
        assert forall|j: int| 0 <= j < k - 1 implies s.drop_first()[j] != a && s.drop_first()[j]
            != b by {
            assert(s.drop_first()[j] == s[j + 1]);
        }
        lemma_first_of(s.drop_first(), a, b, k - 1);
    }
}

/// Index in `s` of the first `a` or `b`, as `first_of` states.
pub fn find_first_of(s: &Vec<char>, a: char, b: char) -> (k: usize)
    ensures
        k == first_of(s@, a, b),
        k <= s@.len(),
{
    let mut k: usize = 0;
    while k < s.len()
        invariant
            k <= s@.len(),
            forall|j: int| 0 <= j < k ==> s@[j] != a && s@[j] != b,
        decreases s.len() - k,
    {
        if s[k] == a || s[k] == b {
            proof { lemma_first_of(s@, a, b, k as int); }
            return k;
        }
        k += 1;
    }
    proof { lemma_first_of(s@, a, b, k as int); }
    k
}

/// Lower-case form of an ASCII letter; other characters are left as they are.
pub open spec fn ascii_lower(c: char) -> char {
    if 'A' <= c && c <= 'Z' {
        ((c as int) + 32) as char
    } else {
        c
    }
}

/// Whether `s`, read without regard to ASCII case, is the lower-case word `w`.
pub open spec fn is_word_ignoring_case(s: Seq<char>, w: Seq<char>) -> bool {
    s.len() == w.len() && forall|i: int| 0 <= i < s.len() ==> ascii_lower(#[trigger] s[i]) == w[i]
}

/// Digits, with at most one `.`, and at least one digit.
pub open spec fn is_mantissa(m: Seq<char>) -> bool {
    let d = first_of(m, '.', '.');
    if d == m.len() {
        m.len() > 0 && all_digits(m)
    } else {
        m.len() > 1 && all_digits(m.take(d)) && all_digits(m.skip(d + 1))
    }
}

/// An exponent after the `e`: an optional sign and at least one digit.
pub open spec fn is_exponent(x: Seq<char>) -> bool {
    strip_sign(x).len() > 0 && all_digits(strip_sign(x))
}

/// A decimal number: a mantissa, then optionally `e` or `E` and an exponent.
pub open spec fn is_decimal_number(s: Seq<char>) -> bool {
    let e = first_of(s, 'e', 'E');
    is_mantissa(s.take(e)) && (e == s.len() || is_exponent(s.skip(e + 1)))
}

/// Whether `str::parse::<f64>` accepts `s`. Its documented grammar, read
/// without regard to case: an optional sign, then `inf`, `infinity`, `nan`,
/// or a decimal number (`Digit+`, `Digit+ . Digit*` or `Digit* . Digit+`,
/// then optionally `e`, an optional sign and `Digit+`).
pub open spec fn f64_literal(s: Seq<char>) -> bool {
    let body = strip_sign(s);
    ||| is_word_ignoring_case(body, seq!['i', 'n', 'f'])
    ||| is_word_ignoring_case(body, seq!['i', 'n', 'f', 'i', 'n', 'i', 't', 'y'])
    ||| is_word_ignoring_case(body, seq!['n', 'a', 'n'])
    ||| is_decimal_number(body)
}

/// The characters of `s`, in order.
pub fn chars_of(s: &str) -> (res: Vec<char>)
    ensures
        res@ == s@,
{
    let n = s.unicode_len();
    let mut res: Vec<char> = Vec::new();
    let mut i: usize = 0;
    while i < n
        invariant
            n == s@.len(),
            i <= n,
            res@ =~= s@.take(i as int),
        decreases n - i,
    {
        res.push(s.get_char(i));
        i += 1;
    }
    assert(s@.take(n as int) =~= s@);
    res
}

fn lower_char(c: char) -> (r: char)
    ensures
        r == ascii_lower(c),
{
    if 'A' <= c && c <= 'Z' {
        char_from_lower_code(c as u32 + 32)
    } else {
        c
    }
}

fn char_from_lower_code(code: u32) -> (r: char)
    requires
        97 <= code <= 122,
    ensures
        r == code as char,
{
    if code == 97 { 'a' }
    else if code == 98 { 'b' }
    else if code == 99 { 'c' }
    else if code == 100 { 'd' }
    else if code == 101 { 'e' }
    else if code == 102 { 'f' }
    else if code == 103 { 'g' }
    else if code == 104 { 'h' }
    else if code == 105 { 'i' }
    else if code == 106 { 'j' }
    else if code == 107 { 'k' }
    else if code == 108 { 'l' }
    else if code == 109 { 'm' }
    else if code == 110 { 'n' }
    else if code == 111 { 'o' }
    else if code == 112 { 'p' }
    else if code == 113 { 'q' }
    else if code == 114 { 'r' }
    else if code == 115 { 's' }
    else if code == 116 { 't' }
    else if code == 117 { 'u' }
    else if code == 118 { 'v' }
    else if code == 119 { 'w' }
    else if code == 120 { 'x' }
    else if code == 121 { 'y' }
    else { 'z' }
}


fn word_ignoring_case(s: &Vec<char>, from: usize, w: &Vec<char>) -> (res: bool)
    requires
        from <= s@.len(),
    ensures
        res == is_word_ignoring_case(s@.skip(from as int), w@),
{
    let n = s.len() - from;
    if n != w.len() {
        return false;
    }
    let mut i: usize = 0;
    while i < n
        invariant
            n == s.len() - from,
            n == w@.len(),
            from <= s@.len(),
            i <= n,
            forall|j: int| 0 <= j < i ==> ascii_lower(#[trigger] s@.skip(from as int)[j]) == w@[j],
        decreases n - i,
    {
        let idx: usize = from + i;
        if lower_char(s[idx]) != w[i] {
            assert(s@.skip(from as int)[i as int] == s@[from + i]);
            return false;
        }
        assert(s@.skip(from as int)[i as int] == s@[from + i]);
        i += 1;
    }
    true
}

/// Whether `s[from..to]` consists of decimal digits only.
fn digits_between(s: &Vec<char>, from: usize, to: usize) -> (res: bool)
    requires
        from <= to <= s@.len(),
    ensures
        res == all_digits(s@.subrange(from as int, to as int)),
{
    let mut i = from;
    while i < to
        invariant
            from <= i <= to <= s@.len(),
            all_digits(s@.subrange(from as int, i as int)),
        decreases to - i,
    {
        if !('0' <= s[i] && s[i] <= '9') {
            assert(s@.subrange(from as int, to as int)[i - from] == s@[i as int]);
            return false;
        }
        assert forall|j: int| 0 <= j < i + 1 - from implies is_digit(
            #[trigger] s@.subrange(from as int, i + 1)[j],
        ) by {
            if j < i - from {
                assert(s@.subrange(from as int, i + 1)[j] == s@.subrange(from as int, i as int)[j]);
            }
        }
        i += 1;
    }
    true
}

/// Whether `s` is a decimal number as `is_decimal_number` states.
fn decimal_number(s: &Vec<char>) -> (res: bool)
    ensures
        res == is_decimal_number(s@),
{
    let e = find_first_of(s, 'e', 'E');
    let mut mantissa: Vec<char> = Vec::new();
    let mut i: usize = 0;
    while i < e
        invariant
            e <= s@.len(),
            i <= e,
            mantissa@ =~= s@.take(i as int),
        decreases e - i,
    {
        mantissa.push(s[i]);
        i += 1;
    }
    let d = find_first_of(&mantissa, '.', '.');
    let mantissa_ok = if d == mantissa.len() {
        mantissa.len() > 0 && digits_between(&mantissa, 0, d)
    } else {
        mantissa.len() > 1 && digits_between(&mantissa, 0, d) && digits_between(
            &mantissa,
            d + 1,
            mantissa.len(),
        )
    };
    proof {
        assert(mantissa@.subrange(0, d as int) =~= mantissa@.take(d as int));
        assert(d == mantissa@.len() ==> mantissa@.subrange(0, d as int) =~= mantissa@);
        assert(d < mantissa@.len() ==> mantissa@.subrange(d + 1, mantissa@.len() as int)
            =~= mantissa@.skip(d + 1));
    }
    if !mantissa_ok {
        return false;
    }
    if e == s.len() {
        return true;
    }
    let mut start = e + 1;
    if start < s.len() && (s[start] == '+' || s[start] == '-') {
        start = start + 1;
    }
    let ok = start < s.len() && digits_between(s, start, s.len());
    proof {
        let x = s@.skip(e + 1);
        assert(s@.subrange(start as int, s@.len() as int) =~= strip_sign(x));
    }
    ok
}

/// Whether `str::parse::<f64>` accepts `s`, as `f64_literal` states.
pub fn parses_as_f64(s: &str) -> (res: bool)
    ensures
        res == f64_literal(s@),
{
    let cs = chars_of(s);
    let start: usize = if cs.len() > 0 && (cs[0] == '+' || cs[0] == '-') { 1 } else { 0 };
    let ghost body = strip_sign(s@);
    assert(body =~= cs@.skip(start as int));
    let inf = vec!['i', 'n', 'f'];
    let infinity = vec!['i', 'n', 'f', 'i', 'n', 'i', 't', 'y'];
    let nan = vec!['n', 'a', 'n'];
    assert(inf@ =~= seq!['i', 'n', 'f']);
    assert(infinity@ =~= seq!['i', 'n', 'f', 'i', 'n', 'i', 't', 'y']);
    assert(nan@ =~= seq!['n', 'a', 'n']);
    if word_ignoring_case(&cs, start, &inf) || word_ignoring_case(&cs, start, &infinity)
        || word_ignoring_case(&cs, start, &nan) {
        return true;
    }
    let mut rest: Vec<char> = Vec::new();
    let mut i = start;
    while i < cs.len()
        invariant
            start <= i <= cs@.len(),
            rest@ =~= cs@.subrange(start as int, i as int),
        decreases cs.len() - i,
    {
        rest.push(cs[i]);
        i += 1;
    }
    assert(rest@ =~= body);
    decimal_number(&rest)
}


/// Whether `c` occurs in `s`.
pub fn text_contains(s: &str, c: char) -> (res: bool)
    ensures
        res == s@.contains(c),
{
    let cs = chars_of(s);
    let mut i: usize = 0;
    while i < cs.len()
        invariant
            cs@ == s@,
            i <= cs@.len(),
            forall|j: int| 0 <= j < i ==> cs@[j] != c,
        decreases cs.len() - i,
    {
        if cs[i] == c {
            return true;
        }
        i += 1;
    }
    false
}

/// The texts of a sequence of strings.
pub open spec fn strings_view(s: Seq<String>) -> Seq<Seq<char>> {
    s.map_values(|x: String| x@)
}

/// A copy of a sequence of strings.
pub fn copy_strings(v: &Vec<String>) -> (res: Vec<String>)
    ensures
        strings_view(res@) == strings_view(v@),
{
    let mut res: Vec<String> = Vec::new();
    let mut i: usize = 0;
    while i < v.len()
        invariant
            i <= v@.len(),
            strings_view(res@) =~= strings_view(v@.take(i as int)),
        decreases v.len() - i,
    {
        let ghost before = res@;
        res.push(v[i].clone());
        assert(v@.take(i + 1) =~= v@.take(i as int).push(v@[i as int]));
        assert(strings_view(res@) =~= strings_view(before).push(v@[i as int]@));
        assert(strings_view(v@.take(i + 1)) =~= strings_view(v@.take(i as int)).push(v@[i as int]@));
        i += 1;
    }
    assert(v@.take(v@.len() as int) =~= v@);
    res
}


/// `prefix` followed by `suffix`.
pub fn concat(prefix: &str, suffix: &str) -> (s: String)
    ensures
        s@ == prefix@ + suffix@,
{
    let mut s = String::from_str(prefix);
    s.append(suffix);
    s
}

/// `a`, `b` and `c` one after the other.
pub fn concat3(a: &str, b: &str, c: &str) -> (s: String)
    ensures
        s@ == a@ + b@ + c@,
{
    let mut s = String::from_str(a);
    s.append(b);
    s.append(c);
    s
}

/// `prefix`, the decimal text of `n`, then `suffix`.
pub fn with_nat(prefix: &str, n: u128, suffix: &str) -> (s: String)
    ensures
        s@ == prefix@ + nat_text(n as nat) + suffix@,
{
    let mut s = String::from_str(prefix);
    push_nat_text(&mut s, n);
    s.append(suffix);
    s
}

/// `prefix`, the decimal text of `n`, then `suffix`.
pub fn with_int(prefix: &str, n: i64, suffix: &str) -> (s: String)
    ensures
        s@ == prefix@ + int_text(n as int) + suffix@,
{
    let mut s = String::from_str(prefix);
    push_int_text(&mut s, n);
    s.append(suffix);
    s
}

} // verus!
