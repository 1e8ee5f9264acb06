//! Text: characters in and out of strings, decimal numbers, white space, searching.
use vstd::arithmetic::div_mod::lemma_div_denominator;
use vstd::arithmetic::power::{lemma_pow_positive, pow};
use vstd::prelude::*;

verus! {

/// `String::push` of the standard library: the character is appended at the end.
pub assume_specification[ String::push ](s: &mut String, c: char)
    ensures
        final(s)@ == old(s)@.push(c),
;

/// What `std` makes of UTF-16 units, with a replacement character for what is no UTF-16.
pub uninterp spec fn utf16_lossy(units: Seq<u16>) -> Seq<char>;

/// What `std` makes of a text in lower case.
pub uninterp spec fn lowercase(s: Seq<char>) -> Seq<char>;

/// `String::from_utf16_lossy` of the standard library: the decoded text.
#[verifier::external_body]
pub(crate) fn text_from_utf16(units: &[u16]) -> (s: String)
    ensures
        s@ == utf16_lossy(units@),
{
    String::from_utf16_lossy(units)
}

/// `str::to_lowercase` of the standard library: the text in lower case.
#[verifier::external_body]
pub(crate) fn to_lowercase(s: &str) -> (r: String)
    ensures
        r@ == lowercase(s@),
{
    s.to_lowercase()
}

/// The characters of `s`, in order.
pub fn chars_of(s: &str) -> (v: Vec<char>)
    ensures
        v@ == s@,
{
    let mut v: Vec<char> = Vec::new();
    for c in it: s.chars()
        invariant
            v@ == it.seq().take(it.index()),
            it.seq() == s@,
    {
        v.push(c);
    }
    v
}

/// The string made of `v[lo..hi]`.
pub fn text_between(v: &Vec<char>, lo: usize, hi: usize) -> (s: String)
    requires
        lo <= hi <= v@.len(),
    ensures
        s@ == v@.subrange(lo as int, hi as int),
{
    let mut s = String::new();
    let mut i: usize = lo;
    while i < hi
        invariant
            lo <= i <= hi <= v@.len(),
            s@ == v@.subrange(lo as int, i as int),
        decreases hi - i,
    {
        s.push(v[i]);
        i += 1;
    }
    s
}

/// The decimal digit `d`.
pub open spec fn digit_char(d: nat) -> char
    recommends
        d < 10,
{
    ('0' as int + d) as char
}

/// `n` in decimal, without leading zeros.
pub open spec fn decimal(n: nat) -> Seq<char>
    decreases n,
{
    if n < 10 {
        seq![digit_char(n)]
    } else {
        decimal(n / 10).push(digit_char(n % 10))
    }
}

/// `n` in decimal, with a leading `-` where it is negative.
pub open spec fn decimal_int(n: int) -> Seq<char> {
    if n < 0 {
        seq!['-'] + decimal((-n) as nat)
    } else {
        decimal(n as nat)
    }
}

/// Appends `n` in decimal.
pub fn push_decimal(s: &mut String, n: u64)
    ensures
        final(s)@ == old(s)@ + decimal(n as nat),
    decreases n,
{
    if n >= 10 {
        push_decimal(s, n / 10);
    }
    let d: u8 = (n % 10) as u8;
    let c = (48u8 + d) as char;
    assert(c == digit_char((n % 10) as nat));
    s.push(c);
    assert(s@ =~= old(s)@ + decimal(n as nat));
}

/// `n` in decimal.
pub fn decimal_text(n: u64) -> (s: String)
    ensures
        s@ == decimal(n as nat),
{
    let mut s = String::new();
    push_decimal(&mut s, n);
    assert(s@ =~= decimal(n as nat));
    s
}

/// `n` in decimal, with a leading `-` where it is negative.
pub fn decimal_int_text(n: i64) -> (s: String)
    ensures
        s@ == decimal_int(n as int),
{
    if n < 0 {
        let mut s = String::new();
        s.push('-');
        push_decimal(&mut s, (-(n as i128)) as u64);
        assert(s@ =~= decimal_int(n as int));
        s
    } else {
        decimal_text(n as u64)
    }
}

/// Why a text is no integer of the wanted range.
#[derive(Debug, Clone, Copy, PartialEq, Eq, Structural)]
pub enum IntError {
    /// There is no character at all.
    Empty,
    /// A character is no decimal digit, or a sign stands alone.
    InvalidDigit,
    /// The number is above the range.
    PosOverflow,
    /// The number is below the range.
    NegOverflow,
}

impl IntError {
    /// The sentence that a user reads.
    pub open spec fn text(self) -> Seq<char> {
        match self {
            IntError::Empty => "cannot parse integer from empty string"@,
            IntError::InvalidDigit => "invalid digit found in string"@,
            IntError::PosOverflow => "number too large to fit in target type"@,
            IntError::NegOverflow => "number too small to fit in target type"@,
        }
    }

    /// The sentence that a user reads.
    pub fn to_string(&self) -> (s: String)
        ensures
            s@ == self.text(),
    {
        match self {
            IntError::Empty => "cannot parse integer from empty string".to_string(),
            IntError::InvalidDigit => "invalid digit found in string".to_string(),
            IntError::PosOverflow => "number too large to fit in target type".to_string(),
            IntError::NegOverflow => "number too small to fit in target type".to_string(),
        }
    }
}

/// `c` is one of `0` to `9`.
pub open spec fn is_digit(c: char) -> bool {
    '0' <= c <= '9'
}

/// What reading `digits` from the left gives on top of `acc`: each digit moves the number away
/// from zero, upwards or (`neg`) downwards; the first character that is no digit, or that leaves
/// `min..=max`, decides the error.
pub open spec fn read_digits(digits: Seq<char>, neg: bool, min: int, max: int, acc: int) -> Result<
    int,
    IntError,
>
    decreases digits.len(),
{
    if digits.len() == 0 {
        Ok(acc)
    } else if !is_digit(digits[0]) {
        Err(IntError::InvalidDigit)
    } else {
        let d = digits[0] as int - '0' as int;
        let next = if neg {
            acc * 10 - d
        } else {
            acc * 10 + d
        };
        if next > max {
            Err(IntError::PosOverflow)
        } else if next < min {
            Err(IntError::NegOverflow)
        } else {
            read_digits(digits.drop_first(), neg, min, max, next)
        }
    }
}

/// The integer of `min..=max` that `s` writes in decimal: an optional `+` (or, where the range
/// goes below zero, `-`), then at least one digit and nothing else.
pub open spec fn read_int(s: Seq<char>, min: int, max: int) -> Result<int, IntError> {
    if s.len() == 0 {
        Err(IntError::Empty)
    } else {
        let minus = s[0] == '-' && min < 0;
        let digits = if s[0] == '+' || minus {
            s.drop_first()
        } else {
            s
        };
        if digits.len() == 0 {
            Err(IntError::InvalidDigit)
        } else {
            read_digits(digits, minus, min, max, 0)
        }
    }
}

/// Reads the characters from `from` on as an integer of `min..=max`.
pub fn parse_int(v: &Vec<char>, from: usize, to: usize, min: i128, max: i128) -> (r: Result<
    i128,
    IntError,
>)
    requires
        from <= to <= v@.len(),
        -0x1_0000_0000_0000_0000 <= min <= 0 <= max <= 0x1_0000_0000_0000_0000,
    ensures
        match read_int(v@.subrange(from as int, to as int), min as int, max as int) {
            Ok(n) => r matches Ok(m) && m == n,
            Err(e) => r == Err::<i128, IntError>(e),
        },
{
    let ghost s = v@.subrange(from as int, to as int);
    if from == to {
        return Err(IntError::Empty);
    }
    assert(s[0] == v@[from as int]);
    let minus = v[from] == '-' && min < 0;
    let mut i: usize = from;
    if v[from] == '+' || minus {
        i = from + 1;
    }
    if i == to {
        return Err(IntError::InvalidDigit);
    }
    let mut acc: i128 = 0;
    let ghost digits = v@.subrange(i as int, to as int);
    proof {
        if i == from {
            assert(digits =~= s);
        } else {
            assert(digits =~= s.drop_first());
        }
        assert(digits =~= v@.subrange(i as int, to as int));
    }
    while i < to
        invariant
            from <= i <= to <= v@.len(),
            -0x1_0000_0000_0000_0000 <= min <= acc <= max <= 0x1_0000_0000_0000_0000,
            read_int(s, min as int, max as int) == read_digits(
                v@.subrange(i as int, to as int),
                minus,
                min as int,
                max as int,
                acc as int,
            ),
            s == v@.subrange(from as int, to as int),
        decreases to - i,
    {
        let c = v[i];
        let ghost rest = v@.subrange(i as int, to as int);
        assert(rest[0] == c);
        assert(rest.drop_first() =~= v@.subrange(i + 1, to as int));
        if !('0' <= c && c <= '9') {
            return Err(IntError::InvalidDigit);
        }
        let d: i128 = (c as u32 - 48) as i128;
        let next: i128 = if minus {
            acc * 10 - d
        } else {
            acc * 10 + d
        };
        if next > max {
            return Err(IntError::PosOverflow);
        }
        if next < min {
            return Err(IntError::NegOverflow);
        }
        acc = next;
        i += 1;
    }
    assert(v@.subrange(to as int, to as int).len() == 0);
    Ok(acc)
}

/// What is read lies in the range.
pub proof fn read_int_in_range(s: Seq<char>, min: int, max: int)
    requires
        min <= 0 <= max,
    ensures
        read_int(s, min, max) matches Ok(n) ==> min <= n <= max,
{
    if s.len() > 0 {
        let minus = s[0] == '-' && min < 0;
        let digits = if s[0] == '+' || minus {
            s.drop_first()
        } else {
            s
        };
        lemma_read_digits_in_range(digits, minus, min, max, 0);
    }
}

proof fn lemma_read_digits_in_range(digits: Seq<char>, neg: bool, min: int, max: int, acc: int)
    requires
        min <= acc <= max,
    ensures
        read_digits(digits, neg, min, max, acc) matches Ok(n) ==> min <= n <= max,
    decreases digits.len(),
{
    if digits.len() > 0 && is_digit(digits[0]) {
        let d = digits[0] as int - '0' as int;
        let next = if neg {
            acc * 10 - d
        } else {
            acc * 10 + d
        };
        if min <= next <= max {
            lemma_read_digits_in_range(digits.drop_first(), neg, min, max, next);
        }
    }
}

/// Reading one more digit: the characters before it are read first.
proof fn lemma_read_digits_push(a: Seq<char>, c: char, neg: bool, min: int, max: int, acc: int)
    ensures
        read_digits(a.push(c), neg, min, max, acc) == (match read_digits(a, neg, min, max, acc) {
            Ok(v) => read_digits(seq![c], neg, min, max, v),
            Err(e) => Err(e),
        }),
    decreases a.len(),
{
    if a.len() == 0 {
        assert(a.push(c) =~= seq![c]);
    } else {
        assert(a.push(c).drop_first() =~= a.drop_first().push(c));
        let d = a[0] as int - '0' as int;
        let next = if neg {
            acc * 10 - d
        } else {
            acc * 10 + d
        };
        lemma_read_digits_push(a.drop_first(), c, neg, min, max, next);
    }
}

proof fn lemma_read_decimal_digits(n: nat, neg: bool, min: int, max: int)
    requires
        min <= 0 <= max,
        neg ==> -n >= min,
        !neg ==> n <= max,
    ensures
        read_digits(decimal(n), neg, min, max, 0) == Ok::<int, IntError>(
            if neg {
                -n
            } else {
                n as int
            },
        ),
    decreases n,
{
    reveal_with_fuel(read_digits, 2);
    let c = digit_char(n % 10);
    assert(c as int == '0' as int + n % 10);
    if n >= 10 {
        lemma_read_decimal_digits(n / 10, neg, min, max);
        lemma_read_digits_push(decimal(n / 10), c, neg, min, max, 0);
    }
}

/// A decimal is not empty, holds digits only, and so no sign, separator or white space.
pub proof fn decimal_is_digits(n: nat)
    ensures
        decimal(n).len() > 0,
        forall|i: int| 0 <= i < decimal(n).len() ==> is_digit(#[trigger] decimal(n)[i]),
    decreases n,
{
    assert(digit_char(n % 10) as int == '0' as int + n % 10);
    if n >= 10 {
        decimal_is_digits(n / 10);
    }
}

/// Reading back what was written: every integer of the range is read from its decimal.
pub proof fn decimal_reads_back(n: int, min: int, max: int)
    requires
        min <= n <= max,
        min <= 0 <= max,
    ensures
        read_int(decimal_int(n), min, max) == Ok::<int, IntError>(n),
{
    let m = if n < 0 {
        (-n) as nat
    } else {
        n as nat
    };
    decimal_is_digits(m);
    lemma_read_decimal_digits(m, n < 0, min, max);
    if n < 0 {
        assert(decimal_int(n).drop_first() =~= decimal(m));
    } else {
        assert(is_digit(decimal(m)[0]));
    }
}

/// `c` is white space: it has the Unicode property `White_Space`.
pub open spec fn is_space(c: char) -> bool {
    let u = c as u32;
    ||| 0x9 <= u <= 0xD
    ||| u == 0x20
    ||| u == 0x85
    ||| u == 0xA0
    ||| u == 0x1680
    ||| 0x2000 <= u <= 0x200A
    ||| 0x2028 <= u <= 0x2029
    ||| u == 0x202F
    ||| u == 0x205F
    ||| u == 0x3000
}

/// `c` is white space.
pub fn is_whitespace(c: char) -> (r: bool)
    ensures
        r == is_space(c),
{
    let u: u32 = c as u32;
    (0x9 <= u && u <= 0xD) || u == 0x20 || u == 0x85 || u == 0xA0 || u == 0x1680 || (0x2000 <= u
        && u <= 0x200A) || (0x2028 <= u && u <= 0x2029) || u == 0x202F || u == 0x205F || u == 0x3000
}

/// `s` without the white space at its start.
pub open spec fn trim_start(s: Seq<char>) -> Seq<char>
    decreases s.len(),
{
    if s.len() > 0 && is_space(s[0]) {
        trim_start(s.drop_first())
    } else {
        s
    }
}

/// `s` without the white space at its end.
pub open spec fn trim_end(s: Seq<char>) -> Seq<char>
    decreases s.len(),
{
    if s.len() > 0 && is_space(s.last()) {
        trim_end(s.drop_last())
    } else {
        s
    }
}

/// `s` without the white space at either end.
pub open spec fn trimmed(s: Seq<char>) -> Seq<char> {
    trim_end(trim_start(s))
}

/// Every character of `s` is white space.
pub open spec fn is_blank(s: Seq<char>) -> bool {
    forall|i: int| 0 <= i < s.len() ==> is_space(#[trigger] s[i])
}

proof fn lemma_trim_start_blank(s: Seq<char>)
    ensures
        trim_start(s).len() == 0 <==> is_blank(s),
        trim_start(s).len() > 0 ==> !is_space(trim_start(s)[0]),
    decreases s.len(),
{
    if s.len() > 0 && is_space(s[0]) {
        lemma_trim_start_blank(s.drop_first());
        if is_blank(s.drop_first()) {
            assert forall|i: int| 0 <= i < s.len() implies is_space(#[trigger] s[i]) by {
                if i > 0 {
                    assert(s.drop_first()[i - 1] == s[i]);
                }
            }
        }
        if is_blank(s) {
            assert forall|i: int| 0 <= i < s.drop_first().len() implies is_space(
                #[trigger] s.drop_first()[i],
            ) by {
                assert(s.drop_first()[i] == s[i + 1]);
            }
        }
    }
}

proof fn lemma_trim_end_keeps_first(s: Seq<char>)
    requires
        s.len() > 0,
        !is_space(s[0]),
    ensures
        trim_end(s).len() > 0,
        trim_end(s)[0] == s[0],
    decreases s.len(),
{
    if is_space(s.last()) {
        lemma_trim_end_keeps_first(s.drop_last());
    }
}

/// Nothing is left of a text after trimming exactly when all of it is white space.
pub proof fn trimmed_empty_iff_blank(s: Seq<char>)
    ensures
        trimmed(s).len() == 0 <==> is_blank(s),
{
    lemma_trim_start_blank(s);
    if trim_start(s).len() > 0 {
        lemma_trim_end_keeps_first(trim_start(s));
    }
}

/// `s` without the white space at either end.
pub fn trim(s: &str) -> (r: String)
    ensures
        r@ == trimmed(s@),
{
    let v = chars_of(s);
    let mut lo: usize = 0;
    assert(v@.subrange(0, v@.len() as int) =~= v@);
    while lo < v.len() && is_whitespace(v[lo])
        invariant
            lo <= v@.len(),
            trim_start(v@) == trim_start(v@.subrange(lo as int, v@.len() as int)),
        decreases v@.len() - lo,
    {
        assert(v@.subrange(lo as int, v@.len() as int).drop_first() =~= v@.subrange(
            lo + 1,
            v@.len() as int,
        ));
        lo += 1;
    }
    let ghost start = v@.subrange(lo as int, v@.len() as int);
    assert(trim_start(v@) == start);
    let mut hi: usize = v.len();
    while lo < hi && is_whitespace(v[hi - 1])
        invariant
            lo <= hi <= v@.len(),
            trim_end(start) == trim_end(v@.subrange(lo as int, hi as int)),
        decreases hi,
    {
        assert(v@.subrange(lo as int, hi as int).drop_last() =~= v@.subrange(lo as int, hi - 1));
        hi -= 1;
    }
    text_between(&v, lo, hi)
}

/// `needle` occurs in `s` at position `i`.
pub open spec fn occurs_at(s: Seq<char>, needle: Seq<char>, i: int) -> bool {
    0 <= i && i + needle.len() <= s.len() && s.subrange(i, i + needle.len()) == needle
}

/// `needle` occurs somewhere in `s`.
pub open spec fn occurs_in(s: Seq<char>, needle: Seq<char>) -> bool {
    exists|i: int| occurs_at(s, needle, i)
}

/// Whether `needle` occurs in `v` at position `i`.
pub fn matches_at(v: &Vec<char>, needle: &Vec<char>, i: usize) -> (r: bool)
    requires
        i <= v@.len(),
    ensures
        r == occurs_at(v@, needle@, i as int),
{
    if needle.len() > v.len() - i {
        return false;
    }
    let len: usize = v.len();
    let mut k: usize = 0;
    while k < needle.len()
        invariant
            k <= needle@.len(),
            i + needle@.len() <= len == v@.len(),
            forall|j: int| 0 <= j < k ==> v@[i + j] == #[trigger] needle@[j],
        decreases needle@.len() - k,
    {
        if v[i + k] != needle[k] {
            assert(v@.subrange(i as int, i + needle@.len())[k as int] != needle@[k as int]);
            return false;
        }
        k += 1;
    }
    assert(v@.subrange(i as int, i + needle@.len()) =~= needle@);
    true
}

/// Whether `needle` occurs somewhere in `s`.
pub fn contains(s: &str, needle: &str) -> (r: bool)
    ensures
        r == occurs_in(s@, needle@),
{
    let v = chars_of(s);
    let n = chars_of(needle);
    let len: usize = v.len();
    let mut i: usize = 0;
    loop
        invariant
            i <= len == v@.len(),
            v@ == s@,
            n@ == needle@,
            forall|j: int| 0 <= j < i ==> !occurs_at(s@, needle@, j),
        decreases len - i,
    {
        if matches_at(&v, &n, i) {
            return true;
        }
        if i == len {
            return false;
        }
        i += 1;
    }
}

/// A text holds another exactly where it is that text with something, or nothing, before it and
/// after it.
pub proof fn occurs_in_means_a_part(s: Seq<char>, needle: Seq<char>)
    ensures
        occurs_in(s, needle) <==> exists|a: Seq<char>, b: Seq<char>|
            s == #[trigger] (a + needle + b),
{
    if occurs_in(s, needle) {
        let i = choose|i: int| occurs_at(s, needle, i);
        let a = s.take(i);
        let b = s.skip(i + needle.len());
        assert(s =~= a + needle + b);
    }
    if exists|a: Seq<char>, b: Seq<char>| s == #[trigger] (a + needle + b) {
        let (a, b) = choose|a: Seq<char>, b: Seq<char>| s == #[trigger] (a + needle + b);
        assert(s.subrange(a.len() as int, (a.len() + needle.len()) as int) =~= needle);
        assert(occurs_at(s, needle, a.len() as int));
    }
}

/// Whatever stands around a part of a text, the part occurs in it.
pub proof fn parts_occur(a: Seq<char>, needle: Seq<char>, b: Seq<char>)
    ensures
        occurs_in(a + needle + b, needle),
{
    let s = a + needle + b;
    assert(s.subrange(a.len() as int, (a.len() + needle.len()) as int) =~= needle);
    assert(occurs_at(s, needle, a.len() as int));
}

proof fn lemma_trim_start_is_suffix(s: Seq<char>) -> (n: int)
    ensures
        0 <= n <= s.len(),
        trim_start(s) == s.skip(n),
        forall|i: int| 0 <= i < n ==> is_space(#[trigger] s[i]),
        n < s.len() ==> !is_space(s[n]),
    decreases s.len(),
{
    if s.len() > 0 && is_space(s[0]) {
        let rest = s.drop_first();
        let m = lemma_trim_start_is_suffix(rest);
        assert(rest.skip(m) =~= s.skip(m + 1));
        assert forall|i: int| 0 <= i < m + 1 implies is_space(#[trigger] s[i]) by {
            if i > 0 {
                assert(rest[i - 1] == s[i]);
            }
        }
        if m + 1 < s.len() {
            assert(rest[m] == s[m + 1]);
        }
        m + 1
    } else {
        assert(s.skip(0) =~= s);
        0
    }
}

proof fn lemma_trim_end_is_prefix(s: Seq<char>) -> (n: int)
    ensures
        0 <= n <= s.len(),
        trim_end(s) == s.take(n),
        forall|i: int| n <= i < s.len() ==> is_space(#[trigger] s[i]),
        n > 0 ==> !is_space(s[n - 1]),
    decreases s.len(),
{
    if s.len() > 0 && is_space(s.last()) {
        let rest = s.drop_last();
        let m = lemma_trim_end_is_prefix(rest);
        assert(rest.take(m) =~= s.take(m));
        assert forall|i: int| m <= i < s.len() implies is_space(#[trigger] s[i]) by {
            if i < rest.len() {
                assert(rest[i] == s[i]);
            }
        }
        if m > 0 {
            assert(rest[m - 1] == s[m - 1]);
        }
        m
    } else {
        assert(s.take(s.len() as int) =~= s);
        s.len() as int
    }
}

/// Trimming takes white space away, from both ends, all of it, and nothing else: a text is white
/// space, its trimmed form and white space again, and the trimmed form neither begins nor ends
/// with white space.
pub proof fn trimming_takes_white_space_only(s: Seq<char>)
    ensures
        exists|a: Seq<char>, b: Seq<char>|
            s == #[trigger] (a + trimmed(s) + b) && is_blank(a) && is_blank(b),
        trimmed(s).len() > 0 ==> !is_space(trimmed(s)[0]) && !is_space(trimmed(s).last()),
{
    let n = lemma_trim_start_is_suffix(s);
    let start = s.skip(n);
    let m = lemma_trim_end_is_prefix(start);
    let a = s.take(n);
    let b = start.skip(m);
    assert(s =~= a + trimmed(s) + b);
    assert(is_blank(a)) by {
        assert forall|i: int| 0 <= i < a.len() implies is_space(#[trigger] a[i]) by {
            assert(a[i] == s[i]);
        }
    }
    assert(is_blank(b)) by {
        assert forall|i: int| 0 <= i < b.len() implies is_space(#[trigger] b[i]) by {
            assert(b[i] == start[m + i]);
        }
    }
    if m > 0 {
        assert(start[0] == s[n]);
        assert(trimmed(s)[0] == start[0]);
        assert(trimmed(s).last() == start[m - 1]);
    }
}

/// What can be seen in ASCII is no white space, and blank, tabulator and line ends are.
pub proof fn visible_ascii_is_no_space(c: char)
    ensures
        '!' <= c <= '~' ==> !is_space(c),
        c == ' ' || c == '\t' || c == '\n' || c == '\r' ==> is_space(c),
{
}

/// These, and no others, are the characters that count as white space.
pub proof fn white_space_is_listed(c: char)
    ensures
        is_space(c) <==> seq![
            '\t',
            '\n',
            '\u{b}',
            '\u{c}',
            '\r',
            ' ',
            '\u{85}',
            '\u{a0}',
            '\u{1680}',
            '\u{2000}',
            '\u{2001}',
            '\u{2002}',
            '\u{2003}',
            '\u{2004}',
            '\u{2005}',
            '\u{2006}',
            '\u{2007}',
            '\u{2008}',
            '\u{2009}',
            '\u{200a}',
            '\u{2028}',
            '\u{2029}',
            '\u{202f}',
            '\u{205f}',
            '\u{3000}',
        ].contains(c),
{
    let all = seq![
        '\t',
        '\n',
        '\u{b}',
        '\u{c}',
        '\r',
        ' ',
        '\u{85}',
        '\u{a0}',
        '\u{1680}',
        '\u{2000}',
        '\u{2001}',
        '\u{2002}',
        '\u{2003}',
        '\u{2004}',
        '\u{2005}',
        '\u{2006}',
        '\u{2007}',
        '\u{2008}',
        '\u{2009}',
        '\u{200a}',
        '\u{2028}',
        '\u{2029}',
        '\u{202f}',
        '\u{205f}',
        '\u{3000}',
    ];
    let u = c as int;
    assert(forall|i: int| 0 <= i < all.len() ==> is_space(#[trigger] all[i]));
    if 0x9 <= u <= 0xD {
        assert(all[u - 0x9] == c);
    } else if 0x2000 <= u <= 0x200A {
        assert(all[u - 0x2000 + 9] == c);
    } else if is_space(c) {
        assert(all[5] == c || all[6] == c || all[7] == c || all[8] == c || all[20] == c || all[21]
            == c || all[22] == c || all[23] == c || all[24] == c);
    }
}

// ---- Decimals, digit by digit ----

/// A number is written digit by digit, the highest first: the digit at place `i` from the right is
/// the one that stands for ten to the power of `i`, there are as many as are needed, and none more.
pub proof fn decimal_writes_every_digit(n: nat, i: nat)
    requires
        i < decimal(n).len(),
    ensures
        decimal(n)[decimal(n).len() - 1 - i] as int == '0' as int + (n as int / pow(10, i)) % 10,
        n < pow(10, decimal(n).len()),
        decimal(n).len() > 1 ==> n >= pow(10, (decimal(n).len() - 1) as nat),
    decreases n,
{
    reveal(pow);
    assert(digit_char(n % 10) as int == '0' as int + n % 10);
    let len = decimal(n).len();
    if n < 10 {
        assert(pow(10, 0) == 1);
        assert(pow(10, 1) == 10 * pow(10, 0));
    } else {
        let m = n / 10;
        decimal_is_digits(m);
        assert(decimal(m).len() == len - 1);
        if i > 0 {
            decimal_writes_every_digit(m, (i - 1) as nat);
            lemma_pow_positive(10, (i - 1) as nat);
            lemma_div_denominator(n as int, 10, pow(10, (i - 1) as nat));
            assert(decimal(n)[len - 1 - i] == decimal(m)[decimal(m).len() - 1 - (i - 1)]);
        } else {
            decimal_writes_every_digit(m, 0);
            assert(pow(10, 0) == 1);
        }
        assert(pow(10, len) == 10 * pow(10, (len - 1) as nat));
        if len > 2 {
            assert(pow(10, (len - 1) as nat) == 10 * pow(10, (len - 2) as nat));
        } else {
            assert(pow(10, 0) == 1);
            assert(pow(10, 1) == 10 * pow(10, 0));
        }
    }
}

/// Reading goes from left to right: what comes first is read first.
proof fn lemma_read_digits_concat(
    a: Seq<char>,
    b: Seq<char>,
    neg: bool,
    min: int,
    max: int,
    acc: int,
)
    ensures
        read_digits(a + b, neg, min, max, acc) == (match read_digits(a, neg, min, max, acc) {
            Ok(v) => read_digits(b, neg, min, max, v),
            Err(e) => Err(e),
        }),
    decreases a.len(),
{
    if a.len() == 0 {
        assert(a + b =~= b);
    } else {
        assert((a + b).drop_first() =~= a.drop_first() + b);
        let d = a[0] as int - '0' as int;
        let next = if neg {
            acc * 10 - d
        } else {
            acc * 10 + d
        };
        lemma_read_digits_concat(a.drop_first(), b, neg, min, max, next);
    }
}

proof fn lemma_zeros_count_nothing(zeros: Seq<char>, neg: bool, min: int, max: int)
    requires
        min <= 0 <= max,
        forall|i: int| 0 <= i < zeros.len() ==> #[trigger] zeros[i] == '0',
    ensures
        read_digits(zeros, neg, min, max, 0) == Ok::<int, IntError>(0),
    decreases zeros.len(),
{
    if zeros.len() > 0 {
        let rest = zeros.drop_first();
        assert(zeros[0] == '0');
        assert forall|i: int| 0 <= i < rest.len() implies #[trigger] rest[i] == '0' by {
            assert(rest[i] == zeros[i + 1]);
        }
        lemma_zeros_count_nothing(rest, neg, min, max);
    }
}

proof fn lemma_too_large_is_refused(n: nat, neg: bool, min: int, max: int)
    requires
        min <= 0 <= max,
        neg ==> -n < min,
        !neg ==> n > max,
    ensures
        read_digits(decimal(n), neg, min, max, 0) == Err::<int, _>(
            if neg {
                IntError::NegOverflow
            } else {
                IntError::PosOverflow
            },
        ),
    decreases n,
{
    reveal_with_fuel(read_digits, 2);
    let c = digit_char(n % 10);
    assert(c as int == '0' as int + n % 10);
    if n >= 10 {
        let m = n / 10;
        lemma_read_digits_push(decimal(m), c, neg, min, max, 0);
        if (neg && -m < min) || (!neg && m > max) {
            lemma_too_large_is_refused(m, neg, min, max);
        } else {
            lemma_read_decimal_digits(m, neg, min, max);
        }
    }
}

/// Numbers are read as they are written, with as many zeros in front as one likes: with a `+` or
/// nothing before them they are what they say, with a `-` the opposite, where the range goes below
/// zero. A number outside the range is refused as too large or too small.
pub proof fn numbers_are_read_as_written(zeros: Seq<char>, n: nat, min: int, max: int)
    requires
        min <= 0 <= max,
        forall|i: int| 0 <= i < zeros.len() ==> #[trigger] zeros[i] == '0',
    ensures
        ({
            let digits = zeros + decimal(n);
            let up: Result<int, IntError> = if n <= max {
                Ok(n as int)
            } else {
                Err(IntError::PosOverflow)
            };
            let down: Result<int, IntError> = if min == 0 {
                Err(IntError::InvalidDigit)
            } else if -n >= min {
                Ok(-n)
            } else {
                Err(IntError::NegOverflow)
            };
            &&& read_int(digits, min, max) == up
            &&& read_int(seq!['+'] + digits, min, max) == up
            &&& read_int(seq!['-'] + digits, min, max) == down
        }),
{
    let digits = zeros + decimal(n);
    decimal_is_digits(n);
    let neg_fits = -n >= min;
    lemma_zeros_count_nothing(zeros, false, min, max);
    lemma_zeros_count_nothing(zeros, true, min, max);
    lemma_read_digits_concat(zeros, decimal(n), false, min, max, 0);
    lemma_read_digits_concat(zeros, decimal(n), true, min, max, 0);
    if n <= max {
        lemma_read_decimal_digits(n, false, min, max);
    } else {
        lemma_too_large_is_refused(n, false, min, max);
    }
    if neg_fits {
        lemma_read_decimal_digits(n, true, min, max);
    } else {
        lemma_too_large_is_refused(n, true, min, max);
    }
    assert(is_digit(digits[0])) by {
        if zeros.len() > 0 {
            assert(digits[0] == zeros[0]);
        } else {
            assert(digits[0] == decimal(n)[0]);
        }
    }
    assert((seq!['+'] + digits).drop_first() =~= digits);
    assert((seq!['-'] + digits).drop_first() =~= digits);
}

/// What is no number is refused: nothing at all, a sign alone, and every text in which something
/// else than a digit follows a number of the range.
pub proof fn what_is_no_number_is_refused(n: nat, c: char, rest: Seq<char>, min: int, max: int)
    requires
        min <= 0 <= max,
        n <= max,
        !is_digit(c),
    ensures
        read_int(seq![], min, max) == Err::<int, _>(IntError::Empty),
        read_int(seq!['+'], min, max) == Err::<int, _>(IntError::InvalidDigit),
        read_int(seq!['-'], min, max) == Err::<int, _>(IntError::InvalidDigit),
        read_int(decimal(n) + seq![c] + rest, min, max) == Err::<int, _>(IntError::InvalidDigit),
        c != '+' && c != '-' ==> read_int(seq![c] + rest, min, max) == Err::<int, _>(
            IntError::InvalidDigit,
        ),
{
    decimal_is_digits(n);
    let tail = seq![c] + rest;
    let s = decimal(n) + seq![c] + rest;
    assert(s =~= decimal(n) + tail);
    lemma_read_decimal_digits(n, false, min, max);
    lemma_read_digits_concat(decimal(n), tail, false, min, max, 0);
    assert(is_digit(decimal(n)[0]));
    assert(s[0] == decimal(n)[0]);
    assert(tail[0] == c);
}

} // verus!
