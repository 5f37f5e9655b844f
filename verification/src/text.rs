//! Character-level text handling: substring search, trimming, digit
//! filtering, decimal parsing and decimal formatting.
use vstd::prelude::*;
use vstd::string::{StrSliceExecFns, StringExecFns};

verus! {

/// `needle` occurs in `hay` starting at position `i`.
pub open spec fn occurs_at(hay: Seq<char>, needle: Seq<char>, i: int) -> bool {
    &&& 0 <= i
    &&& i + needle.len() <= hay.len()
    &&& hay.subrange(i, i + needle.len()) == needle
}

/// `needle` is a contiguous part of `hay` (the empty text is part of every text).
pub open spec fn text_contains(hay: Seq<char>, needle: Seq<char>) -> bool {
    exists|i: int| occurs_at(hay, needle, i)
}

/// The characters of a string slice, in order.
pub fn chars_of(s: &str) -> (v: Vec<char>)
    ensures
        v@ == s@,
{
    let n = s.unicode_len();
    let mut v: Vec<char> = Vec::new();
    let mut i: usize = 0;
    while i < n
        invariant
            n == s@.len(),
            i <= n,
            v@ == s@.subrange(0, i as int),
        decreases n - i,
    {
        v.push(s.get_char(i));
        i = i + 1;
        assert(v@ =~= s@.subrange(0, i as int));
    }
    assert(v@ =~= s@);
    v
}

fn occurs_at_exec(hay: &Vec<char>, needle: &Vec<char>, i: usize) -> (r: bool)
    requires
        i + needle@.len() <= hay@.len(),
    ensures
        r == occurs_at(hay@, needle@, i as int),
{
    let hay_len = hay.len();
    let mut j: usize = 0;
    while j < needle.len()
        invariant
            i + needle@.len() <= hay@.len(),
            hay_len == hay@.len(),
            j <= needle@.len(),
            forall|k: int| 0 <= k < j ==> hay@[i + k] == needle@[k],
        decreases needle@.len() - j,
    {
        if hay[i + j] != needle[j] {
            assert(hay@.subrange(i as int, i + needle@.len())[j as int] != needle@[j as int]);
            return false;
        }
        j = j + 1;
    }
    assert(hay@.subrange(i as int, i + needle@.len()) =~= needle@);
    true
}

/// Whether `needle` occurs in `hay`, on character sequences.
pub fn chars_contain(hay: &Vec<char>, needle: &Vec<char>) -> (r: bool)
    ensures
        r == text_contains(hay@, needle@),
{
    if needle.len() > hay.len() {
        assert forall|i: int| !occurs_at(hay@, needle@, i) by {}
        return false;
    }
    let last = hay.len() - needle.len();
    let mut i: usize = 0;
    while i < last
        invariant
            last + needle@.len() == hay@.len(),
            i <= last,
            forall|k: int| 0 <= k < i ==> !occurs_at(hay@, needle@, k),
        decreases last - i,
    {
        if occurs_at_exec(hay, needle, i) {
            return true;
        }
        i = i + 1;
    }
    if occurs_at_exec(hay, needle, last) {
        return true;
    }
    assert forall|k: int| !occurs_at(hay@, needle@, k) by {
        if 0 <= k && k + needle@.len() <= hay@.len() {
            assert(k <= last);
        }
    }
    false
}

/// Whether `a` and `b` hold the same characters.
pub fn same_text(a: &str, b: &str) -> (r: bool)
    ensures
        r == (a@ == b@),
{
    let x = chars_of(a);
    let y = chars_of(b);
    if x.len() != y.len() {
        return false;
    }
    let mut i: usize = 0;
    while i < x.len()
        invariant
            x@ == a@,
            y@ == b@,
            x@.len() == y@.len(),
            i <= x@.len(),
            forall|k: int| 0 <= k < i ==> x@[k] == y@[k],
        decreases x@.len() - i,
    {
        if x[i] != y[i] {
            assert(x@[i as int] != y@[i as int]);
            return false;
        }
        i = i + 1;
    }
    assert(x@ =~= y@);
    true
}

/// Whether `needle` occurs in `hay`, as `str::contains` answers it.
pub fn contains(hay: &str, needle: &str) -> (r: bool)
    ensures
        r == text_contains(hay@, needle@),
{
    let h = chars_of(hay);
    let n = chars_of(needle);
    chars_contain(&h, &n)
}


/// The characters that `char::is_whitespace` accepts: the Unicode
/// `White_Space` property.
pub open spec fn is_white_space(c: char) -> bool {
    let u = c as u32;
    ||| 0x9 <= u <= 0xD
    ||| u == 0x20
    ||| u == 0x85
    ||| u == 0xA0
    ||| u == 0x1680
    ||| 0x2000 <= u <= 0x200A
    ||| u == 0x2028
    ||| u == 0x2029
    ||| u == 0x202F
    ||| u == 0x205F
    ||| u == 0x3000
}

/// `s` without its leading white space.
pub open spec fn trim_start(s: Seq<char>) -> Seq<char>
    decreases s.len(),
{
    if s.len() > 0 && is_white_space(s[0]) {
        trim_start(s.drop_first())
    } else {
        s
    }
}

/// `s` without its trailing white space.
pub open spec fn trim_end(s: Seq<char>) -> Seq<char>
    decreases s.len(),
{
    if s.len() > 0 && is_white_space(s.last()) {
        trim_end(s.drop_last())
    } else {
        s
    }
}

/// `s` without leading and trailing white space, as `str::trim` gives it.
pub open spec fn trimmed(s: Seq<char>) -> Seq<char> {
    trim_end(trim_start(s))
}

/// Whether `c` is white space, as `char::is_whitespace` answers it.
pub fn is_white_space_char(c: char) -> (r: bool)
    ensures
        r == is_white_space(c),
{
    let u = c as u32;
    (0x9 <= u && u <= 0xD) || u == 0x20 || u == 0x85 || u == 0xA0 || u == 0x1680 || (0x2000 <= u
        && u <= 0x200A) || u == 0x2028 || u == 0x2029 || u == 0x202F || u == 0x205F || u == 0x3000
}

proof fn lemma_trim_start_at(s: Seq<char>, i: int)
    requires
        0 <= i <= s.len(),
        forall|k: int| 0 <= k < i ==> is_white_space(#[trigger] s[k]),
        i == s.len() || !is_white_space(s[i]),
    ensures
        trim_start(s) == s.subrange(i, s.len() as int),
    decreases i,
{
    if i == 0 {
        assert(s.subrange(0, s.len() as int) =~= s);
    } else {
        let t = s.drop_first();
        assert forall|k: int| 0 <= k < i - 1 implies is_white_space(#[trigger] t[k]) by {
            assert(t[k] == s[k + 1]);
        }
        lemma_trim_start_at(t, i - 1);
        assert(t.subrange(i - 1, t.len() as int) =~= s.subrange(i, s.len() as int));
    }
}

proof fn lemma_trim_end_at(s: Seq<char>, j: int)
    requires
        0 <= j <= s.len(),
        forall|k: int| j <= k < s.len() ==> is_white_space(#[trigger] s[k]),
        j == 0 || !is_white_space(s[j - 1]),
    ensures
        trim_end(s) == s.subrange(0, j),
    decreases s.len() - j,
{
    if j == s.len() {
        assert(s.subrange(0, j) =~= s);
    } else {
        let t = s.drop_last();
        assert forall|k: int| j <= k < t.len() implies is_white_space(#[trigger] t[k]) by {
            assert(t[k] == s[k]);
        }
        lemma_trim_end_at(t, j);
        assert(t.subrange(0, j) =~= s.subrange(0, j));
    }
}

proof fn lemma_trim_start_shape(s: Seq<char>)
    ensures
        trim_start(s).len() == 0 || !is_white_space(trim_start(s)[0]),
    decreases s.len(),
{
    if s.len() > 0 && is_white_space(s[0]) {
        lemma_trim_start_shape(s.drop_first());
    }
}

proof fn lemma_trim_end_shape(s: Seq<char>)
    ensures
        trim_end(s).len() <= s.len(),
        trim_end(s) == s.take(trim_end(s).len() as int),
        trim_end(s).len() == 0 || !is_white_space(trim_end(s).last()),
    decreases s.len(),
{
    if s.len() > 0 && is_white_space(s.last()) {
        let t = s.drop_last();
        lemma_trim_end_shape(t);
        assert(t.take(trim_end(t).len() as int) =~= s.take(trim_end(t).len() as int));
    } else {
        assert(s.take(s.len() as int) =~= s);
    }
}

/// Trimmed text neither begins nor ends with white space, so trimming it
/// again changes nothing.
pub proof fn lemma_trim_idempotent(s: Seq<char>)
    ensures
        trimmed(s).len() == 0 || (!is_white_space(trimmed(s)[0]) && !is_white_space(
            trimmed(s).last(),
        )),
        trimmed(trimmed(s)) == trimmed(s),
{
    let t = trim_start(s);
    let u = trim_end(t);
    lemma_trim_start_shape(s);
    lemma_trim_end_shape(t);
    if u.len() > 0 {
        assert(u[0] == t.take(u.len() as int)[0]);
    }
    assert(trim_start(u) == u);
    assert(trim_end(u) == u);
}

/// `s` without leading and trailing white space (`str::trim`).
pub fn trim(s: &str) -> (r: &str)
    ensures
        r@ == trimmed(s@),
{
    let v = chars_of(s);
    let n = v.len();
    let mut i: usize = 0;
    while i < n && is_white_space_char(v[i])
        invariant
            n == v@.len(),
            v@ == s@,
            i <= n,
            forall|k: int| 0 <= k < i ==> is_white_space(#[trigger] v@[k]),
        decreases n - i,
    {
        i = i + 1;
    }
    let mut j: usize = n;
    while j > i && is_white_space_char(v[j - 1])
        invariant
            n == v@.len(),
            i <= j <= n,
            forall|k: int| j <= k < n ==> is_white_space(#[trigger] v@[k]),
        decreases j,
    {
        j = j - 1;
    }
    proof {
        lemma_trim_start_at(s@, i as int);
        let t = s@.subrange(i as int, n as int);
        assert forall|k: int| j - i <= k < t.len() implies is_white_space(#[trigger] t[k]) by {
            assert(t[k] == v@[k + i]);
        }
        if j > i {
            assert(t[j - i - 1] == v@[j - 1]);
        }
        lemma_trim_end_at(t, j - i);
        assert(t.subrange(0, j - i) =~= s@.subrange(i as int, j as int));
    }
    s.substring_char(i, j)
}

/// An ASCII decimal digit, `'0'` to `'9'` (what `char::is_digit(10)` accepts).
pub open spec fn is_ascii_digit(c: char) -> bool {
    48 <= c as u32 <= 57
}

/// A character of a decimal number as the scraped pages write one: a digit or `'.'`.
pub open spec fn is_number_char(c: char) -> bool {
    is_ascii_digit(c) || c == '.'
}

/// The characters of `s` that are ASCII digits, in order
/// (`s.chars().filter(|c| c.is_digit(10)).collect()`).
pub fn keep_ascii_digits(s: &str) -> (r: String)
    ensures
        r@ == s@.filter(|c: char| is_ascii_digit(c)),
{
    let v = chars_of(s);
    let mut out = String::new();
    let mut i: usize = 0;
    while i < v.len()
        invariant
            v@ == s@,
            i <= v@.len(),
            out@ == v@.take(i as int).filter(|c: char| is_ascii_digit(c)),
        decreases v@.len() - i,
    {
        let c = v[i];
        let u = c as u32;
        proof {
            reveal_with_fuel(Seq::<_>::filter, 1);
            assert(v@.take(i + 1).drop_last() =~= v@.take(i as int));
        }
        if 48 <= u && u <= 57 {
            assert(s@.subrange(i as int, i + 1) =~= seq![c]);
            out.append(s.substring_char(i, i + 1));
        }
        i = i + 1;
    }
    assert(v@.take(v@.len() as int) =~= v@);
    out
}

/// The characters of `s` that are ASCII digits or `'.'`, in order.
pub fn keep_number_chars(s: &str) -> (r: String)
    ensures
        r@ == s@.filter(|c: char| is_number_char(c)),
{
    let v = chars_of(s);
    let mut out = String::new();
    let mut i: usize = 0;
    while i < v.len()
        invariant
            v@ == s@,
            i <= v@.len(),
            out@ == v@.take(i as int).filter(|c: char| is_number_char(c)),
        decreases v@.len() - i,
    {
        let c = v[i];
        let u = c as u32;
        proof {
            reveal_with_fuel(Seq::<_>::filter, 1);
            assert(v@.take(i + 1).drop_last() =~= v@.take(i as int));
        }
        if (48 <= u && u <= 57) || c == '.' {
            assert(s@.subrange(i as int, i + 1) =~= seq![c]);
            out.append(s.substring_char(i, i + 1));
        }
        i = i + 1;
    }
    assert(v@.take(v@.len() as int) =~= v@);
    out
}


/// The value of the ASCII digit `c`.
pub open spec fn digit_value(c: char) -> int {
    c as u32 - 48
}

/// The value of a string of ASCII digits read as a decimal number.
pub open spec fn decimal_value(s: Seq<char>) -> int
    decreases s.len(),
{
    if s.len() == 0 {
        0
    } else {
        decimal_value(s.drop_last()) * 10 + digit_value(s.last())
    }
}

/// Every character of `s` is an ASCII digit.
pub open spec fn all_ascii_digits(s: Seq<char>) -> bool {
    forall|i: int| 0 <= i < s.len() ==> is_ascii_digit(#[trigger] s[i])
}

/// The digits of a non-negative number as `FromStr` reads them: one
/// leading `'+'` is dropped.
pub open spec fn unsigned_body(s: Seq<char>) -> Seq<char> {
    if s.len() > 0 && s[0] == '+' {
        s.drop_first()
    } else {
        s
    }
}

/// `s` as `FromStr` reads an unsigned integer no greater than `max`:
/// an optional `'+'`, then at least one ASCII digit and nothing else.
pub open spec fn parsed_unsigned(s: Seq<char>, max: int) -> Option<int> {
    let body = unsigned_body(s);
    if body.len() > 0 && all_ascii_digits(body) && decimal_value(body) <= max {
        Some(decimal_value(body))
    } else {
        None
    }
}

/// `s` as `i32::from_str` reads it: an optional sign, then at least one
/// ASCII digit, within the range of `i32`.
pub open spec fn parsed_i32(s: Seq<char>) -> Option<int> {
    if s.len() > 0 && s[0] == '-' {
        let body = s.drop_first();
        if body.len() > 0 && all_ascii_digits(body) && decimal_value(body) <= 0x8000_0000 {
            Some(-decimal_value(body))
        } else {
            None
        }
    } else {
        parsed_unsigned(s, 0x7fff_ffff)
    }
}

proof fn lemma_decimal_value_grows(s: Seq<char>, k: int)
    requires
        all_ascii_digits(s),
        0 <= k <= s.len(),
    ensures
        0 <= decimal_value(s.take(k)) <= decimal_value(s),
    decreases s.len(),
{
    if s.len() > 0 {
        let t = s.drop_last();
        assert forall|i: int| 0 <= i < t.len() implies is_ascii_digit(#[trigger] t[i]) by {
            assert(t[i] == s[i]);
        }
        assert(is_ascii_digit(s[s.len() - 1]));
        if k == s.len() {
            assert(s.take(k) =~= s);
            lemma_decimal_value_grows(t, t.len() as int);
            assert(t.take(t.len() as int) =~= t);
        } else {
            lemma_decimal_value_grows(t, k);
            assert(t.take(k) =~= s.take(k));
            lemma_decimal_value_grows(t, t.len() as int);
            assert(t.take(t.len() as int) =~= t);
        }
    } else {
        assert(s.take(k) =~= s);
    }
}

/// The value of `v[start..]` as an unsigned decimal number no greater than
/// `max`, or `None` when it is empty, holds a non-digit, or exceeds `max`.
fn digits_value(v: &Vec<char>, start: usize, max: u64) -> (r: Option<u64>)
    requires
        start <= v@.len(),
    ensures
        ({
            let body = v@.subrange(start as int, v@.len() as int);
            match r {
                Some(x) => body.len() > 0 && all_ascii_digits(body) && decimal_value(body) <= max
                    && x == decimal_value(body),
                None => !(body.len() > 0 && all_ascii_digits(body) && decimal_value(body) <= max),
            }
        }),
{
    let n = v.len();
    if start == n {
        return None;
    }
    let ghost body = v@.subrange(start as int, n as int);
    let mut acc: u64 = 0;
    let mut i: usize = start;
    while i < n
        invariant
            n == v@.len(),
            start <= i <= n,
            body == v@.subrange(start as int, n as int),
            all_ascii_digits(v@.subrange(start as int, i as int)),
            acc == decimal_value(v@.subrange(start as int, i as int)),
            acc <= max,
        decreases n - i,
    {
        let c = v[i];
        let u = c as u32;
        let ghost prefix = v@.subrange(start as int, i + 1);
        assert(prefix.drop_last() =~= v@.subrange(start as int, i as int));
        if u < 48 || u > 57 {
            assert(body[i - start] == c);
            return None;
        }
        assert forall|k: int| 0 <= k < prefix.len() implies is_ascii_digit(#[trigger] prefix[k]) by {
            if k < prefix.len() - 1 {
                assert(prefix[k] == v@.subrange(start as int, i as int)[k]);
            }
        }
        let d = (u - 48) as u64;
        if (acc as u128) * 10 + (d as u128) > (max as u128) {
            proof {
                assert(decimal_value(prefix) > max);
                if all_ascii_digits(body) {
                    lemma_decimal_value_grows(body, i + 1 - start);
                    assert(body.take(i + 1 - start) =~= prefix);
                }
            }
            return None;
        }
        acc = acc * 10 + d;
        i = i + 1;
    }
    assert(v@.subrange(start as int, i as int) =~= body);
    Some(acc)
}

/// The characters `v` read as a `u32` (`u32::from_str`).
pub fn parse_u32_chars(v: &Vec<char>) -> (r: Option<u32>)
    ensures
        match parsed_unsigned(v@, u32::MAX as int) {
            Some(x) => 0 <= x <= u32::MAX && r == Some(x as u32),
            None => r is None,
        },
{
    let start: usize = if v.len() > 0 && v[0] == '+' { 1 } else { 0 };
    assert(unsigned_body(v@) =~= v@.subrange(start as int, v@.len() as int));
    match digits_value(v, start, u32::MAX as u64) {
        Some(x) => Some(x as u32),
        None => None,
    }
}

/// `s` read as a `usize` (`usize::from_str`).
pub fn parse_usize(s: &str) -> (r: Option<usize>)
    ensures
        match parsed_unsigned(s@, usize::MAX as int) {
            Some(x) => 0 <= x <= usize::MAX && r == Some(x as usize),
            None => r is None,
        },
{
    let v = chars_of(s);
    let start: usize = if v.len() > 0 && v[0] == '+' { 1 } else { 0 };
    assert(unsigned_body(s@) =~= v@.subrange(start as int, v@.len() as int));
    match digits_value(&v, start, usize::MAX as u64) {
        Some(x) => Some(x as usize),
        None => None,
    }
}

/// `s` read as a `u32` (`u32::from_str`).
pub fn parse_u32(s: &str) -> (r: Option<u32>)
    ensures
        match parsed_unsigned(s@, u32::MAX as int) {
            Some(x) => 0 <= x <= u32::MAX && r == Some(x as u32),
            None => r is None,
        },
{
    let v = chars_of(s);
    parse_u32_chars(&v)
}

/// `s` read as an `i32` (`i32::from_str`).
pub fn parse_i32(s: &str) -> (r: Option<i32>)
    ensures
        match parsed_i32(s@) {
            Some(x) => i32::MIN <= x <= i32::MAX && r == Some(x as i32),
            None => r is None,
        },
{
    let v = chars_of(s);
    if v.len() > 0 && v[0] == '-' {
        assert(s@.drop_first() =~= v@.subrange(1, v@.len() as int));
        match digits_value(&v, 1, 0x8000_0000) {
            Some(x) => {
                if x == 0x8000_0000 {
                    Some(-2147483647i32 - 1)
                } else {
                    Some(-(x as i32))
                }
            },
            None => None,
        }
    } else {
        let start: usize = if v.len() > 0 && v[0] == '+' { 1 } else { 0 };
        assert(unsigned_body(s@) =~= v@.subrange(start as int, v@.len() as int));
        match digits_value(&v, start, 0x7fff_ffff) {
            Some(x) => Some(x as i32),
            None => None,
        }
    }
}

/// The ASCII digit for `d` (`0 <= d < 10`).
pub open spec fn digit_char(d: int) -> char {
    seq!['0', '1', '2', '3', '4', '5', '6', '7', '8', '9'][d]
}

/// The decimal digits of `n`, most significant first, without leading zeros.
pub open spec fn decimal_digits(n: nat) -> Seq<char>
    decreases n,
{
    if n < 10 {
        seq![digit_char(n as int)]
    } else {
        decimal_digits(n / 10).push(digit_char((n % 10) as int))
    }
}

/// `n` in decimal, padded with zeros to at least two digits (`{:02}`).
pub open spec fn two_digit_padded(n: nat) -> Seq<char> {
    if n < 10 {
        seq!['0', digit_char(n as int)]
    } else {
        decimal_digits(n)
    }
}

/// The text that marks a month inside an ISO date: `-MM-`.
pub open spec fn month_marker_text(month: nat) -> Seq<char> {
    seq!['-'] + two_digit_padded(month) + seq!['-']
}

/// The one-character text of the digit `d`.
fn digit_text(d: u32) -> (r: &'static str)
    requires
        d < 10,
    ensures
        r@ == seq![digit_char(d as int)],
{
    let digits = "0123456789";
    proof {
        reveal_strlit("0123456789");
    }
    let r = digits.substring_char(d as usize, d as usize + 1);
    assert(r@ =~= seq![digit_char(d as int)]);
    r
}

fn push_decimal(v: &mut String, n: u32)
    ensures
        final(v)@ == old(v)@ + decimal_digits(n as nat),
    decreases n,
{
    if n >= 10 {
        push_decimal(v, n / 10);
    }
    v.append(digit_text(n % 10));
    proof {
        if n < 10 {
            assert(decimal_digits(n as nat) =~= seq![digit_char(n as int)]);
        }
    }
    assert(v@ =~= old(v)@ + decimal_digits(n as nat));
}

/// The month marker `-MM-` that the record pages' dates hold for `month`
/// (`format!("-{:02}-", month)`).
pub fn month_marker(month: u32) -> (r: String)
    ensures
        r@ == month_marker_text(month as nat),
{
    proof {
        reveal_strlit("-");
        reveal_strlit("0");
    }
    let mut v = String::new();
    v.append("-");
    if month < 10 {
        v.append("0");
    }
    push_decimal(&mut v, month);
    v.append("-");
    proof {
        if month < 10 {
            assert(decimal_digits(month as nat) =~= seq![digit_char(month as int)]);
        }
    }
    assert(v@ =~= month_marker_text(month as nat));
    v
}


proof fn lemma_digit_char_value(d: int)
    requires
        0 <= d < 10,
    ensures
        is_ascii_digit(digit_char(d)),
        digit_value(digit_char(d)) == d,
{
    assert('0' as u32 == 48 && '1' as u32 == 49 && '2' as u32 == 50 && '3' as u32 == 51 && '4' as u32
        == 52);
    assert('5' as u32 == 53 && '6' as u32 == 54 && '7' as u32 == 55 && '8' as u32 == 56 && '9' as u32
        == 57);
}

/// Reading back what is written: the decimal digits of `n` are ASCII
/// digits, and read as a decimal number they give `n` again.
pub proof fn lemma_decimal_digits_read_back(n: nat)
    ensures
        all_ascii_digits(decimal_digits(n)),
        decimal_value(decimal_digits(n)) == n,
    decreases n,
{
    let d = decimal_digits(n);
    if n < 10 {
        lemma_digit_char_value(n as int);
        assert(d.drop_last() =~= Seq::<char>::empty());
        assert(decimal_value(d.drop_last()) == 0);
        assert(d.last() == digit_char(n as int));
    } else {
        lemma_digit_char_value((n % 10) as int);
        assert(d.last() == digit_char((n % 10) as int));
        lemma_decimal_digits_read_back(n / 10);
        assert(d.drop_last() =~= decimal_digits(n / 10));
        assert(decimal_value(d) == decimal_value(d.drop_last()) * 10 + digit_value(d.last()));
        assert forall|i: int| 0 <= i < d.len() implies is_ascii_digit(#[trigger] d[i]) by {
            if i < d.len() - 1 {
                assert(d[i] == decimal_digits(n / 10)[i]);
            }
        }
    }
}

/// A number written by `month_marker` is read back by `parse_u32` from the
/// marker's middle: formatting and parsing agree.
pub proof fn lemma_month_marker_read_back(month: u32)
    ensures
        ({
            let t = month_marker_text(month as nat);
            parsed_unsigned(t.subrange(1, t.len() - 1), u32::MAX as int) == Some(month as int)
        }),
{
    let t = month_marker_text(month as nat);
    let mid = t.subrange(1, t.len() - 1);
    assert(mid =~= two_digit_padded(month as nat));
    lemma_decimal_digits_read_back(month as nat);
    if month < 10 {
        lemma_digit_char_value(0);
        assert(mid.drop_last() =~= seq!['0']);
        assert(seq!['0'].drop_last() =~= Seq::<char>::empty());
        assert(decimal_digits(month as nat) =~= seq![digit_char(month as int)]);
        assert(is_ascii_digit(mid[0]));
        assert(is_ascii_digit(mid[1]) && mid[1] == decimal_digits(month as nat)[0]);
        assert(decimal_value(seq!['0']) == decimal_value(Seq::<char>::empty()) * 10 + 0);
        assert(decimal_value(mid) == decimal_value(mid.drop_last()) * 10 + digit_value(mid.last()));
    }
    assert(unsigned_body(mid) =~= mid);
}

} // verus!
