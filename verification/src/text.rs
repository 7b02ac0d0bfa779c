//! Text helpers: searching, slicing and numerals, with their meaning stated over
//! sequences of characters.
use vstd::prelude::*;
use vstd::string::*;

verus! {

/// The character of the decimal digit `d`.
pub open spec fn digit_char(d: nat) -> char {
    "0123456789"@[d as int]
}

/// The decimal numeral of `n`, without leading zeros.
pub open spec fn digits(n: nat) -> Seq<char>
    decreases n,
{
    if n < 10 {
        seq![digit_char(n)]
    } else {
        digits(n / 10).push(digit_char(n % 10))
    }
}

/// The last `width` decimal digits of `n`, with leading zeros.
pub open spec fn padded_digits(n: nat, width: nat) -> Seq<char>
    decreases width,
{
    if width == 0 {
        Seq::empty()
    } else {
        padded_digits(n / 10, (width - 1) as nat).push(digit_char(n % 10))
    }
}

/// The numeral of a signed number.
pub open spec fn signed_digits(n: int) -> Seq<char> {
    if n < 0 {
        seq!['-'] + digits((-n) as nat)
    } else {
        digits(n as nat)
    }
}

/// `needle` stands in `hay` at position `at`.
pub open spec fn occurs_at(hay: Seq<char>, needle: Seq<char>, at: int) -> bool {
    0 <= at && at + needle.len() <= hay.len() && hay.subrange(at, at + needle.len()) == needle
}

/// `needle` stands somewhere in `hay`.
pub open spec fn has_text(hay: Seq<char>, needle: Seq<char>) -> bool {
    exists|at: int| #[trigger] occurs_at(hay, needle, at)
}

/// `s` begins with `prefix`.
pub open spec fn begins_with(s: Seq<char>, prefix: Seq<char>) -> bool {
    occurs_at(s, prefix, 0)
}

/// `s` ends with `suffix`.
pub open spec fn finishes_with(s: Seq<char>, suffix: Seq<char>) -> bool {
    occurs_at(s, suffix, s.len() - suffix.len())
}

/// `c` with an ASCII capital letter turned into its small letter.
pub open spec fn lower_char(c: char) -> char {
    if 'A' <= c && c <= 'Z' {
        "abcdefghijklmnopqrstuvwxyz"@[c as int - 'A' as int]
    } else {
        c
    }
}

/// `s` with every ASCII capital letter turned into its small letter.
pub open spec fn ascii_lower(s: Seq<char>) -> Seq<char> {
    s.map_values(|c: char| lower_char(c))
}

/// `s` without the characters `c` at its end.
pub open spec fn without_trailing(s: Seq<char>, c: char) -> Seq<char>
    decreases s.len(),
{
    if s.len() > 0 && s.last() == c {
        without_trailing(s.drop_last(), c)
    } else {
        s
    }
}

/// The position of the first `c` in `s` from `from` on, or the length of `s`.
pub open spec fn first_index(s: Seq<char>, c: char, from: int) -> int
    decreases s.len() - from,
{
    if from >= s.len() || s[from] == c {
        from
    } else {
        first_index(s, c, from + 1)
    }
}

/// `s` up to its first `c`, or all of it.
pub open spec fn before_first(s: Seq<char>, c: char) -> Seq<char> {
    s.subrange(0, first_index(s, c, 0))
}

/// `s` up to its last `c`, or all of it.
pub open spec fn before_last(s: Seq<char>, c: char) -> Seq<char>
    decreases s.len(),
{
    if !s.contains(c) {
        s
    } else if s.last() == c {
        s.drop_last()
    } else {
        before_last(s.drop_last(), c)
    }
}

/// Whether the two texts are the same.
pub fn same_text(a: &str, b: &str) -> (r: bool)
    ensures
        r == (a@ == b@),
{
    a.to_owned() == b.to_owned()
}

/// The texts `a` and `b` one after the other.
pub fn join2(a: &str, b: &str) -> (r: String)
    ensures
        r@ == a@ + b@,
{
    a.to_owned().concat(b)
}

/// The texts `a`, `b` and `c` one after the other.
pub fn join3(a: &str, b: &str, c: &str) -> (r: String)
    ensures
        r@ == a@ + b@ + c@,
{
    a.to_owned().concat(b).concat(c)
}

fn digit_text(d: usize) -> (r: &'static str)
    requires
        d < 10,
    ensures
        r@ == seq![digit_char(d as nat)],
{
    proof {
        reveal_strlit("0123456789");
    }
    let r = "0123456789".substring_char(d, d + 1);
    assert(r@ =~= seq![digit_char(d as nat)]);
    r
}

/// The decimal numeral of `n`.
pub fn number_text(n: u128) -> (r: String)
    ensures
        r@ == digits(n as nat),
    decreases n,
{
    if n < 10 {
        digit_text(n as usize).to_owned()
    } else {
        let mut s = number_text(n / 10);
        s.append(digit_text((n % 10) as usize));
        assert(s@ =~= digits(n as nat / 10).push(digit_char(n as nat % 10)));
        s
    }
}

/// The last `width` decimal digits of `n`.
pub fn padded_number_text(n: u128, width: u32) -> (r: String)
    ensures
        r@ == padded_digits(n as nat, width as nat),
    decreases width,
{
    if width == 0 {
        String::new()
    } else {
        let mut s = padded_number_text(n / 10, width - 1);
        s.append(digit_text((n % 10) as usize));
        assert(s@ =~= padded_digits(n as nat / 10, (width - 1) as nat).push(
            digit_char(n as nat % 10),
        ));
        s
    }
}

/// The numeral of a signed number.
pub fn signed_text(n: i64) -> (r: String)
    ensures
        r@ == signed_digits(n as int),
{
    if n < 0 {
        proof {
            reveal_strlit("-");
        }
        let magnitude: u128 = (-(n as i128)) as u128;
        let r = join2("-", number_text(magnitude).as_str());
        assert("-"@ =~= seq!['-']);
        r
    } else {
        number_text(n as u128)
    }
}

/// Whether `needle` stands in `hay` at character `at`.
fn text_at(hay: &str, needle: &str, at: usize) -> (r: bool)
    requires
        at <= hay@.len(),
    ensures
        r == occurs_at(hay@, needle@, at as int),
{
    let n: usize = needle.unicode_len();
    let h: usize = hay.unicode_len();
    if n > h - at {
        return false;
    }
    same_text(hay.substring_char(at, at + n), needle)
}

/// Whether `needle` stands somewhere in `hay`.
pub fn contains_text(hay: &str, needle: &str) -> (r: bool)
    ensures
        r == has_text(hay@, needle@),
{
    let h: usize = hay.unicode_len();
    let mut i: usize = 0;
    while i <= h
        invariant
            h == hay@.len(),
            i <= h + 1,
            forall|at: int| 0 <= at < i ==> !#[trigger] occurs_at(hay@, needle@, at),
        decreases h + 1 - i,
    {
        if text_at(hay, needle, i) {
            assert(occurs_at(hay@, needle@, i as int));
            return true;
        }
        if i == h {
            return false;
        }
        i = i + 1;
    }
    false
}

/// Whether `s` begins with `prefix`.
pub fn starts_with_text(s: &str, prefix: &str) -> (r: bool)
    ensures
        r == begins_with(s@, prefix@),
{
    text_at(s, prefix, 0)
}

/// Whether `s` ends with `suffix`.
pub fn ends_with_text(s: &str, suffix: &str) -> (r: bool)
    ensures
        r == finishes_with(s@, suffix@),
{
    let n: usize = suffix.unicode_len();
    let l: usize = s.unicode_len();
    if n > l {
        return false;
    }
    text_at(s, suffix, l - n)
}

/// `s` without `prefix`, or `None` if it does not begin with it.
pub fn without_prefix<'a>(s: &'a str, prefix: &str) -> (r: Option<&'a str>)
    ensures
        match r {
            Some(rest) => begins_with(s@, prefix@) && s@ == prefix@ + rest@,
            None => !begins_with(s@, prefix@),
        },
{
    if starts_with_text(s, prefix) {
        let n: usize = prefix.unicode_len();
        let rest = s.substring_char(n, s.unicode_len());
        assert(s@ =~= prefix@ + rest@);
        Some(rest)
    } else {
        None
    }
}

/// `s` without `suffix`, or `None` if it does not end with it.
pub fn without_suffix<'a>(s: &'a str, suffix: &str) -> (r: Option<&'a str>)
    ensures
        match r {
            Some(rest) => finishes_with(s@, suffix@) && s@ == rest@ + suffix@,
            None => !finishes_with(s@, suffix@),
        },
{
    if ends_with_text(s, suffix) {
        let n: usize = suffix.unicode_len();
        let rest = s.substring_char(0, s.unicode_len() - n);
        assert(s@ =~= rest@ + suffix@);
        Some(rest)
    } else {
        None
    }
}

fn letter_text(c: char) -> (r: &'static str)
    requires
        'A' <= c && c <= 'Z',
    ensures
        r@ == seq![lower_char(c)],
{
    proof {
        reveal_strlit("abcdefghijklmnopqrstuvwxyz");
    }
    let at: usize = (c as u32 - 'A' as u32) as usize;
    let r = "abcdefghijklmnopqrstuvwxyz".substring_char(at, at + 1);
    assert(r@ =~= seq![lower_char(c)]);
    r
}

/// `s` with every ASCII capital letter turned into its small letter.
pub fn lowered(s: &str) -> (r: String)
    ensures
        r@ == ascii_lower(s@),
{
    let n: usize = s.unicode_len();
    let mut out = String::new();
    let mut i: usize = 0;
    while i < n
        invariant
            n == s@.len(),
            i <= n,
            out@ == ascii_lower(s@.subrange(0, i as int)),
        decreases n - i,
    {
        let c = s.get_char(i);
        if 'A' <= c && c <= 'Z' {
            out.append(letter_text(c));
        } else {
            let one = s.substring_char(i, i + 1);
            assert(one@ =~= seq![lower_char(c)]);
            out.append(one);
        }
        assert(out@ =~= ascii_lower(s@.subrange(0, i + 1)));
        i = i + 1;
    }
    assert(s@.subrange(0, n as int) =~= s@);
    out
}

/// `s` without the characters `c` at its end.
pub fn trim_trailing<'a>(s: &'a str, c: char) -> (r: &'a str)
    ensures
        r@ == without_trailing(s@, c),
{
    let mut n: usize = s.unicode_len();
    assert(s@.subrange(0, n as int) =~= s@);
    while n > 0 && s.get_char(n - 1) == c
        invariant
            n <= s@.len(),
            without_trailing(s@.subrange(0, n as int), c) == without_trailing(s@, c),
        decreases n,
    {
        assert(s@.subrange(0, n as int).drop_last() =~= s@.subrange(0, n - 1));
        n = n - 1;
    }
    s.substring_char(0, n)
}

/// `s` up to its first `c`, or all of it.
pub fn text_before_first<'a>(s: &'a str, c: char) -> (r: &'a str)
    ensures
        r@ == before_first(s@, c),
{
    let n: usize = s.unicode_len();
    let mut i: usize = 0;
    while i < n && s.get_char(i) != c
        invariant
            n == s@.len(),
            i <= n,
            first_index(s@, c, 0) == first_index(s@, c, i as int),
        decreases n - i,
    {
        i = i + 1;
    }
    s.substring_char(0, i)
}

/// `s` up to its last `c`, or all of it.
pub fn text_before_last<'a>(s: &'a str, c: char) -> (r: &'a str)
    ensures
        r@ == before_last(s@, c),
{
    let n: usize = s.unicode_len();
    let mut i: usize = n;
    assert(s@.subrange(0, n as int) =~= s@);
    while i > 0
        invariant
            n == s@.len(),
            i <= n,
            s@.contains(c) ==> s@.subrange(0, i as int).contains(c) && before_last(
                s@.subrange(0, i as int),
                c,
            ) == before_last(s@, c),
            !s@.contains(c) ==> before_last(s@, c) == s@,
        decreases i,
    {
        let ghost head = s@.subrange(0, i as int);
        assert(head.drop_last() =~= s@.subrange(0, i - 1));
        if s.get_char(i - 1) == c {
            assert(s@.contains(c));
            return s.substring_char(0, i - 1);
        }
        proof {
            if s@.contains(c) {
                let k = head.index_of(c);
                assert(head[k] == c && 0 <= k < i);
                assert(k != i - 1);
                assert(head.drop_last()[k] == c);
            }
        }
        i = i - 1;
    }
    assert(!s@.contains(c)) by {
        if s@.contains(c) {
            assert(s@.subrange(0, 0).contains(c));
        }
    }
    s
}

/// The value of a decimal digit, if `c` is one.
pub open spec fn digit_value(c: char) -> Option<nat> {
    if '0' <= c && c <= '9' {
        Some((c as int - '0' as int) as nat)
    } else {
        None
    }
}

/// The number that a row of decimal digits denotes.
pub open spec fn digits_value(s: Seq<char>) -> Option<nat>
    decreases s.len(),
{
    if s.len() == 0 {
        Some(0)
    } else {
        match (digits_value(s.drop_last()), digit_value(s.last())) {
            (Some(high), Some(low)) => Some(high * 10 + low),
            _ => None,
        }
    }
}

/// What `s` denotes as an unsigned numeral of at most `max`: an optional plus sign and
/// at least one digit.
pub open spec fn unsigned_value(s: Seq<char>, max: nat) -> Option<nat> {
    let body = if s.len() > 0 && s[0] == '+' {
        s.subrange(1, s.len() as int)
    } else {
        s
    };
    if body.len() == 0 {
        None
    } else {
        match digits_value(body) {
            Some(n) => if n <= max {
                Some(n)
            } else {
                None
            },
            None => None,
        }
    }
}

proof fn lemma_digits_value_prefix(s: Seq<char>, n: int)
    requires
        0 <= n <= s.len(),
    ensures
        digits_value(s) matches Some(v) ==> (digits_value(s.subrange(0, n)) matches Some(w)
            && w <= v),
    decreases s.len() - n,
{
    if n == s.len() {
        assert(s.subrange(0, n) =~= s);
    } else {
        assert(s.subrange(0, n + 1).drop_last() =~= s.subrange(0, n));
        lemma_digits_value_prefix(s, n + 1);
    }
}

/// Reads an unsigned numeral of at most `max`.
pub fn parse_unsigned(s: &str, max: u64) -> (r: Option<u64>)
    ensures
        match r {
            Some(n) => unsigned_value(s@, max as nat) == Some(n as nat),
            None => unsigned_value(s@, max as nat) is None,
        },
{
    let n: usize = s.unicode_len();
    let start: usize = if n > 0 && s.get_char(0) == '+' {
        1
    } else {
        0
    };
    let ghost body = s@.subrange(start as int, s@.len() as int);
    assert(start == 0 ==> body =~= s@);
    if start == n {
        return None;
    }
    let mut i: usize = start;
    let mut value: u64 = 0;
    assert(body.subrange(0, 0) =~= Seq::<char>::empty());
    while i < n
        invariant
            n == s@.len(),
            start <= i <= n,
            start < n,
            body == s@.subrange(start as int, s@.len() as int),
            body == (if s@.len() > 0 && s@[0] == '+' { s@.subrange(1, s@.len() as int) } else { s@ }),
            digits_value(body.subrange(0, i - start)) == Some(value as nat),
            value <= max,
        decreases n - i,
    {
        let c = s.get_char(i);
        let ghost k = i - start;
        proof {
            assert(body[k] == c);
            assert(body.subrange(0, k + 1).drop_last() =~= body.subrange(0, k));
            assert(body.subrange(0, k + 1).last() == c);
            lemma_digits_value_prefix(body, k + 1);
        }
        if !('0' <= c && c <= '9') {
            return None;
        }
        let d: u64 = (c as u32 - '0' as u32) as u64;
        let wide: u128 = value as u128 * 10 + d as u128;
        assert(digits_value(body.subrange(0, k + 1)) == Some(wide as nat));
        if wide > max as u128 {
            return None;
        }
        value = wide as u64;
        i = i + 1;
    }
    assert(body.subrange(0, n - start) =~= body);
    Some(value)
}

/// A text with its letters turned into capitals, as Unicode has it.
pub uninterp spec fn upper_text(s: Seq<char>) -> Seq<char>;

/// A text with its letters turned into small ones, as Unicode has it.
pub uninterp spec fn lower_text(s: Seq<char>) -> Seq<char>;

/// `str::to_uppercase`.
#[verifier::external_body]
pub(crate) fn uppercased(s: &str) -> (r: String)
    ensures
        r@ == upper_text(s@),
{
    s.to_uppercase()
}

/// `str::to_lowercase`.
#[verifier::external_body]
pub(crate) fn lowercased(s: &str) -> (r: String)
    ensures
        r@ == lower_text(s@),
{
    s.to_lowercase()
}

/// A text in quotation marks, with what cannot be shown escaped.
pub uninterp spec fn quoted_text(s: Seq<char>) -> Seq<char>;

/// The `Debug` form of `str`.
#[verifier::external_body]
pub(crate) fn quoted(s: &str) -> (r: String)
    ensures
        r@ == quoted_text(s@),
{
    format!("{:?}", s)
}

/// A numeral denotes the number that it was written for.
pub proof fn law_digits_read_back(n: nat, max: nat)
    requires
        n <= max,
    ensures
        digits(n).len() > 0,
        digits_value(digits(n)) == Some(n),
        unsigned_value(digits(n), max) == Some(n),
{
    lemma_digits_read_back(n);
    lemma_first_digit(n);
}

pub proof fn lemma_digit(d: nat)
    requires
        d < 10,
    ensures
        digit_value(digit_char(d)) == Some(d),
        digit_char(d) != '+',
{
    reveal_strlit("0123456789");
}

pub proof fn lemma_digits_read_back(n: nat)
    ensures
        digits(n).len() > 0,
        digits_value(digits(n)) == Some(n),
    decreases n,
{
    lemma_digit(n % 10);
    if n < 10 {
        assert(digits(n).drop_last() =~= Seq::empty());
        assert(digits_value(digits(n).drop_last()) == Some(0nat));
        assert(digits(n).last() == digit_char(n));
    } else {
        lemma_digits_read_back(n / 10);
        assert(digits(n).drop_last() =~= digits(n / 10));
    }
}

proof fn lemma_first_digit(n: nat)
    ensures
        digits(n).len() > 0,
        digits(n)[0] != '+',
    decreases n,
{
    lemma_digit(n % 10);
    if n >= 10 {
        lemma_first_digit(n / 10);
        assert(digits(n)[0] == digits(n / 10)[0]);
    }
}

} // verus!
