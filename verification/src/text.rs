//! Character-level text handling shared by the order forms, the realtime
//! message readers and the master-data search: whitespace trimming, character
//! removal, decimal parsing and formatting, and substring tests.
use vstd::prelude::*;

verus! {

/// Unicode `White_Space`, the property that `char::is_whitespace` tests.
pub open spec fn is_ws(c: char) -> bool {
    ('\u{9}' <= c && c <= '\u{d}') || c == ' ' || c == '\u{85}' || c == '\u{a0}'
        || c == '\u{1680}' || ('\u{2000}' <= c && c <= '\u{200a}') || c == '\u{2028}'
        || c == '\u{2029}' || c == '\u{202f}' || c == '\u{205f}' || c == '\u{3000}'
}

/// `s` without its leading whitespace.
pub open spec fn trim_start_spec(s: Seq<char>) -> Seq<char>
    decreases s.len(),
{
    if s.len() > 0 && is_ws(s[0]) {
        trim_start_spec(s.drop_first())
    } else {
        s
    }
}

/// `s` without its trailing whitespace.
pub open spec fn trim_end_spec(s: Seq<char>) -> Seq<char>
    decreases s.len(),
{
    if s.len() > 0 && is_ws(s.last()) {
        trim_end_spec(s.drop_last())
    } else {
        s
    }
}

/// `s` without leading and trailing whitespace, as `str::trim` gives it.
pub open spec fn trim_spec(s: Seq<char>) -> Seq<char> {
    trim_end_spec(trim_start_spec(s))
}

/// Whether every character of `s` is whitespace.
pub open spec fn all_ws(s: Seq<char>) -> bool {
    forall|i: int| 0 <= i < s.len() ==> is_ws(#[trigger] s[i])
}

pub open spec fn is_digit(c: char) -> bool {
    '0' <= c && c <= '9'
}

pub open spec fn digit_value(c: char) -> int {
    c as int - '0' as int
}

pub open spec fn digit_char(d: int) -> char {
    ('0' as int + d) as char
}

pub open spec fn all_digits(s: Seq<char>) -> bool {
    forall|i: int| 0 <= i < s.len() ==> is_digit(#[trigger] s[i])
}

/// The number that a run of decimal digits denotes.
pub open spec fn digits_value(s: Seq<char>) -> nat
    decreases s.len(),
{
    if s.len() == 0 {
        0
    } else {
        (digits_value(s.drop_last()) * 10 + digit_value(s.last())) as nat
    }
}

/// What `u64::from_str` and the other unsigned parsers read from `s`, before the
/// range check: an optional `+`, then one or more ASCII digits, nothing else.
pub open spec fn parse_unsigned_spec(s: Seq<char>) -> Option<nat> {
    let body = if s.len() > 0 && s[0] == '+' { s.drop_first() } else { s };
    if body.len() == 0 || !all_digits(body) {
        None
    } else {
        Some(digits_value(body))
    }
}

/// What `i64::from_str` and the other signed parsers read from `s`, before the
/// range check: an optional `+` or `-`, then one or more ASCII digits.
pub open spec fn parse_signed_spec(s: Seq<char>) -> Option<int> {
    let neg = s.len() > 0 && s[0] == '-';
    let body = if s.len() > 0 && (s[0] == '+' || s[0] == '-') { s.drop_first() } else { s };
    if body.len() == 0 || !all_digits(body) {
        None
    } else if neg {
        Some(-(digits_value(body) as int))
    } else {
        Some(digits_value(body) as int)
    }
}

/// `u64::from_str` on text whose characters are `s`.
pub open spec fn parse_u64_spec(s: Seq<char>) -> Option<u64> {
    match parse_unsigned_spec(s) {
        Some(v) => if v <= u64::MAX { Some(v as u64) } else { None },
        None => None,
    }
}

/// `i64::from_str` on text whose characters are `s`.
pub open spec fn parse_i64_spec(s: Seq<char>) -> Option<i64> {
    match parse_signed_spec(s) {
        Some(v) => if i64::MIN <= v <= i64::MAX { Some(v as i64) } else { None },
        None => None,
    }
}

/// `i32::from_str` on text whose characters are `s`.
pub open spec fn parse_i32_spec(s: Seq<char>) -> Option<i32> {
    match parse_signed_spec(s) {
        Some(v) => if i32::MIN <= v <= i32::MAX { Some(v as i32) } else { None },
        None => None,
    }
}

/// The decimal digits of `n`, without leading zeros, as `to_string` writes them.
pub open spec fn decimal_spec(n: nat) -> Seq<char>
    decreases n,
{
    if n < 10 {
        seq![digit_char(n as int)]
    } else {
        decimal_spec(n / 10).push(digit_char((n % 10) as int))
    }
}

/// The decimal text of a signed integer, with a leading `-` when negative.
pub open spec fn signed_decimal_spec(n: int) -> Seq<char> {
    if n < 0 {
        seq!['-'] + decimal_spec((-n) as nat)
    } else {
        decimal_spec(n as nat)
    }
}

/// `s` with every character that occurs in `drop` removed.
pub open spec fn remove_chars_spec(s: Seq<char>, drop: Seq<char>) -> Seq<char> {
    s.filter(|c: char| !drop.contains(c))
}

pub open spec fn starts_with_spec(s: Seq<char>, prefix: Seq<char>) -> bool {
    prefix.len() <= s.len() && s.subrange(0, prefix.len() as int) == prefix
}

pub open spec fn occurs_at(s: Seq<char>, pat: Seq<char>, i: int) -> bool {
    0 <= i && i + pat.len() <= s.len() && s.subrange(i, i + pat.len()) == pat
}

/// Whether `pat` occurs in `s` as a contiguous run, as `str::contains` tests.
pub open spec fn contains_spec(s: Seq<char>, pat: Seq<char>) -> bool {
    exists|i: int| occurs_at(s, pat, i)
}

/// The characters of `s`, in order.
pub fn str_chars(s: &str) -> (out: Vec<char>)
    ensures
        out@ == s@,
{
    let n = s.unicode_len();
    let mut out: Vec<char> = Vec::new();
    let mut i: usize = 0;
    while i < n
        invariant
            n == s@.len(),
            i <= n,
            out@ == s@.subrange(0, i as int),
        decreases n - i,
    {
        let c = s.get_char(i);
        out.push(c);
        i = i + 1;
        assert(out@ =~= s@.subrange(0, i as int));
    }
    assert(out@ =~= s@);
    out
}

/// A `String` holding the characters of `chars`, in order.
///
/// Trusted: collects the characters with `String::from_iter`, which std documents
/// as concatenating the items of the iterator.
#[verifier::external_body]
pub(crate) fn chars_to_string(chars: &Vec<char>) -> (s: String)
    ensures
        s@ == chars@,
{
    String::from_iter(chars.iter())
}

/// `char::is_whitespace`.
pub fn char_is_ws(c: char) -> (b: bool)
    ensures
        b == is_ws(c),
{
    ('\u{9}' <= c && c <= '\u{d}') || c == ' ' || c == '\u{85}' || c == '\u{a0}'
        || c == '\u{1680}' || ('\u{2000}' <= c && c <= '\u{200a}') || c == '\u{2028}'
        || c == '\u{2029}' || c == '\u{202f}' || c == '\u{205f}' || c == '\u{3000}'
}

proof fn lemma_trim_start_skip(s: Seq<char>, i: int)
    requires
        0 <= i <= s.len(),
        forall|k: int| 0 <= k < i ==> is_ws(#[trigger] s[k]),
        i == s.len() || !is_ws(s[i]),
    ensures
        trim_start_spec(s) == s.subrange(i, s.len() as int),
    decreases i,
{
    if i == 0 {
        assert(s.subrange(0, s.len() as int) =~= s);
    } else {
        let t = s.drop_first();
        assert forall|k: int| 0 <= k < i - 1 implies is_ws(#[trigger] t[k]) by {
            assert(t[k] == s[k + 1]);
        }
        assert(i - 1 == t.len() || t[i - 1] == s[i]);
        lemma_trim_start_skip(t, i - 1);
        assert(t.subrange(i - 1, t.len() as int) =~= s.subrange(i, s.len() as int));
    }
}

proof fn lemma_trim_end_take(s: Seq<char>, j: int)
    requires
        0 <= j <= s.len(),
        forall|k: int| j <= k < s.len() ==> is_ws(#[trigger] s[k]),
        j == 0 || !is_ws(s[j - 1]),
    ensures
        trim_end_spec(s) == s.subrange(0, j),
    decreases s.len() - j,
{
    if j == s.len() {
        assert(s.subrange(0, j) =~= s);
    } else {
        let t = s.drop_last();
        assert forall|k: int| j <= k < t.len() implies is_ws(#[trigger] t[k]) by {
            assert(t[k] == s[k]);
        }
        assert(j == 0 || t[j - 1] == s[j - 1]);
        lemma_trim_end_take(t, j);
        assert(t.subrange(0, j) =~= s.subrange(0, j));
    }
}

/// `chars` without leading and trailing whitespace.
pub fn trim_chars(chars: &Vec<char>) -> (out: Vec<char>)
    ensures
        out@ == trim_spec(chars@),
{
    let n = chars.len();
    let mut i: usize = 0;
    while i < n && char_is_ws(chars[i])
        invariant
            n == chars@.len(),
            i <= n,
            forall|k: int| 0 <= k < i ==> is_ws(#[trigger] chars@[k]),
        decreases n - i,
    {
        i = i + 1;
    }
    proof {
        lemma_trim_start_skip(chars@, i as int);
    }
    let ghost rest = chars@.subrange(i as int, n as int);
    let mut j: usize = n;
    while j > i && char_is_ws(chars[j - 1])
        invariant
            n == chars@.len(),
            i <= j <= n,
            rest == chars@.subrange(i as int, n as int),
            forall|k: int| j <= k < n ==> is_ws(#[trigger] chars@[k]),
        decreases j,
    {
        j = j - 1;
    }
    proof {
        assert forall|k: int| j - i <= k < rest.len() implies is_ws(#[trigger] rest[k]) by {
            assert(rest[k] == chars@[k + i]);
        }
        assert(j - i == 0 || rest[j - i - 1] == chars@[j - 1]);
        lemma_trim_end_take(rest, j - i);
    }
    let mut out: Vec<char> = Vec::new();
    let mut k: usize = i;
    while k < j
        invariant
            n == chars@.len(),
            i <= k <= j <= n,
            out@ == chars@.subrange(i as int, k as int),
        decreases j - k,
    {
        out.push(chars[k]);
        k = k + 1;
        assert(out@ =~= chars@.subrange(i as int, k as int));
    }
    assert(out@ =~= rest.subrange(0, j - i));
    out
}

/// The characters of `s` without leading and trailing whitespace.
pub fn trimmed_chars(s: &str) -> (out: Vec<char>)
    ensures
        out@ == trim_spec(s@),
{
    let v = str_chars(s);
    trim_chars(&v)
}

/// Whether `c` occurs in `set`.
pub fn char_in(c: char, set: &[char]) -> (b: bool)
    ensures
        b == set@.contains(c),
{
    let mut i: usize = 0;
    while i < set.len()
        invariant
            i <= set@.len(),
            forall|k: int| 0 <= k < i ==> set@[k] != c,
        decreases set@.len() - i,
    {
        if set[i] == c {
            return true;
        }
        i = i + 1;
    }
    false
}

/// `chars` with every character that occurs in `drop` removed.
pub fn remove_chars(chars: &Vec<char>, drop: &[char]) -> (out: Vec<char>)
    ensures
        out@ == remove_chars_spec(chars@, drop@),
{
    let ghost pred = |c: char| !drop@.contains(c);
    let mut out: Vec<char> = Vec::new();
    let mut i: usize = 0;
    while i < chars.len()
        invariant
            i <= chars@.len(),
            pred == (|c: char| !drop@.contains(c)),
            out@ == chars@.subrange(0, i as int).filter(pred),
        decreases chars@.len() - i,
    {
        let c = chars[i];
        proof {
            let next = chars@.subrange(0, i + 1);
            assert(next.drop_last() =~= chars@.subrange(0, i as int));
            assert(next.last() == c);
            reveal_with_fuel(Seq::filter, 1);
        }
        if !char_in(c, drop) {
            out.push(c);
        }
        i = i + 1;
    }
    assert(chars@.subrange(0, chars@.len() as int) =~= chars@);
    out
}

proof fn lemma_digits_value_prefix(s: Seq<char>, i: int)
    requires
        0 <= i < s.len(),
        is_digit(s[i]),
    ensures
        digits_value(s.subrange(0, i + 1)) == digits_value(s.subrange(0, i)) * 10 + digit_value(
            s[i],
        ),
{
    let t = s.subrange(0, i + 1);
    assert(t.drop_last() =~= s.subrange(0, i));
}

proof fn lemma_digits_value_monotone(s: Seq<char>, i: int)
    requires
        0 <= i <= s.len(),
        all_digits(s),
    ensures
        digits_value(s.subrange(0, i)) <= digits_value(s),
    decreases s.len() - i,
{
    if i < s.len() {
        assert(is_digit(s[i]));
        lemma_digits_value_prefix(s, i);
        lemma_digits_value_monotone(s, i + 1);
    } else {
        assert(s.subrange(0, i) =~= s);
    }
}

/// The decimal text of `n` is a non-empty run of digits that reads back as `n`.
pub proof fn lemma_decimal_digits(n: nat)
    ensures
        decimal_spec(n).len() > 0,
        all_digits(decimal_spec(n)),
        digits_value(decimal_spec(n)) == n,
    decreases n,
{
    let d = (n % 10) as int;
    assert(is_digit(digit_char(d)) && digit_value(digit_char(d)) == d);
    if n >= 10 {
        lemma_decimal_digits(n / 10);
        let s = decimal_spec(n / 10);
        let t = s.push(digit_char(d));
        assert(t.drop_last() =~= s);
        assert(digits_value(t) == digits_value(s) * 10 + d);
        assert(n == (n / 10) * 10 + n % 10);
        assert forall|i: int| 0 <= i < t.len() implies is_digit(#[trigger] t[i]) by {
            if i < s.len() {
                assert(t[i] == s[i]);
            }
        }
    } else {
        let t = seq![digit_char(n as int)];
        assert(t.drop_last() =~= Seq::<char>::empty());
        assert(digits_value(t) == digits_value(Seq::<char>::empty()) * 10 + d);
    }
}

/// Reading the decimal text of `n` back, signed or unsigned, gives `n`.
pub proof fn lemma_parse_decimal(n: nat)
    ensures
        parse_unsigned_spec(decimal_spec(n)) == Some(n),
        parse_signed_spec(decimal_spec(n)) == Some(n as int),
{
    lemma_decimal_digits(n);
    assert(is_digit(decimal_spec(n)[0]));
}

/// Text that neither starts nor ends with whitespace is its own trim.
pub proof fn lemma_trim_unchanged(s: Seq<char>)
    requires
        s.len() > 0,
        !is_ws(s[0]),
        !is_ws(s.last()),
    ensures
        trim_spec(s) == s,
{
}

/// Removing characters from two pieces and joining them is removing them from the join.
pub proof fn lemma_remove_chars_add(a: Seq<char>, b: Seq<char>, drop: Seq<char>)
    ensures
        remove_chars_spec(a + b, drop) == remove_chars_spec(a, drop) + remove_chars_spec(b, drop),
{
    broadcast use Seq::filter_distributes_over_add;
}

/// Removing characters from a single character.
pub proof fn lemma_remove_chars_single(c: char, drop: Seq<char>)
    ensures
        remove_chars_spec(seq![c], drop) == (if drop.contains(c) {
            Seq::<char>::empty()
        } else {
            seq![c]
        }),
{
    reveal_with_fuel(Seq::filter, 2);
    assert(seq![c].drop_last() =~= Seq::<char>::empty());
    assert(Seq::<char>::empty().filter(|x: char| !drop.contains(x)) =~= Seq::<char>::empty());
    assert(seq![c].last() == c);
}

/// Removing characters that do not occur in `s` leaves `s` as it is.
pub proof fn lemma_remove_absent_chars(s: Seq<char>, drop: Seq<char>)
    requires
        forall|i: int| 0 <= i < s.len() ==> !drop.contains(#[trigger] s[i]),
    ensures
        remove_chars_spec(s, drop) == s,
    decreases s.len(),
{
    if s.len() == 0 {
        assert(remove_chars_spec(s, drop) =~= s);
    } else {
        let init = s.drop_last();
        assert forall|i: int| 0 <= i < init.len() implies !drop.contains(#[trigger] init[i]) by {
            assert(init[i] == s[i]);
        }
        lemma_remove_absent_chars(init, drop);
        assert(!drop.contains(s[s.len() - 1]));
        lemma_remove_chars_single(s.last(), drop);
        lemma_remove_chars_add(init, seq![s.last()], drop);
        assert(init + seq![s.last()] =~= s);
    }
}

/// Trimming keeps every character that is not whitespace.
pub proof fn lemma_trim_keeps(s: Seq<char>, c: char)
    requires
        s.contains(c),
        !is_ws(c),
    ensures
        trim_spec(s).contains(c),
{
    lemma_trim_start_keeps(s, c);
    lemma_trim_end_keeps(trim_start_spec(s), c);
}

proof fn lemma_trim_start_keeps(s: Seq<char>, c: char)
    requires
        s.contains(c),
        !is_ws(c),
    ensures
        trim_start_spec(s).contains(c),
    decreases s.len(),
{
    if s.len() > 0 && is_ws(s[0]) {
        let k = choose|k: int| 0 <= k < s.len() && s[k] == c;
        assert(k != 0);
        assert(s.drop_first()[k - 1] == c);
        lemma_trim_start_keeps(s.drop_first(), c);
    }
}

proof fn lemma_trim_end_keeps(s: Seq<char>, c: char)
    requires
        s.contains(c),
        !is_ws(c),
    ensures
        trim_end_spec(s).contains(c),
    decreases s.len(),
{
    if s.len() > 0 && is_ws(s.last()) {
        let k = choose|k: int| 0 <= k < s.len() && s[k] == c;
        assert(k != s.len() - 1);
        assert(s.drop_last()[k] == c);
        lemma_trim_end_keeps(s.drop_last(), c);
    }
}

/// Removing characters keeps every character that is not to be removed.
pub proof fn lemma_remove_chars_keeps(s: Seq<char>, drop: Seq<char>, c: char)
    requires
        s.contains(c),
        !drop.contains(c),
    ensures
        remove_chars_spec(s, drop).contains(c),
{
    let k = choose|k: int| 0 <= k < s.len() && s[k] == c;
    broadcast use Seq::lemma_filter_contains;
    assert(s.filter(|x: char| !drop.contains(x)).contains(s[k]));
}

/// Text holding a character that is neither a digit nor a sign reads as no
/// integer, signed or unsigned.
pub proof fn lemma_parse_rejects(s: Seq<char>, c: char)
    requires
        s.contains(c),
        !is_digit(c),
        c != '+',
        c != '-',
    ensures
        parse_signed_spec(s) is None,
        parse_unsigned_spec(s) is None,
{
    let k = choose|k: int| 0 <= k < s.len() && s[k] == c;
    if k > 0 {
        assert(s.drop_first()[k - 1] == c);
    }
}

/// The value of the digits `chars[start..]`, or `None` when some character there is
/// not an ASCII digit, when the run is empty, or when the value exceeds `u64::MAX`.
fn digits_to_u64(chars: &Vec<char>, start: usize) -> (r: Option<u64>)
    requires
        start <= chars@.len(),
    ensures
        ({
            let body = chars@.subrange(start as int, chars@.len() as int);
            r == (if body.len() == 0 || !all_digits(body) || digits_value(body) > u64::MAX {
                None
            } else {
                Some(digits_value(body) as u64)
            })
        }),
{
    let ghost body = chars@.subrange(start as int, chars@.len() as int);
    let n = chars.len();
    if start == n {
        return None;
    }
    let mut i: usize = start;
    while i < n
        invariant
            n == chars@.len(),
            start <= i <= n,
            body == chars@.subrange(start as int, n as int),
            forall|k: int| 0 <= k < i - start ==> is_digit(#[trigger] body[k]),
        decreases n - i,
    {
        let c = chars[i];
        if !('0' <= c && c <= '9') {
            assert(body[i - start] == c);
            return None;
        }
        i = i + 1;
    }
    assert(all_digits(body));
    let mut acc: u64 = 0;
    let mut i: usize = start;
    while i < n
        invariant
            n == chars@.len(),
            start <= i <= n,
            body == chars@.subrange(start as int, n as int),
            all_digits(body),
            acc == digits_value(body.subrange(0, i - start)),
        decreases n - i,
    {
        let c = chars[i];
        assert(body[i - start] == c);
        proof {
            assert(is_digit(body[i - start]));
            lemma_digits_value_prefix(body, i - start);
        }
        let d = ((c as u32) - ('0' as u32)) as u64;
        let m = acc.checked_mul(10);
        match m {
            None => {
                proof {
                    lemma_digits_value_monotone(body, i - start + 1);
                }
                return None;
            },
            Some(m) => {
                let a = m.checked_add(d);
                match a {
                    None => {
                        proof {
                            lemma_digits_value_monotone(body, i - start + 1);
                        }
                        return None;
                    },
                    Some(a) => {
                        acc = a;
                    },
                }
            },
        }
        i = i + 1;
    }
    assert(body.subrange(0, n - start) =~= body);
    Some(acc)
}

/// `u64::from_str` on the characters `chars`.
pub fn parse_u64_chars(chars: &Vec<char>) -> (r: Option<u64>)
    ensures
        r == parse_u64_spec(chars@),
{
    let start: usize = if chars.len() > 0 && chars[0] == '+' { 1 } else { 0 };
    proof {
        if start == 1 {
            assert(chars@.drop_first() =~= chars@.subrange(1, chars@.len() as int));
        } else {
            assert(chars@ =~= chars@.subrange(0, chars@.len() as int));
        }
    }
    digits_to_u64(chars, start)
}

/// `i64::from_str` on the characters `chars`.
pub fn parse_i64_chars(chars: &Vec<char>) -> (r: Option<i64>)
    ensures
        r == parse_i64_spec(chars@),
{
    let neg = chars.len() > 0 && chars[0] == '-';
    let start: usize = if chars.len() > 0 && (chars[0] == '+' || chars[0] == '-') { 1 } else { 0 };
    proof {
        if start == 1 {
            assert(chars@.drop_first() =~= chars@.subrange(1, chars@.len() as int));
        } else {
            assert(chars@ =~= chars@.subrange(0, chars@.len() as int));
        }
    }
    match digits_to_u64(chars, start) {
        None => None,
        Some(m) => {
            if neg {
                if m <= 9_223_372_036_854_775_807 {
                    Some(-(m as i64))
                } else if m == 9_223_372_036_854_775_808 {
                    Some(i64::MIN)
                } else {
                    None
                }
            } else if m <= 9_223_372_036_854_775_807 {
                Some(m as i64)
            } else {
                None
            }
        },
    }
}

/// `i32::from_str` on the characters `chars`.
pub fn parse_i32_chars(chars: &Vec<char>) -> (r: Option<i32>)
    ensures
        r == parse_i32_spec(chars@),
{
    match parse_i64_chars(chars) {
        None => None,
        Some(v) => {
            if -2_147_483_648 <= v && v <= 2_147_483_647 {
                Some(v as i32)
            } else {
                None
            }
        },
    }
}

/// Appends the decimal digits of `n` to `out`.
pub fn push_decimal(n: u64, out: &mut Vec<char>)
    ensures
        final(out)@ == old(out)@ + decimal_spec(n as nat),
    decreases n,
{
    if n >= 10 {
        push_decimal(n / 10, out);
    }
    let d = (n % 10) as u32;
    let c = char_from_digit(d);
    out.push(c);
    proof {
        if n < 10 {
            assert(old(out)@ + decimal_spec(n as nat) =~= old(out)@.push(c));
        } else {
            assert(old(out)@ + decimal_spec(n as nat) =~= (old(out)@ + decimal_spec(
                (n / 10) as nat,
            )).push(c));
        }
    }
}

/// The ASCII digit for `d`.
fn char_from_digit(d: u32) -> (c: char)
    requires
        d < 10,
    ensures
        c == digit_char(d as int),
        is_digit(c),
        digit_value(c) == d,
{
    if d == 0 {
        '0'
    } else if d == 1 {
        '1'
    } else if d == 2 {
        '2'
    } else if d == 3 {
        '3'
    } else if d == 4 {
        '4'
    } else if d == 5 {
        '5'
    } else if d == 6 {
        '6'
    } else if d == 7 {
        '7'
    } else if d == 8 {
        '8'
    } else {
        '9'
    }
}

/// The decimal text of `n`, as `n.to_string()` writes it.
pub fn u64_to_decimal(n: u64) -> (s: String)
    ensures
        s@ == decimal_spec(n as nat),
{
    let mut v: Vec<char> = Vec::new();
    push_decimal(n, &mut v);
    assert(v@ =~= decimal_spec(n as nat));
    chars_to_string(&v)
}

/// The characters of the decimal text of `n`, as `n.to_string()` writes it.
pub fn i64_decimal_chars(n: i64) -> (v: Vec<char>)
    ensures
        v@ == signed_decimal_spec(n as int),
{
    let mut v: Vec<char> = Vec::new();
    if n < 0 {
        v.push('-');
        let m: u64 = if n == i64::MIN {
            9_223_372_036_854_775_808
        } else {
            (-n) as u64
        };
        push_decimal(m, &mut v);
        assert(v@ =~= seq!['-'] + decimal_spec(m as nat));
    } else {
        push_decimal(n as u64, &mut v);
        assert(v@ =~= decimal_spec(n as nat));
    }
    v
}

/// The decimal text of `n`, as `n.to_string()` writes it.
pub fn i64_to_decimal(n: i64) -> (s: String)
    ensures
        s@ == signed_decimal_spec(n as int),
{
    let v = i64_decimal_chars(n);
    chars_to_string(&v)
}

/// Whether `s` begins with `prefix`.
pub fn starts_with_chars(s: &Vec<char>, prefix: &Vec<char>) -> (b: bool)
    ensures
        b == starts_with_spec(s@, prefix@),
{
    if prefix.len() > s.len() {
        return false;
    }
    let mut i: usize = 0;
    while i < prefix.len()
        invariant
            prefix@.len() <= s@.len(),
            i <= prefix@.len(),
            forall|k: int| 0 <= k < i ==> s@[k] == prefix@[k],
        decreases prefix@.len() - i,
    {
        if s[i] != prefix[i] {
            assert(s@.subrange(0, prefix@.len() as int)[i as int] != prefix@[i as int]);
            return false;
        }
        i = i + 1;
    }
    assert(s@.subrange(0, prefix@.len() as int) =~= prefix@);
    true
}

/// Whether `pat` occurs in `s` starting at position `i`.
fn occurs_at_exec(s: &Vec<char>, pat: &Vec<char>, i: usize) -> (b: bool)
    requires
        i + pat@.len() <= s@.len(),
    ensures
        b == occurs_at(s@, pat@, i as int),
{
    let n = s.len();
    let mut k: usize = 0;
    while k < pat.len()
        invariant
            n == s@.len(),
            i + pat@.len() <= s@.len(),
            k <= pat@.len(),
            forall|m: int| 0 <= m < k ==> s@[i + m] == pat@[m],
        decreases pat@.len() - k,
    {
        if s[i + k] != pat[k] {
            assert(s@.subrange(i as int, i + pat@.len())[k as int] != pat@[k as int]);
            return false;
        }
        k = k + 1;
    }
    assert(s@.subrange(i as int, i + pat@.len()) =~= pat@);
    true
}

/// Whether `pat` occurs in `s` as a contiguous run.
pub fn contains_chars(s: &Vec<char>, pat: &Vec<char>) -> (b: bool)
    ensures
        b == contains_spec(s@, pat@),
{
    if pat.len() > s.len() {
        return false;
    }
    let last = s.len() - pat.len();
    let mut i: usize = 0;
    loop
        invariant
            last == s@.len() - pat@.len(),
            i <= last,
            forall|k: int| 0 <= k < i ==> !occurs_at(s@, pat@, k),
        decreases last - i,
    {
        if occurs_at_exec(s, pat, i) {
            return true;
        }
        if i == last {
            return false;
        }
        i = i + 1;
    }
}

/// The text of `a` followed by the text of `b`.
pub fn concat_str(a: &str, b: &str) -> (s: String)
    ensures
        s@ == a@ + b@,
{
    let mut s = a.to_owned();
    s.append(b);
    s
}

/// `s` in lower case, as `str::to_lowercase` gives it: lower case as the Unicode
/// `Lowercase` property and case mappings define it.
pub uninterp spec fn lowercase_spec(s: Seq<char>) -> Seq<char>;

/// The lower-case form of `s`.
///
/// Trusted: `str::to_lowercase`, whose result depends on the text alone and is
/// named by `lowercase_spec`; nothing more is stated about it.
#[verifier::external_body]
pub(crate) fn to_lowercase(s: &str) -> (r: String)
    ensures
        r@ == lowercase_spec(s@),
{
    s.to_lowercase()
}

} // verus!
