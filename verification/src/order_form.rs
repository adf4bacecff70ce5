//! The rules of the normal order form: how typed amounts and percentages are
//! read and committed, which order-book level a reference price comes from, and
//! how prices are shown.
use vstd::prelude::*;
use crate::json::{get_spec, get_str_spec, Json};
use crate::text::{
    chars_to_string, decimal_spec, digit_char, i64_decimal_chars, i64_to_decimal, parse_i32_chars,
    parse_i32_spec, parse_i64_chars, parse_i64_spec, parse_u64_chars, parse_u64_spec,
    remove_chars, remove_chars_spec, signed_decimal_spec, trim_spec, trimmed_chars, u64_to_decimal,
    lemma_decimal_digits, lemma_parse_decimal, lemma_remove_chars_add, lemma_remove_chars_single,
    lemma_trim_unchanged, lemma_remove_absent_chars, all_digits, is_digit, is_ws, lemma_trim_keeps,
    lemma_remove_chars_keeps, lemma_parse_rejects, digit_value,
};

verus! {

/// The once-per-order investment amount that a new order form starts with, in won.
pub const DEFAULT_ONCE_INVESTMENT_AMOUNT: u64 = 100_000;

/// The order-book level that a new order form takes its buy price from.
pub const DEFAULT_BUY_PRICE_REF_LEVEL: i8 = 1;

/// The take-profit and stop-loss percentage that a new order form starts with.
pub const DEFAULT_TAKE_PROFIT_PCT: i32 = 5;

/// The weight, in percent, that each split-buy row starts with.
pub const DEFAULT_SPLIT_BUY_WEIGHT_PCT: i32 = 0;

/// How many split-buy rows an order form shows.
pub const SPLIT_BUY_ROW_COUNT: usize = 3;

/// The separators that amount fields accept and ignore.
pub open spec fn amount_separators() -> Seq<char> {
    seq![',', '_', ' ']
}

/// The characters that percentage fields accept and ignore.
pub open spec fn percent_separators() -> Seq<char> {
    seq!['%', ',', '_', ' ']
}

/// The text of an amount field with its separators dropped.
pub open spec fn normalized_amount(raw: Seq<char>) -> Seq<char> {
    remove_chars_spec(trim_spec(raw), amount_separators())
}

pub open spec fn clamp_spec(v: int, lo: int, hi: int) -> int {
    if v < lo {
        lo
    } else if v > hi {
        hi
    } else {
        v
    }
}

/// An investment amount: a positive whole number of won.
pub open spec fn parse_amount_spec(raw: Seq<char>) -> Option<u64> {
    match parse_u64_spec(normalized_amount(raw)) {
        Some(v) => if v > 0 { Some(v) } else { None },
        None => None,
    }
}

/// A percentage, clamped into `0..=100`.
pub open spec fn parse_percent_spec(raw: Seq<char>) -> Option<i32> {
    match parse_i32_spec(remove_chars_spec(trim_spec(raw), percent_separators())) {
        Some(v) => Some(clamp_spec(v as int, 0, 100) as i32),
        None => None,
    }
}

/// A won amount, zero included.
pub open spec fn parse_krw_amount_spec(raw: Seq<char>) -> Option<u64> {
    parse_u64_spec(normalized_amount(raw))
}

fn amount_separator_list() -> (v: Vec<char>)
    ensures
        v@ == amount_separators(),
{
    let mut v: Vec<char> = Vec::new();
    v.push(',');
    v.push('_');
    v.push(' ');
    assert(v@ =~= amount_separators());
    v
}

fn percent_separator_list() -> (v: Vec<char>)
    ensures
        v@ == percent_separators(),
{
    let mut v: Vec<char> = Vec::new();
    v.push('%');
    v.push(',');
    v.push('_');
    v.push(' ');
    assert(v@ =~= percent_separators());
    v
}

/// Reads an investment amount: surrounding whitespace, commas, underscores and
/// spaces are ignored, and only a positive whole number is accepted.
pub fn parse_amount(raw: &str) -> (r: Option<u64>)
    ensures
        r == parse_amount_spec(raw@),
{
    let trimmed = trimmed_chars(raw);
    let seps = amount_separator_list();
    let normalized = remove_chars(&trimmed, seps.as_slice());
    match parse_u64_chars(&normalized) {
        Some(v) => if v > 0 { Some(v) } else { None },
        None => None,
    }
}

/// `v` limited to `0..=100`.
pub fn clamp_percent(v: i32) -> (r: i32)
    ensures
        r == clamp_spec(v as int, 0, 100),
{
    if v < 0 {
        0
    } else if v > 100 {
        100
    } else {
        v
    }
}

/// Reads a percentage: surrounding whitespace, `%`, commas, underscores and spaces
/// are ignored, a sign is allowed, and the value is clamped into `0..=100`.
pub fn parse_percent(raw: &str) -> (r: Option<i32>)
    ensures
        r == parse_percent_spec(raw@),
        r matches Some(v) ==> 0 <= v <= 100,
{
    let trimmed = trimmed_chars(raw);
    let seps = percent_separator_list();
    let normalized = remove_chars(&trimmed, seps.as_slice());
    match parse_i32_chars(&normalized) {
        Some(v) => Some(clamp_percent(v)),
        None => None,
    }
}

/// Reads a won amount: surrounding whitespace, commas, underscores and spaces are
/// ignored; zero is accepted.
pub fn parse_krw_amount(raw: &str) -> (r: Option<u64>)
    ensures
        r == parse_krw_amount_spec(raw@),
{
    let trimmed = trimmed_chars(raw);
    let seps = amount_separator_list();
    let normalized = remove_chars(&trimmed, seps.as_slice());
    parse_u64_chars(&normalized)
}

/// Commits an investment-amount field: a valid draft replaces the value, and the
/// draft is then rewritten as the value's decimal text either way.
pub fn commit_amount_draft(value: u64, draft: &str) -> (r: (u64, String))
    ensures
        r.0 == (match parse_amount_spec(draft@) {
            Some(v) => v,
            None => value,
        }),
        r.1@ == decimal_spec(r.0 as nat),
{
    let v = match parse_amount(draft) {
        Some(p) => p,
        None => value,
    };
    (v, u64_to_decimal(v))
}

/// Commits a percentage field: a valid draft replaces the value, and the draft is
/// then rewritten as the value's decimal text either way.
pub fn commit_percent_draft(value: i32, draft: &str) -> (r: (i32, String))
    ensures
        r.0 == (match parse_percent_spec(draft@) {
            Some(v) => v,
            None => value,
        }),
        r.1@ == signed_decimal_spec(r.0 as int),
{
    let v = match parse_percent(draft) {
        Some(p) => p,
        None => value,
    };
    (v, i64_to_decimal(v as i64))
}

/// Commits a won-amount field: a valid draft replaces the value, and the draft is
/// then rewritten as the value's decimal text either way.
pub fn commit_krw_draft(value: u64, draft: &str) -> (r: (u64, String))
    ensures
        r.0 == (match parse_krw_amount_spec(draft@) {
            Some(v) => v,
            None => value,
        }),
        r.1@ == decimal_spec(r.0 as nat),
{
    let v = match parse_krw_amount(draft) {
        Some(p) => p,
        None => value,
    };
    (v, u64_to_decimal(v))
}

/// The key under which a realtime order-book message (type `0D`) carries the price
/// of an order-book level: sell levels 1..=5 are `-1..=-5` and come under
/// `41..=45`, buy levels 1..=5 are `1..=5` and come under `51..=55`.
pub open spec fn ref_level_key_spec(level: int) -> Option<Seq<char>> {
    if -5 <= level <= -1 {
        Some(seq!['4', digit_char(-level)])
    } else if 1 <= level <= 5 {
        Some(seq!['5', digit_char(level)])
    } else {
        None
    }
}

/// The order-book field key for a reference level, or `None` for an unknown level.
pub fn ref_level_to_0d_key(ref_level: i8) -> (r: Option<&'static str>)
    ensures
        r is Some <==> ref_level_key_spec(ref_level as int) is Some,
        r matches Some(k) ==> k@ == ref_level_key_spec(ref_level as int).unwrap(),
{
    proof {
        reveal_strlit("45");
        reveal_strlit("44");
        reveal_strlit("43");
        reveal_strlit("42");
        reveal_strlit("41");
        reveal_strlit("51");
        reveal_strlit("52");
        reveal_strlit("53");
        reveal_strlit("54");
        reveal_strlit("55");
    }
    let r = match ref_level {
        -5 => Some("45"),
        -4 => Some("44"),
        -3 => Some("43"),
        -2 => Some("42"),
        -1 => Some("41"),
        1 => Some("51"),
        2 => Some("52"),
        3 => Some("53"),
        4 => Some("54"),
        5 => Some("55"),
        _ => None,
    };
    proof {
        if let Some(k) = r {
            assert(k@ =~= ref_level_key_spec(ref_level as int).unwrap());
        }
    }
    r
}

/// Order-book keys: exactly the ten levels have one; a key is two characters, `5`
/// for a buy level or `4` for a sell level, then the digit of the level's depth
/// (its distance from the best price). So different levels have different keys.
pub proof fn lemma_ref_level_keys(level: int, other: int)
    ensures
        (ref_level_key_spec(level) is Some) <==> (1 <= level <= 5 || -5 <= level <= -1),
        ref_level_key_spec(level) matches Some(k) ==> {
            &&& k.len() == 2
            &&& k[0] == (if level > 0 { '5' } else { '4' })
            &&& is_digit(k[1])
            &&& digit_value(k[1]) == (if level > 0 { level } else { -level })
        },
        ref_level_key_spec(level) is Some && ref_level_key_spec(level) == ref_level_key_spec(other)
            ==> level == other,
{
    if ref_level_key_spec(level) is Some && ref_level_key_spec(level) == ref_level_key_spec(other) {
        let k = ref_level_key_spec(level).unwrap();
        assert(k[0] == (if other > 0 { '5' } else { '4' }));
        assert(digit_value(k[1]) == (if other > 0 { other } else { -other }));
    }
}

/// A character that is not whitespace, not one of `%`, `,`, `_` and space, not a
/// digit and not a sign (a `.` for instance) makes a percentage text unreadable,
/// wherever it stands.
pub proof fn lemma_percent_rejects_other_chars(raw: Seq<char>, c: char)
    requires
        raw.contains(c),
        !is_ws(c),
        !(c == '%' || c == ',' || c == '_' || c == ' '),
        !is_digit(c),
        c != '+',
        c != '-',
    ensures
        parse_percent_spec(raw) is None,
{
    lemma_trim_keeps(raw, c);
    assert(!percent_separators().contains(c)) by {
        if percent_separators().contains(c) {
            let k = choose|k: int| 0 <= k < percent_separators().len() && percent_separators()[k] == c;
        }
    }
    lemma_remove_chars_keeps(trim_spec(raw), percent_separators(), c);
    lemma_parse_rejects(remove_chars_spec(trim_spec(raw), percent_separators()), c);
}

/// A character that is not whitespace, not one of `,`, `_` and space, not a digit
/// and not a sign (a `.` for instance) makes an amount text unreadable, both as
/// an investment amount and as a won amount.
pub proof fn lemma_amount_rejects_other_chars(raw: Seq<char>, c: char)
    requires
        raw.contains(c),
        !is_ws(c),
        !(c == ',' || c == '_' || c == ' '),
        !is_digit(c),
        c != '+',
        c != '-',
    ensures
        parse_amount_spec(raw) is None,
        parse_krw_amount_spec(raw) is None,
{
    lemma_trim_keeps(raw, c);
    assert(!amount_separators().contains(c)) by {
        if amount_separators().contains(c) {
            let k = choose|k: int| 0 <= k < amount_separators().len() && amount_separators()[k] == c;
        }
    }
    lemma_remove_chars_keeps(trim_spec(raw), amount_separators(), c);
    lemma_parse_rejects(normalized_amount(raw), c);
}

/// Whether `level` is one of the ten order-book levels a buy price can refer to.
pub open spec fn is_ref_level(level: int) -> bool {
    (-5 <= level <= -1) || (1 <= level <= 5)
}

/// The order-book levels a buy price can refer to, in the order the form lists
/// them: sell levels 5 to 1, then buy levels 1 to 5.
pub fn buy_price_ref_levels() -> (v: Vec<i8>)
    ensures
        v@ == seq![-5i8, -4i8, -3i8, -2i8, -1i8, 1i8, 2i8, 3i8, 4i8, 5i8],
        forall|i: int| 0 <= i < v@.len() ==> is_ref_level(#[trigger] v@[i] as int),
        forall|l: int| is_ref_level(l) ==> exists|i: int| 0 <= i < v@.len() && #[trigger] v@[i] == l,
{
    let v: Vec<i8> = vec![-5, -4, -3, -2, -1, 1, 2, 3, 4, 5];
    assert(v@ =~= seq![-5i8, -4i8, -3i8, -2i8, -1i8, 1i8, 2i8, 3i8, 4i8, 5i8]);
    assert forall|l: int| is_ref_level(l) implies exists|i: int| 0 <= i < v@.len() && #[trigger] v@[i]
        == l by {
        if l < 0 {
            assert(v@[l + 5] == l);
        } else {
            assert(v@[l + 4] == l);
        }
    }
    v
}

/// The stored reference level, or the default one when the stored level is unknown.
pub fn normalize_ref_level(level: i8) -> (r: i8)
    ensures
        r == (if is_ref_level(level as int) { level } else { DEFAULT_BUY_PRICE_REF_LEVEL }),
{
    if (-5 <= level && level <= -1) || (1 <= level && level <= 5) {
        level
    } else {
        DEFAULT_BUY_PRICE_REF_LEVEL
    }
}

/// The label of an order-book level: `매도N호가` for sell level `-N`, `매수N호가` for
/// buy level `N`.
pub open spec fn ref_level_label_spec(level: int) -> Seq<char> {
    if -5 <= level <= -1 {
        seq!['매', '도', digit_char(-level), '호', '가']
    } else if 1 <= level <= 5 {
        seq!['매', '수', digit_char(level), '호', '가']
    } else {
        seq!['매', '수', '1', '호', '가']
    }
}

/// The label of an order-book level; an unknown level is shown as buy level 1.
pub fn buy_price_ref_level_label(code: i8) -> (r: &'static str)
    ensures
        r@ == ref_level_label_spec(code as int),
{
    proof {
        reveal_strlit("매도5호가");
        reveal_strlit("매도4호가");
        reveal_strlit("매도3호가");
        reveal_strlit("매도2호가");
        reveal_strlit("매도1호가");
        reveal_strlit("매수1호가");
        reveal_strlit("매수2호가");
        reveal_strlit("매수3호가");
        reveal_strlit("매수4호가");
        reveal_strlit("매수5호가");
    }
    let r = match code {
        -5 => "매도5호가",
        -4 => "매도4호가",
        -3 => "매도3호가",
        -2 => "매도2호가",
        -1 => "매도1호가",
        1 => "매수1호가",
        2 => "매수2호가",
        3 => "매수3호가",
        4 => "매수4호가",
        5 => "매수5호가",
        _ => "매수1호가",
    };
    assert(r@ =~= ref_level_label_spec(code as int));
    r
}

/// `s` with a comma between every group of three characters, counted from the
/// right, as the order form writes amounts.
pub open spec fn group_thousands(s: Seq<char>) -> Seq<char>
    decreases s.len(),
{
    if s.len() == 0 {
        s
    } else {
        let rest = s.len() - 1;
        let sep = if rest > 0 && rest % 3 == 0 { seq![','] } else { Seq::<char>::empty() };
        seq![s[0]] + sep + group_thousands(s.drop_first())
    }
}

/// The decimal text of `value` with thousands separators.
pub fn format_i64_with_commas(value: i64) -> (s: String)
    ensures
        s@ == group_thousands(signed_decimal_spec(value as int)),
        remove_chars_spec(s@, seq![',']) == signed_decimal_spec(value as int),
{
    proof {
        lemma_signed_decimal_no_commas(value as int);
        lemma_ungroup(signed_decimal_spec(value as int));
    }
    let digits = i64_decimal_chars(value);
    let n = digits.len();
    let mut out: Vec<char> = Vec::new();
    let mut i: usize = 0;
    assert(digits@.skip(0) =~= digits@);
    assert(out@ + group_thousands(digits@) =~= group_thousands(digits@));
    while i < n
        invariant
            n == digits@.len(),
            i <= n,
            out@ + group_thousands(digits@.skip(i as int)) == group_thousands(digits@),
        decreases n - i,
    {
        let ghost tail = digits@.skip(i as int);
        let ghost prev = out@;
        assert(tail.drop_first() =~= digits@.skip(i + 1));
        assert(tail[0] == digits@[i as int]);
        out.push(digits[i]);
        let rest = n - 1 - i;
        if rest > 0 && rest % 3 == 0 {
            out.push(',');
        }
        proof {
            let sep = if rest > 0 && rest % 3 == 0 { seq![','] } else { Seq::<char>::empty() };
            assert(group_thousands(tail) == seq![tail[0]] + sep + group_thousands(tail.drop_first()));
            assert(out@ =~= prev + seq![tail[0]] + sep);
            assert(out@ + group_thousands(digits@.skip(i + 1)) =~= prev + group_thousands(tail));
        }
        i = i + 1;
    }
    assert(digits@.skip(n as int) =~= Seq::<char>::empty());
    assert(out@ =~= out@ + group_thousands(digits@.skip(n as int)));
    chars_to_string(&out)
}

/// The characters that a price field's text reads as, once trimmed and without commas.
pub open spec fn normalized_price(raw: Seq<char>) -> Seq<char> {
    remove_chars_spec(trim_spec(raw), seq![','])
}

/// How the order form shows a price from a realtime message: `-` for an empty
/// field, the absolute value with thousands separators for a number, and the
/// cleaned text itself otherwise.
pub open spec fn format_price_spec(raw: Seq<char>) -> Seq<char> {
    let n = normalized_price(raw);
    if n.len() == 0 {
        seq!['-']
    } else {
        match parse_i64_spec(n) {
            Some(v) => group_thousands(decimal_spec(if v < 0 { (-v) as nat } else { v as nat })),
            None => n,
        }
    }
}

/// The number that a price field's text reads as, once trimmed and without
/// commas; `None` when it is not a whole number in `i64`.
pub fn price_value(raw: &str) -> (r: Option<i64>)
    ensures
        r == parse_i64_spec(normalized_price(raw@)),
{
    let trimmed = trimmed_chars(raw);
    let mut comma: Vec<char> = Vec::new();
    comma.push(',');
    assert(comma@ =~= seq![',']);
    let normalized = remove_chars(&trimmed, comma.as_slice());
    parse_i64_chars(&normalized)
}

/// Formats a price field for display. The price `i64::MIN` has no absolute value
/// in `i64` and is left out.
pub fn format_price_text(raw: &str) -> (s: String)
    requires
        parse_i64_spec(normalized_price(raw@)) != Some(i64::MIN),
    ensures
        s@ == format_price_spec(raw@),
{
    let trimmed = trimmed_chars(raw);
    let mut comma: Vec<char> = Vec::new();
    comma.push(',');
    assert(comma@ =~= seq![',']);
    let normalized = remove_chars(&trimmed, comma.as_slice());
    if normalized.len() == 0 {
        let mut dash: Vec<char> = Vec::new();
        dash.push('-');
        assert(dash@ =~= seq!['-']);
        return chars_to_string(&dash);
    }
    match parse_i64_chars(&normalized) {
        Some(v) => {
            let a = if v < 0 { -v } else { v };
            format_i64_with_commas(a)
        },
        None => chars_to_string(&normalized),
    }
}

/// Grouped text is never empty, starts with its first character and ends with its last.
proof fn lemma_group_ends(s: Seq<char>)
    requires
        s.len() > 0,
    ensures
        group_thousands(s).len() > 0,
        group_thousands(s)[0] == s[0],
        group_thousands(s).last() == s.last(),
    decreases s.len(),
{
    let rest = s.len() - 1;
    let sep = if rest > 0 && rest % 3 == 0 { seq![','] } else { Seq::<char>::empty() };
    let g = group_thousands(s.drop_first());
    assert(group_thousands(s) == seq![s[0]] + sep + g);
    if s.len() > 1 {
        lemma_group_ends(s.drop_first());
        assert((seq![s[0]] + sep + g).last() == g.last());
        assert(s.drop_first().last() == s.last());
    } else {
        assert(g =~= Seq::<char>::empty());
        assert(seq![s[0]] + sep + g =~= seq![s[0]]);
    }
}

/// Taking the separators out of grouped text gives the text back.
proof fn lemma_ungroup(s: Seq<char>)
    requires
        !s.contains(','),
    ensures
        remove_chars_spec(group_thousands(s), seq![',']) == s,
    decreases s.len(),
{
    let comma = seq![','];
    if s.len() == 0 {
        assert(group_thousands(s) =~= Seq::<char>::empty());
        assert(remove_chars_spec(Seq::<char>::empty(), comma) =~= Seq::<char>::empty());
    } else {
        let rest = s.len() - 1;
        let sep = if rest > 0 && rest % 3 == 0 { seq![','] } else { Seq::<char>::empty() };
        let tail = s.drop_first();
        assert(!tail.contains(',')) by {
            if tail.contains(',') {
                let k = choose|k: int| 0 <= k < tail.len() && tail[k] == ',';
                assert(s[k + 1] == ',');
            }
        }
        lemma_ungroup(tail);
        assert(s[0] != ',') by {
            assert(s.contains(s[0]));
        }
        assert(!comma.contains(s[0])) by {
            if comma.contains(s[0]) {
                let k = choose|k: int| 0 <= k < comma.len() && comma[k] == s[0];
            }
        }
        lemma_remove_chars_single(s[0], comma);
        lemma_remove_chars_add(seq![s[0]] + sep, group_thousands(tail), comma);
        lemma_remove_chars_add(seq![s[0]], sep, comma);
        if rest > 0 && rest % 3 == 0 {
            lemma_remove_chars_single(',', comma);
            assert(comma[0] == ',');
            assert(comma.contains(','));
        } else {
            assert(remove_chars_spec(Seq::<char>::empty(), comma) =~= Seq::<char>::empty());
        }
        assert(seq![s[0]] + tail =~= s);
    }
}

/// The decimal text of an integer holds no comma.
proof fn lemma_signed_decimal_no_commas(v: int)
    ensures
        !signed_decimal_spec(v).contains(','),
{
    let d = decimal_spec(if v < 0 { (-v) as nat } else { v as nat });
    lemma_decimal_digits(if v < 0 { (-v) as nat } else { v as nat });
    let t = signed_decimal_spec(v);
    if t.contains(',') {
        let k = choose|k: int| 0 <= k < t.len() && t[k] == ',';
        if v < 0 {
            assert(t == seq!['-'] + d);
            if k > 0 {
                assert(t[k] == d[k - 1]);
                assert(is_digit(d[k - 1]));
            }
        } else {
            assert(is_digit(d[k]));
        }
    }
}

/// A price shown by the order form reads back as the same price: showing it again
/// changes nothing. This holds of every non-negative amount, the only kind that
/// `format_i64_with_commas` is given for prices.
pub proof fn lemma_price_text_is_stable(value: i64)
    requires
        value >= 0,
    ensures
        format_price_spec(group_thousands(signed_decimal_spec(value as int)))
            == group_thousands(signed_decimal_spec(value as int)),
        parse_i64_spec(normalized_price(group_thousands(signed_decimal_spec(value as int))))
            == Some(value),
{
    let d = decimal_spec(value as nat);
    let g = group_thousands(d);
    lemma_decimal_digits(value as nat);
    lemma_parse_decimal(value as nat);
    assert(!d.contains(',')) by {
        if d.contains(',') {
            let k = choose|k: int| 0 <= k < d.len() && d[k] == ',';
            assert(is_digit(d[k]));
        }
    }
    lemma_group_ends(d);
    assert(is_digit(d[0]));
    assert(is_digit(d.last()));
    lemma_trim_unchanged(g);
    lemma_ungroup(d);
    assert(parse_i64_spec(d) == Some(value));
}

/// Showing a price text again gives the same text: `-` stays `-`, a number shown
/// with separators reads back as the same number, and other text is shown as it
/// is. The price field's text, once trimmed and rid of commas, must not start or
/// end with whitespace (otherwise the second showing trims it further), and must
/// not read as `i64::MIN` (which has no absolute value to show).
pub proof fn lemma_price_display_idempotent(raw: Seq<char>)
    requires
        parse_i64_spec(normalized_price(raw)) != Some(i64::MIN),
        trim_spec(normalized_price(raw)) == normalized_price(raw),
    ensures
        parse_i64_spec(normalized_price(format_price_spec(raw))) != Some(i64::MIN),
        format_price_spec(format_price_spec(raw)) == format_price_spec(raw),
{
    let n = normalized_price(raw);
    let comma = seq![','];
    if n.len() == 0 {
        let dash = seq!['-'];
        assert(dash[0] == '-' && dash.last() == '-');
        lemma_trim_unchanged(dash);
        assert forall|i: int| 0 <= i < dash.len() implies !comma.contains(#[trigger] dash[i]) by {
            if comma.contains(dash[i]) {
                let k = choose|k: int| 0 <= k < comma.len() && comma[k] == dash[i];
            }
        }
        lemma_remove_absent_chars(dash, comma);
        assert(normalized_price(dash) == dash);
        assert(dash.drop_first() =~= Seq::<char>::empty());
        assert(parse_i64_spec(dash) is None);
    } else {
        match parse_i64_spec(n) {
            Some(v) => {
                let a: i64 = (if v < 0 { -v } else { v as int }) as i64;
                assert(decimal_spec(if v < 0 { (-v) as nat } else { v as nat }) == signed_decimal_spec(
                    a as int,
                ));
                lemma_price_text_is_stable(a);
            },
            None => {
                assert forall|i: int| 0 <= i < n.len() implies !comma.contains(#[trigger] n[i]) by {
                    broadcast use Seq::lemma_filter_pred;
                    assert(n == trim_spec(raw).filter(|c: char| !comma.contains(c)));
                }
                lemma_remove_absent_chars(n, comma);
                assert(normalized_price(n) == n);
            },
        }
    }
}

/// Digits are neither whitespace nor a separator of any field.
proof fn lemma_digits_are_plain(d: Seq<char>, drop: Seq<char>)
    requires
        all_digits(d),
        forall|i: int| 0 <= i < drop.len() ==> !is_digit(#[trigger] drop[i]),
    ensures
        d.len() > 0 ==> !crate::text::is_ws(d[0]) && !crate::text::is_ws(d.last()),
        remove_chars_spec(d, drop) == d,
{
    if d.len() > 0 {
        assert(is_digit(d[0]));
        assert(is_digit(d[d.len() - 1]));
    }
    assert forall|i: int| 0 <= i < d.len() implies !drop.contains(#[trigger] d[i]) by {
        assert(is_digit(d[i]));
        if drop.contains(d[i]) {
            let k = choose|k: int| 0 <= k < drop.len() && drop[k] == d[i];
            assert(!is_digit(drop[k]));
        }
    }
    lemma_remove_absent_chars(d, drop);
}

/// A committed field reads back as its own value: the draft that a commit
/// writes, committed again, changes nothing. For an investment amount this holds
/// of every value the field can hold (a positive one), for a won amount of every
/// value, for a percentage of every value in `0..=100`.
pub proof fn lemma_commit_is_stable(amount: u64, krw: u64, pct: i32)
    requires
        amount > 0,
        0 <= pct <= 100,
    ensures
        parse_amount_spec(decimal_spec(amount as nat)) == Some(amount),
        parse_krw_amount_spec(decimal_spec(krw as nat)) == Some(krw),
        parse_percent_spec(signed_decimal_spec(pct as int)) == Some(pct),
{
    let a = decimal_spec(amount as nat);
    let k = decimal_spec(krw as nat);
    let p = decimal_spec(pct as nat);
    lemma_decimal_digits(amount as nat);
    lemma_decimal_digits(krw as nat);
    lemma_decimal_digits(pct as nat);
    lemma_parse_decimal(amount as nat);
    lemma_parse_decimal(krw as nat);
    lemma_parse_decimal(pct as nat);
    assert forall|i: int| 0 <= i < amount_separators().len() implies !is_digit(
        #[trigger] amount_separators()[i],
    ) by {}
    assert forall|i: int| 0 <= i < percent_separators().len() implies !is_digit(
        #[trigger] percent_separators()[i],
    ) by {}
    lemma_digits_are_plain(a, amount_separators());
    lemma_digits_are_plain(k, amount_separators());
    lemma_digits_are_plain(p, percent_separators());
    lemma_trim_unchanged(a);
    lemma_trim_unchanged(k);
    lemma_trim_unchanged(p);
    assert(signed_decimal_spec(pct as int) == p);
}

pub open spec fn values_key() -> Seq<char> {
    seq!['v', 'a', 'l', 'u', 'e', 's']
}

/// The price text a realtime order-book message (`0D`) gives for an order-book
/// level: the string under the level's key in the message's `values` object.
pub open spec fn price_from_0d_spec(latest_0d: Option<Json>, ref_level: int) -> Option<Seq<char>> {
    match latest_0d {
        None => None,
        Some(msg) => match get_spec(msg, values_key()) {
            Some(values) => match values {
                Json::Object(_) => match ref_level_key_spec(ref_level) {
                    Some(k) => get_str_spec(values, k),
                    None => None,
                },
                _ => None,
            },
            None => None,
        },
    }
}

/// The price text for an order-book level in the latest order-book message, if
/// the message carries one.
pub fn price_from_0d_by_ref_level(latest_0d_raw: Option<&Json>, ref_level: i8) -> (r: Option<&str>)
    ensures
        match latest_0d_raw {
            Some(m) => match r {
                Some(p) => price_from_0d_spec(Some(*m), ref_level as int) == Some(p@),
                None => price_from_0d_spec(Some(*m), ref_level as int) is None,
            },
            None => r is None,
        },
{
    proof {
        reveal_strlit("values");
        assert("values"@ =~= values_key());
    }
    let msg = match latest_0d_raw {
        Some(m) => m,
        None => {
            return None;
        },
    };
    let values = match msg.get("values") {
        Some(v) => v,
        None => {
            return None;
        },
    };
    match values {
        Json::Object(_) => {},
        _ => {
            return None;
        },
    }
    let key = match ref_level_to_0d_key(ref_level) {
        Some(k) => k,
        None => {
            return None;
        },
    };
    values.get_str(key)
}

} // verus!
