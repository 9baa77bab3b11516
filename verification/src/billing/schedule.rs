//! When a run is due, which month it is for, and how invoices are numbered.
use crate::store::settings;
use crate::store::Store;
use crate::text;
use vstd::prelude::*;

verus! {

/// The month before: January is preceded by December of the year before.
pub open spec fn month_before(y: int, m: int) -> (int, int) {
    if m == 1 {
        (y - 1, 12)
    } else {
        (y, m - 1)
    }
}

/// The month before.
pub fn prev_month(ym: (i64, u32)) -> (r: (i64, u32))
    requires
        ym.1 >= 1,
        ym.0 > i64::MIN,
    ensures
        (r.0 as int, r.1 as int) == month_before(ym.0 as int, ym.1 as int),
        ym.1 <= 12 ==> 1 <= r.1 <= 12,
{
    let (y, m) = ym;
    if m == 1 {
        (y - 1, 12)
    } else {
        (y, m - 1)
    }
}

/// The month before is one month earlier.
pub proof fn law_month_before(y: int, m: int)
    requires
        1 <= m <= 12,
    ensures
        ({
            let p = month_before(y, m);
            1 <= p.1 <= 12 && 12 * p.0 + p.1 == 12 * y + m - 1
        }),
{
}

/// Whether a run is due: the day has come, and so has the hour.
pub fn is_due(now_day: u32, now_hour: u32, billing_day: u32, billing_hour: u32) -> (r: bool)
    ensures
        r == (now_day >= billing_day && now_hour >= billing_hour),
{
    now_day >= billing_day && now_hour >= billing_hour
}

// ---------------------------------------------------------------------------
// Settings
// ---------------------------------------------------------------------------

/// The number that a setting gives, where it gives one.
pub open spec fn setting_number(v: Option<Seq<char>>) -> Option<nat> {
    match v {
        Some(t) => text::unsigned_up_to(text::trimmed(t), u32::MAX as int),
        None => None,
    }
}

/// `n` moved into the range from `lo` to `hi`.
pub open spec fn clamped(n: int, lo: int, hi: int) -> int {
    if n < lo {
        lo
    } else if n > hi {
        hi
    } else {
        n
    }
}

/// The day of the month on which billing starts: the first where nothing else is set, and never
/// one that a month might lack.
pub open spec fn day_setting(v: Option<Seq<char>>) -> int {
    clamped(
        match setting_number(v) {
            Some(n) => n as int,
            None => 1,
        },
        1,
        28,
    )
}

/// The hour at which billing starts: ten where nothing else is set.
pub open spec fn hour_setting(v: Option<Seq<char>>) -> int {
    clamped(
        match setting_number(v) {
            Some(n) => n as int,
            None => 10,
        },
        0,
        23,
    )
}

/// The pattern for invoice numbers.
pub open spec fn pattern_setting(v: Option<Seq<char>>) -> Seq<char> {
    match v {
        Some(t) => if text::trimmed(t).len() > 0 {
            text::trimmed(t)
        } else {
            "INV-{KEY}-{YYYY}-{MM}-{SEQ}"@
        },
        None => "INV-{KEY}-{YYYY}-{MM}-{SEQ}"@,
    }
}

/// The pattern for invoice numbers where none is set.
pub const DEFAULT_INVOICE_NO_TEMPLATE: &'static str = "INV-{KEY}-{YYYY}-{MM}-{SEQ}";

/// The number that a setting gives, where it gives one.
pub fn read_setting_u32(store: &Store, key: &str) -> (r: Option<u32>)
    ensures
        r is Some <==> setting_number(settings::setting_value(store@, key@)) is Some,
        r matches Some(n) ==> setting_number(settings::setting_value(store@, key@)) == Some(
            n as nat,
        ),
{
    match store.get_setting(key) {
        Some(t) => match text::parse_unsigned(&text::trim(&text::chars_of(&t)), u32::MAX as u64) {
            Some(n) => Some(n as u32),
            None => None,
        },
        None => None,
    }
}

/// The day of the month on which billing starts.
pub fn billing_day(store: &Store) -> (r: u32)
    ensures
        r == day_setting(settings::setting_value(store@, "billing_day"@)),
        1 <= r <= 28,
{
    let n: u32 = match read_setting_u32(store, "billing_day") {
        Some(n) => n,
        None => 1,
    };
    if n < 1 {
        1
    } else if n > 28 {
        28
    } else {
        n
    }
}

/// The hour at which billing starts.
pub fn billing_hour(store: &Store) -> (r: u32)
    ensures
        r == hour_setting(settings::setting_value(store@, "billing_hour"@)),
        r <= 23,
{
    let n: u32 = match read_setting_u32(store, "billing_hour") {
        Some(n) => n,
        None => 10,
    };
    if n > 23 {
        23
    } else {
        n
    }
}

/// The pattern for invoice numbers.
pub fn read_invoice_template(store: &Store) -> (r: String)
    ensures
        r@ == pattern_setting(settings::setting_value(store@, "invoice_no_template"@)),
{
    match store.get_setting("invoice_no_template") {
        Some(t) => {
            let trimmed = text::trim(&text::chars_of(&t));
            if trimmed.len() > 0 {
                text::string_of(&trimmed)
            } else {
                DEFAULT_INVOICE_NO_TEMPLATE.to_owned()
            }
        },
        None => DEFAULT_INVOICE_NO_TEMPLATE.to_owned(),
    }
}

// ---------------------------------------------------------------------------
// Numbers and names
// ---------------------------------------------------------------------------

/// An invoice number: the pattern with customer, year, month and running number put in, in that
/// order.
pub open spec fn invoice_no(
    pattern: Seq<char>,
    key: Seq<char>,
    year: int,
    month: int,
    seq: int,
) -> Seq<char> {
    let a = text::replaced(pattern, "{KEY}"@, key);
    let b = text::replaced(a, "{YYYY}"@, text::dec_padded(year, 4));
    let c = text::replaced(b, "{MM}"@, text::dec_padded(month, 2));
    text::replaced(c, "{SEQ}"@, text::dec_padded(seq, 4))
}

/// An invoice number: the pattern with `{KEY}`, `{YYYY}`, `{MM}` and `{SEQ}` replaced.
pub fn render_invoice_no(tpl: &str, key: &str, year: i64, month: u32, seq: i64) -> (r: String)
    ensures
        r@ == invoice_no(tpl@, key@, year as int, month as int, seq as int),
{
    proof {
        reveal_strlit("{KEY}");
        reveal_strlit("{YYYY}");
        reveal_strlit("{MM}");
        reveal_strlit("{SEQ}");
    }
    let a = text::replace(&text::chars_of(tpl), &text::chars_of("{KEY}"), &text::chars_of(key));
    let b = text::replace(&a, &text::chars_of("{YYYY}"), &text::padded(year, 4));
    let c = text::replace(&b, &text::chars_of("{MM}"), &text::padded(month as i64, 2));
    let d = text::replace(&c, &text::chars_of("{SEQ}"), &text::padded(seq, 4));
    text::string_of(&d)
}

/// The name of the sequence that numbers the invoices of a customer for a month.
pub open spec fn sequence_name(key: Seq<char>, year: int, month: int) -> Seq<char> {
    "invoice_no_"@ + key + "_"@ + text::dec_padded(year, 4) + "_"@ + text::dec_padded(month, 2)
}

/// The name of the sequence that numbers the invoices of a customer for a month.
pub fn invoice_sequence(key: &str, year: i64, month: u32) -> (r: String)
    ensures
        r@ == sequence_name(key@, year as int, month as int),
{
    let y = text::string_of(&text::padded(year, 4));
    let m = text::string_of(&text::padded(month as i64, 2));
    let head = text::cat4("invoice_no_", key, "_", &y);
    text::cat3(&head, "_", &m)
}

/// A month as text, such as `2026-08`.
pub open spec fn month_text(year: int, month: int) -> Seq<char> {
    text::dec_padded(year, 4) + "-"@ + text::dec_padded(month, 2)
}

/// A month as text.
pub fn month_label(year: i64, month: i64) -> (r: String)
    ensures
        r@ == month_text(year as int, month as int),
{
    let y = text::string_of(&text::padded(year, 4));
    let m = text::string_of(&text::padded(month, 2));
    text::cat3(&y, "-", &m)
}

/// The first day of a month as text, such as `2026-08-01`.
pub fn first_day(year: i64, month: u32) -> (r: String)
    ensures
        r@ == month_text(year as int, month as int) + "-01"@,
{
    let m = month_label(year, month as i64);
    text::cat2(&m, "-01")
}

// ---------------------------------------------------------------------------
// Numbers as text
// ---------------------------------------------------------------------------

proof fn lemma_value_padded(s: Seq<char>, n: int)
    requires
        text::all_digits(s),
        0 <= n,
    ensures
        text::value_of(text::zeros(n) + s) == text::value_of(s),
    decreases s.len(),
{
    if s.len() == 0 {
        assert(text::zeros(n) + s =~= text::zeros(n));
        lemma_value_zeros(n);
    } else {
        lemma_value_padded(s.drop_last(), n);
        assert((text::zeros(n) + s).drop_last() =~= text::zeros(n) + s.drop_last());
    }
}

proof fn lemma_value_zeros(n: int)
    requires
        0 <= n,
    ensures
        text::value_of(text::zeros(n)) == 0,
    decreases n,
{
    if n > 0 {
        lemma_value_zeros(n - 1);
        assert(text::zeros(n).drop_last() =~= text::zeros(n - 1));
    }
}

/// A number that is filled up with zeros consists of digits and reads back.
pub proof fn lemma_padded_reads_back(n: int, width: int)
    requires
        0 <= n,
    ensures
        text::all_digits(text::dec_padded(n, width)),
        text::value_of(text::dec_padded(n, width)) == n,
{
    let d = text::dec(n as nat);
    text::lemma_dec_reads_back(n as nat);
    let k = if width - d.len() > 0 {
        width - d.len()
    } else {
        0
    };
    assert(text::zeros(width - d.len()) =~= text::zeros(k));
    lemma_value_padded(d, k);
    assert forall|i: int| 0 <= i < (text::zeros(k) + d).len() implies '0' <= #[trigger] (
    text::zeros(k) + d)[i] <= '9' by {
        if i >= k {
            assert((text::zeros(k) + d)[i] == d[i - k]);
        }
    }
}

/// A negative number is a sign in front of digits.
proof fn lemma_negative(n: int, width: int)
    requires
        n < 0,
    ensures
        text::dec_padded(n, width) == seq!['-'] + text::dec_padded(-n, width - 1),
{
    assert(text::dec_padded(n, width) =~= seq!['-'] + text::dec_padded(-n, width - 1));
}

/// Different numbers are written differently, and with digits behind the sign.
pub proof fn lemma_padded_apart(a: int, b: int, width: int)
    ensures
        text::dec_padded(a, width) == text::dec_padded(b, width) ==> a == b,
        text::dec_padded(a, width).len() > 0,
        '0' <= text::dec_padded(a, width).last() <= '9',
        forall|i: int|
            0 <= i < text::dec_padded(a, width).len() ==> '0' <= #[trigger] text::dec_padded(
                a,
                width,
            )[i] <= '9' || text::dec_padded(a, width)[i] == '-',
{
    let x = text::dec_padded(a, width);
    let y = text::dec_padded(b, width);
    if a >= 0 {
        lemma_padded_reads_back(a, width);
    } else {
        lemma_negative(a, width);
        lemma_padded_reads_back(-a, width - 1);
        assert(x.drop_first() =~= text::dec_padded(-a, width - 1));
    }
    if b >= 0 {
        lemma_padded_reads_back(b, width);
    } else {
        lemma_negative(b, width);
        lemma_padded_reads_back(-b, width - 1);
        assert(y.drop_first() =~= text::dec_padded(-b, width - 1));
    }
    text::lemma_dec_reads_back(if a >= 0 {
        a as nat
    } else {
        (-a) as nat
    });
    text::lemma_dec_reads_back(if b >= 0 {
        b as nat
    } else {
        (-b) as nat
    });
    if x == y && (a < 0) != (b < 0) {
        assert(x[0] == y[0]);
    }
    assert forall|i: int| 0 <= i < x.len() implies '0' <= #[trigger] x[i] <= '9' || x[i] == '-' by {
        if a < 0 && i > 0 {
            assert(x[i] == x.drop_first()[i - 1]);
        }
    }
    if a < 0 {
        assert(x.last() == x.drop_first().last());
    }
    assert('0' <= x.last() <= '9');
}

/// Where the last part of a text has none of the separators, both parts are found again.
pub proof fn lemma_last_part(a: Seq<char>, x: Seq<char>, b: Seq<char>, y: Seq<char>, c: char)
    requires
        a.push(c) + x == b.push(c) + y,
        forall|i: int| 0 <= i < x.len() ==> x[i] != c,
        forall|i: int| 0 <= i < y.len() ==> y[i] != c,
    ensures
        a == b,
        x == y,
{
    let s = a.push(c) + x;
    let t = b.push(c) + y;
    assert(s.len() == a.len() + 1 + x.len() && t.len() == b.len() + 1 + y.len());
    assert(s[a.len() as int] == c);
    assert(t[b.len() as int] == c);
    if a.len() < b.len() {
        let i = b.len() - a.len() - 1;
        assert(s[a.push(c).len() + i] == x[i]);
    } else if b.len() < a.len() {
        let i = a.len() - b.len() - 1;
        assert(t[b.push(c).len() + i] == y[i]);
    }
    assert(s.take(a.len() as int) =~= a);
    assert(t.take(b.len() as int) =~= b);
    assert(s.skip(a.len() as int + 1) =~= x);
    assert(t.skip(b.len() as int + 1) =~= y);
}

/// Every customer and month has a sequence of its own.
pub proof fn law_sequences_apart(
    k1: Seq<char>,
    y1: int,
    m1: int,
    k2: Seq<char>,
    y2: int,
    m2: int,
)
    requires
        sequence_name(k1, y1, m1) == sequence_name(k2, y2, m2),
    ensures
        k1 == k2 && y1 == y2 && m1 == m2,
{
    reveal_strlit("invoice_no_");
    reveal_strlit("_");
    lemma_padded_apart(m1, m2, 2);
    lemma_padded_apart(m2, m1, 2);
    lemma_padded_apart(y1, y2, 4);
    lemma_padded_apart(y2, y1, 4);
    let a1 = "invoice_no_"@ + k1;
    let a2 = "invoice_no_"@ + k2;
    let b1 = a1.push('_') + text::dec_padded(y1, 4);
    let b2 = a2.push('_') + text::dec_padded(y2, 4);
    assert(sequence_name(k1, y1, m1) =~= b1.push('_') + text::dec_padded(m1, 2));
    assert(sequence_name(k2, y2, m2) =~= b2.push('_') + text::dec_padded(m2, 2));
    lemma_last_part(b1, text::dec_padded(m1, 2), b2, text::dec_padded(m2, 2), '_');
    lemma_last_part(a1, text::dec_padded(y1, 4), a2, text::dec_padded(y2, 4), '_');
    assert(a1.skip(11) =~= k1);
    assert(a2.skip(11) =~= k2);
}

// ---------------------------------------------------------------------------
// The pattern for invoice numbers
// ---------------------------------------------------------------------------

/// A placeholder: its name between braces.
pub open spec fn mark(n: Seq<char>) -> Seq<char> {
    seq!['{'] + n + seq!['}']
}

/// A placeholder behind a hyphen.
pub open spec fn slot(n: Seq<char>) -> Seq<char> {
    seq!['-'] + mark(n)
}

/// A name for a placeholder: no hyphen and no brace in it.
pub open spec fn is_name(n: Seq<char>) -> bool {
    forall|i: int| 0 <= i < n.len() ==> n[i] != '-' && n[i] != '{' && n[i] != '}'
}

/// A placeholder that is not found in front of a hyphen is looked for behind it.
proof fn lemma_find_behind(a: Seq<char>, b: Seq<char>, n: Seq<char>, i: int)
    requires
        is_name(n),
        b.len() > 0,
        b[0] == '-',
        0 <= i <= a.len(),
        text::find_from(a, mark(n), i) is None,
    ensures
        text::find_from(a + b, mark(n), i) == (match text::find_from(b, mark(n), 0) {
            Some(j) => Some(j + a.len()),
            None => None,
        }),
    decreases a.len() - i,
{
    let s = a + b;
    let p = mark(n);
    if i == a.len() {
        assert(s.skip(i) =~= b);
        text::lemma_find_shift(s, p, i, i);
    } else {
        text::lemma_find_from(a, p, i);
        if text::occurs_at(s, p, i) {
            let w = s.subrange(i, i + p.len());
            if i + p.len() <= a.len() {
                assert(w =~= a.subrange(i, i + p.len()));
                assert(text::occurs_at(a, p, i));
            } else {
                assert(w[a.len() - i] == '-');
                assert(p[a.len() - i] == '-');
            }
        }
        text::lemma_find_from(a, p, i + 1);
        assert(text::find_from(a, p, i + 1) is None) by {
            if let Some(k) = text::find_from(a, p, i + 1) {
                assert(text::occurs_at(a, p, k));
            }
        }
        lemma_find_behind(a, b, n, i + 1);
        if i + p.len() > s.len() {
            text::lemma_find_from(b, p, 0);
            if let Some(j) = text::find_from(b, p, 0) {
                assert(text::occurs_at(b, p, j));
            }
        }
    }
}

/// What is in front of a hyphen and holds no placeholder stays as it is.
proof fn lemma_replace_behind(a: Seq<char>, b: Seq<char>, n: Seq<char>, w: Seq<char>)
    requires
        is_name(n),
        b.len() > 0,
        b[0] == '-',
        !text::has(a, mark(n)),
    ensures
        text::replaced(a + b, mark(n), w) == a + text::replaced(b, mark(n), w),
{
    let p = mark(n);
    lemma_find_behind(a, b, n, 0);
    text::lemma_find_from(b, p, 0);
    if let Some(j) = text::find_from(b, p, 0) {
        assert((a + b).take(j + a.len()) =~= a + b.take(j));
        assert((a + b).skip(j + a.len() + p.len()) =~= b.skip(j + p.len()));
        assert(text::replaced(a + b, p, w) =~= a + text::replaced(b, p, w));
    }
}

/// A slot is filled, and filling goes on behind it.
proof fn lemma_fill(a: Seq<char>, n: Seq<char>, b: Seq<char>, w: Seq<char>)
    requires
        is_name(n),
        !text::has(a, mark(n)),
    ensures
        text::replaced(a + slot(n) + b, mark(n), w) == a + (seq!['-'] + w) + text::replaced(
            b,
            mark(n),
            w,
        ),
{
    let p = mark(n);
    let t = slot(n) + b;
    assert(a + slot(n) + b =~= a + t);
    lemma_replace_behind(a, t, n, w);
    assert(t.subrange(0, p.len() as int)[0] == '-');
    assert(p[0] == '{');
    assert(!text::occurs_at(t, p, 0));
    assert(t.subrange(1, 1 + p.len() as int) =~= p);
    assert(text::occurs_at(t, p, 1));
    reveal_with_fuel(text::find_from, 2);
    assert(text::find_from(t, p, 0) == Some(1int));
    assert(t.take(1) =~= seq!['-']);
    assert(t.skip(1 + p.len() as int) =~= b);
    assert(a + (seq!['-'] + w + text::replaced(b, p, w)) =~= a + (seq!['-'] + w) + text::replaced(
        b,
        p,
        w,
    ));
}

/// A text in which every brace opens another placeholder holds none of this name.
proof fn lemma_free(s: Seq<char>, n: Seq<char>)
    requires
        forall|i: int| 0 <= i < s.len() && s[i] == '{' ==> !text::occurs_at(s, mark(n), i),
    ensures
        !text::has(s, mark(n)),
{
    text::lemma_find_from(s, mark(n), 0);
    if let Some(k) = text::find_from(s, mark(n), 0) {
        assert(s.subrange(k, k + mark(n).len())[0] == mark(n)[0]);
    }
}

/// One slot does not hold the placeholder of another.
proof fn lemma_slot_free(m: Seq<char>, n: Seq<char>)
    requires
        is_name(m),
        is_name(n),
        m != n,
    ensures
        !text::has(slot(m), mark(n)),
{
    let s = slot(m);
    let p = mark(n);
    assert forall|i: int| 0 <= i < s.len() && s[i] == '{' implies !text::occurs_at(s, p, i) by {
        assert(i == 1) by {
            if 2 <= i < 2 + m.len() {
                assert(s[i] == m[i - 2]);
            }
        }
        if text::occurs_at(s, p, i) {
            let w = s.subrange(1, 1 + p.len() as int);
            assert(w[n.len() as int + 1] == '}');
            assert(s[n.len() as int + 2] == '}');
            if n.len() < m.len() {
                assert(s[n.len() as int + 2] == m[n.len() as int]);
            }
            assert(n.len() == m.len());
            assert forall|k: int| 0 <= k < n.len() implies m[k] == n[k] by {
                assert(w[k + 1] == p[k + 1]);
                assert(s[k + 2] == m[k]);
            }
            assert(m =~= n);
        }
    }
    lemma_free(s, n);
}

/// Two texts without a placeholder, joined at a hyphen, hold none.
proof fn lemma_joined_free(a: Seq<char>, b: Seq<char>, n: Seq<char>)
    requires
        is_name(n),
        !text::has(a, mark(n)),
        !text::has(b, mark(n)),
        b.len() > 0,
        b[0] == '-',
    ensures
        !text::has(a + b, mark(n)),
{
    lemma_find_behind(a, b, n, 0);
}

/// A hyphen and a number hold no placeholder.
proof fn lemma_digits_free(d: Seq<char>, n: Seq<char>)
    requires
        forall|i: int| 0 <= i < d.len() ==> d[i] != '{',
    ensures
        !text::has(seq!['-'] + d, mark(n)),
{
    let s = seq!['-'] + d;
    assert forall|i: int| 0 <= i < s.len() && s[i] == '{' implies !text::occurs_at(
        s,
        mark(n),
        i,
    ) by {
        if i > 0 {
            assert(s[i] == d[i - 1]);
        }
    }
    lemma_free(s, n);
}

/// A hyphen in front of a text adds no placeholder.
proof fn lemma_hyphen_free(k: Seq<char>, n: Seq<char>)
    requires
        !text::has(k, mark(n)),
    ensures
        !text::has(seq!['-'] + k, mark(n)),
{
    let s = seq!['-'] + k;
    let p = mark(n);
    text::lemma_find_from(k, p, 0);
    assert forall|i: int| 0 <= i < s.len() && s[i] == '{' implies !text::occurs_at(s, p, i) by {
        if text::occurs_at(s, p, i) {
            assert(k.subrange(i - 1, i - 1 + p.len()) =~= s.subrange(i, i + p.len()));
            assert(text::occurs_at(k, p, i - 1));
        }
    }
    lemma_free(s, n);
}

/// A key that is not mistaken for a placeholder.
pub open spec fn plain_key(key: Seq<char>) -> bool {
    !text::has(key, "{YYYY}"@) && !text::has(key, "{MM}"@) && !text::has(key, "{SEQ}"@)
}

proof fn lemma_marks()
    ensures
        "{KEY}"@ == mark("KEY"@),
        "{YYYY}"@ == mark("YYYY"@),
        "{MM}"@ == mark("MM"@),
        "{SEQ}"@ == mark("SEQ"@),
        is_name("KEY"@) && is_name("YYYY"@) && is_name("MM"@) && is_name("SEQ"@),
        "KEY"@ != "YYYY"@ && "KEY"@ != "MM"@ && "KEY"@ != "SEQ"@,
        "YYYY"@ != "MM"@ && "YYYY"@ != "SEQ"@ && "MM"@ != "SEQ"@,
        "INV-{KEY}-{YYYY}-{MM}-{SEQ}"@ == "INV"@ + slot("KEY"@) + (slot("YYYY"@) + slot("MM"@)
            + slot("SEQ"@)),
        forall|n: Seq<char>| !text::has("INV"@, #[trigger] mark(n)),
{
    reveal_strlit("{KEY}");
    reveal_strlit("{YYYY}");
    reveal_strlit("{MM}");
    reveal_strlit("{SEQ}");
    reveal_strlit("KEY");
    reveal_strlit("YYYY");
    reveal_strlit("MM");
    reveal_strlit("SEQ");
    reveal_strlit("INV");
    reveal_strlit("INV-{KEY}-{YYYY}-{MM}-{SEQ}");
    assert("{KEY}"@ =~= mark("KEY"@));
    assert("{YYYY}"@ =~= mark("YYYY"@));
    assert("{MM}"@ =~= mark("MM"@));
    assert("{SEQ}"@ =~= mark("SEQ"@));
    assert("KEY"@[0] == 'K' && "SEQ"@[0] == 'S');
    assert("YYYY"@.len() == 4 && "MM"@.len() == 2 && "KEY"@.len() == 3 && "SEQ"@.len() == 3);
    assert("INV-{KEY}-{YYYY}-{MM}-{SEQ}"@ =~= "INV"@ + slot("KEY"@) + (slot("YYYY"@) + slot(
        "MM"@,
    ) + slot("SEQ"@)));
    assert forall|n: Seq<char>| !text::has("INV"@, #[trigger] mark(n)) by {
        lemma_free("INV"@, n);
    }
}

/// With the pattern that is used where none is set, an invoice number reads `INV`, the customer's
/// key, the year, the month and the running number, with hyphens between them.
pub proof fn law_default_number(key: Seq<char>, year: int, month: int, seq: int)
    requires
        plain_key(key),
    ensures
        invoice_no("INV-{KEY}-{YYYY}-{MM}-{SEQ}"@, key, year, month, seq) == "INV-"@ + key + "-"@
            + text::dec_padded(year, 4) + "-"@ + text::dec_padded(month, 2) + "-"@
            + text::dec_padded(seq, 4),
{
    lemma_marks();
    let (k, y, m, q) = ("KEY"@, "YYYY"@, "MM"@, "SEQ"@);
    let h = seq!['-'];
    let (yt, mt, st) = (
        text::dec_padded(year, 4),
        text::dec_padded(month, 2),
        text::dec_padded(seq, 4),
    );
    let none = Seq::<char>::empty();
    lemma_padded_apart(year, year, 4);
    lemma_padded_apart(month, month, 2);
    lemma_slot_free(y, k);
    lemma_slot_free(m, k);
    lemma_slot_free(q, k);
    lemma_slot_free(m, y);
    lemma_slot_free(q, y);
    lemma_slot_free(q, m);
    // The key.
    let r1 = slot(y) + slot(m) + slot(q);
    lemma_joined_free(slot(y), slot(m), k);
    lemma_joined_free(slot(y) + slot(m), slot(q), k);
    lemma_fill("INV"@, k, r1, key);
    let a = "INV"@ + (h + key) + r1;
    // The year.
    let r2 = slot(m) + slot(q);
    lemma_hyphen_free(key, y);
    lemma_joined_free("INV"@, h + key, y);
    lemma_joined_free(slot(m), slot(q), y);
    lemma_fill("INV"@ + (h + key), y, r2, yt);
    assert(a =~= "INV"@ + (h + key) + slot(y) + r2);
    let b = "INV"@ + (h + key) + (h + yt) + r2;
    // The month.
    lemma_hyphen_free(key, m);
    lemma_digits_free(yt, m);
    lemma_joined_free("INV"@, h + key, m);
    lemma_joined_free("INV"@ + (h + key), h + yt, m);
    lemma_fill("INV"@ + (h + key) + (h + yt), m, slot(q), mt);
    assert(b =~= "INV"@ + (h + key) + (h + yt) + slot(m) + slot(q));
    let c = "INV"@ + (h + key) + (h + yt) + (h + mt) + slot(q);
    // The running number.
    lemma_hyphen_free(key, q);
    lemma_digits_free(yt, q);
    lemma_digits_free(mt, q);
    lemma_joined_free("INV"@, h + key, q);
    lemma_joined_free("INV"@ + (h + key), h + yt, q);
    lemma_joined_free("INV"@ + (h + key) + (h + yt), h + mt, q);
    lemma_fill("INV"@ + (h + key) + (h + yt) + (h + mt), q, none, st);
    assert(c =~= "INV"@ + (h + key) + (h + yt) + (h + mt) + slot(q) + none);
    assert(text::find_from(none, mark(q), 0) is None);
    reveal_strlit("INV-");
    reveal_strlit("INV");
    reveal_strlit("-");
    assert("INV"@ + (h + key) + (h + yt) + (h + mt) + (h + st) + none =~= "INV-"@ + key + "-"@ + yt
        + "-"@ + mt + "-"@ + st);
}

/// A number behind a hyphen is found again, but for a hyphen that may be a sign.
proof fn lemma_signed_part(a: Seq<char>, i: int, b: Seq<char>, j: int, width: int)
    requires
        a.push('-') + text::dec_padded(i, width) == b.push('-') + text::dec_padded(j, width),
    ensures
        (a == b && i == j) || (i < 0 <= j && a.push('-') == b) || (j < 0 <= i && b.push('-') == a),
{
    let (p, x) = if i < 0 {
        lemma_negative(i, width);
        lemma_padded_reads_back(-i, width - 1);
        (a.push('-'), text::dec_padded(-i, width - 1))
    } else {
        lemma_padded_reads_back(i, width);
        (a, text::dec_padded(i, width))
    };
    let (q, y) = if j < 0 {
        lemma_negative(j, width);
        lemma_padded_reads_back(-j, width - 1);
        (b.push('-'), text::dec_padded(-j, width - 1))
    } else {
        lemma_padded_reads_back(j, width);
        (b, text::dec_padded(j, width))
    };
    assert(a.push('-') + text::dec_padded(i, width) =~= p.push('-') + x);
    assert(b.push('-') + text::dec_padded(j, width) =~= q.push('-') + y);
    lemma_last_part(p, x, q, y, '-');
    if i < 0 && j < 0 {
        assert(a =~= a.push('-').drop_last());
        assert(b =~= b.push('-').drop_last());
    }
}

/// Whether the hyphen at the end of the second key can be taken for the sign of the first year.
pub open spec fn mistaken(k1: Seq<char>, y1: int, k2: Seq<char>, y2: int) -> bool {
    y1 < 0 <= y2 && k2 == k1.push('-')
}

/// With the pattern that is used where none is set, no two invoices have the same number: it tells
/// customer, month and running number, unless a hyphen at the end of a key is taken for a sign.
pub proof fn law_numbers_apart(
    k1: Seq<char>,
    y1: int,
    m1: int,
    n1: int,
    k2: Seq<char>,
    y2: int,
    m2: int,
    n2: int,
)
    requires
        plain_key(k1) && plain_key(k2),
        !mistaken(k1, y1, k2, y2) && !mistaken(k2, y2, k1, y1),
        invoice_no("INV-{KEY}-{YYYY}-{MM}-{SEQ}"@, k1, y1, m1, n1) == invoice_no(
            "INV-{KEY}-{YYYY}-{MM}-{SEQ}"@,
            k2,
            y2,
            m2,
            n2,
        ),
    ensures
        k1 == k2 && y1 == y2 && m1 == m2 && n1 == n2,
{
    law_default_number(k1, y1, m1, n1);
    law_default_number(k2, y2, m2, n2);
    reveal_strlit("INV-");
    reveal_strlit("-");
    lemma_padded_apart(y1, y2, 4);
    lemma_padded_apart(y2, y1, 4);
    lemma_padded_apart(m1, m2, 2);
    lemma_padded_apart(m2, m1, 2);
    let a1 = "INV-"@ + k1;
    let a2 = "INV-"@ + k2;
    let b1 = a1.push('-') + text::dec_padded(y1, 4);
    let b2 = a2.push('-') + text::dec_padded(y2, 4);
    let c1 = b1.push('-') + text::dec_padded(m1, 2);
    let c2 = b2.push('-') + text::dec_padded(m2, 2);
    assert(c1.push('-') + text::dec_padded(n1, 4) =~= "INV-"@ + k1 + "-"@ + text::dec_padded(y1, 4)
        + "-"@ + text::dec_padded(m1, 2) + "-"@ + text::dec_padded(n1, 4));
    assert(c2.push('-') + text::dec_padded(n2, 4) =~= "INV-"@ + k2 + "-"@ + text::dec_padded(y2, 4)
        + "-"@ + text::dec_padded(m2, 2) + "-"@ + text::dec_padded(n2, 4));
    assert(c1.last() == text::dec_padded(m1, 2).last() && c2.last() == text::dec_padded(
        m2,
        2,
    ).last());
    assert(b1.last() == text::dec_padded(y1, 4).last() && b2.last() == text::dec_padded(
        y2,
        4,
    ).last());
    assert(c1.push('-').last() == '-' && c2.push('-').last() == '-');
    assert(b1.push('-').last() == '-' && b2.push('-').last() == '-');
    lemma_signed_part(c1, n1, c2, n2, 4);
    lemma_signed_part(b1, m1, b2, m2, 2);
    lemma_signed_part(a1, y1, a2, y2, 4);
    assert(a1.skip(4) =~= k1);
    assert(a2.skip(4) =~= k2);
    assert(a1.push('-').skip(4) =~= k1.push('-'));
    assert(a2.push('-').skip(4) =~= k2.push('-'));
}

/// A setting that says a day from 1 to 28 makes that day the billing day, with white space around it
/// or not. A later day counts as the 28th, an earlier one as the first, and without a number it is
/// the first.
pub proof fn law_billing_day(t: Seq<char>, n: nat)
    requires
        text::trimmed(t) == text::dec(n),
    ensures
        1 <= n <= 28 ==> day_setting(Some(t)) == n,
        28 < n ==> day_setting(Some(t)) == (if n <= u32::MAX {
            28int
        } else {
            1
        }),
        n == 0 ==> day_setting(Some(t)) == 1,
        day_setting(None) == 1,
{
    text::lemma_dec_reads_back(n);
}

/// A setting that says an hour of the day makes that hour the billing hour. A later hour counts as
/// the last of the day, and without a number it is ten.
pub proof fn law_billing_hour(t: Seq<char>, n: nat)
    requires
        text::trimmed(t) == text::dec(n),
    ensures
        n <= 23 ==> hour_setting(Some(t)) == n,
        23 < n ==> hour_setting(Some(t)) == (if n <= u32::MAX {
            23int
        } else {
            10
        }),
        hour_setting(None) == 10,
{
    text::lemma_dec_reads_back(n);
}

/// A setting that is no number counts as none: the first day of the month, ten o'clock.
pub proof fn law_billing_time_without_number(t: Seq<char>, i: int)
    requires
        0 <= i < text::trimmed(t).len(),
        !('0' <= text::trimmed(t)[i] <= '9'),
        text::trimmed(t)[i] != '+',
    ensures
        day_setting(Some(t)) == 1,
        hour_setting(Some(t)) == 10,
{
    let s = text::trimmed(t);
    if s[0] == '+' {
        assert(s.drop_first()[i - 1] == s[i]);
    }
}

/// A day that is to be billed on exists in every month, and an hour in every day.
pub proof fn law_billing_time_exists(v: Option<Seq<char>>)
    ensures
        1 <= day_setting(v) <= 28,
        0 <= hour_setting(v) <= 23,
{
}

/// The pattern for invoice numbers is what the setting says without the white space around it; where
/// it says nothing, customer, year, month and running number with hyphens between them.
pub proof fn law_pattern_setting(t: Seq<char>)
    ensures
        text::trimmed(t).len() > 0 ==> pattern_setting(Some(t)) == text::trimmed(t),
        text::trimmed(t).len() == 0 ==> pattern_setting(Some(t)) == pattern_setting(None),
        pattern_setting(None) == "INV-{KEY}-{YYYY}-{MM}-{SEQ}"@,
{
}

proof fn lemma_mark_free(s: Seq<char>, p: Seq<char>, at: int)
    requires
        p.len() >= 2,
        p[0] == '{',
        forall|i: int| 0 <= i < s.len() && i != at ==> s[i] != '{',
        0 <= at && at + 1 < s.len() ==> s[at + 1] != p[1],
    ensures
        text::find_from(s, p, 0) is None,
{
    text::lemma_find_from(s, p, 0);
    if let Some(k) = text::find_from(s, p, 0) {
        let part = s.subrange(k, k + p.len());
        assert(part[0] == '{' && part[1] == p[1]);
        assert(s[k] == '{' && s[k + 1] == p[1]);
    }
}

proof fn lemma_mark_filled(a: Seq<char>, p: Seq<char>, b: Seq<char>, w: Seq<char>)
    requires
        p.len() >= 2,
        p[0] == '{',
        forall|i: int| 1 <= i < p.len() ==> p[i] != '{',
        forall|i: int| 0 <= i < a.len() ==> a[i] != '{',
        forall|i: int| 0 <= i < b.len() ==> b[i] != '{',
    ensures
        text::replaced(a + p + b, p, w) == a + w + b,
{
    let s = a + p + b;
    assert forall|j: int| 0 <= j < a.len() implies !text::occurs_at(s, p, j) by {
        if text::occurs_at(s, p, j) {
            assert(s.subrange(j, j + p.len())[0] == '{');
            assert(s[j] == a[j]);
        }
    }
    lemma_mark_free(b, p, -1);
    text::law_replaced(a, p, b, w);
}

/// A pattern with one placeholder gives the number with that one thing in its place, and a pattern
/// without any is the number.
pub proof fn law_pattern_filled(
    a: Seq<char>,
    b: Seq<char>,
    key: Seq<char>,
    year: int,
    month: int,
    seq: int,
)
    requires
        forall|i: int| 0 <= i < a.len() ==> a[i] != '{',
        forall|i: int| 0 <= i < b.len() ==> b[i] != '{',
        forall|i: int| 0 <= i < key.len() ==> key[i] != '{',
        0 <= year,
        0 <= month,
        0 <= seq,
    ensures
        invoice_no(a, key, year, month, seq) == a,
        invoice_no(a + "{KEY}"@ + b, key, year, month, seq) == a + key + b,
        invoice_no(a + "{YYYY}"@ + b, key, year, month, seq) == a + text::dec_padded(year, 4) + b,
        invoice_no(a + "{MM}"@ + b, key, year, month, seq) == a + text::dec_padded(month, 2) + b,
        invoice_no(a + "{SEQ}"@ + b, key, year, month, seq) == a + text::dec_padded(seq, 4) + b,
{
    reveal_strlit("{KEY}");
    reveal_strlit("{YYYY}");
    reveal_strlit("{MM}");
    reveal_strlit("{SEQ}");
    lemma_padded_reads_back(year, 4);
    lemma_padded_reads_back(month, 2);
    lemma_padded_reads_back(seq, 4);
    let at = a.len() as int;
    lemma_nothing_to_fill(a, key, year, month, seq);
    let s = a + "{KEY}"@ + b;
    lemma_mark_filled(a, "{KEY}"@, b, key);
    lemma_nothing_to_fill(a + key + b, key, year, month, seq);
    assert(invoice_no(s, key, year, month, seq) == a + key + b);
    let s = a + "{YYYY}"@ + b;
    let y = text::dec_padded(year, 4);
    lemma_mark_free(s, "{KEY}"@, at);
    text::law_replaced(a, "{KEY}"@, s, key);
    lemma_mark_filled(a, "{YYYY}"@, b, y);
    lemma_nothing_to_fill(a + y + b, key, year, month, seq);
    assert(invoice_no(s, key, year, month, seq) == a + y + b);
    let s = a + "{MM}"@ + b;
    let m = text::dec_padded(month, 2);
    lemma_mark_free(s, "{KEY}"@, at);
    text::law_replaced(a, "{KEY}"@, s, key);
    lemma_mark_free(s, "{YYYY}"@, at);
    text::law_replaced(a, "{YYYY}"@, s, y);
    lemma_mark_filled(a, "{MM}"@, b, m);
    lemma_nothing_to_fill(a + m + b, key, year, month, seq);
    assert(invoice_no(s, key, year, month, seq) == a + m + b);
    let s = a + "{SEQ}"@ + b;
    let q = text::dec_padded(seq, 4);
    lemma_mark_free(s, "{KEY}"@, at);
    text::law_replaced(a, "{KEY}"@, s, key);
    lemma_mark_free(s, "{YYYY}"@, at);
    text::law_replaced(a, "{YYYY}"@, s, y);
    lemma_mark_free(s, "{MM}"@, at);
    text::law_replaced(a, "{MM}"@, s, m);
    lemma_mark_filled(a, "{SEQ}"@, b, q);
    assert(invoice_no(s, key, year, month, seq) == a + q + b);
}

proof fn lemma_nothing_to_fill(s: Seq<char>, key: Seq<char>, year: int, month: int, seq: int)
    requires
        forall|i: int| 0 <= i < s.len() ==> s[i] != '{',
    ensures
        invoice_no(s, key, year, month, seq) == s,
        text::replaced(s, "{KEY}"@, key) == s,
        text::replaced(s, "{YYYY}"@, text::dec_padded(year, 4)) == s,
        text::replaced(s, "{MM}"@, text::dec_padded(month, 2)) == s,
        text::replaced(s, "{SEQ}"@, text::dec_padded(seq, 4)) == s,
{
    reveal_strlit("{KEY}");
    reveal_strlit("{YYYY}");
    reveal_strlit("{MM}");
    reveal_strlit("{SEQ}");
    lemma_mark_free(s, "{KEY}"@, -1);
    lemma_mark_free(s, "{YYYY}"@, -1);
    lemma_mark_free(s, "{MM}"@, -1);
    lemma_mark_free(s, "{SEQ}"@, -1);
    text::law_replaced(s, "{KEY}"@, s, key);
    text::law_replaced(s, "{YYYY}"@, s, text::dec_padded(year, 4));
    text::law_replaced(s, "{MM}"@, s, text::dec_padded(month, 2));
    text::law_replaced(s, "{SEQ}"@, s, text::dec_padded(seq, 4));
}

/// What sequences and months are called.
pub proof fn law_names(key: Seq<char>, year: int, month: int)
    ensures
        sequence_name(key, year, month) == "invoice_no_"@ + key + "_"@ + text::dec_padded(year, 4)
            + "_"@ + text::dec_padded(month, 2),
        month_text(year, month) == text::dec_padded(year, 4) + "-"@ + text::dec_padded(month, 2),
{
}

} // verus!
