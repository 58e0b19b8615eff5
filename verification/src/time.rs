use vstd::prelude::*;
use vstd::string::*;

verus! {

/// The character of a decimal digit `d < 10`.
pub open spec fn digit_char(d: nat) -> char {
    if d == 0 { '0' }
    else if d == 1 { '1' }
    else if d == 2 { '2' }
    else if d == 3 { '3' }
    else if d == 4 { '4' }
    else if d == 5 { '5' }
    else if d == 6 { '6' }
    else if d == 7 { '7' }
    else if d == 8 { '8' }
    else { '9' }
}

/// The decimal representation of `n`, most significant digit first, without leading zeros.
pub open spec fn decimal(n: nat) -> Seq<char>
    decreases n,
{
    if n < 10 {
        seq![digit_char(n)]
    } else {
        decimal(n / 10).push(digit_char(n % 10))
    }
}

fn digit_str(d: u64) -> (s: &'static str)
    requires
        d < 10,
    ensures
        s@ == seq![digit_char(d as nat)],
{
    if d == 0 {
        proof { reveal_strlit("0"); }
        "0"
    } else if d == 1 {
        proof { reveal_strlit("1"); }
        "1"
    } else if d == 2 {
        proof { reveal_strlit("2"); }
        "2"
    } else if d == 3 {
        proof { reveal_strlit("3"); }
        "3"
    } else if d == 4 {
        proof { reveal_strlit("4"); }
        "4"
    } else if d == 5 {
        proof { reveal_strlit("5"); }
        "5"
    } else if d == 6 {
        proof { reveal_strlit("6"); }
        "6"
    } else if d == 7 {
        proof { reveal_strlit("7"); }
        "7"
    } else if d == 8 {
        proof { reveal_strlit("8"); }
        "8"
    } else {
        proof { reveal_strlit("9"); }
        "9"
    }
}

/// Appends the decimal representation of `n` to `out`.
fn push_decimal(out: &mut String, n: u64)
    ensures
        final(out)@ == old(out)@ + decimal(n as nat),
    decreases n,
{
    if n >= 10 {
        push_decimal(out, n / 10);
    }
    out.append(digit_str(n % 10));
}


/// The text of one component of a duration: the number followed by its unit letter,
/// or nothing when the number is zero.
pub open spec fn component_text(n: nat, unit: char) -> Seq<char> {
    if n > 0 {
        decimal(n).push(unit)
    } else {
        seq![]
    }
}

/// How a number of seconds is shown: whole hours, then the remaining whole minutes, then
/// (unless left out) the remaining seconds, each as `<number><unit>` and each omitted when zero.
/// For example 5425 seconds is `1h30m25s`, and zero seconds is the empty text.
pub open spec fn duration_text(t: nat, with_seconds: bool) -> Seq<char> {
    let hours = t / 3600;
    let minutes = (t % 3600) / 60;
    let seconds = (t % 3600) % 60;
    component_text(hours, 'h') + component_text(minutes, 'm') + if with_seconds {
        component_text(seconds, 's')
    } else {
        seq![]
    }
}

fn unit_str(unit: char) -> (s: &'static str)
    requires
        unit == 'h' || unit == 'm' || unit == 's',
    ensures
        s@ == seq![unit],
{
    if unit == 'h' {
        proof { reveal_strlit("h"); }
        "h"
    } else if unit == 'm' {
        proof { reveal_strlit("m"); }
        "m"
    } else {
        proof { reveal_strlit("s"); }
        "s"
    }
}

fn push_component(out: &mut String, n: u64, unit: char)
    requires
        unit == 'h' || unit == 'm' || unit == 's',
    ensures
        final(out)@ == old(out)@ + component_text(n as nat, unit),
{
    if n > 0 {
        push_decimal(out, n);
        out.append(unit_str(unit));
    } else {
        assert(old(out)@ + component_text(n as nat, unit) =~= old(out)@);
    }
}

/// The decimal text of a number.
pub(crate) fn decimal_string(n: u64) -> (s: String)
    ensures
        s@ == decimal(n as nat),
{
    let mut out = String::new();
    push_decimal(&mut out, n);
    assert(out@ =~= decimal(n as nat));
    out
}

/// Shows a number of seconds as hours, minutes and seconds, as `duration_text` describes.
pub(crate) fn format_duration(time: u64, with_seconds: bool) -> (s: String)
    ensures
        s@ == duration_text(time as nat, with_seconds),
{
    let hours = time / 3600;
    let rest = time % 3600;
    let minutes = rest / 60;
    let seconds = rest % 60;
    let mut out = String::new();
    push_component(&mut out, hours, 'h');
    push_component(&mut out, minutes, 'm');
    if with_seconds {
        push_component(&mut out, seconds, 's');
    }
    assert(out@ =~= duration_text(time as nat, with_seconds));
    out
}

/// Shows a number of seconds as text such as `1h30m25s`: the whole hours, the remaining whole
/// minutes and the remaining seconds, each followed by its unit and left out when zero.
pub fn create_time_string(time: u64) -> (s: String)
    ensures
        s@ == duration_text(time as nat, true),
{
    format_duration(time, true)
}


/// An ASCII decimal digit.
pub open spec fn is_digit(c: char) -> bool {
    48 <= (c as u32) <= 57
}

/// The value of an ASCII decimal digit.
pub open spec fn digit_value(c: char) -> nat {
    ((c as u32) - 48) as nat
}

/// The seconds that one unit of a time component stands for: an hour for `h`, a minute for
/// `m`, and one second for any other letter.
pub open spec fn unit_seconds(unit: char) -> nat {
    if unit == 'h' {
        3600
    } else if unit == 'm' {
        60
    } else {
        1
    }
}

/// Reads a time text from left to right, as the parser does: digits build up a number, and each
/// other character closes that number, adding it times the character's unit to the total.
/// The result is the number under construction and the total so far.
spec fn scan_time(s: Seq<char>) -> (nat, nat)
    decreases s.len(),
{
    if s.len() == 0 {
        (0, 0)
    } else {
        let (pending, total) = scan_time(s.drop_last());
        let c = s.last();
        if is_digit(c) {
            (pending * 10 + digit_value(c), total)
        } else {
            (0, total + pending * unit_seconds(c))
        }
    }
}

/// The total that reading a whole time text from left to right gives.
spec fn scanned_seconds(s: Seq<char>) -> nat {
    scan_time(s).1
}

/// Every character is an ASCII decimal digit.
pub open spec fn all_digits(s: Seq<char>) -> bool {
    forall|i: int| 0 <= i < s.len() ==> is_digit(#[trigger] s[i])
}

/// Text matched by `([0-9]+<unit>)?`: empty, or one or more digits followed by `unit`.
pub open spec fn optional_component(s: Seq<char>, unit: char) -> bool {
    s.len() == 0 || (s.len() >= 2 && s.last() == unit && all_digits(s.drop_last()))
}

/// `s` splits at `i` and `j` into an hours part `s[0..i]`, a minutes part `s[i..j]` and a
/// seconds part `s[j..]`, each matched by `([0-9]+<unit>)?` with its own unit.
pub open spec fn splits_at(s: Seq<char>, i: int, j: int) -> bool {
    0 <= i <= j <= s.len() && optional_component(s.subrange(0, i), 'h') && optional_component(
        s.subrange(i, j),
        'm',
    ) && optional_component(s.subrange(j, s.len() as int), 's')
}

/// Text matched by `^([0-9]+h)?([0-9]+m)?([0-9]+s)?$`: optional hours, minutes and seconds,
/// in that order, each a run of digits followed by its unit letter.
pub open spec fn is_time_format(s: Seq<char>) -> bool {
    exists|i: int, j: int| #[trigger] splits_at(s, i, j)
}

/// The number of seconds a time text such as `1h30m25s` stands for: its hours times 3600, plus
/// its minutes times 60, plus its seconds, where an absent part counts zero. (A time text
/// splits in only one way; see `lemma_time_value_of_components`.)
pub open spec fn time_value(s: Seq<char>) -> nat {
    let (i, j) = choose|i: int, j: int| splits_at(s, i, j);
    3600 * component_number(s.subrange(0, i)) + 60 * component_number(s.subrange(i, j))
        + component_number(s.subrange(j, s.len() as int))
}

/// The regular expression that time texts must match.
pub open spec fn time_pattern() -> Seq<char> {
    "^([0-9]+h)?([0-9]+m)?([0-9]+s)?$"@
}

/// Compiles `pattern` with `regex::Regex::new` and tests `text` against it with
/// `Regex::is_match`; `None` when the pattern does not compile.
/// Claimed: for the time pattern, which compiles, the answer is whether `text` is in the
/// language that the pattern denotes under the crate's documented syntax (anchored at both
/// ends, ASCII digit classes). Nothing is claimed for other patterns.
#[verifier::external_body]
fn pattern_matches(pattern: &str, text: &str) -> (r: Option<bool>)
    ensures
        pattern@ == time_pattern() ==> r == Some(is_time_format(text@)),
{
    match regex::Regex::new(pattern) {
        Ok(re) => Some(re.is_match(text)),
        Err(_) => None,
    }
}

proof fn lemma_time_format_ends_with_unit(s: Seq<char>)
    requires
        is_time_format(s),
    ensures
        s.len() == 0 || !is_digit(s.last()),
{
    let (i, j) = choose|i: int, j: int| splits_at(s, i, j);
    if s.len() > 0 {
        if j < s.len() {
            assert(s.last() == s.subrange(j, s.len() as int).last());
        } else if i < j {
            assert(s.last() == s.subrange(i, j).last());
        } else {
            assert(s.last() == s.subrange(0, i).last());
        }
    }
}

/// Once a text ends with a unit, nothing read along the way exceeds its final total.
proof fn lemma_scan_bounded(s: Seq<char>, k: int)
    requires
        0 <= k <= s.len(),
        s.len() == 0 || !is_digit(s.last()),
    ensures
        scan_time(s.take(k)).0 + scan_time(s.take(k)).1 <= scanned_seconds(s),
    decreases s.len() - k,
{
    if k == s.len() {
        assert(s.take(k) =~= s);
    } else {
        lemma_scan_bounded(s, k + 1);
        assert(s.take(k + 1).drop_last() =~= s.take(k));
        let pending = scan_time(s.take(k)).0;
        let c = s[k];
        if !is_digit(c) {
            assert(pending * unit_seconds(c) >= pending) by (nonlinear_arith)
                requires
                    unit_seconds(c) >= 1,
            ;
        }
    }
}

/// Parses a time text such as `1h30m`, `30m`, `15m20s` or `60s` into seconds.
/// The text must match `^([0-9]+h)?([0-9]+m)?([0-9]+s)?$` (the empty text included, which is
/// zero seconds); otherwise, and when the total does not fit in a `u64`, the result is `Err`.
pub fn parse_time_string(time: &String) -> (r: Result<u64, ()>)
    ensures
        r is Ok <==> is_time_format(time@) && time_value(time@) <= u64::MAX,
        r matches Ok(v) ==> v == time_value(time@),
{
    let text = time.as_str();
    match pattern_matches("^([0-9]+h)?([0-9]+m)?([0-9]+s)?$", text) {
        Some(true) => {},
        _ => {
            return Err(());
        },
    }
    proof {
        lemma_time_format_ends_with_unit(text@);
        lemma_time_value_is_scanned(text@);
    }
    let n = text.unicode_len();
    let mut pending: u64 = 0;
    let mut total: u64 = 0;
    let mut k: usize = 0;
    while k < n
        invariant
            n == text@.len(),
            text@ == time@,
            is_time_format(text@),
            text@.len() == 0 || !is_digit(text@.last()),
            time_value(text@) == scanned_seconds(text@),
            k <= n,
            (pending as nat, total as nat) == scan_time(text@.take(k as int)),
        decreases n - k,
    {
        let c = text.get_char(k);
        proof {
            assert(text@.take(k + 1).drop_last() =~= text@.take(k as int));
            lemma_scan_bounded(text@, k + 1);
        }
        let code = c as u32;
        if 48 <= code && code <= 57 {
            let d = (code - 48) as u64;
            match pending.checked_mul(10) {
                Some(p) => match p.checked_add(d) {
                    Some(q) => {
                        pending = q;
                    },
                    None => {
                        return Err(());
                    },
                },
                None => {
                    return Err(());
                },
            }
        } else {
            let scale: u64 = if c == 'h' {
                3600
            } else if c == 'm' {
                60
            } else {
                1
            };
            proof {
                assert(pending * scale >= pending) by (nonlinear_arith)
                    requires
                        scale >= 1,
                ;
            }
            match pending.checked_mul(scale) {
                Some(p) => match total.checked_add(p) {
                    Some(q) => {
                        total = q;
                        pending = 0;
                    },
                    None => {
                        return Err(());
                    },
                },
                None => {
                    return Err(());
                },
            }
        }
        k = k + 1;
    }
    assert(text@.take(n as int) =~= text@);
    Ok(total)
}


/// The number written by a run of ASCII digits.
pub open spec fn digits_value(s: Seq<char>) -> nat
    decreases s.len(),
{
    if s.len() == 0 {
        0
    } else {
        digits_value(s.drop_last()) * 10 + digit_value(s.last())
    }
}

/// The number of units in one optional component `([0-9]+<unit>)?`: zero when it is empty.
pub open spec fn component_number(s: Seq<char>) -> nat {
    if s.len() == 0 {
        0
    } else {
        digits_value(s.drop_last())
    }
}

proof fn lemma_scan_digits(d: Seq<char>)
    requires
        all_digits(d),
    ensures
        scan_time(d) == (digits_value(d), 0nat),
    decreases d.len(),
{
    if d.len() > 0 {
        assert(all_digits(d.drop_last()));
        lemma_scan_digits(d.drop_last());
        assert(is_digit(d[d.len() - 1]));
    }
}

proof fn lemma_scan_append(a: Seq<char>, b: Seq<char>)
    requires
        scan_time(a).0 == 0,
    ensures
        scan_time(a + b) == (scan_time(b).0, scan_time(a).1 + scan_time(b).1),
    decreases b.len(),
{
    if b.len() == 0 {
        assert(a + b =~= a);
    } else {
        lemma_scan_append(a, b.drop_last());
        assert((a + b).drop_last() =~= a + b.drop_last());
        assert((a + b).last() == b.last());
    }
}

proof fn lemma_scan_component(g: Seq<char>, unit: char)
    requires
        optional_component(g, unit),
        !is_digit(unit),
    ensures
        scan_time(g) == (0nat, component_number(g) * unit_seconds(unit)),
{
    if g.len() > 0 {
        lemma_scan_digits(g.drop_last());
    }
}

proof fn lemma_scanned_of_components(s: Seq<char>, i: int, j: int)
    requires
        splits_at(s, i, j),
    ensures
        scanned_seconds(s) == 3600 * component_number(s.subrange(0, i)) + 60 * component_number(
            s.subrange(i, j),
        ) + component_number(s.subrange(j, s.len() as int)),
{
    let h = s.subrange(0, i);
    let m = s.subrange(i, j);
    let sec = s.subrange(j, s.len() as int);
    lemma_scan_component(h, 'h');
    lemma_scan_component(m, 'm');
    lemma_scan_component(sec, 's');
    lemma_scan_append(h, m);
    lemma_scan_append(h + m, sec);
    assert(h + m + sec =~= s);
    assert(scan_time(h).1 == component_number(h) * 3600);
    assert(scan_time(m).1 == component_number(m) * 60);
    assert(scan_time(sec).1 == component_number(sec));
    assert(scanned_seconds(s) == scan_time(h + m + sec).1);
}

/// Whichever way a time text is split into hours, minutes and seconds, the parts give its
/// value: it is worth its hours times 3600, plus its minutes times 60, plus its seconds.
pub proof fn lemma_time_value_of_components(s: Seq<char>, i: int, j: int)
    requires
        splits_at(s, i, j),
    ensures
        time_value(s) == 3600 * component_number(s.subrange(0, i)) + 60 * component_number(
            s.subrange(i, j),
        ) + component_number(s.subrange(j, s.len() as int)),
{
    lemma_scanned_of_components(s, i, j);
    let (a, b) = choose|a: int, b: int| splits_at(s, a, b);
    lemma_scanned_of_components(s, a, b);
}

/// The parser's left-to-right total is the value of the time text.
proof fn lemma_time_value_is_scanned(s: Seq<char>)
    requires
        is_time_format(s),
    ensures
        time_value(s) == scanned_seconds(s),
{
    let (a, b) = choose|a: int, b: int| splits_at(s, a, b);
    lemma_scanned_of_components(s, a, b);
}

pub(crate) proof fn lemma_digit_char(d: nat)
    requires
        d < 10,
    ensures
        is_digit(digit_char(d)),
        digit_value(digit_char(d)) == d,
{
}

pub(crate) proof fn lemma_decimal_digits(n: nat)
    ensures
        decimal(n).len() >= 1,
        all_digits(decimal(n)),
        digits_value(decimal(n)) == n,
    decreases n,
{
    lemma_digit_char(n % 10);
    assert(n == (n / 10) * 10 + n % 10) by (nonlinear_arith);
    if n < 10 {
        assert(decimal(n).drop_last() =~= Seq::<char>::empty());
        assert(n % 10 == n);
        assert(digits_value(decimal(n)) == digits_value(Seq::<char>::empty()) * 10 + digit_value(digit_char(n % 10)));
    } else {
        lemma_decimal_digits(n / 10);
        let d = decimal(n);
        assert(d.drop_last() =~= decimal(n / 10));
        assert(d.last() == digit_char(n % 10));
        assert(digits_value(d) == digits_value(decimal(n / 10)) * 10 + digit_value(digit_char(n % 10)));
        assert forall|i: int| 0 <= i < d.len() implies is_digit(#[trigger] d[i]) by {
            if i < d.len() - 1 {
                assert(d[i] == decimal(n / 10)[i]);
            }
        }
    }
}

proof fn lemma_component_text(n: nat, unit: char)
    ensures
        optional_component(component_text(n, unit), unit),
        component_number(component_text(n, unit)) == n,
{
    if n > 0 {
        lemma_decimal_digits(n);
        assert(component_text(n, unit).drop_last() =~= decimal(n));
    }
}

/// Showing a number of seconds and reading the text back gives the same number: the text
/// matches the time pattern and is worth exactly `t` seconds.
pub proof fn lemma_time_string_round_trip(t: nat)
    ensures
        is_time_format(duration_text(t, true)),
        time_value(duration_text(t, true)) == t,
{
    let hours = t / 3600;
    let minutes = (t % 3600) / 60;
    let seconds = (t % 3600) % 60;
    let h = component_text(hours, 'h');
    let m = component_text(minutes, 'm');
    let sec = component_text(seconds, 's');
    let s = duration_text(t, true);
    lemma_component_text(hours, 'h');
    lemma_component_text(minutes, 'm');
    lemma_component_text(seconds, 's');
    let i = h.len() as int;
    let j = (h.len() + m.len()) as int;
    assert(s =~= h + m + sec);
    assert(s.subrange(0, i) =~= h);
    assert(s.subrange(i, j) =~= m);
    assert(s.subrange(j, s.len() as int) =~= sec);
    assert(splits_at(s, i, j));
    lemma_time_value_of_components(s, i, j);
    assert(t == 3600 * hours + 60 * minutes + seconds) by (nonlinear_arith)
        requires
            hours == t / 3600,
            minutes == (t % 3600) / 60,
            seconds == (t % 3600) % 60,
    ;
}


/// A part of a time text as `create_time_string` writes it: absent, or a positive number
/// written without leading zeros (below 60 when `below_sixty`), followed by its unit.
pub open spec fn canonical_component(g: Seq<char>, below_sixty: bool) -> bool {
    g.len() == 0 || (component_number(g) > 0 && g.drop_last() == decimal(component_number(g)) && (
    below_sixty ==> component_number(g) < 60))
}

/// A time text in the form that `create_time_string` writes: no part is zero, no number has
/// leading zeros, and the minutes and the seconds are each below 60.
pub open spec fn is_canonical_time(s: Seq<char>) -> bool {
    exists|i: int, j: int|
        #![trigger splits_at(s, i, j)]
        splits_at(s, i, j) && canonical_component(s.subrange(0, i), false) && canonical_component(
            s.subrange(i, j),
            true,
        ) && canonical_component(s.subrange(j, s.len() as int), true)
}

proof fn lemma_canonical_component_text(g: Seq<char>, unit: char, below_sixty: bool)
    requires
        optional_component(g, unit),
        canonical_component(g, below_sixty),
    ensures
        component_text(component_number(g), unit) == g,
{
    if g.len() > 0 {
        assert(g =~= decimal(component_number(g)).push(unit));
    }
}

proof fn lemma_duration_text_canonical(t: nat)
    ensures
        is_canonical_time(duration_text(t, true)),
{
    let hours = t / 3600;
    let minutes = (t % 3600) / 60;
    let seconds = (t % 3600) % 60;
    let h = component_text(hours, 'h');
    let m = component_text(minutes, 'm');
    let sec = component_text(seconds, 's');
    let s = duration_text(t, true);
    lemma_component_text(hours, 'h');
    lemma_component_text(minutes, 'm');
    lemma_component_text(seconds, 's');
    if hours > 0 {
        assert(h.drop_last() =~= decimal(hours));
    }
    if minutes > 0 {
        assert(m.drop_last() =~= decimal(minutes));
    }
    if seconds > 0 {
        assert(sec.drop_last() =~= decimal(seconds));
    }
    let i = h.len() as int;
    let j = (h.len() + m.len()) as int;
    assert(s =~= h + m + sec);
    assert(s.subrange(0, i) =~= h);
    assert(s.subrange(i, j) =~= m);
    assert(s.subrange(j, s.len() as int) =~= sec);
    assert(splits_at(s, i, j));
}

/// `create_time_string` writes the canonical form of every time text: for a text that matches
/// the time pattern, showing its value gives the text back exactly when the text is canonical
/// (no zero part, no leading zeros, minutes and seconds below 60). So `90m` shows as `1h30m`
/// and `0h60s` as `1m`.
pub proof fn lemma_canonical_form(s: Seq<char>)
    requires
        is_time_format(s),
    ensures
        duration_text(time_value(s), true) == s <==> is_canonical_time(s),
{
    if duration_text(time_value(s), true) == s {
        lemma_duration_text_canonical(time_value(s));
    }
    if is_canonical_time(s) {
        let (i, j) = choose|i: int, j: int|
            #![trigger splits_at(s, i, j)]
            splits_at(s, i, j) && canonical_component(s.subrange(0, i), false)
                && canonical_component(s.subrange(i, j), true) && canonical_component(
                s.subrange(j, s.len() as int),
                true,
            );
        lemma_canonical_shows_itself(s, i, j);
    }
}

proof fn lemma_split_seconds(t: nat, hours: nat, minutes: nat, seconds: nat)
    requires
        t == 3600 * hours + 60 * minutes + seconds,
        minutes < 60,
        seconds < 60,
    ensures
        t / 3600 == hours,
        (t % 3600) / 60 == minutes,
        (t % 3600) % 60 == seconds,
{
    assert(0 <= 60 * minutes + seconds < 3600) by (nonlinear_arith)
        requires
            minutes < 60,
            seconds < 60,
    ;
    vstd::arithmetic::div_mod::lemma_fundamental_div_mod_converse(
        t as int,
        3600,
        hours as int,
        (60 * minutes + seconds) as int,
    );
    vstd::arithmetic::div_mod::lemma_fundamental_div_mod_converse(
        (60 * minutes + seconds) as int,
        60,
        minutes as int,
        seconds as int,
    );
}

proof fn lemma_canonical_shows_itself(s: Seq<char>, i: int, j: int)
    requires
        splits_at(s, i, j),
        canonical_component(s.subrange(0, i), false),
        canonical_component(s.subrange(i, j), true),
        canonical_component(s.subrange(j, s.len() as int), true),
    ensures
        duration_text(time_value(s), true) == s,
{
    let h = s.subrange(0, i);
    let m = s.subrange(i, j);
    let sec = s.subrange(j, s.len() as int);
    lemma_time_value_of_components(s, i, j);
    lemma_split_seconds(time_value(s), component_number(h), component_number(m), component_number(sec));
    lemma_canonical_component_text(h, 'h', false);
    lemma_canonical_component_text(m, 'm', true);
    lemma_canonical_component_text(sec, 's', true);
    assert(h + m + sec =~= s);
}

/// Shown without its seconds, a number of seconds reads back as its whole minutes: the text
/// matches the time pattern and is worth `t` less the seconds beyond the last whole minute.
pub proof fn lemma_time_string_without_seconds(t: nat)
    ensures
        is_time_format(duration_text(t, false)),
        time_value(duration_text(t, false)) == t - t % 60,
{
    let hours = t / 3600;
    let minutes = (t % 3600) / 60;
    let h = component_text(hours, 'h');
    let m = component_text(minutes, 'm');
    let s = duration_text(t, false);
    lemma_component_text(hours, 'h');
    lemma_component_text(minutes, 'm');
    let i = h.len() as int;
    let j = (h.len() + m.len()) as int;
    assert(s =~= h + m);
    assert(s.subrange(0, i) =~= h);
    assert(s.subrange(i, j) =~= m);
    assert(s.subrange(j, s.len() as int) =~= Seq::<char>::empty());
    assert(splits_at(s, i, j));
    lemma_time_value_of_components(s, i, j);
    assert(t - t % 60 == 3600 * hours + 60 * minutes) by (nonlinear_arith)
        requires
            hours == t / 3600,
            minutes == (t % 3600) / 60,
    ;
}

#[verifier::external_type_specification]
#[verifier::external_body]
pub struct ExSystemTime(std::time::SystemTime);

/// Reads the system clock with `std::time::SystemTime::now`. Nothing is claimed of the
/// reading: it depends on the time at which it is taken.
#[verifier::external_body]
fn clock_now() -> std::time::SystemTime {
    std::time::SystemTime::now()
}

/// `SystemTime::duration_since(UNIX_EPOCH)`: the time elapsed from the Unix epoch to `t`, or
/// `None` where `t` lies before the epoch. Nothing is claimed of the value.
#[verifier::external_body]
fn elapsed_since_epoch(t: &std::time::SystemTime) -> Option<std::time::Duration> {
    match t.duration_since(std::time::UNIX_EPOCH) {
        Ok(d) => Some(d),
        Err(_) => None,
    }
}

/// `Duration::as_secs`: the whole seconds of a duration. Nothing is claimed of the value, since
/// a duration is opaque here.
#[verifier::external_body]
fn whole_seconds(d: &std::time::Duration) -> u64 {
    d.as_secs()
}

/// The current time in whole seconds since the Unix epoch, or `None` when the system clock
/// reads a time before the epoch. The reading depends on when it is taken, so no clause
/// states it.
pub fn get_time() -> Option<u64> {
    let now = clock_now();
    match elapsed_since_epoch(&now) {
        Some(d) => Some(whole_seconds(&d)),
        None => None,
    }
}

} // verus!
