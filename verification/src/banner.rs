//! What the version banner of the utility says: the model of the version reader.

use crate::text::{decimal_of, digit_char, digits_of};
use vstd::prelude::*;

verus! {

/// Where the version reader stands after some prefix of the banner.
pub struct Banner {
    /// Whether a `v` has been met: the version is what follows it.
    pub entered: bool,
    /// Whether the space that ends the version has been met.
    pub over: bool,
    /// The characters of the field that is still open.
    pub field: Seq<char>,
    /// The fields that a dot has closed, first one first.
    pub fields: Seq<Seq<char>>,
}

/// The reader before any character.
pub open spec fn banner_start() -> Banner {
    Banner { entered: false, over: false, field: Seq::empty(), fields: Seq::empty() }
}

/// One character further. Nothing counts before the first `v`, nor after the space that
/// ends the version. In between a dot closes the open field, a `v` is passed over, and
/// every other character joins the open field.
pub open spec fn banner_step(s: Banner, c: char) -> Banner {
    if s.over {
        s
    } else if c == 'v' {
        Banner { entered: true, ..s }
    } else if !s.entered {
        s
    } else if c == '.' {
        Banner { fields: s.fields.push(s.field), field: Seq::empty(), ..s }
    } else if c == ' ' {
        Banner { over: true, ..s }
    } else {
        Banner { field: s.field.push(c), ..s }
    }
}

/// The reader after all of `text`, entered at `from`.
pub open spec fn banner_run(from: Banner, text: Seq<char>) -> Banner
    decreases text.len(),
{
    if text.len() == 0 {
        from
    } else {
        banner_step(banner_run(from, text.drop_last()), text.last())
    }
}

/// The fields of the version in a banner: the closed ones and the one that the space, or
/// the end of the banner, has left open. A banner without a `v` has one empty field.
pub open spec fn banner_fields(text: Seq<char>) -> Seq<Seq<char>> {
    let s = banner_run(banner_start(), text);
    s.fields.push(s.field)
}

/// Whether `c` is one of the ten decimal digits.
pub open spec fn is_digit(c: char) -> bool {
    '0' <= c && c <= '9'
}

/// What a decimal digit counts for.
pub open spec fn digit_value(c: char) -> nat {
    if is_digit(c) {
        (c as u32 - '0' as u32) as nat
    } else {
        0
    }
}

/// Whether the text holds decimal digits and nothing else.
pub open spec fn all_digits(s: Seq<char>) -> bool {
    forall|i: int| 0 <= i < s.len() ==> is_digit(#[trigger] s[i])
}

/// The number that a row of decimal digits writes.
pub open spec fn digits_value(s: Seq<char>) -> nat
    decreases s.len(),
{
    if s.len() == 0 {
        0
    } else {
        digits_value(s.drop_last()) * 10 + digit_value(s.last())
    }
}

/// The 32-bit number that a field writes, if it writes one: an optional sign, then at
/// least one decimal digit and nothing else, the whole within the range of `i32`.
pub open spec fn number_of(s: Seq<char>) -> Option<i32> {
    if s.len() == 0 {
        None
    } else {
        let signed = s[0] == '-' || s[0] == '+';
        let body = if signed {
            s.skip(1)
        } else {
            s
        };
        let size = digits_value(body);
        if body.len() == 0 || !all_digits(body) {
            None
        } else if s[0] == '-' {
            if size <= 0x8000_0000 {
                Some((-size) as i32)
            } else {
                None
            }
        } else {
            if size <= 0x7fff_ffff {
                Some(size as i32)
            } else {
                None
            }
        }
    }
}

/// The version that a banner gives: the numbers of its fields, provided that there are
/// exactly three of them and that each writes a number.
pub open spec fn version_of(text: Seq<char>) -> Option<(i32, i32, i32)> {
    let fields = banner_fields(text);
    if fields.len() == 3 && number_of(fields[0]) is Some && number_of(fields[1]) is Some
        && number_of(fields[2]) is Some {
        Some((number_of(fields[0])->0, number_of(fields[1])->0, number_of(fields[2])->0))
    } else {
        None
    }
}

/// Whether version `v` is later than `(major, minor, patch)`, the three numbers compared
/// in turn.
pub open spec fn later_than(v: (i32, i32, i32), major: i32, minor: i32, patch: i32) -> bool {
    v.0 > major || (v.0 == major && v.1 > minor) || (v.0 == major && v.1 == minor && v.2
        > patch)
}

/// Running over two texts in turn is running over both at once.
pub proof fn lemma_banner_run_concat(from: Banner, a: Seq<char>, b: Seq<char>)
    ensures
        banner_run(from, a + b) == banner_run(banner_run(from, a), b),
    decreases b.len(),
{
    if b.len() == 0 {
        assert(a + b =~= a);
    } else {
        assert((a + b).drop_last() =~= a + b.drop_last());
        assert((a + b).last() == b.last());
        lemma_banner_run_concat(from, a, b.drop_last());
    }
}

/// Once the version is over, nothing that follows changes what was read.
pub proof fn lemma_banner_run_over(from: Banner, rest: Seq<char>)
    requires
        from.over,
    ensures
        banner_run(from, rest) == from,
    decreases rest.len(),
{
    if rest.len() > 0 {
        lemma_banner_run_over(from, rest.drop_last());
    }
}

/// The digits read so far never write more than the whole row does.
pub proof fn lemma_digits_value_prefix(s: Seq<char>, k: int)
    requires
        0 <= k <= s.len(),
    ensures
        digits_value(s.take(k)) <= digits_value(s),
    decreases s.len(),
{
    if k == s.len() {
        assert(s.take(k) =~= s);
    } else {
        lemma_digits_value_prefix(s.drop_last(), k);
        assert(s.drop_last().take(k) =~= s.take(k));
    }
}

/// The fields that are closed after a prefix of the banner stay what they are.
pub proof fn lemma_banner_fields_stay(text: Seq<char>, upto: int, k: int)
    requires
        0 <= upto <= text.len(),
        0 <= k < banner_run(banner_start(), text.take(upto)).fields.len(),
    ensures
        k < banner_run(banner_start(), text).fields.len(),
        banner_run(banner_start(), text).fields[k] == banner_run(
            banner_start(),
            text.take(upto),
        ).fields[k],
    decreases text.len() - upto,
{
    if upto == text.len() {
        assert(text.take(upto) =~= text);
    } else {
        assert(text.take(upto + 1).drop_last() =~= text.take(upto));
        lemma_banner_fields_stay(text, upto + 1, k);
    }
}

/// A closed field that writes no number leaves the banner without a version.
pub proof fn lemma_version_of_bad_field(text: Seq<char>, upto: int, k: int)
    requires
        0 <= upto <= text.len(),
        0 <= k < banner_run(banner_start(), text.take(upto)).fields.len(),
        number_of(banner_run(banner_start(), text.take(upto)).fields[k]) is None,
    ensures
        version_of(text) is None,
{
    lemma_banner_fields_stay(text, upto, k);
    assert(banner_fields(text)[k] == banner_run(banner_start(), text.take(upto)).fields[k]);
}

/// The digits that write a number are digits, at least one, and write that number.
pub proof fn lemma_digits_of_number(n: nat)
    ensures
        digits_of(n).len() > 0,
        all_digits(digits_of(n)),
        digits_value(digits_of(n)) == n,
    decreases n,
{
    let d = n % 10;
    assert(is_digit(digit_char(d)) && digit_value(digit_char(d)) == d);
    if n < 10 {
        assert(digits_of(n).drop_last() =~= Seq::<char>::empty());
        assert(digits_value(digits_of(n).drop_last()) == 0);
    } else {
        lemma_digits_of_number(n / 10);
        assert(digits_of(n).drop_last() =~= digits_of(n / 10));
    }
}

/// A number that is written in decimal is read as that number.
pub proof fn lemma_number_of_decimal(n: i32)
    ensures
        number_of(decimal_of(n as int)) == Some(n),
{
    if n < 0 {
        let size = (-n) as nat;
        lemma_digits_of_number(size);
        assert(decimal_of(n as int).skip(1) =~= digits_of(size));
    } else {
        lemma_digits_of_number(n as nat);
    }
}

/// Whether `c` is a character of a field: none of those that the version reader acts on.
pub open spec fn in_field(c: char) -> bool {
    c != 'v' && c != '.' && c != ' '
}

/// A banner that gives `version`: any text without a `v`, then a `v`, the three numbers
/// in decimal with dots between them, and then nothing more or a space and any text.
pub open spec fn banner_of(before: Seq<char>, version: (i32, i32, i32), after: Seq<char>) -> Seq<
    char,
> {
    before + seq!['v'] + decimal_of(version.0 as int) + seq!['.'] + decimal_of(version.1 as int)
        + seq!['.'] + decimal_of(version.2 as int) + after
}

/// Reading one character is one step.
proof fn lemma_banner_run_one(from: Banner, c: char)
    ensures
        banner_run(from, seq![c]) == banner_step(from, c),
{
    assert(seq![c].drop_last() =~= Seq::<char>::empty());
    assert(banner_run(from, seq![c].drop_last()) == from);
}

/// Before the first `v` nothing is read.
proof fn lemma_banner_run_before(from: Banner, text: Seq<char>)
    requires
        !from.entered,
        !from.over,
        forall|i: int| 0 <= i < text.len() ==> text[i] != 'v',
    ensures
        banner_run(from, text) == from,
    decreases text.len(),
{
    if text.len() > 0 {
        lemma_banner_run_before(from, text.drop_last());
    }
}

/// Behind the `v` the characters of a field join the open field.
proof fn lemma_banner_run_field(from: Banner, text: Seq<char>)
    requires
        from.entered,
        !from.over,
        forall|i: int| 0 <= i < text.len() ==> in_field(#[trigger] text[i]),
    ensures
        banner_run(from, text) == (Banner { field: from.field + text, ..from }),
    decreases text.len(),
{
    if text.len() == 0 {
        assert(from.field + text =~= from.field);
    } else {
        let init = text.drop_last();
        assert forall|i: int| 0 <= i < init.len() implies in_field(#[trigger] init[i]) by {
            assert(init[i] == text[i]);
        }
        lemma_banner_run_field(from, init);
        assert(in_field(text[text.len() - 1]));
        assert((from.field + init).push(text.last()) =~= from.field + text);
    }
}

/// A number in decimal holds characters of a field only.
proof fn lemma_decimal_in_field(n: int)
    ensures
        forall|i: int| 0 <= i < decimal_of(n).len() ==> in_field(#[trigger] decimal_of(n)[i]),
{
    let size = if n < 0 {
        (-n) as nat
    } else {
        n as nat
    };
    lemma_digits_of_number(size);
    assert forall|i: int| 0 <= i < decimal_of(n).len() implies in_field(
        #[trigger] decimal_of(n)[i],
    ) by {
        if n < 0 {
            if i > 0 {
                assert(decimal_of(n)[i] == digits_of(size)[i - 1]);
                assert(is_digit(digits_of(size)[i - 1]));
            }
        } else {
            assert(is_digit(digits_of(size)[i]));
        }
    }
}

/// A banner that holds `v`, the three numbers of a version with dots between them, and
/// then ends or goes on with a space, gives that version, whatever stands before the `v`
/// without being one and whatever follows the space.
pub proof fn lemma_version_of_banner(before: Seq<char>, version: (i32, i32, i32), after: Seq<char>)
    requires
        forall|i: int| 0 <= i < before.len() ==> before[i] != 'v',
        after.len() > 0 ==> after[0] == ' ',
    ensures
        version_of(banner_of(before, version, after)) == Some(version),
{
    let a = decimal_of(version.0 as int);
    let b = decimal_of(version.1 as int);
    let c = decimal_of(version.2 as int);
    let start = banner_start();
    lemma_decimal_in_field(version.0 as int);
    lemma_decimal_in_field(version.1 as int);
    lemma_decimal_in_field(version.2 as int);
    lemma_number_of_decimal(version.0);
    lemma_number_of_decimal(version.1);
    lemma_number_of_decimal(version.2);

    let t1 = before;
    let t2 = t1 + seq!['v'];
    let t3 = t2 + a;
    let t4 = t3 + seq!['.'];
    let t5 = t4 + b;
    let t6 = t5 + seq!['.'];
    let t7 = t6 + c;
    let text = t7 + after;
    assert(text == banner_of(before, version, after));

    lemma_banner_run_before(start, t1);
    let s1 = banner_run(start, t1);
    lemma_banner_run_concat(start, t1, seq!['v']);
    lemma_banner_run_one(s1, 'v');
    let s2 = banner_run(start, t2);
    lemma_banner_run_concat(start, t2, a);
    lemma_banner_run_field(s2, a);
    let s3 = banner_run(start, t3);
    assert(s3.field =~= a);
    lemma_banner_run_concat(start, t3, seq!['.']);
    lemma_banner_run_one(s3, '.');
    let s4 = banner_run(start, t4);
    lemma_banner_run_concat(start, t4, b);
    lemma_banner_run_field(s4, b);
    let s5 = banner_run(start, t5);
    assert(s5.field =~= b);
    lemma_banner_run_concat(start, t5, seq!['.']);
    lemma_banner_run_one(s5, '.');
    let s6 = banner_run(start, t6);
    lemma_banner_run_concat(start, t6, c);
    lemma_banner_run_field(s6, c);
    let s7 = banner_run(start, t7);
    assert(s7.field =~= c);
    assert(s7.fields =~= seq![a, b]);

    lemma_banner_run_concat(start, t7, after);
    if after.len() == 0 {
        assert(banner_run(s7, after) == s7);
    } else {
        let rest = after.skip(1);
        assert(after =~= seq![' '] + rest);
        lemma_banner_run_concat(s7, seq![' '], rest);
        lemma_banner_run_one(s7, ' ');
        lemma_banner_run_over(banner_step(s7, ' '), rest);
    }
    let fields = banner_fields(text);
    assert(fields =~= seq![a, b, c]);
}

} // verus!
