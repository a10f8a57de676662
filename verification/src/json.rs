//! The primitives of the snapshot text format.
//!
//! Snapshots are JSON documents in one fixed, pretty-printed shape, so
//! that a re-run over unchanged data reproduces the text exactly. This
//! module gives the character-level pieces: string escaping, decimal
//! numbers, and their parsers, each parser proved to invert its renderer.
//!
//! Strings are quoted; a quote or backslash inside is escaped with a
//! backslash, and a control character becomes a `\u00` escape with two
//! lower-case hex digits. Numbers are plain decimal with no leading
//! zeros.

use vstd::prelude::*;

verus! {

// ---------------------------------------------------------------------
// Rendering: escaped strings and decimal numbers.
// ---------------------------------------------------------------------
/// The hex digit character for a value below sixteen.
pub open spec fn hex_digit(n: int) -> char {
    if n == 0 {
        '0'
    } else if n == 1 {
        '1'
    } else if n == 2 {
        '2'
    } else if n == 3 {
        '3'
    } else if n == 4 {
        '4'
    } else if n == 5 {
        '5'
    } else if n == 6 {
        '6'
    } else if n == 7 {
        '7'
    } else if n == 8 {
        '8'
    } else if n == 9 {
        '9'
    } else if n == 10 {
        'a'
    } else if n == 11 {
        'b'
    } else if n == 12 {
        'c'
    } else if n == 13 {
        'd'
    } else if n == 14 {
        'e'
    } else {
        'f'
    }
}

/// How one character is written inside a quoted string.
pub open spec fn esc_char(c: char) -> Seq<char> {
    if c == '"' {
        seq!['\\', '"']
    } else if c == '\\' {
        seq!['\\', '\\']
    } else if 0 <= (c as int) && (c as int) < 32 {
        seq!['\\', 'u', '0', '0', hex_digit(c as int / 16), hex_digit(c as int % 16)]
    } else {
        seq![c]
    }
}

/// How a whole string is written between its quotes.
pub open spec fn esc_string(s: Seq<char>) -> Seq<char>
    decreases s.len(),
{
    if s.len() == 0 {
        Seq::empty()
    } else {
        esc_char(s.first()) + esc_string(s.drop_first())
    }
}

/// A quoted, escaped string.
pub open spec fn quoted(s: Seq<char>) -> Seq<char> {
    seq!['"'] + esc_string(s) + seq!['"']
}

/// The decimal digit character for a value below ten.
pub open spec fn dec_digit(n: int) -> char {
    if n == 0 {
        '0'
    } else if n == 1 {
        '1'
    } else if n == 2 {
        '2'
    } else if n == 3 {
        '3'
    } else if n == 4 {
        '4'
    } else if n == 5 {
        '5'
    } else if n == 6 {
        '6'
    } else if n == 7 {
        '7'
    } else if n == 8 {
        '8'
    } else {
        '9'
    }
}

/// A non-negative number in decimal, most significant digit first.
pub open spec fn dec_digits(n: int) -> Seq<char>
    decreases n,
{
    if n < 10 {
        seq![dec_digit(n)]
    } else {
        dec_digits(n / 10) + seq![dec_digit(n % 10)]
    }
}

// ---------------------------------------------------------------------
// Parsing: each parser takes the text still to be read and gives the
// value it read and the text after it, or nothing when the text does not
// start with what the grammar asks.
// ---------------------------------------------------------------------
/// `t` starts with `l`.
pub open spec fn starts_with(t: Seq<char>, l: Seq<char>) -> bool {
    t.len() >= l.len() && t.take(l.len() as int) == l
}

/// `c` is a decimal digit.
pub open spec fn is_dec(c: char) -> bool {
    '0' <= c && c <= '9'
}

/// The value of a decimal digit.
pub open spec fn dec_val(c: char) -> int {
    (c as int) - ('0' as int)
}

/// `c` is a lower-case hex digit.
pub open spec fn is_hex(c: char) -> bool {
    is_dec(c) || ('a' <= c && c <= 'f')
}

/// The value of a lower-case hex digit.
pub open spec fn hex_val(c: char) -> int {
    if is_dec(c) {
        dec_val(c)
    } else {
        (c as int) - ('a' as int) + 10
    }
}

/// Reads the escaped body of a quoted string up to and over the closing
/// quote: the string's characters, and the text after the quote.
pub open spec fn parse_strchars(t: Seq<char>) -> Option<(Seq<char>, Seq<char>)>
    decreases t.len(),
{
    if t.len() == 0 {
        None
    } else if t.first() == '"' {
        Some((Seq::empty(), t.drop_first()))
    } else if t.first() == '\\' {
        if t.len() >= 2 && (t[1] == '"' || t[1] == '\\') {
            match parse_strchars(t.skip(2)) {
                Some((s, rest)) => Some((seq![t[1]] + s, rest)),
                None => None,
            }
        } else if t.len() >= 6 && t[1] == 'u' && t[2] == '0' && t[3] == '0' && is_hex(t[4])
            && is_hex(t[5]) && hex_val(t[4]) * 16 + hex_val(t[5]) < 32 {
            match parse_strchars(t.skip(6)) {
                Some((s, rest)) => Some(
                    (seq![(hex_val(t[4]) * 16 + hex_val(t[5])) as char] + s, rest),
                ),
                None => None,
            }
        } else {
            None
        }
    } else if 0 <= (t.first() as int) && (t.first() as int) < 32 {
        None
    } else {
        match parse_strchars(t.drop_first()) {
            Some((s, rest)) => Some((seq![t.first()] + s, rest)),
            None => None,
        }
    }
}

/// Reads a quoted string: the opening quote, the body, the closing quote.
pub open spec fn parse_string(t: Seq<char>) -> Option<(Seq<char>, Seq<char>)> {
    if t.len() >= 1 && t.first() == '"' {
        parse_strchars(t.drop_first())
    } else {
        None
    }
}

/// Folds decimal digits from the front onto an accumulator, stopping at
/// the first non-digit.
pub open spec fn fold_digits(t: Seq<char>, a: int) -> (int, Seq<char>)
    decreases t.len(),
{
    if t.len() > 0 && is_dec(t.first()) {
        fold_digits(t.drop_first(), a * 10 + dec_val(t.first()))
    } else {
        (a, t)
    }
}

/// Reads a decimal number with no leading zero.
pub open spec fn parse_number(t: Seq<char>) -> Option<(int, Seq<char>)> {
    if t.len() == 0 || !is_dec(t.first()) {
        None
    } else if t.first() == '0' && t.len() >= 2 && is_dec(t[1]) {
        None
    } else {
        Some(fold_digits(t, 0))
    }
}

// ---------------------------------------------------------------------
// The parsers invert the renderers.
// ---------------------------------------------------------------------
/// Appending one character to a string appends its escape to the text.
pub proof fn lemma_esc_string_push(s: Seq<char>, c: char)
    ensures
        esc_string(s.push(c)) == esc_string(s) + esc_char(c),
    decreases s.len(),
{
    if s.len() == 0 {
        assert(s.push(c).first() == c);
        assert(s.push(c).drop_first() =~= Seq::<char>::empty());
        assert(esc_string(Seq::<char>::empty()) + esc_char(c) =~= esc_char(c));
        assert(esc_string(s) + esc_char(c) =~= esc_char(c));
    } else {
        assert(s.push(c).first() == s.first());
        assert(s.push(c).drop_first() =~= s.drop_first().push(c));
        lemma_esc_string_push(s.drop_first(), c);
        assert(esc_char(s.first()) + (esc_string(s.drop_first()) + esc_char(c)) =~= (esc_char(
            s.first(),
        ) + esc_string(s.drop_first())) + esc_char(c));
    }
}

/// Reading the rendered body of `s` gives back `s` and the text after
/// the closing quote.
pub proof fn lemma_parse_strchars_inverts(s: Seq<char>, rest: Seq<char>)
    ensures
        parse_strchars(esc_string(s) + seq!['"'] + rest) == Some((s, rest)),
    decreases s.len(),
{
    let t = esc_string(s) + seq!['"'] + rest;
    if s.len() == 0 {
        assert(t =~= seq!['"'] + rest);
        assert(t.first() == '"');
        assert(t.drop_first() =~= rest);
        assert(s =~= Seq::<char>::empty());
    } else {
        let c = s.first();
        let s2 = s.drop_first();
        lemma_parse_strchars_inverts(s2, rest);
        let tail = esc_string(s2) + seq!['"'] + rest;
        assert(t =~= esc_char(c) + tail);
        if c == '"' {
            assert(t.first() == '\\' && t[1] == '"');
            assert(t.skip(2) =~= tail);
            assert(seq![t[1]] + s2 =~= s);
        } else if c == '\\' {
            assert(t.first() == '\\' && t[1] == '\\');
            assert(t.skip(2) =~= tail);
            assert(seq![t[1]] + s2 =~= s);
        } else if 0 <= (c as int) && (c as int) < 32 {
            assert(t.first() == '\\' && t[1] == 'u' && t[2] == '0' && t[3] == '0');
            assert(t[4] == hex_digit(c as int / 16));
            assert(t[5] == hex_digit(c as int % 16));
            lemma_hex_digit_val(c as int / 16);
            lemma_hex_digit_val(c as int % 16);
            assert(hex_val(t[4]) == c as int / 16);
            assert(hex_val(t[5]) == c as int % 16);
            assert(hex_val(t[4]) * 16 + hex_val(t[5]) == c as int);
            assert(((c as int) as char) == c);
            assert(t.skip(6) =~= tail);
            assert(parse_strchars(t.skip(6)) == Some((s2, rest)));
            assert((seq![(hex_val(t[4]) * 16 + hex_val(t[5])) as char] + s2) =~= s);
        } else {
            assert(t.first() == c);
            assert(t.first() != '"' && t.first() != '\\');
            assert(t.drop_first() =~= tail);
            assert(seq![t.first()] + s2 =~= s);
        }
    }
}

/// `hex_digit` and `hex_val` are inverse below sixteen.
proof fn lemma_hex_digit_val(n: int)
    requires
        0 <= n < 16,
    ensures
        is_hex(hex_digit(n)),
        hex_val(hex_digit(n)) == n,
{
}

/// Reading the rendered quoted form of `s` gives back `s`.
pub proof fn lemma_parse_string_inverts(s: Seq<char>, rest: Seq<char>)
    ensures
        parse_string(quoted(s) + rest) == Some((s, rest)),
{
    let t = quoted(s) + rest;
    assert(t.first() == '"');
    assert(t.drop_first() =~= esc_string(s) + seq!['"'] + rest);
    lemma_parse_strchars_inverts(s, rest);
}

/// `dec_digit` and `dec_val` are inverse below ten.
proof fn lemma_dec_digit_val(n: int)
    requires
        0 <= n < 10,
    ensures
        is_dec(dec_digit(n)),
        dec_val(dec_digit(n)) == n,
{
}

/// The digits of a non-negative number: never empty, all decimal, and a
/// leading zero only for zero itself.
pub proof fn lemma_dec_digits_shape(n: int)
    requires
        n >= 0,
    ensures
        dec_digits(n).len() >= 1,
        forall|i: int| 0 <= i < dec_digits(n).len() ==> is_dec(#[trigger] dec_digits(n)[i]),
        dec_digits(n).first() == '0' ==> n == 0,
        n == 0 ==> dec_digits(n) == seq!['0'],
    decreases n,
{
    if n < 10 {
        lemma_dec_digit_val(n);
    } else {
        lemma_dec_digits_shape(n / 10);
        lemma_dec_digit_val(n % 10);
        assert(dec_digits(n).first() == dec_digits(n / 10).first());
    }
}

/// Folding one more digit onto the text multiplies the fold by ten.
proof fn lemma_fold_digits_snoc(ds: Seq<char>, d: char, a: int)
    requires
        forall|i: int| 0 <= i < ds.len() ==> is_dec(#[trigger] ds[i]),
        is_dec(d),
    ensures
        fold_digits(ds.push(d), a).0 == fold_digits(ds, a).0 * 10 + dec_val(d),
    decreases ds.len(),
{
    if ds.len() == 0 {
        assert(ds.push(d).first() == d);
        assert(ds.push(d).drop_first() =~= Seq::<char>::empty());
        assert(fold_digits(ds.push(d), a) == fold_digits(Seq::<char>::empty(), a * 10 + dec_val(
            d,
        )));
    } else {
        assert(ds.push(d).first() == ds.first());
        assert(ds.push(d).drop_first() =~= ds.drop_first().push(d));
        assert(forall|i: int|
            0 <= i < ds.drop_first().len() ==> is_dec(#[trigger] ds.drop_first()[i]));
        lemma_fold_digits_snoc(ds.drop_first(), d, a * 10 + dec_val(ds.first()));
    }
}

/// Folding digits followed by a non-digit stops at the non-digit.
proof fn lemma_fold_digits_stop(ds: Seq<char>, rest: Seq<char>, a: int)
    requires
        forall|i: int| 0 <= i < ds.len() ==> is_dec(#[trigger] ds[i]),
        rest.len() == 0 || !is_dec(rest.first()),
    ensures
        fold_digits(ds + rest, a) == (fold_digits(ds, a).0, rest),
    decreases ds.len(),
{
    if ds.len() == 0 {
        assert(ds + rest =~= rest);
    } else {
        assert((ds + rest).first() == ds.first());
        assert((ds + rest).drop_first() =~= ds.drop_first() + rest);
        assert(forall|i: int|
            0 <= i < ds.drop_first().len() ==> is_dec(#[trigger] ds.drop_first()[i]));
        lemma_fold_digits_stop(ds.drop_first(), rest, a * 10 + dec_val(ds.first()));
        assert(fold_digits(ds, a).1 =~= Seq::<char>::empty()) by {
            lemma_fold_digits_empty(ds, a);
        }
    }
}

/// Folding a pure digit text consumes all of it.
proof fn lemma_fold_digits_empty(ds: Seq<char>, a: int)
    requires
        forall|i: int| 0 <= i < ds.len() ==> is_dec(#[trigger] ds[i]),
    ensures
        fold_digits(ds, a).1 =~= Seq::<char>::empty(),
    decreases ds.len(),
{
    if ds.len() > 0 {
        assert(forall|i: int|
            0 <= i < ds.drop_first().len() ==> is_dec(#[trigger] ds.drop_first()[i]));
        lemma_fold_digits_empty(ds.drop_first(), a * 10 + dec_val(ds.first()));
    }
}

/// Folding the rendered digits of `n` from zero gives back `n`.
proof fn lemma_fold_dec_digits(n: int)
    requires
        n >= 0,
    ensures
        fold_digits(dec_digits(n), 0).0 == n,
    decreases n,
{
    if n < 10 {
        lemma_dec_digit_val(n);
        assert(dec_digits(n).drop_first() =~= Seq::<char>::empty());
        assert(fold_digits(dec_digits(n), 0) == fold_digits(Seq::<char>::empty(), dec_val(
            dec_digit(n),
        )));
        assert(fold_digits(Seq::<char>::empty(), dec_val(dec_digit(n))).0 == dec_val(
            dec_digit(n),
        ));
    } else {
        lemma_fold_dec_digits(n / 10);
        lemma_dec_digits_shape(n / 10);
        lemma_dec_digit_val(n % 10);
        assert(dec_digits(n) =~= dec_digits(n / 10).push(dec_digit(n % 10)));
        lemma_fold_digits_snoc(dec_digits(n / 10), dec_digit(n % 10), 0);
    }
}

/// Reading the rendered decimal form of `n` gives back `n`, as long as
/// what follows does not begin with a digit.
pub proof fn lemma_parse_number_inverts(n: int, rest: Seq<char>)
    requires
        n >= 0,
        rest.len() == 0 || !is_dec(rest.first()),
    ensures
        parse_number(dec_digits(n) + rest) == Some((n, rest)),
{
    let ds = dec_digits(n);
    let t = ds + rest;
    lemma_dec_digits_shape(n);
    assert(t.first() == ds.first());
    lemma_fold_digits_stop(ds, rest, 0);
    lemma_fold_dec_digits(n);
    if t.first() == '0' && t.len() >= 2 && is_dec(t[1]) {
        // A zero is rendered as a single digit, so the next character is
        // part of `rest` and is no digit.
        assert(n == 0);
        assert(ds.len() == 1);
        assert(t[1] == rest.first());
        assert(false);
    }
}


/// A text that begins with `l` and goes on with `x` starts with `l`, and
/// `l`'s length further in it stands `x`.
pub proof fn lemma_lit_step(l: Seq<char>, x: Seq<char>)
    ensures
        starts_with(l + x, l),
        (l + x).skip(l.len() as int) == x,
{
    assert((l + x).take(l.len() as int) =~= l);
    assert((l + x).skip(l.len() as int) =~= x);
}

// ---------------------------------------------------------------------
// Executable rendering.
// ---------------------------------------------------------------------
/// Appends a literal piece of text.
pub fn push_lit(out: &mut Vec<char>, l: &str)
    ensures
        final(out)@ == old(out)@ + l@,
{
    let n = l.unicode_len();
    let mut i: usize = 0;
    #[verifier::loop_isolation(false)]
    while i < n
        invariant
            i <= n,
            out@ =~= old(out)@ + l@.take(i as int),
        decreases n - i,
    {
        out.push(l.get_char(i));
        proof {
            assert(l@.take(i + 1) =~= l@.take(i as int).push(l@[i as int]));
            assert(out@ =~= old(out)@ + l@.take(i + 1));
        }
        i = i + 1;
    }
    proof {
        assert(l@.take(n as int) =~= l@);
    }
}

/// The hex digit character for a value below sixteen.
fn hex_char(n: u32) -> (r: char)
    requires
        n < 16,
    ensures
        r == hex_digit(n as int),
{
    match n {
        0 => '0',
        1 => '1',
        2 => '2',
        3 => '3',
        4 => '4',
        5 => '5',
        6 => '6',
        7 => '7',
        8 => '8',
        9 => '9',
        10 => 'a',
        11 => 'b',
        12 => 'c',
        13 => 'd',
        14 => 'e',
        _ => 'f',
    }
}


/// Whether `c` is a control character, one the text format escapes.
fn low_char(c: char) -> (r: bool)
    ensures
        r == (0 <= (c as int) && (c as int) < 32),
{
    let nul = 0u8 as char;
    proof {
        assert((nul as int) == 0);
    }
    nul <= c && c < ' '
}

/// Appends the escape of one string character.
fn push_char_escaped(out: &mut Vec<char>, c: char)
    ensures
        final(out)@ == old(out)@ + esc_char(c),
{
    if c == '"' {
        out.push('\\');
        out.push('"');
        proof {
            assert(out@ =~= old(out)@ + esc_char(c));
        }
    } else if c == '\\' {
        out.push('\\');
        out.push('\\');
        proof {
            assert(out@ =~= old(out)@ + esc_char(c));
        }
    } else if low_char(c) {
        proof {
            assert(0 <= (c as int) && (c as int) < 32);
        }
        let u = c as u32;
        out.push('\\');
        out.push('u');
        out.push('0');
        out.push('0');
        out.push(hex_char(u / 16));
        out.push(hex_char(u % 16));
        proof {
            assert(u as int == c as int);
            assert(out@ =~= old(out)@ + esc_char(c));
        }
    } else {
        out.push(c);
        proof {
            assert(!(0 <= (c as int) && (c as int) < 32));
            assert(out@ =~= old(out)@ + esc_char(c));
        }
    }
}

/// Appends a string in its quoted, escaped form.
pub fn push_quoted(out: &mut Vec<char>, s: &str)
    ensures
        final(out)@ == old(out)@ + quoted(s@),
{
    out.push('"');
    let n = s.unicode_len();
    let mut i: usize = 0;
    #[verifier::loop_isolation(false)]
    while i < n
        invariant
            i <= n,
            out@ =~= old(out)@ + seq!['"'] + esc_string(s@.take(i as int)),
        decreases n - i,
    {
        let c = s.get_char(i);
        push_char_escaped(out, c);
        proof {
            assert(s@.take(i + 1) =~= s@.take(i as int).push(c));
            lemma_esc_string_push(s@.take(i as int), c);
            assert(out@ =~= old(out)@ + seq!['"'] + esc_string(s@.take(i + 1)));
        }
        i = i + 1;
    }
    out.push('"');
    proof {
        assert(s@.take(n as int) =~= s@);
        assert(out@ =~= old(out)@ + quoted(s@));
    }
}

/// The decimal digit character for a value below ten.
fn dec_char(n: u32) -> (r: char)
    requires
        n < 10,
    ensures
        r == dec_digit(n as int),
{
    match n {
        0 => '0',
        1 => '1',
        2 => '2',
        3 => '3',
        4 => '4',
        5 => '5',
        6 => '6',
        7 => '7',
        8 => '8',
        _ => '9',
    }
}

/// Appends a number in decimal.
pub fn push_u32(out: &mut Vec<char>, n: u32)
    ensures
        final(out)@ == old(out)@ + dec_digits(n as int),
{
    let mut tmp: Vec<char> = Vec::new();
    let mut m = n;
    tmp.push(dec_char(m % 10));
    proof {
        if m < 10 {
            assert(tmp@.reverse() =~= dec_digits(n as int));
        } else {
            assert(dec_digits(m as int) =~= dec_digits(m as int / 10) + tmp@.reverse());
        }
    }
    m = m / 10;
    #[verifier::loop_isolation(false)]
    while m > 0
        invariant
            tmp@.len() >= 1,
            dec_digits(n as int) =~= if m > 0 {
                dec_digits(m as int) + tmp@.reverse()
            } else {
                tmp@.reverse()
            },
        decreases m,
    {
        let ghost tmp0 = tmp@;
        tmp.push(dec_char(m % 10));
        proof {
            assert(tmp@.reverse() =~= seq![dec_digit(m as int % 10)] + tmp0.reverse());
            if m >= 10 {
                assert(dec_digits(m as int) =~= dec_digits(m as int / 10) + seq![dec_digit(
                    m as int % 10,
                )]);
                assert(dec_digits(m as int) + tmp0.reverse() =~= dec_digits(m as int / 10)
                    + tmp@.reverse());
            } else {
                assert(dec_digits(m as int) =~= seq![dec_digit(m as int)]);
                assert(dec_digits(m as int) + tmp0.reverse() =~= tmp@.reverse());
            }
        }
        m = m / 10;
    }
    let k = tmp.len();
    let mut j: usize = 0;
    #[verifier::loop_isolation(false)]
    while j < k
        invariant
            j <= k,
            k == tmp@.len(),
            out@ =~= old(out)@ + tmp@.reverse().take(j as int),
        decreases k - j,
    {
        out.push(tmp[k - 1 - j]);
        proof {
            assert(tmp@.reverse()[j as int] == tmp@[k - 1 - j]);
            assert(tmp@.reverse().take(j + 1) =~= tmp@.reverse().take(j as int).push(
                tmp@[k - 1 - j],
            ));
            assert(out@ =~= old(out)@ + tmp@.reverse().take(j + 1));
        }
        j = j + 1;
    }
    proof {
        assert(tmp@.reverse().take(k as int) =~= tmp@.reverse());
        assert(out@ =~= old(out)@ + dec_digits(n as int));
    }
}


/// Turns read characters into an owned string.
///
/// Relies on `String`'s `FromIterator` impl: collecting an iterator of
/// characters yields the string of exactly those characters, in order.
#[verifier::external_body]
pub(crate) fn chars_to_string(v: Vec<char>) -> (r: String)
    ensures
        r@ == v@,
{
    v.into_iter().collect()
}

// ---------------------------------------------------------------------
// Executable parsing.
// ---------------------------------------------------------------------
/// Matches a literal piece of text at `pos`, giving the position after
/// it.
pub fn expect_lit(text: &Vec<char>, pos: usize, l: &str) -> (r: Option<usize>)
    requires
        pos <= text@.len(),
    ensures
        r matches Some(p2) ==> pos <= p2 <= text@.len() && starts_with(
            text@.skip(pos as int),
            l@,
        ) && p2 == pos + l@.len(),
        r is None ==> !starts_with(text@.skip(pos as int), l@),
{
    let n = l.unicode_len();
    if text.len() - pos < n {
        return None;
    }
    let mut i: usize = 0;
    #[verifier::loop_isolation(false)]
    while i < n
        invariant
            i <= n,
            pos + n <= text@.len(),
            forall|j: int| 0 <= j < i ==> text@[pos + j] == l@[j],
        decreases n - i,
    {
        if text[pos + i] != l.get_char(i) {
            proof {
                assert(text@.skip(pos as int)[i as int] == text@[pos + i]);
                assert(!starts_with(text@.skip(pos as int), l@)) by {
                    if starts_with(text@.skip(pos as int), l@) {
                        assert(text@.skip(pos as int).take(l@.len() as int)[i as int]
                            == l@[i as int]);
                    }
                }
            }
            return None;
        }
        i = i + 1;
    }
    proof {
        assert(text@.skip(pos as int).take(n as int) =~= l@);
    }
    Some(pos + n)
}

/// The value of a decimal digit character, when it is one.
fn dec_value(c: char) -> (r: Option<u32>)
    ensures
        r matches Some(v) ==> is_dec(c) && v == dec_val(c),
        r is None ==> !is_dec(c),
{
    if '0' <= c && c <= '9' {
        Some(c as u32 - 48)
    } else {
        None
    }
}

/// The value of a lower-case hex digit character, when it is one.
fn hex_value(c: char) -> (r: Option<u32>)
    ensures
        r matches Some(v) ==> is_hex(c) && v == hex_val(c),
        r is None ==> !is_hex(c),
{
    if '0' <= c && c <= '9' {
        Some(c as u32 - 48)
    } else if 'a' <= c && c <= 'f' {
        Some(c as u32 - 97 + 10)
    } else {
        None
    }
}

/// Reads a quoted string at `pos`: the string's characters and the
/// position after the closing quote.
pub fn parse_string_at(text: &Vec<char>, pos: usize) -> (r: Option<(Vec<char>, usize)>)
    requires
        pos <= text@.len(),
    ensures
        r matches Some(v) ==> pos < v.1 <= text@.len() && parse_string(text@.skip(pos as int))
            == Some((v.0@, text@.skip(v.1 as int))),
        r is None ==> parse_string(text@.skip(pos as int)) is None,
{
    if pos == text.len() || text[pos] != '"' {
        proof {
            if pos < text@.len() {
                assert(text@.skip(pos as int).first() == text@[pos as int]);
            }
        }
        return None;
    }
    proof {
        assert(text@.skip(pos as int).first() == '"');
        assert(text@.skip(pos as int).drop_first() =~= text@.skip(pos + 1));
    }
    let mut out: Vec<char> = Vec::new();
    let mut cur: usize = pos + 1;
    #[verifier::loop_isolation(false)]
    loop
        invariant
            pos + 1 <= cur <= text@.len(),
            ({
                let full = parse_strchars(text@.skip(pos + 1));
                match parse_strchars(text@.skip(cur as int)) {
                    Some((sv, rv)) => full == Some((out@ + sv, rv)),
                    None => full is None,
                }
            }),
        decreases text@.len() - cur,
    {
        let ghost t = text@.skip(cur as int);
        if cur == text.len() {
            return None;
        }
        let c = text[cur];
        proof {
            assert(t.first() == c);
        }
        if c == '"' {
            proof {
                assert(t.drop_first() =~= text@.skip(cur + 1));
                assert(parse_strchars(t) == Some(
                    (Seq::<char>::empty(), text@.skip(cur + 1)),
                ));
                assert(out@ + Seq::<char>::empty() =~= out@);
            }
            return Some((out, cur + 1));
        }
        if c == '\\' {
            if text.len() - cur < 2 {
                return None;
            }
            let d = text[cur + 1];
            proof {
                assert(t[1] == d);
            }
            if d == '"' || d == '\\' {
                let ghost out0 = out@;
                out.push(d);
                cur = cur + 2;
                proof {
                    assert(t.skip(2) =~= text@.skip(cur as int));
                    assert(out@ =~= out0.push(d));
                    match parse_strchars(text@.skip(cur as int)) {
                        Some((sv, rv)) => {
                            assert(parse_strchars(t) == Some((seq![d] + sv, rv)));
                            assert(out0 + (seq![d] + sv) =~= out@ + sv);
                        },
                        None => {
                            assert(parse_strchars(t) is None);
                        },
                    }
                }
            } else if d == 'u' {
                if text.len() - cur < 6 {
                    return None;
                }
                if text[cur + 2] != '0' || text[cur + 3] != '0' {
                    proof {
                        assert(t[2] == text@[cur + 2] && t[3] == text@[cur + 3]);
                    }
                    return None;
                }
                let h1 = match hex_value(text[cur + 4]) {
                    Some(v) => v,
                    None => {
                        proof {
                            assert(t[4] == text@[cur + 4]);
                        }
                        return None;
                    },
                };
                let h2 = match hex_value(text[cur + 5]) {
                    Some(v) => v,
                    None => {
                        proof {
                            assert(t[5] == text@[cur + 5]);
                        }
                        return None;
                    },
                };
                let v = h1 * 16 + h2;
                if v >= 32 {
                    proof {
                        assert(t[4] == text@[cur + 4] && t[5] == text@[cur + 5]);
                    }
                    return None;
                }
                let dc = (v as u8) as char;
                let ghost out0 = out@;
                out.push(dc);
                cur = cur + 6;
                proof {
                    assert(t[2] == '0' && t[3] == '0');
                    assert(t[4] == text@[cur - 2] && t[5] == text@[cur - 1]);
                    assert(hex_val(t[4]) == h1 && hex_val(t[5]) == h2);
                    assert(dc == ((hex_val(t[4]) * 16 + hex_val(t[5])) as char));
                    assert(t.skip(6) =~= text@.skip(cur as int));
                    assert(out@ =~= out0.push(dc));
                    match parse_strchars(text@.skip(cur as int)) {
                        Some((sv, rv)) => {
                            assert(parse_strchars(t) == Some((seq![dc] + sv, rv)));
                            assert(out0 + (seq![dc] + sv) =~= out@ + sv);
                        },
                        None => {
                            assert(parse_strchars(t) is None);
                        },
                    }
                }
            } else {
                return None;
            }
        } else {
            if low_char(c) {
                proof {
                    assert(0 <= (t.first() as int) && (t.first() as int) < 32);
                }
                return None;
            }
            let ghost out0 = out@;
            out.push(c);
            cur = cur + 1;
            proof {
                assert(!(0 <= (t.first() as int) && (t.first() as int) < 32));
                assert(t.drop_first() =~= text@.skip(cur as int));
                assert(out@ =~= out0.push(c));
                match parse_strchars(text@.skip(cur as int)) {
                    Some((sv, rv)) => {
                        assert(parse_strchars(t) == Some((seq![c] + sv, rv)));
                        assert(out0 + (seq![c] + sv) =~= out@ + sv);
                    },
                    None => {
                        assert(parse_strchars(t) is None);
                    },
                }
            }
        }
    }
}

proof fn lemma_fold_digits_lower(t: Seq<char>, a: int)
    requires
        a >= 0,
    ensures
        fold_digits(t, a).0 >= a,
    decreases t.len(),
{
    if t.len() > 0 && is_dec(t.first()) {
        lemma_fold_digits_lower(t.drop_first(), a * 10 + dec_val(t.first()));
    }
}

/// Reads a decimal number at `pos` that fits a `u32`: its value and the
/// position after its digits. Nothing is read when no number starts
/// here; a number too large for a `u32` is also refused.
pub fn parse_number_at(text: &Vec<char>, pos: usize) -> (r: Option<(u32, usize)>)
    requires
        pos <= text@.len(),
    ensures
        r matches Some(v) ==> pos < v.1 <= text@.len() && parse_number(text@.skip(pos as int))
            == Some(((v.0 as int), text@.skip(v.1 as int))),
        r is None ==> (parse_number(text@.skip(pos as int)) is None || ({
            let sp = parse_number(text@.skip(pos as int))->0;
            sp.0 > u32::MAX
        })),
{
    let ghost t0 = text@.skip(pos as int);
    if pos == text.len() {
        return None;
    }
    let first = text[pos];
    proof {
        assert(t0.first() == first);
    }
    let d0 = match dec_value(first) {
        Some(v) => v,
        None => {
            return None;
        },
    };
    if first == '0' && pos + 1 < text.len() {
        let snd = text[pos + 1];
        proof {
            assert(t0[1] == snd);
        }
        let second_digit = match dec_value(snd) {
            Some(_) => true,
            None => false,
        };
        if second_digit {
            return None;
        }
    }
    let mut acc: u64 = 0;
    let mut cur: usize = pos;
    #[verifier::loop_isolation(false)]
    loop
        invariant
            pos <= cur <= text@.len(),
            pos < text@.len(),
            acc <= u32::MAX,
            fold_digits(t0, 0) == fold_digits(text@.skip(cur as int), acc as int),
            !(t0.len() == 0 || !is_dec(t0.first())),
            !(t0.first() == '0' && t0.len() >= 2 && is_dec(t0[1])),
        decreases text@.len() - cur,
    {
        let ghost t = text@.skip(cur as int);
        if cur == text.len() {
            proof {
                assert(t.len() == 0);
                assert(fold_digits(t, acc as int) == (acc as int, t));
                assert(cur > pos);
            }
            return Some((acc as u32, cur));
        }
        let c = text[cur];
        proof {
            assert(t.first() == c);
        }
        let d = match dec_value(c) {
            Some(v) => v,
            None => {
                proof {
                    assert(fold_digits(t, acc as int) == (acc as int, t));
                    if cur == pos {
                        assert(t == t0);
                        assert(is_dec(t0.first()));
                        assert(false);
                    }
                }
                return Some((acc as u32, cur));
            },
        };
        if acc * 10 + (d as u64) > 0xFFFF_FFFF {
            proof {
                assert(t.drop_first() =~= text@.skip(cur + 1));
                assert(fold_digits(t, acc as int) == fold_digits(
                    text@.skip(cur + 1),
                    acc as int * 10 + dec_val(c),
                ));
                lemma_fold_digits_lower(text@.skip(cur + 1), acc as int * 10 + dec_val(c));
            }
            return None;
        }
        acc = acc * 10 + (d as u64);
        cur = cur + 1;
        proof {
            assert(t.drop_first() =~= text@.skip(cur as int));
            assert(fold_digits(t, (acc as int - dec_val(c)) / 10) == fold_digits(
                text@.skip(cur as int),
                acc as int,
            ));
        }
    }
}


} // verus!
