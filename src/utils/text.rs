//! Character-level helpers shared by the parsers and formatters.

use itertools::Itertools;
use vstd::prelude::*;

verus! {

/// ASCII lower case: `A`..`Z` map to `a`..`z`, every other character is kept.
pub open spec fn ascii_lower(c: char) -> char {
    if 'A' <= c && c <= 'Z' {
        ((c as u32) + 32) as char
    } else {
        c
    }
}

/// The message reported for a character that is not a symbol of the named alphabet.
pub open spec fn invalid_symbol_message(c: char, alphabet: Seq<char>) -> Seq<char> {
    "Failed to convert "@ + seq![ascii_lower(c)] + " to "@ + alphabet + " base"@
}

/// Appends one character to a string.
///
/// Relies on `String::push`: the character is added at the end.
#[verifier::external_body]
pub fn push_char(s: &mut String, c: char)
    ensures
        final(s)@ == old(s)@.push(c),
{
    s.push(c);
}

/// The characters of a string slice, in order.
pub fn chars_of(s: &str) -> (r: Vec<char>)
    ensures
        r@ == s@,
{
    let mut r: Vec<char> = Vec::new();
    for c in it: s.chars()
        invariant
            r@ == it.seq().take(it.index() as int),
            it.seq() == s@,
    {
        r.push(c);
    }
    r
}

/// The ASCII lower-case form of a character.
pub fn to_ascii_lower(c: char) -> (r: char)
    ensures
        r == ascii_lower(c),
{
    if 'A' <= c && c <= 'Z' {
        ((c as u8) + 32) as char
    } else {
        c
    }
}

/// Builds the message for a character outside an alphabet (`dna`, `rna`).
pub fn invalid_symbol(c: char, alphabet: &str) -> (r: String)
    ensures
        r@ == invalid_symbol_message(c, alphabet@),
{
    let mut r = String::from_str("Failed to convert ");
    push_char(&mut r, to_ascii_lower(c));
    r.append(" to ");
    r.append(alphabet);
    r.append(" base");
    r
}

/// The decimal digit for `d` below ten.
pub open spec fn digit_char(d: nat) -> char {
    if d == 0 {
        '0'
    } else if d == 1 {
        '1'
    } else if d == 2 {
        '2'
    } else if d == 3 {
        '3'
    } else if d == 4 {
        '4'
    } else if d == 5 {
        '5'
    } else if d == 6 {
        '6'
    } else if d == 7 {
        '7'
    } else if d == 8 {
        '8'
    } else {
        '9'
    }
}

/// The decimal text of a number, without leading zeros.
pub open spec fn decimal(n: nat) -> Seq<char>
    decreases n,
{
    if n < 10 {
        seq![digit_char(n)]
    } else {
        decimal(n / 10).push(digit_char(n % 10))
    }
}

/// The decimal texts of a list of numbers.
pub open spec fn decimals(v: Seq<usize>) -> Seq<Seq<char>> {
    v.map_values(|x: usize| decimal(x as nat))
}

/// The parts, with `sep` between each two.
pub open spec fn joined(parts: Seq<Seq<char>>, sep: Seq<char>) -> Seq<char>
    decreases parts.len(),
{
    if parts.len() == 0 {
        seq![]
    } else if parts.len() == 1 {
        parts[0]
    } else {
        joined(parts.drop_last(), sep) + sep + parts.last()
    }
}

/// Whether a character is an ASCII digit.
pub open spec fn is_digit(c: char) -> bool {
    '0' <= c && c <= '9'
}

/// The value of a run of ASCII digits.
pub open spec fn digits_value(w: Seq<char>) -> nat
    decreases w.len(),
{
    if w.len() == 0 {
        0
    } else {
        digits_value(w.drop_last()) * 10 + ((w.last() as u32) - ('0' as u32)) as nat
    }
}

/// The digits of a number word: an optional leading `+` is dropped.
pub open spec fn unsigned_digits(w: Seq<char>) -> Seq<char> {
    if w.len() > 0 && w[0] == '+' {
        w.drop_first()
    } else {
        w
    }
}

/// The number a word denotes, if it is one that fits in `bound`: one or more ASCII
/// digits, after an optional `+`.
pub open spec fn number_value(w: Seq<char>, bound: nat) -> Option<nat> {
    let d = unsigned_digits(w);
    if d.len() > 0 && (forall|i: int| 0 <= i < d.len() ==> is_digit(#[trigger] d[i]))
        && digits_value(d) <= bound {
        Some(digits_value(d))
    } else {
        None
    }
}

/// Words read so far: the finished ones and the one in progress.
pub struct WordState {
    pub done: Seq<Seq<char>>,
    pub cur: Seq<char>,
}

/// Unicode white space, as `char::is_whitespace` has it.
pub open spec fn is_white(c: char) -> bool {
    ||| '\t' <= c && c <= '\r'
    ||| c == ' '
    ||| c == '\u{85}'
    ||| c == '\u{A0}'
    ||| c == '\u{1680}'
    ||| '\u{2000}' <= c && c <= '\u{200A}'
    ||| c == '\u{2028}'
    ||| c == '\u{2029}'
    ||| c == '\u{202F}'
    ||| c == '\u{205F}'
    ||| c == '\u{3000}'
}

/// The word splitter's step: white space ends the word in progress, if any.
pub open spec fn word_step(st: WordState, c: char) -> WordState {
    if is_white(c) {
        if st.cur.len() > 0 {
            WordState { done: st.done.push(st.cur), cur: seq![] }
        } else {
            st
        }
    } else {
        WordState { done: st.done, cur: st.cur.push(c) }
    }
}

/// The splitter's state after all of `s`.
pub open spec fn word_run(s: Seq<char>) -> WordState
    decreases s.len(),
{
    if s.len() == 0 {
        WordState { done: seq![], cur: seq![] }
    } else {
        word_step(word_run(s.drop_last()), s.last())
    }
}

/// The maximal runs of characters other than white space, in order.
pub open spec fn words(s: Seq<char>) -> Seq<Seq<char>> {
    let st = word_run(s);
    if st.cur.len() > 0 {
        st.done.push(st.cur)
    } else {
        st.done
    }
}

/// Whether a character is white space.
pub fn is_white_char(c: char) -> (r: bool)
    ensures
        r == is_white(c),
{
    ('\t' <= c && c <= '\r') || c == ' ' || c == '\u{85}' || c == '\u{A0}' || c == '\u{1680}' || (
    '\u{2000}' <= c && c <= '\u{200A}') || c == '\u{2028}' || c == '\u{2029}' || c == '\u{202F}'
        || c == '\u{205F}' || c == '\u{3000}'
}

/// Appends the decimal text of `n`.
pub fn push_decimal(s: &mut String, n: u64)
    ensures
        final(s)@ == old(s)@ + decimal(n as nat),
    decreases n,
{
    if n >= 10 {
        push_decimal(s, n / 10);
    }
    let d = n % 10;
    let c = if d == 0 {
        '0'
    } else if d == 1 {
        '1'
    } else if d == 2 {
        '2'
    } else if d == 3 {
        '3'
    } else if d == 4 {
        '4'
    } else if d == 5 {
        '5'
    } else if d == 6 {
        '6'
    } else if d == 7 {
        '7'
    } else if d == 8 {
        '8'
    } else {
        '9'
    };
    push_char(s, c);
    assert(final(s)@ =~= old(s)@ + decimal(n as nat));
}

/// The decimal text of `n`.
pub fn decimal_string(n: u64) -> (r: String)
    ensures
        r@ == decimal(n as nat),
{
    let mut s = String::new();
    push_decimal(&mut s, n);
    assert(s@ =~= decimal(n as nat));
    s
}

/// The decimal texts of a list of numbers.
pub fn decimal_strings(v: &[usize]) -> (r: Vec<String>)
    ensures
        r@.map_values(|p: String| p@) == decimals(v@),
{
    let mut out: Vec<String> = Vec::new();
    let mut i: usize = 0;
    while i < v.len()
        invariant
            i <= v.len(),
            out@.map_values(|p: String| p@) == decimals(v@.take(i as int)),
        decreases v.len() - i,
    {
        let ghost prev = out@;
        out.push(decimal_string(v[i] as u64));
        assert(out@.map_values(|p: String| p@) =~= prev.map_values(|p: String| p@).push(
            decimal(v@[i as int] as nat),
        ));
        assert(decimals(v@.take(i + 1)) =~= decimals(v@.take(i as int)).push(
            decimal(v@[i as int] as nat),
        ));
        i += 1;
    }
    assert(v@.take(i as int) =~= v@);
    out
}

/// Joins the parts with `sep` between each two.
///
/// Relies on `itertools::Itertools::join`: the first part, then `sep` and the
/// next part for each further one; a string's `Display` writes the string itself.
#[verifier::external_body]
pub fn join(parts: &[String], sep: &str) -> (r: String)
    ensures
        r@ == joined(parts@.map_values(|p: String| p@), sep@),
{
    parts.iter().join(sep)
}

/// The words of a text: maximal runs of characters other than white space.
pub fn split_words(text: &[char]) -> (r: Vec<Vec<char>>)
    ensures
        r@.map_values(|w: Vec<char>| w@) == words(text@),
{
    let mut done: Vec<Vec<char>> = Vec::new();
    let mut cur: Vec<char> = Vec::new();
    let mut i: usize = 0;
    assert(text@.take(0) =~= Seq::<char>::empty());
    assert(done@.map_values(|w: Vec<char>| w@) =~= Seq::<Seq<char>>::empty());
    while i < text.len()
        invariant
            i <= text.len(),
            word_run(text@.take(i as int)) == (WordState {
                done: done@.map_values(|w: Vec<char>| w@),
                cur: cur@,
            }),
        decreases text.len() - i,
    {
        let c = text[i];
        assert(text@.take(i + 1).drop_last() =~= text@.take(i as int));
        let ghost before = done@;
        if is_white_char(c) {
            if cur.len() > 0 {
                let w = cur;
                cur = Vec::new();
                done.push(w);
                assert(done@.map_values(|x: Vec<char>| x@) =~= before.map_values(|x: Vec<char>| x@).push(
                    w@,
                ));
                assert(cur@ =~= Seq::<char>::empty());
            }
        } else {
            cur.push(c);
        }
        i += 1;
    }
    assert(text@.take(i as int) =~= text@);
    if cur.len() > 0 {
        let ghost before = done@;
        let ghost last = cur@;
        done.push(cur);
        assert(done@.map_values(|x: Vec<char>| x@) =~= before.map_values(|x: Vec<char>| x@).push(
            last,
        ));
    }
    done
}

proof fn digits_value_monotone(w: Seq<char>, i: int)
    requires
        0 <= i <= w.len(),
    ensures
        digits_value(w.take(i)) <= digits_value(w),
    decreases w.len() - i,
{
    if i < w.len() {
        digits_value_monotone(w, i + 1);
        assert(w.take(i + 1).drop_last() =~= w.take(i));
    } else {
        assert(w.take(i) =~= w);
    }
}

/// Reads a number word that fits in `bound`.
pub fn parse_number(w: &[char], bound: u64) -> (r: Option<u64>)
    ensures
        r is Some <==> number_value(w@, bound as nat) is Some,
        r is Some ==> r->Some_0 as nat == number_value(w@, bound as nat)->Some_0,
{
    let ghost d = unsigned_digits(w@);
    let start: usize = if w.len() > 0 && w[0] == '+' {
        1
    } else {
        0
    };
    assert(d =~= w@.skip(start as int));
    if start >= w.len() {
        return None;
    }
    let mut value: u64 = 0;
    let mut i: usize = start;
    while i < w.len()
        invariant
            start <= i <= w.len(),
            d == w@.skip(start as int),
            d == unsigned_digits(w@),
            forall|j: int| 0 <= j < i - start ==> is_digit(#[trigger] d[j]),
            value as nat == digits_value(d.take(i - start)),
            value <= bound,
        decreases w.len() - i,
    {
        let c = w[i];
        assert(d[i - start] == c);
        if !('0' <= c && c <= '9') {
            assert(!is_digit(d[i - start]));
            return None;
        }
        let digit = (c as u32 - '0' as u32) as u64;
        assert(d.take(i - start + 1).drop_last() =~= d.take(i - start));
        if digit > bound || value > (bound - digit) / 10 {
            proof {
                if digit <= bound {
                    assert(value * 10 + digit > bound) by (nonlinear_arith)
                        requires
                            value > (bound - digit) / 10,
                            digit <= bound,
                    ;
                }
                assert(digits_value(d.take(i - start + 1)) == value * 10 + digit);
                digits_value_monotone(d, i - start + 1);
            }
            return None;
        }
        assert(value * 10 + digit <= bound) by (nonlinear_arith)
            requires
                value <= (bound - digit) / 10,
                digit <= bound,
        ;
        value = value * 10 + digit;
        i += 1;
    }
    assert(d.take(i - start) =~= d);
    Some(value)
}

/// The first `count` words of `s` read as numbers that fit in `bound`, if they all are.
pub open spec fn leading_numbers(s: Seq<char>, count: nat, bound: nat) -> Option<Seq<nat>> {
    let w = words(s);
    if w.len() >= count && (forall|i: int| 0 <= i < count ==> (#[trigger] number_value(w[i], bound)) is Some) {
        Some(Seq::new(count, |i: int| number_value(w[i], bound)->Some_0))
    } else {
        None
    }
}

/// Reads the first `count` words of a text as numbers that fit in `bound`.
pub fn parse_numbers(input: &str, count: usize, bound: u64) -> (r: Option<Vec<u64>>)
    ensures
        r is Some <==> leading_numbers(input@, count as nat, bound as nat) is Some,
        r is Some ==> r->Some_0@.len() == count && forall|i: int|
            0 <= i < count ==> (#[trigger] r->Some_0@[i]) as nat == leading_numbers(
                input@,
                count as nat,
                bound as nat,
            )->Some_0[i],
{
    let chars = chars_of(input);
    let ws = split_words(chars.as_slice());
    let ghost w = words(input@);
    assert(ws@.len() == w.len());
    if ws.len() < count {
        return None;
    }
    let mut values: Vec<u64> = Vec::new();
    let mut i: usize = 0;
    while i < count
        invariant
            i <= count <= ws@.len(),
            w == words(input@),
            ws@.map_values(|x: Vec<char>| x@) == w,
            values@.len() == i,
            forall|j: int| 0 <= j < i ==> (#[trigger] number_value(w[j], bound as nat)) is Some,
            forall|j: int|
                0 <= j < i ==> (#[trigger] values@[j]) as nat == number_value(w[j], bound as nat)->Some_0,
        decreases count - i,
    {
        assert(ws@[i as int]@ == w[i as int]);
        match parse_number(ws[i].as_slice(), bound) {
            Some(v) => values.push(v),
            None => {
                return None;
            },
        }
        i += 1;
    }
    Some(values)
}

} // verus!
