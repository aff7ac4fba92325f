//! Reading the answers that a player types.

use vstd::prelude::*;
use vstd::string::StrSliceExecFns;

verus! {

/// The characters that count as white space around an answer.
pub open spec fn is_space(c: char) -> bool {
    let u = c as u32;
    ||| 0x09 <= u <= 0x0D
    ||| u == 0x20
    ||| u == 0x85
    ||| u == 0xA0
    ||| u == 0x1680
    ||| 0x2000 <= u <= 0x200A
    ||| u == 0x2028
    ||| u == 0x2029
    ||| u == 0x202F
    ||| u == 0x205F
    ||| u == 0x3000
}

/// Where the white space that starts at `from` ends.
pub open spec fn lead(s: Seq<char>, from: int) -> int
    decreases s.len() - from,
{
    if 0 <= from < s.len() && is_space(s[from]) {
        lead(s, from + 1)
    } else {
        from
    }
}

/// Where the white space that ends at `upto` starts.
pub open spec fn trail(s: Seq<char>, upto: int) -> int
    decreases upto,
{
    if 0 < upto <= s.len() && is_space(s[upto - 1]) {
        trail(s, upto - 1)
    } else {
        upto
    }
}

/// Where the text starts and ends once the white space before and after it
/// is left out. Text that is all white space ends where it starts.
pub open spec fn span(s: Seq<char>) -> (int, int) {
    if lead(s, 0) < trail(s, s.len() as int) {
        (lead(s, 0), trail(s, s.len() as int))
    } else {
        (lead(s, 0), lead(s, 0))
    }
}

/// The text without the white space before and after it.
pub open spec fn trimmed(s: Seq<char>) -> Seq<char> {
    s.subrange(span(s).0, span(s).1)
}

/// The first character of the answer that is not white space.
pub open spec fn first_mark(s: Seq<char>) -> Option<char> {
    if trimmed(s).len() > 0 {
        Some(trimmed(s)[0])
    } else {
        None
    }
}

/// One of the ten digits.
pub open spec fn is_digit(c: char) -> bool {
    0x30 <= c as u32 <= 0x39
}

/// The number that a string of digits stands for.
pub open spec fn value_of(s: Seq<char>) -> nat
    decreases s.len(),
{
    if s.len() == 0 {
        0
    } else {
        (value_of(s.drop_last()) * 10 + (s.last() as u32 - 0x30)) as nat
    }
}

/// The text without a plus sign in front of it.
pub open spec fn unsigned(t: Seq<char>) -> Seq<char> {
    if t.len() > 0 && t[0] == '+' {
        t.subrange(1, t.len() as int)
    } else {
        t
    }
}

/// Nothing but digits, and at least one.
pub open spec fn all_digits(s: Seq<char>) -> bool {
    s.len() > 0 && forall|i: int| 0 <= i < s.len() ==> is_digit(#[trigger] s[i])
}

/// The number that an answer stands for: digits, with or without a plus
/// sign in front and white space around them. Anything else is no number.
pub open spec fn numeral(line: Seq<char>) -> Option<nat> {
    if all_digits(unsigned(trimmed(line))) {
        Some(value_of(unsigned(trimmed(line))))
    } else {
        None
    }
}

/// Whether to play another round, as the answer says: yes for `Y`, `y` or
/// nothing, no for `N` or `n`, and no answer for anything else.
pub open spec fn wants_again(line: Seq<char>) -> Option<bool> {
    let t = trimmed(line);
    if t.len() == 0 || t == seq!['Y'] || t == seq!['y'] {
        Some(true)
    } else if t == seq!['N'] || t == seq!['n'] {
        Some(false)
    } else {
        None
    }
}

proof fn lemma_lead(s: Seq<char>, from: int)
    requires
        0 <= from <= s.len(),
    ensures
        from <= lead(s, from) <= s.len(),
        forall|i: int| from <= i < lead(s, from) ==> is_space(#[trigger] s[i]),
        lead(s, from) < s.len() ==> !is_space(s[lead(s, from)]),
    decreases s.len() - from,
{
    if from < s.len() && is_space(s[from]) {
        lemma_lead(s, from + 1);
    }
}

proof fn lemma_trail(s: Seq<char>, upto: int)
    requires
        0 <= upto <= s.len(),
    ensures
        0 <= trail(s, upto) <= upto,
        forall|i: int| trail(s, upto) <= i < upto ==> is_space(#[trigger] s[i]),
        trail(s, upto) > 0 ==> !is_space(s[trail(s, upto) - 1]),
    decreases upto,
{
    if 0 < upto && is_space(s[upto - 1]) {
        lemma_trail(s, upto - 1);
    }
}

/// What was cut off is white space, and what is left neither starts nor
/// ends with white space.
pub proof fn lemma_trimmed(s: Seq<char>)
    ensures
        0 <= span(s).0 <= span(s).1 <= s.len(),
        forall|i: int| 0 <= i < span(s).0 ==> is_space(#[trigger] s[i]),
        forall|i: int| span(s).1 <= i < s.len() ==> is_space(#[trigger] s[i]),
        trimmed(s).len() > 0 ==> !is_space(trimmed(s)[0]) && !is_space(
            trimmed(s)[trimmed(s).len() - 1],
        ),
{
    lemma_lead(s, 0);
    lemma_trail(s, s.len() as int);
    let a = lead(s, 0);
    let b = trail(s, s.len() as int);
    if a >= b {
        assert forall|i: int| a <= i < s.len() implies is_space(#[trigger] s[i]) by {
            assert(i >= b);
        }
    }
}

/// A string of digits stands for no less than any string it starts with.
proof fn lemma_value_grows(s: Seq<char>, k: int)
    requires
        0 <= k <= s.len(),
        forall|i: int| 0 <= i < s.len() ==> is_digit(#[trigger] s[i]),
    ensures
        value_of(s.subrange(0, k)) <= value_of(s),
        s.len() > k ==> value_of(s.subrange(0, k)) * 10 <= value_of(s),
    decreases s.len() - k,
{
    if k < s.len() {
        let t = s.drop_last();
        assert(is_digit(s[s.len() - 1]));
        if k < t.len() {
            assert forall|i: int| 0 <= i < t.len() implies is_digit(#[trigger] t[i]) by {
                assert(t[i] == s[i]);
            }
            lemma_value_grows(t, k);
            assert(t.subrange(0, k) =~= s.subrange(0, k));
        } else {
            assert(t =~= s.subrange(0, k));
        }
    } else {
        assert(s.subrange(0, k) =~= s);
    }
}

fn is_space_char(c: char) -> (b: bool)
    ensures
        b == is_space(c),
{
    let u = c as u32;
    (0x09 <= u && u <= 0x0D) || u == 0x20 || u == 0x85 || u == 0xA0 || u == 0x1680 || (0x2000 <= u
        && u <= 0x200A) || u == 0x2028 || u == 0x2029 || u == 0x202F || u == 0x205F || u == 0x3000
}

fn space_at(line: &str, i: usize) -> (b: bool)
    requires
        i < line@.len(),
    ensures
        b == is_space(line@[i as int]),
{
    is_space_char(line.get_char(i))
}

/// Where the answer starts and ends within the line, counted in characters.
pub fn content(line: &str) -> (r: (usize, usize))
    ensures
        r.0 <= r.1 <= line@.len(),
        (r.0 as int, r.1 as int) == span(line@),
{
    let len = line.unicode_len();
    let ghost s = line@;
    let mut a: usize = 0;
    while a < len && space_at(line, a)
        invariant
            0 <= a <= len,
            len == s.len(),
            s == line@,
            lead(s, 0) == lead(s, a as int),
        decreases len - a,
    {
        a = a + 1;
    }
    let mut b: usize = len;
    while b > a && space_at(line, (b - 1) as usize)
        invariant
            a <= b <= len,
            len == s.len(),
            s == line@,
            trail(s, len as int) == trail(s, b as int),
            a < len ==> a < b && !is_space(s[a as int]),
            a == lead(s, 0),
        decreases b,
    {
        b = b - 1;
    }
    proof {
        lemma_lead(s, 0);
        lemma_trail(s, len as int);
    }
    (a, b)
}

/// The first character of the answer that is not white space.
pub fn read_mark(line: &str) -> (r: Option<char>)
    ensures
        r == first_mark(line@),
{
    let (a, b) = content(line);
    if a < b {
        Some(line.get_char(a))
    } else {
        None
    }
}

/// The number that the answer stands for, where it stands for one and the
/// number is no more than `cap`.
pub fn read_number(line: &str, cap: usize) -> (r: Option<usize>)
    ensures
        r matches Some(v) ==> numeral(line@) == Some(v as nat) && v <= cap,
        r is None ==> numeral(line@) is None || numeral(line@).unwrap() > cap,
{
    let (a, b) = content(line);
    let ghost s = line@;
    let mut start = a;
    if a < b && line.get_char(a) == '+' {
        start = a + 1;
    }
    let ghost body = s.subrange(start as int, b as int);
    assert(body =~= unsigned(trimmed(s)));
    if start >= b {
        return None;
    }
    let mut value: usize = 0;
    let mut i: usize = start;
    while i < b
        invariant
            start <= i <= b <= s.len(),
            s == line@,
            body == s.subrange(start as int, b as int),
            body == unsigned(trimmed(s)),
            value == value_of(body.subrange(0, i - start)),
            value <= cap,
            forall|k: int| 0 <= k < i - start ==> is_digit(#[trigger] body[k]),
        decreases b - i,
    {
        let c = line.get_char(i);
        let u = c as u32;
        if u < 0x30 || u > 0x39 {
            assert(!is_digit(body[i - start]));
            return None;
        }
        let d = (u - 0x30) as usize;
        let ghost next = body.subrange(0, i - start + 1);
        proof {
            assert(next.drop_last() =~= body.subrange(0, i - start));
            assert(next.last() == c);
            assert(value_of(next) == value * 10 + d);
            if value * 10 + d > cap {
                if all_digits(body) {
                    lemma_value_grows(body, i - start + 1);
                }
            }
        }
        if d > cap || value > (cap - d) / 10 {
            return None;
        }
        value = value * 10 + d;
        i = i + 1;
    }
    assert(body.subrange(0, b - start) =~= body);
    Some(value)
}

/// Whether to play another round, as the answer says.
pub fn play_again(line: &str) -> (r: Option<bool>)
    ensures
        r == wants_again(line@),
{
    let (a, b) = content(line);
    let ghost t = trimmed(line@);
    if a == b {
        return Some(true);
    }
    if b - a > 1 {
        assert(t.len() > 1);
        return None;
    }
    let c = line.get_char(a);
    assert(t =~= seq![c]);
    if c == 'Y' || c == 'y' {
        Some(true)
    } else if c == 'N' || c == 'n' {
        assert(t != seq!['Y'] && t != seq!['y']) by {
            assert(seq!['Y'][0] == 'Y' && seq!['y'][0] == 'y');
        }
        Some(false)
    } else {
        assert(t != seq!['Y'] && t != seq!['y'] && t != seq!['N'] && t != seq!['n']) by {
            assert(seq!['Y'][0] == 'Y' && seq!['y'][0] == 'y');
            assert(seq!['N'][0] == 'N' && seq!['n'][0] == 'n');
        }
        None
    }
}

} // verus!
