//! Character-level helpers shared by every other module.
//!
//! Text is modelled as `Seq<char>`. Executable code looks at the characters of a
//! string one by one, so each helper is tied to its model exactly.

use vstd::prelude::*;
use vstd::string::*;

verus! {

/// `String::push` appends one character and leaves the rest as it was.
pub assume_specification[ String::push ](s: &mut String, c: char)
    ensures
        final(s)@ == old(s)@.push(c),
;

// ---------------------------------------------------------------------------
// Character classes
// ---------------------------------------------------------------------------

/// The Unicode `White_Space` characters: what trimming removes.
pub open spec fn is_white(c: char) -> bool {
    let n = c as u32;
    ||| 0x09 <= n <= 0x0d
    ||| n == 0x20
    ||| n == 0x85
    ||| n == 0xa0
    ||| n == 0x1680
    ||| 0x2000 <= n <= 0x200a
    ||| n == 0x2028
    ||| n == 0x2029
    ||| n == 0x202f
    ||| n == 0x205f
    ||| n == 0x3000
}

/// The Unicode control characters (general category `Cc`).
pub open spec fn is_control(c: char) -> bool {
    let n = c as u32;
    n <= 0x1f || 0x7f <= n <= 0x9f
}

pub open spec fn is_lower(c: char) -> bool {
    'a' <= c <= 'z'
}

pub open spec fn is_upper(c: char) -> bool {
    'A' <= c <= 'Z'
}

pub open spec fn is_digit(c: char) -> bool {
    '0' <= c <= '9'
}

/// ASCII letters and digits.
pub open spec fn is_alphanumeric(c: char) -> bool {
    is_lower(c) || is_upper(c) || is_digit(c)
}

/// A hexadecimal digit in either case.
pub open spec fn is_hex_digit(c: char) -> bool {
    is_digit(c) || 'a' <= c <= 'f' || 'A' <= c <= 'F'
}

/// `c` with an ASCII capital turned into its small letter.
pub open spec fn lowered_char(c: char) -> char {
    if is_upper(c) {
        (c as u32 + 32) as char
    } else {
        c
    }
}

/// Every ASCII capital of `s` turned into its small letter.
pub open spec fn lowered(s: Seq<char>) -> Seq<char> {
    s.map_values(|c: char| lowered_char(c))
}

/// Whether `c` is a Unicode `White_Space` character.
pub fn white(c: char) -> (r: bool)
    ensures
        r == is_white(c),
{
    let n: u32 = c as u32;
    (0x09 <= n && n <= 0x0d) || n == 0x20 || n == 0x85 || n == 0xa0 || n == 0x1680 || (0x2000 <= n
        && n <= 0x200a) || n == 0x2028 || n == 0x2029 || n == 0x202f || n == 0x205f || n == 0x3000
}

/// Whether `c` is a Unicode control character.
pub fn control(c: char) -> (r: bool)
    ensures
        r == is_control(c),
{
    let n: u32 = c as u32;
    n <= 0x1f || (0x7f <= n && n <= 0x9f)
}

pub fn lower(c: char) -> (r: bool)
    ensures
        r == is_lower(c),
{
    'a' <= c && c <= 'z'
}

pub fn upper(c: char) -> (r: bool)
    ensures
        r == is_upper(c),
{
    'A' <= c && c <= 'Z'
}

pub fn digit(c: char) -> (r: bool)
    ensures
        r == is_digit(c),
{
    '0' <= c && c <= '9'
}

pub fn alphanumeric(c: char) -> (r: bool)
    ensures
        r == is_alphanumeric(c),
{
    lower(c) || upper(c) || digit(c)
}

pub fn hex_digit(c: char) -> (r: bool)
    ensures
        r == is_hex_digit(c),
{
    digit(c) || ('a' <= c && c <= 'f') || ('A' <= c && c <= 'F')
}

/// `c` with an ASCII capital turned into its small letter.
pub fn lower_char(c: char) -> (r: char)
    ensures
        r == lowered_char(c),
{
    if upper(c) {
        let n: u8 = c as u8;
        let r: char = (n + 32) as char;
        r
    } else {
        c
    }
}

// ---------------------------------------------------------------------------
// Strings and their characters
// ---------------------------------------------------------------------------

/// The characters of `s`, in order.
pub fn chars_of(s: &str) -> (v: Vec<char>)
    ensures
        v@ == s@,
{
    let mut v: Vec<char> = Vec::new();
    for c in it: s.chars()
        invariant
            v@ == it.seq().take(it.index() as int),
            it.seq() == s@,
    {
        v.push(c);
    }
    v
}

/// The characters `from..to` of `v` as a string.
pub fn slice_text(v: &Vec<char>, from: usize, to: usize) -> (s: String)
    requires
        from <= to <= v@.len(),
    ensures
        s@ == v@.subrange(from as int, to as int),
{
    let mut s = String::new();
    let mut i: usize = from;
    while i < to
        invariant
            from <= i <= to <= v@.len(),
            s@ == v@.subrange(from as int, i as int),
        decreases to - i,
    {
        s.push(v[i]);
        i += 1;
    }
    s
}

/// All of `v` as a string.
pub fn text_of(v: &Vec<char>) -> (s: String)
    ensures
        s@ == v@,
{
    slice_text(v, 0, v.len())
}

/// Whether two strings hold the same characters.
pub fn same(a: &str, b: &str) -> (r: bool)
    ensures
        r == (a@ == b@),
{
    a.to_owned() == b.to_owned()
}

/// Whether `s` begins with `p`.
pub fn has_prefix(s: &str, p: &str) -> (r: bool)
    ensures
        r == p@.is_prefix_of(s@),
{
    matches_at(&chars_of(s), 0, &chars_of(p))
}

/// Whether `p` stands in `v` at position `at`.
pub open spec fn stands_at(v: Seq<char>, at: int, p: Seq<char>) -> bool {
    0 <= at && at + p.len() <= v.len() && v.subrange(at, at + p.len()) == p
}

/// Whether `p` occurs anywhere in `s`.
pub open spec fn occurs_in(p: Seq<char>, s: Seq<char>) -> bool {
    exists|at: int| stands_at(s, at, p)
}

pub(crate) fn matches_at(v: &Vec<char>, at: usize, p: &Vec<char>) -> (r: bool)
    requires
        at <= v@.len(),
    ensures
        r == stands_at(v@, at as int, p@),
        at == 0 ==> r == p@.is_prefix_of(v@),
{
    if v.len() - at < p.len() {
        return false;
    }
    let mut i: usize = 0;
    while i < p.len()
        invariant
            at + p.len() <= v.len(),
            i <= p@.len(),
            forall|j: int| 0 <= j < i ==> v@[at + j] == p@[j],
        decreases p.len() - i,
    {
        if v[at + i] != p[i] {
            assert(v@.subrange(at as int, at + p@.len())[i as int] != p@[i as int]);
            return false;
        }
        i += 1;
    }
    assert(v@.subrange(at as int, at + p@.len()) =~= p@);
    true
}

/// Whether `p` occurs anywhere in `s`.
pub fn contains(s: &str, p: &str) -> (r: bool)
    ensures
        r == occurs_in(p@, s@),
{
    let v = chars_of(s);
    let w = chars_of(p);
    let mut at: usize = 0;
    while at < v.len()
        invariant
            at <= v@.len(),
            v@ == s@,
            w@ == p@,
            forall|i: int| 0 <= i < at ==> !stands_at(v@, i, w@),
        decreases v.len() - at,
    {
        if matches_at(&v, at, &w) {
            return true;
        }
        at += 1;
    }
    matches_at(&v, at, &w)
}

// ---------------------------------------------------------------------------
// Trimming
// ---------------------------------------------------------------------------

pub open spec fn start_trimmed(s: Seq<char>) -> Seq<char>
    decreases s.len(),
{
    if s.len() > 0 && is_white(s.first()) {
        start_trimmed(s.drop_first())
    } else {
        s
    }
}

pub open spec fn end_trimmed(s: Seq<char>) -> Seq<char>
    decreases s.len(),
{
    if s.len() > 0 && is_white(s.last()) {
        end_trimmed(s.drop_last())
    } else {
        s
    }
}

/// `s` without the white space at either end.
pub open spec fn trimmed(s: Seq<char>) -> Seq<char> {
    end_trimmed(start_trimmed(s))
}

/// `s` without the trailing characters that are among `cs`.
pub open spec fn end_trimmed_of(s: Seq<char>, cs: Seq<char>) -> Seq<char>
    decreases s.len(),
{
    if s.len() > 0 && cs.contains(s.last()) {
        end_trimmed_of(s.drop_last(), cs)
    } else {
        s
    }
}

/// `s` without any leading repetition of `p`.
pub open spec fn prefix_trimmed(s: Seq<char>, p: Seq<char>) -> Seq<char>
    decreases s.len(),
{
    if p.len() > 0 && p.is_prefix_of(s) {
        prefix_trimmed(s.skip(p.len() as int), p)
    } else {
        s
    }
}

/// How many characters of white space `v` starts with.
fn white_lead(v: &Vec<char>) -> (i: usize)
    ensures
        i <= v@.len(),
        v@.skip(i as int) == start_trimmed(v@),
{
    let mut i: usize = 0;
    assert(v@.skip(0) =~= v@);
    while i < v.len() && white(v[i])
        invariant
            i <= v@.len(),
            start_trimmed(v@.skip(i as int)) == start_trimmed(v@),
        decreases v.len() - i,
    {
        assert(v@.skip(i as int).drop_first() =~= v@.skip(i + 1));
        i += 1;
    }
    i
}

/// `s` without leading white space.
pub fn trim_start(s: &str) -> (r: String)
    ensures
        r@ == start_trimmed(s@),
{
    let v = chars_of(s);
    let i: usize = white_lead(&v);
    let r = slice_text(&v, i, v.len());
    assert(r@ =~= v@.skip(i as int));
    r
}

/// `s` without the white space at either end.
pub fn trim(s: &str) -> (r: String)
    ensures
        r@ == trimmed(s@),
{
    let v = chars_of(s);
    let i: usize = white_lead(&v);
    let mut j: usize = v.len();
    assert(v@.subrange(i as int, j as int) =~= v@.skip(i as int));
    while i < j && white(v[j - 1])
        invariant
            i <= j <= v@.len(),
            end_trimmed(v@.subrange(i as int, j as int)) == trimmed(v@),
        decreases j,
    {
        assert(v@.subrange(i as int, j as int).drop_last() =~= v@.subrange(i as int, j - 1));
        j -= 1;
    }
    slice_text(&v, i, j)
}

fn among(c: char, cs: &Vec<char>) -> (r: bool)
    ensures
        r == cs@.contains(c),
{
    let mut i: usize = 0;
    while i < cs.len()
        invariant
            i <= cs@.len(),
            forall|j: int| 0 <= j < i ==> cs@[j] != c,
        decreases cs.len() - i,
    {
        if cs[i] == c {
            return true;
        }
        i += 1;
    }
    false
}

/// `s` without the trailing characters that are among those of `cs`.
pub fn trim_end_of(s: &str, cs: &str) -> (r: String)
    ensures
        r@ == end_trimmed_of(s@, cs@),
{
    let v = chars_of(s);
    let set = chars_of(cs);
    let mut j: usize = v.len();
    assert(v@.subrange(0, j as int) =~= v@);
    while 0 < j && among(v[j - 1], &set)
        invariant
            j <= v@.len(),
            set@ == cs@,
            end_trimmed_of(v@.subrange(0, j as int), cs@) == end_trimmed_of(s@, cs@),
        decreases j,
    {
        assert(v@.subrange(0, j as int).drop_last() =~= v@.subrange(0, j - 1));
        j -= 1;
    }
    slice_text(&v, 0, j)
}

/// `s` without any leading repetition of `p`.
pub fn trim_prefix(s: &str, p: &str) -> (r: String)
    ensures
        r@ == prefix_trimmed(s@, p@),
{
    let v = chars_of(s);
    let w = chars_of(p);
    let mut i: usize = 0;
    assert(v@.skip(0) =~= v@);
    while 0 < w.len() && matches_at(&v, i, &w)
        invariant
            i <= v@.len(),
            w@ == p@,
            prefix_trimmed(v@.skip(i as int), p@) == prefix_trimmed(s@, p@),
        decreases v.len() - i,
    {
        let ghost rest = v@.skip(i as int);
        assert(rest.subrange(0, p@.len() as int) =~= v@.subrange(i as int, i + p@.len()));
        assert(p@.is_prefix_of(rest));
        assert(rest.skip(p@.len() as int) =~= v@.skip(i + p@.len()));
        i += w.len();
    }
    let r = slice_text(&v, i, v.len());
    proof {
        let rest = v@.skip(i as int);
        assert(r@ =~= rest);
        if p@.len() > 0 && p@.is_prefix_of(rest) {
            assert(v@.subrange(i as int, i + p@.len()) =~= rest.subrange(0, p@.len() as int));
        }
    }
    r
}

/// Every ASCII capital of `s` turned into its small letter.
pub fn to_lower(s: &str) -> (r: String)
    ensures
        r@ == lowered(s@),
{
    let v = chars_of(s);
    let mut r = String::new();
    let mut i: usize = 0;
    while i < v.len()
        invariant
            i <= v@.len(),
            v@ == s@,
            r@ == lowered(s@.take(i as int)),
        decreases v.len() - i,
    {
        r.push(lower_char(v[i]));
        i += 1;
        assert(lowered(s@.take(i as int)) =~= lowered(s@.take(i - 1)).push(lowered_char(s@[i - 1])));
    }
    assert(s@.take(i as int) =~= s@);
    r
}

// ---------------------------------------------------------------------------
// Numbers
// ---------------------------------------------------------------------------

/// The digit that stands for `d`, which is below ten.
pub open spec fn digit_char(d: nat) -> char {
    (('0' as u32) + d) as char
}

/// `n` in decimal, without leading zeros.
pub open spec fn decimal(n: nat) -> Seq<char>
    decreases n,
{
    if n < 10 {
        seq![digit_char(n)]
    } else {
        decimal(n / 10).push(digit_char(n % 10))
    }
}

/// An integer in decimal, with a minus sign where it is negative.
pub open spec fn signed_decimal(n: int) -> Seq<char> {
    if n < 0 {
        seq!['-'] + decimal((-n) as nat)
    } else {
        decimal(n as nat)
    }
}

/// `n` in decimal.
pub fn show(n: u64) -> (r: String)
    ensures
        r@ == decimal(n as nat),
    decreases n,
{
    let low: u8 = (n % 10) as u8;
    let c: char = (48 + low) as char;
    if n < 10 {
        let mut r = String::new();
        r.push(c);
        r
    } else {
        let mut r = show(n / 10);
        r.push(c);
        r
    }
}

/// `n` in decimal.
pub fn show_usize(n: usize) -> (r: String)
    ensures
        r@ == decimal(n as nat),
{
    show(n as u64)
}

/// `n` in decimal, with its sign.
pub fn show_signed(n: i64) -> (r: String)
    ensures
        r@ == signed_decimal(n as int),
{
    if n < 0 {
        let magnitude: u64 = if n == i64::MIN { 0x8000_0000_0000_0000 } else { (-n) as u64 };
        let mut r = String::new();
        r.push('-');
        r.append(show(magnitude).as_str());
        r
    } else {
        show(n as u64)
    }
}

/// The number that a row of decimal digits stands for.
pub open spec fn digits_value(s: Seq<char>) -> nat
    decreases s.len(),
{
    if s.len() == 0 {
        0
    } else {
        digits_value(s.drop_last()) * 10 + (s.last() as u32 - '0' as u32) as nat
    }
}

/// Whether `s` is one or more decimal digits.
pub open spec fn all_digits(s: Seq<char>) -> bool {
    s.len() > 0 && forall|i: int| 0 <= i < s.len() ==> is_digit(#[trigger] s[i])
}

/// The 64-bit integer that `s` spells: an optional sign and then digits.
pub open spec fn integer_of(s: Seq<char>) -> Option<i64> {
    let negative = s.len() > 0 && s[0] == '-';
    let signed = s.len() > 0 && (s[0] == '-' || s[0] == '+');
    let digits = if signed { s.drop_first() } else { s };
    let value = if negative { -(digits_value(digits) as int) } else { digits_value(digits) as int };
    if all_digits(digits) && i64::MIN <= value <= i64::MAX {
        Some(value as i64)
    } else {
        None
    }
}

proof fn lemma_digits_value_grows(s: Seq<char>, i: int)
    requires
        0 <= i <= s.len(),
    ensures
        digits_value(s.take(i)) <= digits_value(s),
    decreases s.len() - i,
{
    if i < s.len() {
        lemma_digits_value_grows(s, i + 1);
        assert(s.take(i + 1).drop_last() =~= s.take(i));
    } else {
        assert(s.take(i) =~= s);
    }
}

/// Whether `s` is a row of digits that stands for more than `limit`.
pub fn exceeds(s: &str, limit: u64) -> (r: bool)
    ensures
        r == (all_digits(s@) && digits_value(s@) > limit),
{
    let v = chars_of(s);
    let mut value: u128 = 0;
    let mut over = false;
    let mut i: usize = 0;
    assert(v@.take(0) =~= Seq::<char>::empty());
    while i < v.len()
        invariant
            i <= v@.len(),
            v@ == s@,
            forall|j: int| 0 <= j < i ==> is_digit(#[trigger] s@[j]),
            over == (digits_value(v@.take(i as int)) > limit),
            !over ==> value == digits_value(v@.take(i as int)),
        decreases v.len() - i,
    {
        if !digit(v[i]) {
            assert(!is_digit(s@[i as int]));
            return false;
        }
        proof {
            assert(v@.take(i + 1).drop_last() =~= v@.take(i as int));
        }
        if !over {
            value = value * 10 + (v[i] as u32 - '0' as u32) as u128;
            over = value > limit as u128;
        }
        i += 1;
    }
    assert(v@.take(i as int) =~= v@);
    v.len() > 0 && over
}

/// Reads a 64-bit integer: an optional sign and then digits.
pub fn parse_integer(s: &str) -> (r: Option<i64>)
    ensures
        r == integer_of(s@),
{
    let v = chars_of(s);
    let negative = v.len() > 0 && v[0] == '-';
    let signed = v.len() > 0 && (v[0] == '-' || v[0] == '+');
    let from: usize = if signed { 1 } else { 0 };
    let ghost digits = v@.skip(from as int);
    assert(digits =~= (if signed { s@.drop_first() } else { s@ }));
    if v.len() == from {
        return None;
    }
    let mut value: i128 = 0;
    let mut i: usize = from;
    assert(digits.take(0) =~= Seq::<char>::empty());
    while i < v.len()
        invariant
            from <= i <= v@.len(),
            v@ == s@,
            digits == v@.skip(from as int),
            digits == (if signed { s@.drop_first() } else { s@ }),
            signed == (s@.len() > 0 && (s@[0] == '-' || s@[0] == '+')),
            forall|j: int| 0 <= j < i - from ==> is_digit(#[trigger] digits[j]),
            value == digits_value(digits.take(i - from)),
            value <= 0x8000_0000_0000_0000,
        decreases v.len() - i,
    {
        if !digit(v[i]) {
            assert(!is_digit(digits[i - from]));
            return None;
        }
        proof {
            assert(digits.take(i - from + 1).drop_last() =~= digits.take(i - from));
            lemma_digits_value_grows(digits, i - from + 1);
        }
        value = value * 10 + (v[i] as u32 - '0' as u32) as i128;
        i += 1;
        if value > 0x8000_0000_0000_0000 {
            return None;
        }
    }
    assert(digits.take(i - from) =~= digits);
    if negative {
        Some((-value) as i64)
    } else if value <= i64::MAX as i128 {
        Some(value as i64)
    } else {
        None
    }
}

// ---------------------------------------------------------------------------
// Splitting
// ---------------------------------------------------------------------------

/// What stands between the occurrences of `sep` in `s`.
pub open spec fn pieces(s: Seq<char>, sep: char) -> Seq<Seq<char>>
    decreases s.len(),
{
    if s.len() == 0 {
        seq![seq![]]
    } else {
        let front = pieces(s.drop_last(), sep);
        if s.last() == sep {
            front.push(seq![])
        } else {
            front.drop_last().push(front.last().push(s.last()))
        }
    }
}

/// What stands between the occurrences of `sep` in `s`.
pub fn split(s: &str, sep: char) -> (r: Vec<String>)
    ensures
        texts(r@) == pieces(s@, sep),
{
    let v = chars_of(s);
    let mut done: Vec<String> = Vec::new();
    let mut current = String::new();
    let mut i: usize = 0;
    assert(texts(done@).push(current@) =~= seq![seq![]]);
    while i < v.len()
        invariant
            i <= v@.len(),
            v@ == s@,
            texts(done@).push(current@) == pieces(s@.take(i as int), sep),
        decreases v.len() - i,
    {
        let ghost front = pieces(s@.take(i as int), sep);
        let ghost before = texts(done@);
        let ghost had = current@;
        proof {
            assert(s@.take(i + 1).drop_last() =~= s@.take(i as int));
            assert(s@.take(i + 1).last() == v@[i as int]);
            assert(front.drop_last() =~= before);
            assert(front.last() == had);
        }
        if v[i] == sep {
            let mut finished = String::new();
            std::mem::swap(&mut finished, &mut current);
            let ghost list = done@;
            done.push(finished);
            assert(texts(done@) =~= texts(list).push(had));
            assert(current@ =~= seq![]);
            assert(texts(done@).push(current@) =~= front.push(seq![]));
        } else {
            current.push(v[i]);
            assert(texts(done@).push(current@) =~= front.drop_last().push(
                front.last().push(v@[i as int]),
            ));
        }
        i += 1;
    }
    assert(s@.take(i as int) =~= s@);
    let ghost list = done@;
    let ghost last = current@;
    done.push(current);
    assert(texts(done@) =~= texts(list).push(last));
    done
}

/// There is always at least one piece.
pub proof fn lemma_pieces_are_some(s: Seq<char>, sep: char)
    ensures
        pieces(s, sep).len() > 0,
    decreases s.len(),
{
    if s.len() > 0 {
        lemma_pieces_are_some(s.drop_last(), sep);
    }
}

/// A separator, and then a text without one, add one piece.
pub proof fn lemma_one_piece_more(s: Seq<char>, sep: char, part: Seq<char>)
    requires
        !part.contains(sep),
    ensures
        pieces(s.push(sep) + part, sep) == pieces(s, sep).push(part),
    decreases part.len(),
{
    let whole = s.push(sep) + part;
    lemma_pieces_are_some(s, sep);
    if part.len() == 0 {
        assert(whole =~= s.push(sep));
        assert(whole.drop_last() =~= s);
        assert(part =~= seq![]);
    } else {
        let front = part.drop_last();
        assert forall|i: int| 0 <= i < front.len() implies front[i] != sep by {
            assert(front[i] == part[i]);
        }
        lemma_one_piece_more(s, sep, front);
        assert(whole.drop_last() =~= s.push(sep) + front);
        assert(part.contains(part.last()));
        let had = pieces(s, sep).push(front);
        assert(had.drop_last() =~= pieces(s, sep));
        assert(front.push(part.last()) =~= part);
    }
}

// ---------------------------------------------------------------------------
// Layout
// ---------------------------------------------------------------------------

/// `n` spaces.
pub open spec fn spaces(n: nat) -> Seq<char> {
    Seq::new(n, |i: int| ' ')
}

/// `s` followed by the spaces that bring it to `width` characters, if any.
pub open spec fn padded(s: Seq<char>, width: nat) -> Seq<char> {
    s + spaces(if s.len() < width { (width - s.len()) as nat } else { 0 })
}

/// `parts` with `sep` between each two of them.
pub open spec fn joined(parts: Seq<Seq<char>>, sep: Seq<char>) -> Seq<char>
    decreases parts.len(),
{
    if parts.len() == 0 {
        seq![]
    } else if parts.len() == 1 {
        parts[0]
    } else {
        joined(parts.drop_last(), sep) + sep + parts.last()
    }
}

/// The characters of each string of a list.
pub open spec fn texts(list: Seq<String>) -> Seq<Seq<char>> {
    list.map_values(|s: String| s@)
}

/// `s` followed by the spaces that bring it to `width` characters, if any.
pub fn pad(s: &str, width: usize) -> (r: String)
    ensures
        r@ == padded(s@, width as nat),
{
    let mut r = s.to_owned();
    let len: usize = s.unicode_len();
    let mut i: usize = len;
    while i < width
        invariant
            len == s@.len(),
            len <= i,
            i <= width || i == len,
            r@ == s@ + spaces((i - len) as nat),
        decreases width - i,
    {
        r.push(' ');
        i += 1;
        assert(r@ =~= s@ + spaces((i - len) as nat));
    }
    assert(r@ =~= padded(s@, width as nat));
    r
}

/// The strings of `list` with `sep` between each two of them.
pub fn join(list: &Vec<String>, sep: &str) -> (r: String)
    ensures
        r@ == joined(texts(list@), sep@),
{
    let mut r = String::new();
    let mut i: usize = 0;
    while i < list.len()
        invariant
            i <= list@.len(),
            r@ == joined(texts(list@).take(i as int), sep@),
        decreases list.len() - i,
    {
        if i > 0 {
            r.append(sep);
        }
        r.append(list[i].as_str());
        i += 1;
        proof {
            let parts = texts(list@).take(i as int);
            assert(parts.drop_last() =~= texts(list@).take(i - 1));
            assert(parts.last() == list@[i - 1]@);
            assert(r@ =~= joined(parts, sep@));
        }
    }
    assert(texts(list@).take(i as int) =~= texts(list@));
    r
}

/// How many bytes a text takes.
pub open spec fn byte_length(s: Seq<char>) -> nat {
    vstd::utf8::encode_utf8(s).len()
}

/// How many bytes a text takes.
pub fn count_bytes(s: &str) -> (r: usize)
    ensures
        r == byte_length(s@),
{
    s.as_bytes().len()
}

/// `String::from_utf8`. The contract claims that it reads exactly the bytes that
/// are valid UTF-8, and as the characters that they encode.
#[verifier::external_body]
pub(crate) fn from_bytes(bytes: Vec<u8>) -> (r: Option<String>)
    ensures
        r is Some <==> vstd::utf8::valid_utf8(bytes@),
        r matches Some(s) ==> s@ == vstd::utf8::decode_utf8(bytes@),
{
    String::from_utf8(bytes).ok()
}

/// A string as a debug dump shows it: in double quotes, with whatever would not
/// be seen escaped.
pub uninterp spec fn quoted(s: Seq<char>) -> Seq<char>;

/// The `Debug` form of a `str`. The contract claims that it depends on the
/// string alone; how it escapes a given character is left to std.
#[verifier::external_body]
pub(crate) fn quote(s: &str) -> (r: String)
    ensures
        r@ == quoted(s@),
{
    format!("{:?}", s)
}

// ---------------------------------------------------------------------------
// What holds of texts
// ---------------------------------------------------------------------------

/// Whether a text is white space and nothing else.
pub open spec fn all_white(s: Seq<char>) -> bool {
    forall|i: int| 0 <= i < s.len() ==> is_white(#[trigger] s[i])
}

proof fn lemma_start_trimmed(s: Seq<char>) -> (lead: Seq<char>)
    ensures
        s == lead + start_trimmed(s),
        all_white(lead),
        start_trimmed(s).len() > 0 ==> !is_white(start_trimmed(s)[0]),
    decreases s.len(),
{
    if s.len() > 0 && is_white(s.first()) {
        let rest = lemma_start_trimmed(s.drop_first());
        let lead = seq![s[0]] + rest;
        assert(s =~= seq![s[0]] + s.drop_first());
        assert(start_trimmed(s) == start_trimmed(s.drop_first()));
        assert(seq![s[0]] + (rest + start_trimmed(s)) =~= lead + start_trimmed(s));
        lead
    } else {
        assert(s =~= Seq::<char>::empty() + s);
        seq![]
    }
}

proof fn lemma_end_trimmed(s: Seq<char>) -> (tail: Seq<char>)
    ensures
        s == end_trimmed(s) + tail,
        all_white(tail),
        end_trimmed(s).len() > 0 ==> !is_white(end_trimmed(s).last()),
    decreases s.len(),
{
    if s.len() > 0 && is_white(s.last()) {
        let rest = lemma_end_trimmed(s.drop_last());
        let tail = rest.push(s.last());
        assert(s =~= s.drop_last().push(s.last()));
        assert(end_trimmed(s) == end_trimmed(s.drop_last()));
        assert((end_trimmed(s) + rest).push(s.last()) =~= end_trimmed(s) + tail);
        tail
    } else {
        assert(s =~= s + Seq::<char>::empty());
        seq![]
    }
}

/// Trimming takes away white space at the two ends, all of it and nothing else.
pub proof fn trimming_takes_the_white_space_at_the_ends(s: Seq<char>)
    ensures
        exists|lead: Seq<char>, tail: Seq<char>|
            all_white(lead) && all_white(tail) && s == #[trigger] (lead + trimmed(s) + tail),
        trimmed(s).len() > 0 ==> !is_white(trimmed(s).first()) && !is_white(trimmed(s).last()),
        start_trimmed(s).len() > 0 ==> !is_white(start_trimmed(s).first()),
        exists|lead: Seq<char>| all_white(lead) && s == #[trigger] (lead + start_trimmed(s)),
{
    let lead = lemma_start_trimmed(s);
    let tail = lemma_end_trimmed(start_trimmed(s));
    assert(s =~= lead + trimmed(s) + tail);
    if trimmed(s).len() > 0 {
        assert(start_trimmed(s)[0] == trimmed(s)[0]);
    }
}

/// A number is written with digits alone, without a leading zero, and stands for
/// itself.
pub proof fn a_number_is_written_as_it_reads(n: nat)
    ensures
        all_digits(decimal(n)),
        digits_value(decimal(n)) == n,
        n > 0 ==> decimal(n)[0] != '0',
        n == 0 ==> decimal(n).len() == 1,
    decreases n,
{
    if n >= 10 {
        a_number_is_written_as_it_reads(n / 10);
        let front = decimal(n / 10);
        let s = decimal(n);
        assert(s.drop_last() =~= front);
        assert forall|i: int| 0 <= i < s.len() implies is_digit(#[trigger] s[i]) by {
            if i < front.len() {
                assert(s[i] == front[i]);
            }
        }
        assert(s[0] == front[0]);
    } else {
        let s = decimal(n);
        assert(s.drop_last() =~= seq![]);
        assert(digits_value(s.drop_last()) == 0);
    }
}

/// An integer that is written out reads back as itself, with or without a plus
/// sign.
pub proof fn an_integer_reads_back(n: i64)
    ensures
        integer_of(signed_decimal(n as int)) == Some(n),
        n >= 0 ==> integer_of(seq!['+'] + decimal(n as nat)) == Some(n),
{
    let m = if n < 0 {
        (-n) as nat
    } else {
        n as nat
    };
    let s = decimal(m);
    a_number_is_written_as_it_reads(m);
    assert(is_digit(s[0]));
    assert((seq!['-'] + s).drop_first() =~= s);
    assert((seq!['+'] + s).drop_first() =~= s);
}

/// What is split at a separator holds no separator any more, and joined by it is
/// what it was.
pub proof fn splitting_loses_nothing(s: Seq<char>, sep: char)
    ensures
        joined(pieces(s, sep), seq![sep]) == s,
        forall|i: int| 0 <= i < pieces(s, sep).len() ==> !(#[trigger] pieces(s, sep)[i]).contains(sep),
    decreases s.len(),
{
    let p = pieces(s, sep);
    if s.len() == 0 {
        assert(p[0] =~= s);
    } else {
        let front = s.drop_last();
        let q = pieces(front, sep);
        splitting_loses_nothing(front, sep);
        lemma_pieces_are_some(front, sep);
        assert(s =~= front.push(s.last()));
        if s.last() == sep {
            assert(p.drop_last() =~= q);
            assert(joined(p, seq![sep]) =~= s);
            assert forall|i: int| 0 <= i < p.len() implies !(#[trigger] p[i]).contains(sep) by {
                if i < q.len() {
                    assert(p[i] == q[i]);
                }
            }
        } else {
            let last = q.last().push(s.last());
            assert(p.drop_last() =~= q.drop_last());
            assert(!q[q.len() - 1].contains(sep));
            assert(!last.contains(sep)) by {
                if last.contains(sep) {
                    let k = choose|k: int| 0 <= k < last.len() && last[k] == sep;
                    assert(k < q.last().len());
                    assert(q.last()[k] == sep);
                }
            }
            assert forall|i: int| 0 <= i < p.len() implies !(#[trigger] p[i]).contains(sep) by {
                if i < q.len() - 1 {
                    assert(p[i] == q[i]);
                }
            }
            if q.len() == 1 {
                assert(joined(q, seq![sep]) == q[0]);
                assert(joined(p, seq![sep]) =~= s);
            } else {
                let x = joined(q.drop_last(), seq![sep]);
                assert(joined(q, seq![sep]) == x + seq![sep] + q.last());
                assert(joined(p, seq![sep]) == x + seq![sep] + last);
                assert(joined(p, seq![sep]) =~= joined(q, seq![sep]).push(s.last()));
            }
        }
    }
}

/// Lowering changes capitals of ASCII alone, each to its own small letter, and
/// keeps the length.
pub proof fn lowering_changes_capitals_alone(s: Seq<char>, i: int)
    requires
        0 <= i < s.len(),
    ensures
        lowered(s).len() == s.len(),
        !('A' <= s[i] <= 'Z') ==> lowered(s)[i] == s[i],
        'A' <= s[i] <= 'Z' ==> lowered(s)[i] as u32 == s[i] as u32 + 32,
{
}

/// Padding brings a text to a width with spaces behind it, and cuts nothing.
pub proof fn padding_only_adds_spaces(s: Seq<char>, width: nat)
    ensures
        s.is_prefix_of(padded(s, width)),
        padded(s, width).len() == (if s.len() < width {
            width
        } else {
            s.len()
        }),
        forall|i: int| s.len() <= i < padded(s, width).len() ==> #[trigger] padded(s, width)[i] == ' ',
{
    assert(padded(s, width).subrange(0, s.len() as int) =~= s);
}

/// Trimming some characters from the end takes all of those that stand there, and
/// nothing else.
pub proof fn only_the_named_characters_are_trimmed(s: Seq<char>, cs: Seq<char>)
    ensures
        end_trimmed_of(s, cs).is_prefix_of(s),
        end_trimmed_of(s, cs).len() > 0 ==> !cs.contains(end_trimmed_of(s, cs).last()),
        forall|i: int| end_trimmed_of(s, cs).len() <= i < s.len() ==> cs.contains(#[trigger] s[i]),
    decreases s.len(),
{
    if s.len() > 0 && cs.contains(s.last()) {
        let front = s.drop_last();
        only_the_named_characters_are_trimmed(front, cs);
        assert forall|i: int| end_trimmed_of(s, cs).len() <= i < s.len() implies cs.contains(
            #[trigger] s[i],
        ) by {
            if i < front.len() {
                assert(front[i] == s[i]);
            }
        }
    }
}

/// Trimming a prefix takes it away as often as it stands there, and nothing else.
pub proof fn a_prefix_is_trimmed_as_often_as_it_stands_there(s: Seq<char>, p: Seq<char>)
    requires
        p.len() > 0,
    ensures
        !p.is_prefix_of(prefix_trimmed(s, p)),
        !p.is_prefix_of(s) ==> prefix_trimmed(s, p) == s,
        prefix_trimmed(p + s, p) == prefix_trimmed(s, p),
    decreases s.len(),
{
    if p.is_prefix_of(s) {
        a_prefix_is_trimmed_as_often_as_it_stands_there(s.skip(p.len() as int), p);
    }
    assert((p + s).subrange(0, p.len() as int) =~= p);
    assert((p + s).skip(p.len() as int) =~= s);
}

} // verus!
