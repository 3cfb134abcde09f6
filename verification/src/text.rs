//! Characters and strings.

use crate::find::copied;
use vstd::prelude::*;
use vstd::std_specs::iter::IteratorSpec;

verus! {

/// `String::push` of std: the character goes on the end of the string.
pub assume_specification[ String::push ](s: &mut String, c: char)
    ensures
        final(s)@ == old(s)@.push(c),
;

/// A character that Unicode counts as white space.
pub open spec fn white_space(c: char) -> bool {
    ||| '\u{9}' <= c <= '\u{d}'
    ||| c == ' '
    ||| c == '\u{85}'
    ||| c == '\u{a0}'
    ||| c == '\u{1680}'
    ||| '\u{2000}' <= c <= '\u{200a}'
    ||| c == '\u{2028}'
    ||| c == '\u{2029}'
    ||| c == '\u{202f}'
    ||| c == '\u{205f}'
    ||| c == '\u{3000}'
}

/// Whether Unicode counts `c` as white space.
pub fn is_whitespace(c: char) -> (r: bool)
    ensures
        r == white_space(c),
{
    ('\u{9}' <= c && c <= '\u{d}') || c == ' ' || c == '\u{85}' || c == '\u{a0}' || c == '\u{1680}'
        || ('\u{2000}' <= c && c <= '\u{200a}') || c == '\u{2028}' || c == '\u{2029}' || c
        == '\u{202f}' || c == '\u{205f}' || c == '\u{3000}'
}

/// The first place at or after `from` where `p` holds, or the length of `s`
/// where it never does.
pub open spec fn find_from(s: Seq<char>, from: int, p: spec_fn(char) -> bool) -> int
    decreases s.len() - from,
{
    if from >= s.len() {
        s.len() as int
    } else if p(s[from]) {
        from
    } else {
        find_from(s, from + 1, p)
    }
}

/// What [`find_from`] finds is the first place where `p` holds.
pub proof fn find_from_is_first(s: Seq<char>, from: int, p: spec_fn(char) -> bool)
    requires
        0 <= from <= s.len(),
    ensures
        from <= find_from(s, from, p) <= s.len(),
        forall|j: int| from <= j < find_from(s, from, p) ==> !p(#[trigger] s[j]),
        find_from(s, from, p) < s.len() ==> p(s[find_from(s, from, p)]),
    decreases s.len() - from,
{
    if from < s.len() && !p(s[from]) {
        find_from_is_first(s, from + 1, p);
    }
}

/// A place is the one [`find_from`] finds when nothing before it will do and it
/// does itself, or is the end.
pub proof fn find_from_reaches(s: Seq<char>, from: int, p: spec_fn(char) -> bool, at: int)
    requires
        0 <= from <= at <= s.len(),
        forall|j: int| from <= j < at ==> !p(#[trigger] s[j]),
        at < s.len() ==> p(s[at]),
    ensures
        find_from(s, from, p) == at,
    decreases at - from,
{
    if from < at {
        find_from_reaches(s, from + 1, p, at);
    }
}

/// The characters of a string, one element each.
pub fn to_chars(s: &str) -> (out: Vec<char>)
    ensures
        out@ == s@,
{
    let mut out: Vec<char> = Vec::new();
    for c in it: s.chars()
        invariant
            it.seq() == s@,
            out@ == s@.take(it.index()),
    {
        out.push(c);
        assert(s@.take(it.index() + 1) == s@.take(it.index()).push(c));
    }
    assert(s@.take(s@.len() as int) == s@);
    out
}

/// The string that a stretch of characters spells.
pub fn from_chars(chars: &Vec<char>, from: usize, to: usize) -> (out: String)
    requires
        from <= to <= chars@.len(),
    ensures
        out@ == chars@.subrange(from as int, to as int),
{
    let mut out = String::new();
    let mut i: usize = from;
    while i < to
        invariant
            from <= i <= to <= chars@.len(),
            out@ == chars@.subrange(from as int, i as int),
        decreases to - i,
    {
        out.push(chars[i]);
        i += 1;
        assert(chars@.subrange(from as int, i as int) == chars@.subrange(
            from as int,
            i - 1,
        ).push(chars@[i - 1]));
    }
    out
}

/// Whether two strings hold the same characters.
pub fn same_text(a: &str, b: &str) -> (r: bool)
    ensures
        r == (a@ == b@),
{
    let x = to_chars(a);
    let y = to_chars(b);
    if x.len() != y.len() {
        return false;
    }
    let mut i: usize = 0;
    while i < x.len()
        invariant
            x@ == a@,
            y@ == b@,
            x@.len() == y@.len(),
            0 <= i <= x@.len(),
            forall|j: int| 0 <= j < i ==> x@[j] == y@[j],
        decreases x.len() - i,
    {
        if x[i] != y[i] {
            return false;
        }
        i += 1;
    }
    assert(x@ == y@);
    true
}

/// A decimal digit as a character.
pub open spec fn digit_char(d: int) -> char {
    (48 + d) as char
}

/// A number in decimal.
pub open spec fn decimal(n: nat) -> Seq<char>
    decreases n,
{
    if n < 10 {
        seq![digit_char(n as int)]
    } else {
        decimal(n / 10).push(digit_char((n % 10) as int))
    }
}

/// A decimal digit as a character.
pub fn to_digit(d: u64) -> (c: char)
    requires
        d < 10,
    ensures
        c == digit_char(d as int),
        '0' <= c <= '9',
{
    if d == 0 {
        '0'
    } else if d == 1 {
        '1'
    } else if d == 2 {
        '2'
    } else if d == 3 {
        '3'
    } else if d == 4 {
        '4'
    } else if d == 5 {
        '5'
    } else if d == 6 {
        '6'
    } else if d == 7 {
        '7'
    } else if d == 8 {
        '8'
    } else {
        '9'
    }
}

/// Write a number in decimal on the end of a string.
pub fn push_decimal(out: &mut String, n: u64)
    ensures
        final(out)@ == old(out)@ + decimal(n as nat),
    decreases n,
{
    let ghost before = out@;
    if n >= 10 {
        push_decimal(out, n / 10);
    }
    out.push(to_digit(n % 10));
    assert(out@ == before + decimal(n as nat));
}

/// A number in decimal, with at least `width` digits.
pub open spec fn padded(n: nat, width: nat) -> Seq<char> {
    let d = decimal(n);
    if d.len() < width {
        Seq::new((width - d.len()) as nat, |i: int| '0') + d
    } else {
        d
    }
}

/// Write a number in decimal, with at least `width` digits, on the end of a
/// string.
pub fn push_padded(out: &mut String, n: u64, width: usize)
    ensures
        final(out)@ == old(out)@ + padded(n as nat, width as nat),
{
    let ghost before = out@;
    let mut number = String::new();
    push_decimal(&mut number, n);
    assert(number@ == decimal(n as nat));
    let have: usize = number.as_str().unicode_len();
    let mut k: usize = have;
    while k < width
        invariant
            have <= k,
            k <= width || k == have,
            out@ == before + Seq::new((k - have) as nat, |i: int| '0'),
        decreases width - k,
    {
        let ghost mid = out@;
        out.push('0');
        k += 1;
        assert(out@ =~= before + Seq::new((k - have) as nat, |i: int| '0'));
    }
    out.append(number.as_str());
    assert(out@ =~= before + padded(n as nat, width as nat));
}

/// `s` without the white space in front.
pub open spec fn trim_start(s: Seq<char>) -> Seq<char> {
    s.skip(find_from(s, 0, |c: char| !white_space(c)))
}

/// `s` without those of its last characters for which `p` holds.
pub open spec fn trim_end(s: Seq<char>, p: spec_fn(char) -> bool) -> Seq<char>
    decreases s.len(),
{
    if s.len() > 0 && p(s.last()) {
        trim_end(s.drop_last(), p)
    } else {
        s
    }
}

/// `s` without the white space around it.
pub open spec fn trim(s: Seq<char>) -> Seq<char> {
    trim_end(trim_start(s), |c: char| white_space(c))
}

/// Whether two runs of characters are the same.
pub fn same_chars(a: &Vec<char>, b: &Vec<char>) -> (r: bool)
    ensures
        r == (a@ == b@),
{
    if a.len() != b.len() {
        return false;
    }
    let mut i: usize = 0;
    while i < a.len()
        invariant
            a@.len() == b@.len(),
            0 <= i <= a@.len(),
            forall|j: int| 0 <= j < i ==> a@[j] == b@[j],
        decreases a.len() - i,
    {
        if a[i] != b[i] {
            return false;
        }
        i += 1;
    }
    assert(a@ == b@);
    true
}

/// Whether a run of characters spells `word`.
pub fn spells(a: &Vec<char>, word: &str) -> (r: bool)
    ensures
        r == (a@ == word@),
{
    same_chars(a, &to_chars(word))
}

/// `s` without its first `n` characters.
pub fn skipped(s: &Vec<char>, n: usize) -> (out: Vec<char>)
    requires
        n <= s@.len(),
    ensures
        out@ == s@.skip(n as int),
{
    let out = copied(s, n, s.len());
    assert(s@.subrange(n as int, s@.len() as int) == s@.skip(n as int));
    out
}

/// The first `n` characters of `s`.
pub fn taken(s: &Vec<char>, n: usize) -> (out: Vec<char>)
    requires
        n <= s@.len(),
    ensures
        out@ == s@.take(n as int),
{
    let out = copied(s, 0, n);
    assert(s@.subrange(0, n as int) == s@.take(n as int));
    out
}

/// `s` without the white space around it.
pub fn trimmed(s: &Vec<char>) -> (out: Vec<char>)
    ensures
        out@ == trim(s@),
{
    let ghost solid = |c: char| !white_space(c);
    let mut from: usize = 0;
    while from < s.len() && is_whitespace(s[from])
        invariant
            0 <= from <= s@.len(),
            solid == (|c: char| !white_space(c)),
            forall|j: int| 0 <= j < from ==> !solid(#[trigger] s@[j]),
        decreases s.len() - from,
    {
        from += 1;
    }
    proof {
        find_from_reaches(s@, 0, solid, from as int);
    }
    let mut out = skipped(s, from);
    let ghost p = |c: char| white_space(c);
    let ghost all = trim_end(out@, p);
    while out.len() > 0 && is_whitespace(out[out.len() - 1])
        invariant
            p == (|c: char| white_space(c)),
            trim_end(out@, p) == all,
        decreases out.len(),
    {
        let ghost before = out@;
        out.pop();
        assert(out@ == before.drop_last());
    }
    out
}

/// Whether `s` begins with `key`.
pub fn begins(s: &Vec<char>, key: &Vec<char>) -> (r: bool)
    ensures
        r == key@.is_prefix_of(s@),
{
    if s.len() < key.len() {
        return false;
    }
    let mut i: usize = 0;
    while i < key.len()
        invariant
            key@.len() <= s@.len(),
            0 <= i <= key@.len(),
            forall|j: int| 0 <= j < i ==> s@[j] == key@[j],
        decreases key.len() - i,
    {
        if s[i] != key[i] {
            assert(s@.subrange(0, key@.len() as int)[i as int] == s@[i as int]);
            return false;
        }
        i += 1;
    }
    assert(key@ == s@.subrange(0, key@.len() as int));
    true
}

/// `n` in units of `unit`, to the nearest, and to the even one of two as near.
pub open spec fn rounded(n: nat, unit: nat) -> nat {
    let q = n / unit;
    let r = n % unit;
    if 2 * r > unit || (2 * r == unit && q % 2 == 1) {
        q + 1
    } else {
        q
    }
}

/// `n` in units of `unit`, to the nearest, and to the even one of two as near.
pub fn round_even(n: u64, unit: u64) -> (q: u64)
    requires
        unit > 1,
    ensures
        q == rounded(n as nat, unit as nat),
{
    let q: u64 = n / unit;
    let r: u64 = n % unit;
    assert(q <= n / 2) by (nonlinear_arith)
        requires
            q == n / unit,
            unit >= 2,
            n >= 0,
    ;
    if r > unit - r || (r == unit - r && q % 2 == 1) {
        q + 1
    } else {
        q
    }
}

/// The size of a number.
pub open spec fn magnitude(v: int) -> nat {
    if v < 0 {
        (-v) as nat
    } else {
        v as nat
    }
}

/// A number in units of `unit`, to the nearest whole one.
pub open spec fn whole_text(v: int, unit: nat) -> Seq<char> {
    (if v < 0 { seq!['-'] } else { Seq::empty() }) + decimal(rounded(magnitude(v), unit))
}

/// A number in units of ten times `tenth`, to the nearest tenth.
pub open spec fn tenths_text(v: int, tenth: nat) -> Seq<char> {
    let t = rounded(magnitude(v), tenth);
    (if v < 0 { seq!['-'] } else { Seq::empty() }) + decimal(t / 10) + "."@ + decimal(t % 10)
}

/// The size of a number.
fn magnitude_of(v: i64) -> (m: u64)
    ensures
        m == magnitude(v as int),
{
    if v < 0 {
        (-(v as i128)) as u64
    } else {
        v as u64
    }
}

/// Write a number in units of `unit`, to the nearest whole one.
pub fn push_whole(out: &mut String, v: i64, unit: u64)
    requires
        unit > 1,
    ensures
        final(out)@ == old(out)@ + whole_text(v as int, unit as nat),
{
    let ghost before = out@;
    if v < 0 {
        out.push('-');
        assert(out@ == before + seq!['-']);
    } else {
        assert(out@ == before + Seq::<char>::empty());
    }
    push_decimal(out, round_even(magnitude_of(v), unit));
    assert(out@ =~= before + whole_text(v as int, unit as nat));
}

/// Write a number in units of ten times `tenth`, to the nearest tenth.
pub fn push_tenths(out: &mut String, v: i64, tenth: u64)
    requires
        tenth > 1,
    ensures
        final(out)@ == old(out)@ + tenths_text(v as int, tenth as nat),
{
    let ghost before = out@;
    if v < 0 {
        out.push('-');
        assert(out@ == before + seq!['-']);
    } else {
        assert(out@ == before + Seq::<char>::empty());
    }
    let t: u64 = round_even(magnitude_of(v), tenth);
    push_decimal(out, t / 10);
    out.append(".");
    push_decimal(out, t % 10);
    assert(out@ =~= before + tenths_text(v as int, tenth as nat));
}

/// A number in units of a hundred times `hundredth`, to the nearest hundredth.
pub open spec fn hundredths_text(v: int, hundredth: nat) -> Seq<char> {
    let h = rounded(magnitude(v), hundredth);
    (if v < 0 { seq!['-'] } else { Seq::empty() }) + decimal(h / 100) + "."@ + padded(h % 100, 2)
}

/// Add a number in units of a hundred times `hundredth`, to the nearest
/// hundredth.
pub fn push_hundredths(out: &mut String, v: i64, hundredth: u64)
    requires
        hundredth > 1,
    ensures
        final(out)@ == old(out)@ + hundredths_text(v as int, hundredth as nat),
{
    let ghost before = out@;
    if v < 0 {
        out.push('-');
    }
    let h: u64 = round_even(magnitude_of(v), hundredth);
    push_decimal(out, h / 100);
    out.append(".");
    push_padded(out, h % 100, 2);
    assert(out@ =~= before + hundredths_text(v as int, hundredth as nat));
}

} // verus!
