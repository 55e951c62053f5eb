//! Character-level primitives shared by the line and attribute parsers.
//!
//! Every routine here works on the characters of a string, modelled as a
//! `Seq<char>`, and is specified by a spec function over such sequences.

use vstd::prelude::*;
use vstd::std_specs::iter::IteratorSpec;
use vstd::string::*;

verus! {

/// `String::push` appends one character to the end of the string.
pub assume_specification[ String::push ](s: &mut String, c: char)
    ensures
        final(s)@ == old(s)@.push(c),
;

/// The lowercase form of a string as `str::to_lowercase` computes it from the
/// Unicode case tables.
pub uninterp spec fn lowercase(s: Seq<char>) -> Seq<char>;

/// `str::to_lowercase` returns the lowercase equivalent of the string; the
/// result depends on the characters alone.
pub assume_specification[ str::to_lowercase ](s: &str) -> (r: String)
    ensures
        r@ == lowercase(s@),
;

/// The classes of characters that the parsers split and trim on.
#[derive(Clone, Copy, Debug, PartialEq, Eq, Structural)]
pub enum CharClass {
    /// Characters with the Unicode `White_Space` property.
    Whitespace,
    /// The horizontal tab that separates columns.
    Tab,
    /// The `;` that separates attribute pairs.
    Semicolon,
    /// The `=` between key and value of a GFF pair.
    Equals,
    /// The `"` around a GTF value.
    Quote,
}

/// Whether `c` has the Unicode `White_Space` property.
pub open spec fn is_whitespace(c: char) -> bool {
    let n = c as int;
    ||| 0x09 <= n <= 0x0d
    ||| n == 0x20
    ||| n == 0x85
    ||| n == 0xa0
    ||| n == 0x1680
    ||| 0x2000 <= n <= 0x200a
    ||| n == 0x2028
    ||| n == 0x2029
    ||| n == 0x202f
    ||| n == 0x205f
    ||| n == 0x3000
}

/// Whether `c` belongs to `class`.
pub open spec fn in_class(c: char, class: CharClass) -> bool {
    match class {
        CharClass::Whitespace => is_whitespace(c),
        CharClass::Tab => c == '\t',
        CharClass::Semicolon => c == ';',
        CharClass::Equals => c == '=',
        CharClass::Quote => c == '"',
    }
}

/// Decides membership of a character in a class.
pub fn char_in_class(c: char, class: CharClass) -> (b: bool)
    ensures
        b == in_class(c, class),
{
    match class {
        CharClass::Whitespace => {
            let n: u32 = c as u32;
            (0x09 <= n && n <= 0x0d) || n == 0x20 || n == 0x85 || n == 0xa0 || n == 0x1680 || (
            0x2000 <= n && n <= 0x200a) || n == 0x2028 || n == 0x2029 || n == 0x202f || n == 0x205f
                || n == 0x3000
        },
        CharClass::Tab => c == '\t',
        CharClass::Semicolon => c == ';',
        CharClass::Equals => c == '=',
        CharClass::Quote => c == '"',
    }
}

/// The characters of a string slice, in order.
pub fn chars_of(s: &str) -> (v: Vec<char>)
    ensures
        v@ == s@,
{
    broadcast use group_string_axioms;

    let mut it = s.chars();
    let mut v: Vec<char> = Vec::new();
    loop
        invariant
            v@ + it.remaining() == s@,
            it.decrease() is Some,
        ensures
            v@ == s@,
        decreases it.decrease()->0,
    {
        match it.next() {
            Some(c) => {
                v.push(c);
            },
            None => {
                assert(v@ =~= s@);
                break ;
            },
        }
    }
    v
}

/// The string made of the given characters.
pub fn string_of(v: &Vec<char>) -> (s: String)
    ensures
        s@ == v@,
{
    let mut s = String::new();
    let mut i: usize = 0;
    while i < v.len()
        invariant
            i <= v.len(),
            s@ == v@.subrange(0, i as int),
        decreases v.len() - i,
    {
        s.push(v[i]);
        i += 1;
        assert(s@ =~= v@.subrange(0, i as int));
    }
    assert(v@.subrange(0, v.len() as int) =~= v@);
    s
}

/// A copy of the characters `v[lo..hi]`.
pub fn slice_of(v: &Vec<char>, lo: usize, hi: usize) -> (r: Vec<char>)
    requires
        lo <= hi <= v.len(),
    ensures
        r@ == v@.subrange(lo as int, hi as int),
{
    let mut r: Vec<char> = Vec::new();
    let mut i: usize = lo;
    while i < hi
        invariant
            lo <= i <= hi <= v.len(),
            r@ == v@.subrange(lo as int, i as int),
        decreases hi - i,
    {
        r.push(v[i]);
        i += 1;
        assert(r@ =~= v@.subrange(lo as int, i as int));
    }
    r
}

/// Whether two character vectors hold the same characters.
pub fn same_chars(a: &Vec<char>, b: &Vec<char>) -> (r: bool)
    ensures
        r == (a@ == b@),
{
    if a.len() != b.len() {
        return false;
    }
    let mut i: usize = 0;
    while i < a.len()
        invariant
            i <= a.len(),
            a.len() == b.len(),
            a@.subrange(0, i as int) == b@.subrange(0, i as int),
        decreases a.len() - i,
    {
        if a[i] != b[i] {
            return false;
        }
        i += 1;
        assert(a@.subrange(0, i as int) =~= a@.subrange(0, i - 1).push(a@[i - 1]));
        assert(b@.subrange(0, i as int) =~= b@.subrange(0, i - 1).push(b@[i - 1]));
    }
    assert(a@ =~= a@.subrange(0, a.len() as int));
    assert(b@ =~= b@.subrange(0, b.len() as int));
    true
}

/// Whether the characters `a` spell the string `b`.
pub fn spells(a: &Vec<char>, b: &str) -> (r: bool)
    ensures
        r == (a@ == b@),
{
    let bv = chars_of(b);
    same_chars(a, &bv)
}

/// The position of the first character of `s` that belongs to `class`, or
/// `s.len()` when there is none.
pub open spec fn first_index(s: Seq<char>, class: CharClass) -> int
    decreases s.len(),
{
    if s.len() == 0 || in_class(s[0], class) {
        0
    } else {
        1 + first_index(s.drop_first(), class)
    }
}

/// `first_index` is the one position before which no character belongs to the
/// class and at which one does, or the length.
pub proof fn lemma_first_index(s: Seq<char>, class: CharClass, k: int)
    requires
        0 <= k <= s.len(),
        forall|j: int| 0 <= j < k ==> !in_class(#[trigger] s[j], class),
        k < s.len() ==> in_class(s[k], class),
    ensures
        first_index(s, class) == k,
    decreases s.len(),
{
    if s.len() == 0 || in_class(s[0], class) {
    } else {
        let t = s.drop_first();
        assert forall|j: int| 0 <= j < k - 1 implies !in_class(#[trigger] t[j], class) by {
            assert(t[j] == s[j + 1]);
        }
        lemma_first_index(t, class, k - 1);
    }
}

/// Finds the first character of `v[from..]` that belongs to `class`.
pub fn find_first(v: &Vec<char>, from: usize, class: CharClass) -> (k: usize)
    requires
        from <= v.len(),
    ensures
        from <= k <= v.len(),
        k - from == first_index(v@.subrange(from as int, v.len() as int), class),
{
    let mut k: usize = from;
    while k < v.len() && !char_in_class(v[k], class)
        invariant
            from <= k <= v.len(),
            forall|j: int| from <= j < k ==> !in_class(#[trigger] v@[j], class),
        decreases v.len() - k,
    {
        k += 1;
    }
    proof {
        let t = v@.subrange(from as int, v.len() as int);
        assert forall|j: int| 0 <= j < k - from implies !in_class(#[trigger] t[j], class) by {
            assert(t[j] == v@[j + from]);
        }
        lemma_first_index(t, class, k - from);
    }
    k
}

/// The pieces of `s` between the characters of `class`; a sequence without
/// such a character is one piece.
pub open spec fn split(s: Seq<char>, class: CharClass) -> Seq<Seq<char>>
    decreases s.len(),
{
    let i = first_index(s, class);
    if 0 <= i < s.len() {
        seq![s.subrange(0, i)] + split(s.subrange(i + 1, s.len() as int), class)
    } else {
        seq![s]
    }
}

/// The character sequences that a vector of character vectors holds.
pub open spec fn pieces(parts: Seq<Vec<char>>) -> Seq<Seq<char>> {
    Seq::new(parts.len(), |i: int| parts[i]@)
}

/// Splits `v` at every character of `class`.
pub fn split_chars(v: &Vec<char>, class: CharClass) -> (parts: Vec<Vec<char>>)
    ensures
        pieces(parts@) == split(v@, class),
        parts.len() >= 1,
{
    let mut parts: Vec<Vec<char>> = Vec::new();
    let mut start: usize = 0;
    proof {
        assert(v@.subrange(0, v.len() as int) =~= v@);
        assert(pieces(parts@) + split(v@, class) =~= split(v@, class));
    }
    loop
        invariant_except_break
            start <= v.len(),
            split(v@, class) == pieces(parts@) + split(
                v@.subrange(start as int, v.len() as int),
                class,
            ),
        ensures
            pieces(parts@) == split(v@, class),
            parts.len() >= 1,
        decreases v.len() - start,
    {
        let k = find_first(v, start, class);
        let piece = slice_of(v, start, k);
        let ghost rest = v@.subrange(start as int, v.len() as int);
        let ghost before = pieces(parts@);
        proof {
            assert(rest.subrange(0, k - start) =~= v@.subrange(start as int, k as int));
        }
        parts.push(piece);
        proof {
            assert(pieces(parts@) =~= before.push(piece@));
        }
        if k < v.len() {
            proof {
                assert(rest.subrange(k - start + 1, rest.len() as int) =~= v@.subrange(
                    k + 1,
                    v.len() as int,
                ));
                assert(split(rest, class) == seq![piece@] + split(
                    v@.subrange(k + 1, v.len() as int),
                    class,
                ));
                assert(before + (seq![piece@] + split(v@.subrange(k + 1, v.len() as int), class))
                    =~= before.push(piece@) + split(v@.subrange(k + 1, v.len() as int), class));
            }
            start = k + 1;
        } else {
            proof {
                assert(rest =~= piece@);
                assert(split(rest, class) == seq![rest]);
                assert(before + seq![rest] =~= before.push(piece@));
            }
            break ;
        }
    }
    parts
}

/// `s` without its leading characters of `class`.
pub open spec fn trim_start(s: Seq<char>, class: CharClass) -> Seq<char>
    decreases s.len(),
{
    if s.len() > 0 && in_class(s[0], class) {
        trim_start(s.drop_first(), class)
    } else {
        s
    }
}

/// `s` without its trailing characters of `class`.
pub open spec fn trim_end(s: Seq<char>, class: CharClass) -> Seq<char>
    decreases s.len(),
{
    if s.len() > 0 && in_class(s.last(), class) {
        trim_end(s.drop_last(), class)
    } else {
        s
    }
}

/// `s` without its leading and trailing characters of `class`.
pub open spec fn trim(s: Seq<char>, class: CharClass) -> Seq<char> {
    trim_end(trim_start(s, class), class)
}

/// `trim_start` drops exactly the longest prefix made of the class.
pub proof fn lemma_trim_start(s: Seq<char>, class: CharClass, k: int)
    requires
        0 <= k <= s.len(),
        forall|j: int| 0 <= j < k ==> in_class(#[trigger] s[j], class),
        k < s.len() ==> !in_class(s[k], class),
    ensures
        trim_start(s, class) == s.subrange(k, s.len() as int),
    decreases s.len(),
{
    if s.len() > 0 && in_class(s[0], class) {
        let t = s.drop_first();
        assert forall|j: int| 0 <= j < k - 1 implies in_class(#[trigger] t[j], class) by {
            assert(t[j] == s[j + 1]);
        }
        lemma_trim_start(t, class, k - 1);
        assert(t.subrange(k - 1, t.len() as int) =~= s.subrange(k, s.len() as int));
    } else {
        assert(k == 0) by {
            if k > 0 {
                assert(in_class(s[0], class));
            }
        }
        assert(s.subrange(0, s.len() as int) =~= s);
    }
}

/// `trim_end` drops exactly the longest suffix made of the class.
pub proof fn lemma_trim_end(s: Seq<char>, class: CharClass, k: int)
    requires
        0 <= k <= s.len(),
        forall|j: int| k <= j < s.len() ==> in_class(#[trigger] s[j], class),
        k > 0 ==> !in_class(s[k - 1], class),
    ensures
        trim_end(s, class) == s.subrange(0, k),
    decreases s.len(),
{
    if s.len() > 0 && in_class(s.last(), class) {
        let t = s.drop_last();
        assert(k < s.len());
        assert forall|j: int| k <= j < t.len() implies in_class(#[trigger] t[j], class) by {
            assert(t[j] == s[j]);
        }
        lemma_trim_end(t, class, k);
        assert(t.subrange(0, k) =~= s.subrange(0, k));
    } else {
        assert(k == s.len()) by {
            if k < s.len() {
                assert(in_class(s[s.len() - 1], class));
            }
        }
        assert(s.subrange(0, s.len() as int) =~= s);
    }
}

/// Removes the trailing characters of `class`.
pub fn trim_end_chars(v: &Vec<char>, class: CharClass) -> (r: Vec<char>)
    ensures
        r@ == trim_end(v@, class),
{
    let mut hi: usize = v.len();
    while hi > 0 && char_in_class(v[hi - 1], class)
        invariant
            hi <= v.len(),
            forall|j: int| hi <= j < v.len() ==> in_class(#[trigger] v@[j], class),
        decreases hi,
    {
        hi -= 1;
    }
    proof {
        lemma_trim_end(v@, class, hi as int);
    }
    slice_of(v, 0, hi)
}

/// Removes the leading and the trailing characters of `class`.
pub fn trim_chars(v: &Vec<char>, class: CharClass) -> (r: Vec<char>)
    ensures
        r@ == trim(v@, class),
{
    let mut lo: usize = 0;
    while lo < v.len() && char_in_class(v[lo], class)
        invariant
            lo <= v.len(),
            forall|j: int| 0 <= j < lo ==> in_class(#[trigger] v@[j], class),
        decreases v.len() - lo,
    {
        lo += 1;
    }
    let mut hi: usize = v.len();
    while hi > lo && char_in_class(v[hi - 1], class)
        invariant
            lo <= hi <= v.len(),
            forall|j: int| hi <= j < v.len() ==> in_class(#[trigger] v@[j], class),
        decreases hi,
    {
        hi -= 1;
    }
    proof {
        lemma_trim_start(v@, class, lo as int);
        let t = v@.subrange(lo as int, v.len() as int);
        assert forall|j: int| hi - lo <= j < t.len() implies in_class(#[trigger] t[j], class) by {
            assert(t[j] == v@[j + lo]);
        }
        if hi > lo {
            assert(t[hi - lo - 1] == v@[hi - 1]);
        }
        lemma_trim_end(t, class, hi - lo);
        assert(t.subrange(0, hi - lo) =~= v@.subrange(lo as int, hi as int));
    }
    slice_of(v, lo, hi)
}

/// Whether `s` holds a character of `class`.
pub open spec fn has_class(s: Seq<char>, class: CharClass) -> bool {
    first_index(s, class) < s.len()
}

/// Whether `p` stands in `s` at position `i`.
pub open spec fn occurs_at(s: Seq<char>, i: int, p: Seq<char>) -> bool {
    0 <= i && i + p.len() <= s.len() && s.subrange(i, i + p.len()) == p
}

/// Whether `s` begins with `p`.
pub open spec fn has_prefix(s: Seq<char>, p: Seq<char>) -> bool {
    occurs_at(s, 0, p)
}

/// Whether `s` ends with `p`.
pub open spec fn has_suffix(s: Seq<char>, p: Seq<char>) -> bool {
    occurs_at(s, s.len() - p.len(), p)
}

/// Whether `p` stands somewhere in `s`.
pub open spec fn has_infix(s: Seq<char>, p: Seq<char>) -> bool {
    exists|i: int| occurs_at(s, i, p)
}

/// Decides whether `p` stands in `v` at position `i`.
pub fn matches_at(v: &Vec<char>, i: usize, p: &Vec<char>) -> (r: bool)
    ensures
        r == occurs_at(v@, i as int, p@),
{
    if p.len() > v.len() || i > v.len() - p.len() {
        return false;
    }
    let mut j: usize = 0;
    while j < p.len()
        invariant
            j <= p.len(),
            i + p.len() <= v.len(),
            v@.subrange(i as int, i + j) == p@.subrange(0, j as int),
        decreases p.len() - j,
    {
        if v[i + j] != p[j] {
            proof {
                let w = v@.subrange(i as int, i + p.len());
                assert(w[j as int] == v@[i + j]);
            }
            return false;
        }
        j += 1;
        assert(v@.subrange(i as int, i + j) =~= v@.subrange(i as int, i + j - 1).push(
            v@[i + j - 1],
        ));
        assert(p@.subrange(0, j as int) =~= p@.subrange(0, j - 1).push(p@[j - 1]));
    }
    assert(p@.subrange(0, p.len() as int) =~= p@);
    true
}

/// Decides whether `v` begins with `p`.
pub fn starts_with(v: &Vec<char>, p: &Vec<char>) -> (r: bool)
    ensures
        r == has_prefix(v@, p@),
{
    matches_at(v, 0, p)
}

/// Decides whether `v` ends with `p`.
pub fn ends_with(v: &Vec<char>, p: &Vec<char>) -> (r: bool)
    ensures
        r == has_suffix(v@, p@),
{
    if p.len() > v.len() {
        return false;
    }
    matches_at(v, v.len() - p.len(), p)
}

/// Decides whether `p` stands somewhere in `v`.
pub fn contains_chars(v: &Vec<char>, p: &Vec<char>) -> (r: bool)
    ensures
        r == has_infix(v@, p@),
{
    if p.len() > v.len() {
        return false;
    }
    let last: usize = v.len() - p.len();
    let mut i: usize = 0;
    loop
        invariant
            i <= last,
            last == v.len() - p.len(),
            forall|k: int| 0 <= k < i ==> !occurs_at(v@, k, p@),
        decreases last - i,
    {
        if matches_at(v, i, p) {
            return true;
        }
        if i == last {
            return false;
        }
        i += 1;
    }
}

/// Decides whether `v` holds a character of `class`.
pub fn contains_class(v: &Vec<char>, class: CharClass) -> (r: bool)
    ensures
        r == has_class(v@, class),
{
    let k = find_first(v, 0, class);
    proof {
        assert(v@.subrange(0, v.len() as int) =~= v@);
    }
    k < v.len()
}

/// Whether `c` is one of the ten decimal digits.
pub open spec fn is_digit(c: char) -> bool {
    '0' <= c && c <= '9'
}

/// The value of a decimal digit.
pub open spec fn digit_value(c: char) -> nat {
    (c as int - '0' as int) as nat
}

/// Whether every character of `s` is a decimal digit.
pub open spec fn all_digits(s: Seq<char>) -> bool {
    forall|i: int| 0 <= i < s.len() ==> is_digit(#[trigger] s[i])
}

/// The number that the digits of `s` spell in base ten.
pub open spec fn decimal(s: Seq<char>) -> nat
    decreases s.len(),
{
    if s.len() == 0 {
        0
    } else {
        decimal(s.drop_last()) * 10 + digit_value(s.last())
    }
}

/// The digits of an unsigned number: the text without one leading `+`.
pub open spec fn unsigned_digits(s: Seq<char>) -> Seq<char> {
    if s.len() > 0 && s[0] == '+' {
        s.drop_first()
    } else {
        s
    }
}

/// The unsigned integer that `s` spells: an optional `+`, then at least one
/// digit, with a value that fits the machine word.
pub open spec fn parse_usize(s: Seq<char>) -> Option<usize> {
    let d = unsigned_digits(s);
    if d.len() > 0 && all_digits(d) && decimal(d) <= usize::MAX {
        Some(decimal(d) as usize)
    } else {
        None
    }
}

/// A number is at least as large as the number that any of its prefixes
/// spells.
pub proof fn lemma_decimal_prefix(s: Seq<char>, k: int)
    requires
        0 <= k <= s.len(),
    ensures
        decimal(s.subrange(0, k)) <= decimal(s),
    decreases s.len(),
{
    if k == s.len() {
        assert(s.subrange(0, k) =~= s);
    } else {
        let t = s.drop_last();
        lemma_decimal_prefix(t, k);
        assert(t.subrange(0, k) =~= s.subrange(0, k));
    }
}

/// Reads an unsigned decimal number.
pub fn parse_number(v: &Vec<char>) -> (r: Option<usize>)
    ensures
        r == parse_usize(v@),
{
    let start: usize = if v.len() > 0 && v[0] == '+' {
        1
    } else {
        0
    };
    let ghost d = unsigned_digits(v@);
    proof {
        assert(d =~= v@.subrange(start as int, v.len() as int));
    }
    if start == v.len() {
        return None;
    }
    let mut acc: usize = 0;
    let mut i: usize = start;
    while i < v.len()
        invariant
            start <= i <= v.len(),
            d == v@.subrange(start as int, v.len() as int),
            d == unsigned_digits(v@),
            all_digits(d.subrange(0, i - start)),
            acc == decimal(d.subrange(0, i - start)),
        decreases v.len() - i,
    {
        let c = v[i];
        if !(c >= '0' && c <= '9') {
            proof {
                assert(d[i - start] == c);
            }
            return None;
        }
        let digit: usize = (c as u32 - '0' as u32) as usize;
        proof {
            let next = d.subrange(0, i - start + 1);
            assert(next.drop_last() =~= d.subrange(0, i - start));
            assert(next.last() == c);
            assert(decimal(next) == acc * 10 + digit);
            lemma_decimal_prefix(d, i - start + 1);
            assert forall|j: int| 0 <= j < next.len() implies is_digit(#[trigger] next[j]) by {
                if j < i - start {
                    assert(next[j] == d.subrange(0, i - start)[j]);
                }
            }
        }
        match acc.checked_mul(10) {
            None => {
                return None;
            },
            Some(m) => match m.checked_add(digit) {
                None => {
                    return None;
                },
                Some(n) => {
                    acc = n;
                },
            },
        }
        i += 1;
    }
    proof {
        assert(d.subrange(0, d.len() as int) =~= d);
    }
    Some(acc)
}

/// The digit that spells a value below ten.
pub open spec fn digit_char(d: nat) -> char {
    if d == 0 {
        '0'
    } else if d == 1 {
        '1'
    } else if d == 2 {
        '2'
    } else if d == 3 {
        '3'
    } else if d == 4 {
        '4'
    } else if d == 5 {
        '5'
    } else if d == 6 {
        '6'
    } else if d == 7 {
        '7'
    } else if d == 8 {
        '8'
    } else {
        '9'
    }
}

/// The digits that spell a number in base ten, without leading zeros.
pub open spec fn decimal_digits(n: nat) -> Seq<char>
    decreases n,
{
    if n < 10 {
        seq![digit_char(n)]
    } else {
        decimal_digits(n / 10).push(digit_char(n % 10))
    }
}

/// The digit of a value below ten.
fn digit_for(d: usize) -> (c: char)
    requires
        d < 10,
    ensures
        c == digit_char(d as nat),
{
    if d == 0 {
        '0'
    } else if d == 1 {
        '1'
    } else if d == 2 {
        '2'
    } else if d == 3 {
        '3'
    } else if d == 4 {
        '4'
    } else if d == 5 {
        '5'
    } else if d == 6 {
        '6'
    } else if d == 7 {
        '7'
    } else if d == 8 {
        '8'
    } else {
        '9'
    }
}

/// Writes a number in base ten.
pub fn digits_of(n: usize) -> (v: Vec<char>)
    ensures
        v@ == decimal_digits(n as nat),
    decreases n,
{
    if n < 10 {
        let mut v: Vec<char> = Vec::new();
        v.push(digit_for(n));
        v
    } else {
        let mut v = digits_of(n / 10);
        v.push(digit_for(n % 10));
        v
    }
}

/// The digits of a number spell that number.
pub proof fn lemma_digits_round_trip(n: nat)
    ensures
        all_digits(decimal_digits(n)),
        decimal_digits(n).len() > 0,
        decimal(decimal_digits(n)) == n,
    decreases n,
{
    let s = decimal_digits(n);
    if n < 10 {
        assert(s.drop_last() =~= Seq::<char>::empty());
        assert(decimal(s.drop_last()) == 0);
    } else {
        lemma_digits_round_trip(n / 10);
        let head = decimal_digits(n / 10);
        assert(s.drop_last() =~= head);
        assert forall|i: int| 0 <= i < s.len() implies is_digit(#[trigger] s[i]) by {
            if i < head.len() {
                assert(s[i] == head[i]);
            }
        }
    }
}

/// How two texts stand in the order of the dictionary, character by
/// character: `-1` where the first comes first, `1` where the second does,
/// `0` where they are the same.
pub open spec fn text_rank(a: Seq<char>, b: Seq<char>) -> int
    decreases a.len(),
{
    if a.len() == 0 {
        if b.len() == 0 {
            0
        } else {
            -1
        }
    } else if b.len() == 0 {
        1
    } else if a[0] < b[0] {
        -1
    } else if a[0] > b[0] {
        1
    } else {
        text_rank(a.drop_first(), b.drop_first())
    }
}

/// Two texts have rank `0` exactly where they are the same.
pub proof fn lemma_text_rank_equal(a: Seq<char>, b: Seq<char>)
    ensures
        text_rank(a, b) == 0 <==> a == b,
        -1 <= text_rank(a, b) <= 1,
        text_rank(b, a) == -text_rank(a, b),
    decreases a.len(),
{
    if a.len() > 0 && b.len() > 0 {
        lemma_text_rank_equal(a.drop_first(), b.drop_first());
        if a[0] == b[0] && a.drop_first() == b.drop_first() {
            assert(a =~= seq![a[0]] + a.drop_first());
            assert(b =~= seq![b[0]] + b.drop_first());
        }
    } else if a.len() == 0 && b.len() == 0 {
        assert(a =~= b);
    }
}

/// Compares two texts in the order of the dictionary.
pub fn compare_chars(a: &Vec<char>, b: &Vec<char>) -> (r: i8)
    ensures
        r == text_rank(a@, b@),
{
    let mut i: usize = 0;
    proof {
        assert(a@.subrange(0, a.len() as int) =~= a@);
        assert(b@.subrange(0, b.len() as int) =~= b@);
    }
    loop
        invariant
            i <= a.len(),
            i <= b.len(),
            text_rank(a@, b@) == text_rank(
                a@.subrange(i as int, a.len() as int),
                b@.subrange(i as int, b.len() as int),
            ),
        decreases a.len() - i,
    {
        let ghost x = a@.subrange(i as int, a.len() as int);
        let ghost y = b@.subrange(i as int, b.len() as int);
        if i == a.len() {
            if i == b.len() {
                return 0;
            }
            return -1;
        }
        if i == b.len() {
            return 1;
        }
        proof {
            assert(x[0] == a@[i as int]);
            assert(y[0] == b@[i as int]);
            assert(x.drop_first() =~= a@.subrange(i + 1, a.len() as int));
            assert(y.drop_first() =~= b@.subrange(i + 1, b.len() as int));
        }
        if a[i] < b[i] {
            return -1;
        }
        if a[i] > b[i] {
            return 1;
        }
        i += 1;
    }
}

} // verus!
