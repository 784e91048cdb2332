//! Text as a sequence of characters: numerals, trimming, case and comparison.
use vstd::prelude::*;
use vstd::string::*;

verus! {

/// `String::push` appends one character at the end.
pub assume_specification[ String::push ](s: &mut String, c: char)
    ensures
        final(s)@ == old(s)@.push(c),
;

/// Whether a character has the Unicode property `White_Space`.
pub open spec fn white_space(c: char) -> bool {
    let n = c as nat;
    ||| 0x9 <= n <= 0xd
    ||| n == 0x20
    ||| n == 0x85
    ||| n == 0xa0
    ||| n == 0x1680
    ||| 0x2000 <= n <= 0x200a
    ||| n == 0x2028
    ||| n == 0x2029
    ||| n == 0x202f
    ||| n == 0x205f
    ||| n == 0x3000
}

/// `char::is_whitespace` decides the Unicode property `White_Space`, which the
/// characters of `white_space` have and no others.
#[verifier::external_body]
pub(crate) fn is_white_space(c: char) -> (r: bool)
    ensures
        r == white_space(c),
{
    c.is_whitespace()
}

/// The text that a byte string stands for, with each stretch that is not UTF-8
/// replaced.
pub uninterp spec fn utf8_lossy(bytes: Seq<u8>) -> Seq<char>;

/// `String::from_utf8_lossy` decodes UTF-8 and keeps valid text as it is. How an
/// invalid stretch is cut into replacement characters is left unsaid.
#[verifier::external_body]
pub(crate) fn from_utf8_lossy(bytes: &[u8]) -> (s: String)
    ensures
        s@ == utf8_lossy(bytes@),
        vstd::utf8::valid_utf8(bytes@) ==> s@ == vstd::utf8::decode_utf8(bytes@),
{
    String::from_utf8_lossy(bytes).into_owned()
}

/// The control characters, Unicode's general category `Cc`.
pub open spec fn control(c: char) -> bool {
    c as nat <= 0x1f || 0x7f <= c as nat <= 0x9f
}

/// Whether `c` is a control character.
pub fn is_control(c: char) -> (r: bool)
    ensures
        r == control(c),
{
    let n: u32 = c as u32;
    n <= 0x1f || (0x7f <= n && n <= 0x9f)
}

/// What a result says, with its message as characters.
pub open spec fn told<T>(r: Result<T, String>) -> Result<T, Seq<char>> {
    match r {
        Ok(v) => Ok(v),
        Err(e) => Err(e@),
    }
}

/// The character of a decimal digit.
pub open spec fn digit(d: nat) -> char {
    (48 + d) as char
}

/// The decimal numeral of `n`, without leading zeros.
pub open spec fn decimal(n: nat) -> Seq<char>
    decreases n,
{
    if n < 10 {
        seq![digit(n)]
    } else {
        decimal(n / 10).push(digit(n % 10))
    }
}

/// The decimal numeral of `n`, padded with zeros on the left to `width` digits.
pub open spec fn padded(n: nat, width: nat) -> Seq<char>
    decreases width,
{
    if width <= 1 {
        decimal(n)
    } else {
        padded(n / 10, (width - 1) as nat).push(digit(n % 10))
    }
}

/// The character of the digit `d`.
pub fn digit_char(d: u8) -> (c: char)
    requires
        d < 10,
    ensures
        c == digit(d as nat),
{
    (48u8 + d) as char
}

/// The value of a decimal digit.
pub open spec fn digit_value(c: char) -> Option<nat> {
    if 48 <= c as nat <= 57 {
        Some((c as nat - 48) as nat)
    } else {
        None
    }
}

/// The value of a decimal digit.
pub fn to_digit(c: char) -> (r: Option<u8>)
    ensures
        match r {
            Some(d) => digit_value(c) == Some(d as nat) && d < 10,
            None => digit_value(c) is None,
        },
{
    let n: u32 = c as u32;
    if 48 <= n && n <= 57 {
        Some((n - 48) as u8)
    } else {
        None
    }
}

/// Appends the decimal numeral of `n`.
pub fn push_decimal(s: &mut String, n: u64)
    ensures
        final(s)@ == old(s)@ + decimal(n as nat),
    decreases n,
{
    if n >= 10 {
        push_decimal(s, n / 10);
    }
    s.push(digit_char((n % 10) as u8));
    assert(s@ =~= old(s)@ + decimal(n as nat));
}

/// Appends the decimal numeral of `n`, padded with zeros to `width` digits.
pub fn push_padded(s: &mut String, n: u64, width: u32)
    ensures
        final(s)@ == old(s)@ + padded(n as nat, width as nat),
    decreases width,
{
    if width <= 1 {
        push_decimal(s, n);
    } else {
        push_padded(s, n / 10, width - 1);
        s.push(digit_char((n % 10) as u8));
        assert(s@ =~= old(s)@ + padded(n as nat, width as nat));
    }
}

/// Whether two texts are the same.
pub fn str_eq(a: &str, b: &str) -> (r: bool)
    ensures
        r == (a@ == b@),
{
    a.to_owned() == b.to_owned()
}

/// The characters of a text.
pub fn to_chars(s: &str) -> (v: Vec<char>)
    ensures
        v@ == s@,
{
    let mut v: Vec<char> = Vec::new();
    for c in it: s.chars()
        invariant
            it.seq() == s@,
            v@ == s@.take(it.index()),
    {
        v.push(c);
        assert(s@.take(it.index() + 1) =~= s@.take(it.index()).push(c));
    }
    assert(s@.take(s@.len() as int) =~= s@);
    v
}

/// The text of the characters `v[from..to]`.
pub fn from_chars(v: &Vec<char>, from: usize, to: usize) -> (s: String)
    requires
        from <= to <= v@.len(),
    ensures
        s@ == v@.subrange(from as int, to as int),
{
    let mut s: String = String::new();
    let mut i: usize = from;
    assert(s@ =~= v@.subrange(from as int, from as int));
    while i < to
        invariant
            from <= i <= to <= v@.len(),
            s@ == v@.subrange(from as int, i as int),
        decreases to - i,
    {
        s.push(v[i]);
        i = i + 1;
        assert(v@.subrange(from as int, i as int) =~= v@.subrange(from as int, i - 1).push(v@[i - 1]));
    }
    s
}

/// `s` without the leading characters that satisfy `p`.
pub open spec fn strip_start(s: Seq<char>, p: spec_fn(char) -> bool) -> Seq<char>
    decreases s.len(),
{
    if s.len() > 0 && p(s[0]) {
        strip_start(s.skip(1), p)
    } else {
        s
    }
}

/// `s` without the trailing characters that satisfy `p`.
pub open spec fn strip_end(s: Seq<char>, p: spec_fn(char) -> bool) -> Seq<char>
    decreases s.len(),
{
    if s.len() > 0 && p(s.last()) {
        strip_end(s.drop_last(), p)
    } else {
        s
    }
}

/// `s` without the characters at its ends that satisfy `p`.
pub open spec fn strip(s: Seq<char>, p: spec_fn(char) -> bool) -> Seq<char> {
    strip_end(strip_start(s, p), p)
}

/// `s` without the white space at its ends.
pub open spec fn trimmed(s: Seq<char>) -> Seq<char> {
    strip(s, |c: char| white_space(c))
}

/// `s` without the full stops at its ends.
pub open spec fn undotted(s: Seq<char>) -> Seq<char> {
    strip(s, |c: char| c == '.')
}

/// `s` without the white space at its ends.
pub fn trim(s: &str) -> (r: String)
    ensures
        r@ == trimmed(s@),
{
    let v = to_chars(s);
    let ghost p = |c: char| white_space(c);
    let mut from: usize = 0;
    let mut to: usize = v.len();
    assert(v@.subrange(0, v@.len() as int) =~= v@);
    while from < to && is_white_space(v[from])
        invariant
            from <= to == v@.len(),
            p == (|c: char| white_space(c)),
            strip_start(v@, p) == strip_start(v@.subrange(from as int, to as int), p),
        ensures
            from <= to == v@.len(),
            strip_start(v@, p) == v@.subrange(from as int, to as int),
        decreases to - from,
    {
        assert(v@.subrange(from as int, to as int).skip(1) =~= v@.subrange(from + 1, to as int));
        from = from + 1;
    }
    while from < to && is_white_space(v[to - 1])
        invariant
            from <= to <= v@.len(),
            p == (|c: char| white_space(c)),
            trimmed(v@) == strip_end(v@.subrange(from as int, to as int), p),
        ensures
            from <= to <= v@.len(),
            trimmed(v@) == v@.subrange(from as int, to as int),
        decreases to - from,
    {
        assert(v@.subrange(from as int, to as int).drop_last() =~= v@.subrange(from as int, to - 1));
        to = to - 1;
    }
    from_chars(&v, from, to)
}

/// `s` without the full stops at its ends.
pub fn trim_dots(s: &str) -> (r: String)
    ensures
        r@ == undotted(s@),
{
    let v = to_chars(s);
    let ghost p = |c: char| c == '.';
    let mut from: usize = 0;
    let mut to: usize = v.len();
    assert(v@.subrange(0, v@.len() as int) =~= v@);
    while from < to && v[from] == '.'
        invariant
            from <= to == v@.len(),
            p == (|c: char| c == '.'),
            strip_start(v@, p) == strip_start(v@.subrange(from as int, to as int), p),
        ensures
            from <= to == v@.len(),
            strip_start(v@, p) == v@.subrange(from as int, to as int),
        decreases to - from,
    {
        assert(v@.subrange(from as int, to as int).skip(1) =~= v@.subrange(from + 1, to as int));
        from = from + 1;
    }
    while from < to && v[to - 1] == '.'
        invariant
            from <= to <= v@.len(),
            p == (|c: char| c == '.'),
            undotted(v@) == strip_end(v@.subrange(from as int, to as int), p),
        ensures
            from <= to <= v@.len(),
            undotted(v@) == v@.subrange(from as int, to as int),
        decreases to - from,
    {
        assert(v@.subrange(from as int, to as int).drop_last() =~= v@.subrange(from as int, to - 1));
        to = to - 1;
    }
    from_chars(&v, from, to)
}

/// A letter's ASCII lower case; every other character is kept.
pub open spec fn lower(c: char) -> char {
    if 'A' as nat <= c as nat <= 'Z' as nat {
        (c as nat + 32) as char
    } else {
        c
    }
}

/// `s` with its ASCII letters in lower case.
pub open spec fn lowered(s: Seq<char>) -> Seq<char> {
    s.map_values(|c: char| lower(c))
}

/// The ASCII lower case of `c`.
pub fn to_lower(c: char) -> (r: char)
    ensures
        r == lower(c),
{
    let n: u32 = c as u32;
    if 65 <= n && n <= 90 {
        ((n as u8) + 32u8) as char
    } else {
        c
    }
}

/// `s` with its ASCII letters in lower case.
pub fn to_ascii_lowercase(s: &str) -> (r: String)
    ensures
        r@ == lowered(s@),
{
    let mut r: String = String::new();
    for c in it: s.chars()
        invariant
            it.seq() == s@,
            r@ == lowered(s@.take(it.index())),
    {
        r.push(to_lower(c));
        assert(lowered(s@.take(it.index() + 1)) =~= lowered(s@.take(it.index())).push(lower(c)));
    }
    assert(s@.take(s@.len() as int) =~= s@);
    r
}

/// Whether `s` ends with `end`.
pub open spec fn has_suffix(s: Seq<char>, end: Seq<char>) -> bool {
    s.len() >= end.len() && s.skip(s.len() - end.len()) == end
}

/// Whether `s` begins with `start`.
pub open spec fn has_prefix(s: Seq<char>, start: Seq<char>) -> bool {
    s.len() >= start.len() && s.take(start.len() as int) == start
}

/// Whether `s` ends with `end`.
pub fn ends_with(s: &str, end: &str) -> (r: bool)
    ensures
        r == has_suffix(s@, end@),
{
    let a = to_chars(s);
    let b = to_chars(end);
    if a.len() < b.len() {
        return false;
    }
    let tail = from_chars(&a, a.len() - b.len(), a.len());
    assert(a@.subrange(a@.len() - b@.len(), a@.len() as int) =~= s@.skip(s@.len() - end@.len()));
    str_eq(tail.as_str(), end)
}

/// Whether `s` begins with `start`.
pub fn starts_with(s: &str, start: &str) -> (r: bool)
    ensures
        r == has_prefix(s@, start@),
{
    let a = to_chars(s);
    let b = to_chars(start);
    if a.len() < b.len() {
        return false;
    }
    let head = from_chars(&a, 0, b.len());
    assert(a@.subrange(0, b@.len() as int) =~= s@.take(start@.len() as int));
    str_eq(head.as_str(), start)
}

/// Whether `a` is `b` or comes before it, character by character.
pub open spec fn lex_le(a: Seq<char>, b: Seq<char>) -> bool
    decreases a.len(),
{
    if a.len() == 0 {
        true
    } else if b.len() == 0 {
        false
    } else if a[0] == b[0] {
        lex_le(a.drop_first(), b.drop_first())
    } else {
        a[0] < b[0]
    }
}

/// Of two texts, one comes no later than the other.
pub proof fn lex_le_is_total(a: Seq<char>, b: Seq<char>)
    ensures
        lex_le(a, b) || lex_le(b, a),
    decreases a.len(),
{
    if a.len() > 0 && b.len() > 0 && a[0] == b[0] {
        lex_le_is_total(a.drop_first(), b.drop_first());
    }
}

/// The order of texts is transitive.
pub proof fn lex_le_is_transitive(a: Seq<char>, b: Seq<char>, c: Seq<char>)
    requires
        lex_le(a, b),
        lex_le(b, c),
    ensures
        lex_le(a, c),
    decreases a.len(),
{
    if a.len() > 0 && b.len() > 0 && c.len() > 0 && a[0] == b[0] && b[0] == c[0] {
        lex_le_is_transitive(a.drop_first(), b.drop_first(), c.drop_first());
    }
}

/// Whether `a` is `b` or comes before it.
pub fn str_le(a: &str, b: &str) -> (r: bool)
    ensures
        r == lex_le(a@, b@),
{
    let v = to_chars(a);
    let w = to_chars(b);
    let mut i: usize = 0;
    assert(a@.skip(0) =~= a@ && b@.skip(0) =~= b@);
    while i < v.len()
        invariant
            i <= v@.len(),
            i <= w@.len(),
            v@ == a@,
            w@ == b@,
            lex_le(a@, b@) == lex_le(a@.skip(i as int), b@.skip(i as int)),
        decreases v@.len() - i,
    {
        if i >= w.len() {
            return false;
        }
        if v[i] != w[i] {
            return v[i] < w[i];
        }
        assert(a@.skip(i as int).drop_first() =~= a@.skip(i + 1));
        assert(b@.skip(i as int).drop_first() =~= b@.skip(i + 1));
        i = i + 1;
    }
    true
}

/// The number that decimal digits stand for; `None` where another character stands.
pub open spec fn digits_value(s: Seq<char>) -> Option<nat>
    decreases s.len(),
{
    if s.len() == 0 {
        Some(0)
    } else {
        let d = digit_value(s.last());
        let before = digits_value(s.drop_last());
        if before is Some && d is Some {
            Some(before.unwrap() * 10 + d.unwrap())
        } else {
            None
        }
    }
}

/// The number up to `max` that a text stands for: digits, behind an optional plus
/// sign.
pub open spec fn number_of(s: Seq<char>, max: u32) -> Option<u32> {
    let d = if s.len() > 0 && s[0] == '+' {
        s.skip(1)
    } else {
        s
    };
    if d.len() > 0 && digits_value(d) is Some && digits_value(d).unwrap() <= max {
        Some(digits_value(d).unwrap() as u32)
    } else {
        None
    }
}

proof fn lemma_digits_prefix(s: Seq<char>, n: int)
    requires
        0 <= n <= s.len(),
    ensures
        digits_value(s.take(n)) is None ==> digits_value(s) is None,
        digits_value(s) is Some ==> digits_value(s.take(n)) is Some && digits_value(
            s.take(n),
        ).unwrap() <= digits_value(s).unwrap(),
    decreases s.len(),
{
    if n < s.len() {
        lemma_digits_prefix(s.drop_last(), n);
        assert(s.drop_last().take(n) =~= s.take(n));
    } else {
        assert(s.take(n) =~= s);
    }
}

/// Reads a number up to `max`.
pub fn parse_number(s: &str, max: u32) -> (r: Option<u32>)
    ensures
        r == number_of(s@, max),
{
    let v = to_chars(s);
    let from: usize = if v.len() > 0 && v[0] == '+' {
        1
    } else {
        0
    };
    let ghost d = v@.skip(from as int);
    assert(v@.skip(0) =~= v@);
    if v.len() == from {
        return None;
    }
    let mut n: u32 = 0;
    let mut i: usize = from;
    assert(d.take(0) =~= Seq::<char>::empty());
    while i < v.len()
        invariant
            from <= i <= v@.len(),
            v@ == s@,
            d == v@.skip(from as int),
            d.len() > 0,
            d == if s@.len() > 0 && s@[0] == '+' {
                s@.skip(1)
            } else {
                s@
            },
            n <= max,
            digits_value(d.take(i - from)) == Some(n as nat),
        decreases v@.len() - i,
    {
        proof {
            assert(d.take(i + 1 - from).drop_last() =~= d.take(i - from));
            assert(d.take(i + 1 - from).last() == v@[i as int]);
            lemma_digits_prefix(d, i + 1 - from);
        }
        let digit: u8 = match to_digit(v[i]) {
            Some(d) => d,
            None => {
                return None;
            },
        };
        let next: u64 = (n as u64) * 10 + (digit as u64);
        if next > max as u64 {
            return None;
        }
        n = next as u32;
        i = i + 1;
    }
    assert(d.take(d.len() as int) =~= d);
    Some(n)
}

/// A number that is written out is read back as it was, and starts with no zero but for zero
/// itself.
pub proof fn written_numbers_are_read_back(n: nat)
    ensures
        digits_value(decimal(n)) == Some(n),
        decimal(n).len() > 0,
        decimal(n)[0] == '0' ==> n == 0,
        forall|i: int| 0 <= i < decimal(n).len() ==> '0' <= #[trigger] decimal(n)[i] <= '9',
    decreases n,
{
    reveal_with_fuel(digits_value, 2);
    if n < 10 {
        assert(decimal(n).drop_last() =~= Seq::<char>::empty());
    } else {
        written_numbers_are_read_back(n / 10);
        assert(decimal(n).drop_last() =~= decimal(n / 10));
    }
}

/// A padded number is read back as it was, and has as many places as it is padded to, or more
/// where it needs them.
pub proof fn padded_numbers_are_read_back(n: nat, width: nat)
    ensures
        digits_value(padded(n, width)) == Some(n),
        padded(n, width).len() >= width,
        width >= 1 ==> (padded(n, width).len() > width ==> padded(n, width) == decimal(n)),
        forall|i: int| 0 <= i < padded(n, width).len() ==> '0' <= #[trigger] padded(n, width)[i]
            <= '9',
    decreases width,
{
    reveal_with_fuel(digits_value, 2);
    written_numbers_are_read_back(n);
    if width > 1 {
        padded_numbers_are_read_back(n / 10, (width - 1) as nat);
        assert(padded(n, width).drop_last() =~= padded(n / 10, (width - 1) as nat));
        if padded(n, width).len() > width {
            written_numbers_are_read_back(n / 10);
            if n < 10 {
                lemma_padded_zero((width - 1) as nat);
            }
        }
    }
}

proof fn lemma_padded_zero(width: nat)
    requires
        width >= 1,
    ensures
        padded(0, width).len() == width,
    decreases width,
{
    if width > 1 {
        lemma_padded_zero((width - 1) as nat);
    }
}

/// Different numbers are written differently.
pub proof fn numbers_are_told_apart(a: nat, b: nat)
    requires
        decimal(a) == decimal(b),
    ensures
        a == b,
{
    written_numbers_are_read_back(a);
    written_numbers_are_read_back(b);
}

proof fn lemma_strip_start_exact(s: Seq<char>, p: spec_fn(char) -> bool) -> (a: int)
    ensures
        0 <= a <= s.len(),
        strip_start(s, p) == s.skip(a),
        forall|i: int| 0 <= i < a ==> p(#[trigger] s[i]),
        a < s.len() ==> !p(s[a]),
    decreases s.len(),
{
    if s.len() > 0 && p(s[0]) {
        let t = s.skip(1);
        let b = lemma_strip_start_exact(t, p);
        assert(t.skip(b) =~= s.skip(b + 1));
        assert forall|i: int| 0 <= i < b + 1 implies p(#[trigger] s[i]) by {
            if i > 0 {
                assert(t[i - 1] == s[i]);
            }
        }
        if b < t.len() {
            assert(t[b] == s[b + 1]);
        }
        b + 1
    } else {
        assert(s.skip(0) =~= s);
        0
    }
}

proof fn lemma_strip_end_exact(s: Seq<char>, p: spec_fn(char) -> bool) -> (b: int)
    ensures
        0 <= b <= s.len(),
        strip_end(s, p) == s.take(b),
        forall|i: int| b <= i < s.len() ==> p(#[trigger] s[i]),
        b > 0 ==> !p(s[b - 1]),
    decreases s.len(),
{
    if s.len() > 0 && p(s.last()) {
        let t = s.drop_last();
        let b = lemma_strip_end_exact(t, p);
        assert(t.take(b) =~= s.take(b));
        assert forall|i: int| b <= i < s.len() implies p(#[trigger] s[i]) by {
            if i < t.len() {
                assert(t[i] == s[i]);
            }
        }
        if b > 0 {
            assert(t[b - 1] == s[b - 1]);
        }
        b
    } else {
        assert(s.take(s.len() as int) =~= s);
        s.len() as int
    }
}

/// Trimming takes white space off both ends and nothing else: what is left is one piece of
/// the text that neither starts nor ends with white space, and all around it is white.
pub proof fn trimming_takes_white_space_off(s: Seq<char>) -> (ends: (int, int))
    ensures
        0 <= ends.0 <= ends.1 <= s.len(),
        trimmed(s) == s.subrange(ends.0, ends.1),
        forall|i: int| 0 <= i < ends.0 || ends.1 <= i < s.len() ==> white_space(#[trigger] s[i]),
        trimmed(s).len() > 0 ==> !white_space(trimmed(s)[0]) && !white_space(trimmed(s).last()),
{
    let p = |c: char| white_space(c);
    let a = lemma_strip_start_exact(s, p);
    let t = s.skip(a);
    let b = lemma_strip_end_exact(t, p);
    assert(t.take(b) =~= s.subrange(a, a + b));
    assert forall|i: int| 0 <= i < a || a + b <= i < s.len() implies white_space(
        #[trigger] s[i],
    ) by {
        if i < a {
            assert(p(s[i]));
        } else {
            assert(t[i - a] == s[i]);
            assert(p(t[i - a]));
        }
    }
    if b > 0 {
        assert(trimmed(s)[0] == s[a]);
        assert(!p(s[a]));
        assert(trimmed(s).last() == t[b - 1]);
        assert(!p(t[b - 1]));
    }
    (a, a + b)
}

/// Lower case changes the capital letters of the Latin alphabet into their small ones and
/// keeps all else, in its place.
pub proof fn lower_case_keeps_all_but_capitals(s: Seq<char>, i: int)
    requires
        0 <= i < s.len(),
    ensures
        lowered(s).len() == s.len(),
        65 <= s[i] as nat <= 90 ==> lowered(s)[i] as nat == s[i] as nat + 32,
        !(65 <= s[i] as nat <= 90) ==> lowered(s)[i] == s[i],
        lowered(lowered(s)) == lowered(s),
{
    let c = s[i];
    assert(lowered(s)[i] == lower(c));
    assert(lowered(lowered(s)) =~= lowered(s));
}

/// Texts are ordered by the first character in which they differ, and a text comes before those
/// that it begins.
pub proof fn texts_are_ordered_by_their_first_difference(p: Seq<char>, a: Seq<char>, b: Seq<char>)
    ensures
        lex_le(p + a, p + b) == lex_le(a, b),
        lex_le(p, p + b),
        b.len() > 0 ==> !lex_le(p + b, p),
        a.len() > 0 && b.len() > 0 && a[0] < b[0] ==> lex_le(p + a, p + b) && !lex_le(p + b, p + a),
    decreases p.len(),
{
    if p.len() > 0 {
        assert((p + a).drop_first() =~= p.drop_first() + a);
        assert((p + b).drop_first() =~= p.drop_first() + b);
        texts_are_ordered_by_their_first_difference(p.drop_first(), a, b);
    } else {
        assert(p + a =~= a);
        assert(p + b =~= b);
    }
}

} // verus!
