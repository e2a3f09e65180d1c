//! Text helpers shared by the protocol modules: decimal and hexadecimal
//! rendering, character access to strings, and lossy UTF-8 decoding.

use vstd::prelude::*;
use vstd::string::*;

verus! {

/// The character of one decimal digit.
pub open spec fn digit_char(d: nat) -> char
    recommends
        d < 10,
{
    ((48 + d) as u8) as char
}

/// The decimal rendering of `n`, without leading zeros.
pub open spec fn decimal(n: nat) -> Seq<char>
    decreases n,
{
    if n < 10 {
        seq![digit_char(n)]
    } else {
        decimal(n / 10).push(digit_char(n % 10))
    }
}

/// The character of one hexadecimal digit, in upper case.
pub open spec fn hex_char(d: nat) -> char
    recommends
        d < 16,
{
    if d < 10 {
        ((48 + d) as u8) as char
    } else {
        ((55 + d) as u8) as char
    }
}

/// The two upper-case hexadecimal digits of a byte.
pub open spec fn hex_byte(b: u8) -> Seq<char> {
    seq![hex_char((b / 16) as nat), hex_char((b % 16) as nat)]
}

/// What `String::from_utf8_lossy` makes of a byte sequence: the decoded
/// text, with each ill-formed part replaced by U+FFFD.
pub uninterp spec fn utf8_lossy(bytes: Seq<u8>) -> Seq<char>;

/// `String::push` of std: appends one character to the string.
pub assume_specification[ String::push ](s: &mut String, c: char)
    ensures
        final(s)@ == old(s)@.push(c),
;

/// `String::from_utf8_lossy` of std, with the result owned. The result is a
/// function of the bytes alone; on well-formed UTF-8 it is the decoded text.
#[verifier::external_body]
pub(crate) fn from_utf8_lossy(bytes: &[u8]) -> (text: String)
    ensures
        text@ == utf8_lossy(bytes@),
        vstd::utf8::valid_utf8(bytes@) ==> text@ == vstd::utf8::decode_utf8(bytes@),
{
    String::from_utf8_lossy(bytes).into_owned()
}

/// The characters of a string, in order.
pub fn chars_of(s: &str) -> (v: Vec<char>)
    ensures
        v@ == s@,
{
    let mut v: Vec<char> = Vec::new();
    for c in it: s.chars()
        invariant
            it.seq() == s@,
            v@ == it.seq().take(it.index() as int),
    {
        v.push(c);
    }
    assert(v@ == s@);
    v
}

/// Appends the characters of `chars[from..to]` to `out`.
pub fn push_chars(out: &mut String, chars: &[char], from: usize, to: usize)
    requires
        from <= to <= chars.len(),
    ensures
        final(out)@ == old(out)@ + chars@.subrange(from as int, to as int),
{
    let mut i: usize = from;
    while i < to
        invariant
            from <= i <= to <= chars.len(),
            out@ == old(out)@ + chars@.subrange(from as int, i as int),
        decreases to - i,
    {
        out.push(chars[i]);
        i = i + 1;
        assert(chars@.subrange(from as int, i as int) == chars@.subrange(
            from as int,
            i - 1,
        ).push(chars@[i - 1]));
    }
}

/// Appends the decimal rendering of `n` to `out`.
pub fn push_decimal(out: &mut String, n: u32)
    ensures
        final(out)@ == old(out)@ + decimal(n as nat),
    decreases n,
{
    if n >= 10 {
        push_decimal(out, n / 10);
    }
    let d: u8 = (n % 10) as u8;
    out.push((48u8 + d) as char);
    assert(out@ == old(out)@ + decimal(n as nat));
}

/// Appends the two upper-case hexadecimal digits of `b` to `out`.
pub fn push_hex_byte(out: &mut String, b: u8)
    ensures
        final(out)@ == old(out)@ + hex_byte(b),
{
    let hi: u8 = b / 16;
    let lo: u8 = b % 16;
    let hc: char = if hi < 10 {
        (48u8 + hi) as char
    } else {
        (55u8 + hi) as char
    };
    let lc: char = if lo < 10 {
        (48u8 + lo) as char
    } else {
        (55u8 + lo) as char
    };
    out.push(hc);
    out.push(lc);
    assert(out@ == old(out)@ + hex_byte(b));
}

/// Whether `c` is white space as Unicode defines it (the property
/// `White_Space`), which is what `char::is_whitespace` tests.
pub open spec fn is_whitespace(c: char) -> bool {
    let u = c as u32;
    ||| 0x09 <= u <= 0x0D
    ||| u == 0x20
    ||| u == 0x85
    ||| u == 0xA0
    ||| u == 0x1680
    ||| 0x2000 <= u <= 0x200A
    ||| u == 0x2028
    ||| u == 0x2029
    ||| u == 0x202F
    ||| u == 0x205F
    ||| u == 0x3000
}

/// Whether `c` is white space of ASCII: space, tab, line feed, form feed
/// or carriage return.
pub open spec fn is_ascii_whitespace(c: char) -> bool {
    let u = c as u32;
    u == 0x20 || u == 0x09 || u == 0x0A || u == 0x0C || u == 0x0D
}

/// A set of characters to scan for.
#[derive(Clone, Copy, Debug)]
pub enum CharClass {
    /// White space as Unicode defines it.
    Whitespace,
    /// White space of ASCII.
    Blank,
    /// Anything but white space of ASCII.
    Word,
    /// Anything but the one character.
    Except(char),
}

impl CharClass {
    /// Whether `c` is of this class.
    pub open spec fn holds(self, c: char) -> bool {
        match self {
            CharClass::Whitespace => is_whitespace(c),
            CharClass::Blank => is_ascii_whitespace(c),
            CharClass::Word => !is_ascii_whitespace(c),
            CharClass::Except(x) => c != x,
        }
    }

    /// Whether `c` is of this class.
    pub fn test(&self, c: char) -> (yes: bool)
        ensures
            yes == self.holds(c),
    {
        let u = c as u32;
        match self {
            CharClass::Whitespace => (0x09 <= u && u <= 0x0D) || u == 0x20 || u == 0x85 || u
                == 0xA0 || u == 0x1680 || (0x2000 <= u && u <= 0x200A) || u == 0x2028 || u
                == 0x2029 || u == 0x202F || u == 0x205F || u == 0x3000,
            CharClass::Blank => u == 0x20 || u == 0x09 || u == 0x0A || u == 0x0C || u == 0x0D,
            CharClass::Word => !(u == 0x20 || u == 0x09 || u == 0x0A || u == 0x0C || u == 0x0D),
            CharClass::Except(x) => c != *x,
        }
    }
}

/// How many characters at the head of `s` are of the class.
pub open spec fn leading(s: Seq<char>, class: CharClass) -> nat
    decreases s.len(),
{
    if s.len() > 0 && class.holds(s[0]) {
        1 + leading(s.skip(1), class)
    } else {
        0
    }
}

/// How many characters at the end of `s` are of the class.
pub open spec fn trailing(s: Seq<char>, class: CharClass) -> nat
    decreases s.len(),
{
    if s.len() > 0 && class.holds(s.last()) {
        1 + trailing(s.drop_last(), class)
    } else {
        0
    }
}

/// `s` without the white space at its head and at its end.
pub open spec fn trimmed(s: Seq<char>) -> Seq<char> {
    let a = leading(s, CharClass::Whitespace);
    if a >= s.len() {
        Seq::empty()
    } else {
        s.subrange(a as int, s.len() - trailing(s, CharClass::Whitespace))
    }
}

/// The words of `s`: the longest runs of characters that are no white
/// space of ASCII, in order.
pub open spec fn words(s: Seq<char>) -> Seq<Seq<char>>
    decreases s.len(),
    via words_decreases
{
    let a = leading(s, CharClass::Blank);
    if a >= s.len() {
        Seq::empty()
    } else {
        let w = 1 + leading(s.skip(a as int + 1), CharClass::Word);
        seq![s.subrange(a as int, a as int + w as int)] + words(s.skip(a as int + w as int))
    }
}

#[via_fn]
proof fn words_decreases(s: Seq<char>) {
    let a = leading(s, CharClass::Blank);
    lemma_leading_bound(s, CharClass::Blank);
    if a < s.len() {
        lemma_leading_bound(s.skip(a as int + 1), CharClass::Word);
    }
}

/// A run at the head is no longer than the whole.
pub proof fn lemma_leading_bound(s: Seq<char>, class: CharClass)
    ensures
        leading(s, class) <= s.len(),
    decreases s.len(),
{
    if s.len() > 0 && class.holds(s[0]) {
        lemma_leading_bound(s.skip(1), class);
    }
}

/// A run at the head is what a scan from the left finds.
pub proof fn lemma_leading_is(s: Seq<char>, class: CharClass, n: int)
    requires
        0 <= n <= s.len(),
        forall|k: int| 0 <= k < n ==> class.holds(s[k]),
        n < s.len() ==> !class.holds(s[n]),
    ensures
        leading(s, class) == n,
    decreases s.len(),
{
    if n > 0 {
        let rest = s.skip(1);
        assert forall|k: int| 0 <= k < n - 1 implies class.holds(rest[k]) by {
            assert(rest[k] == s[k + 1]);
        }
        lemma_leading_is(rest, class, n - 1);
    }
}

/// A run at the end is what a scan from the right finds.
pub proof fn lemma_trailing_is(s: Seq<char>, class: CharClass, n: int)
    requires
        0 <= n <= s.len(),
        forall|k: int| s.len() - n <= k < s.len() ==> class.holds(s[k]),
        n < s.len() ==> !class.holds(s[s.len() - n - 1]),
    ensures
        trailing(s, class) == n,
    decreases s.len(),
{
    if n > 0 {
        let rest = s.drop_last();
        assert forall|k: int| rest.len() - (n - 1) <= k < rest.len() implies class.holds(
            rest[k],
        ) by {
            assert(rest[k] == s[k]);
        }
        lemma_trailing_is(rest, class, n - 1);
    }
}

/// The end of the run of the class that starts at `from`, within
/// `chars[from..to]`.
pub fn scan(chars: &[char], from: usize, to: usize, class: &CharClass) -> (end: usize)
    requires
        from <= to <= chars.len(),
    ensures
        from <= end <= to,
        end - from == leading(chars@.subrange(from as int, to as int), *class),
        forall|k: int| from <= k < end ==> class.holds(chars@[k]),
        end < to ==> !class.holds(chars@[end as int]),
{
    let mut end: usize = from;
    while end < to && class.test(chars[end])
        invariant
            from <= end <= to <= chars.len(),
            forall|k: int| from <= k < end ==> class.holds(chars@[k]),
        decreases to - end,
    {
        end = end + 1;
    }
    proof {
        let s = chars@.subrange(from as int, to as int);
        lemma_leading_is(s, *class, end - from);
    }
    end
}

/// The start of the run of the class that ends at `to`, within
/// `chars[from..to]`.
pub fn scan_back(chars: &[char], from: usize, to: usize, class: &CharClass) -> (start: usize)
    requires
        from <= to <= chars.len(),
    ensures
        from <= start <= to,
        to - start == trailing(chars@.subrange(from as int, to as int), *class),
        forall|k: int| start <= k < to ==> class.holds(chars@[k]),
        start > from ==> !class.holds(chars@[start - 1]),
{
    let mut start: usize = to;
    while start > from && class.test(chars[start - 1])
        invariant
            from <= start <= to <= chars.len(),
            forall|k: int| start <= k < to ==> class.holds(chars@[k]),
        decreases start - from,
    {
        start = start - 1;
    }
    proof {
        let s = chars@.subrange(from as int, to as int);
        lemma_trailing_is(s, *class, to - start);
    }
    start
}

/// The bounds of `chars[from..to]` without the white space at its head
/// and at its end.
pub fn trim(chars: &[char], from: usize, to: usize) -> (bounds: (usize, usize))
    requires
        from <= to <= chars.len(),
    ensures
        from <= bounds.0 <= bounds.1 <= to,
        chars@.subrange(bounds.0 as int, bounds.1 as int) == trimmed(
            chars@.subrange(from as int, to as int),
        ),
{
    let a = scan(chars, from, to, &CharClass::Whitespace);
    if a == to {
        assert(chars@.subrange(a as int, a as int) == Seq::<char>::empty());
        return (a, a);
    }
    let b = scan_back(chars, from, to, &CharClass::Whitespace);
    proof {
        let s = chars@.subrange(from as int, to as int);
        if b <= a {
            lemma_trailing_covers(s, CharClass::Whitespace, a - from);
        }
        assert(s.subrange(a - from, s.len() - (to - b)) == chars@.subrange(a as int, b as int));
    }
    (a, b)
}

/// A character that is not of the class bounds the run at the end.
proof fn lemma_trailing_covers(s: Seq<char>, class: CharClass, at: int)
    requires
        0 <= at < s.len(),
        !class.holds(s[at]),
    ensures
        trailing(s, class) < s.len() - at,
    decreases s.len(),
{
    if s.len() > 0 && class.holds(s.last()) {
        lemma_trailing_covers(s.drop_last(), class, at);
    }
}

/// The bounds of the first word of `chars[from..to]`, or `None` where it
/// holds only white space of ASCII.
pub fn next_word(chars: &[char], from: usize, to: usize) -> (word: Option<(usize, usize)>)
    requires
        from <= to <= chars.len(),
    ensures
        match word {
            Some((a, b)) => {
                &&& from <= a < b <= to
                &&& words(chars@.subrange(from as int, to as int)) == seq![
                    chars@.subrange(a as int, b as int),
                ] + words(chars@.subrange(b as int, to as int))
            },
            None => words(chars@.subrange(from as int, to as int)).len() == 0,
        },
{
    let a = scan(chars, from, to, &CharClass::Blank);
    if a == to {
        return None;
    }
    let b = scan(chars, a + 1, to, &CharClass::Word);
    proof {
        let s = chars@.subrange(from as int, to as int);
        assert(s.skip(a - from + 1) == chars@.subrange(a + 1, to as int));
        assert(s.subrange(a - from, b - from) == chars@.subrange(a as int, b as int));
        assert(s.skip(b - from) == chars@.subrange(b as int, to as int));
    }
    Some((a, b))
}

/// The first two words of a line of a configuration file, or `None`
/// where the line, without the white space around it, is empty, starts
/// with `#`, or has fewer than two words.
pub open spec fn first_two_words(line: Seq<char>) -> Option<(Seq<char>, Seq<char>)> {
    let t = trimmed(line);
    if t.len() == 0 || t[0] == '#' {
        None
    } else {
        let w = words(t);
        if w.len() >= 2 {
            Some((w[0], w[1]))
        } else {
            None
        }
    }
}

/// The first two words of each line of `text` that has them. Lines end
/// at line feeds; empty lines and lines that start with `#` are passed
/// over.
pub open spec fn line_pairs(text: Seq<char>) -> Seq<(Seq<char>, Seq<char>)>
    decreases text.len(),
{
    let n = leading(text, CharClass::Except('\n'));
    let here = match first_two_words(text.take(n as int)) {
        Some(pair) => seq![pair],
        None => Seq::empty(),
    };
    if n >= text.len() {
        here
    } else {
        here + line_pairs(text.skip(n as int + 1))
    }
}

/// The views of a list of pairs of strings.
pub open spec fn pairs_view(pairs: Seq<(String, String)>) -> Seq<(Seq<char>, Seq<char>)> {
    Seq::new(pairs.len(), |i: int| (pairs[i].0@, pairs[i].1@))
}

/// The first two words of the line `chars[from..to]`.
pub fn first_two(chars: &[char], from: usize, to: usize) -> (pair: Option<(String, String)>)
    requires
        from <= to <= chars.len(),
    ensures
        match pair {
            Some((first, second)) => first_two_words(chars@.subrange(from as int, to as int))
                == Some((first@, second@)),
            None => first_two_words(chars@.subrange(from as int, to as int)) is None,
        },
{
    let (a, b) = trim(chars, from, to);
    if a == b {
        assert(chars@.subrange(a as int, b as int).len() == 0);
        return None;
    }
    assert(chars@.subrange(a as int, b as int)[0] == chars@[a as int]);
    if chars[a] == '#' {
        return None;
    }
    let (a0, b0) = match next_word(chars, a, b) {
        Some(bounds) => bounds,
        None => {
            return None;
        },
    };
    let (a1, b1) = match next_word(chars, b0, b) {
        Some(bounds) => bounds,
        None => {
            return None;
        },
    };
    let mut first = String::new();
    push_chars(&mut first, chars, a0, b0);
    let mut second = String::new();
    push_chars(&mut second, chars, a1, b1);
    Some((first, second))
}

/// Reads a configuration file line by line and returns the first two
/// words of each line that is not empty, no comment, and has them.
pub fn config_lines(text: &str) -> (pairs: Vec<(String, String)>)
    ensures
        pairs_view(pairs@) == line_pairs(text@),
{
    let chars = chars_of(text);
    let mut pairs: Vec<(String, String)> = Vec::new();
    let mut start: usize = 0;
    assert(chars@.skip(0) == chars@);
    assert(pairs_view(pairs@) == Seq::<(Seq<char>, Seq<char>)>::empty());
    loop
        invariant
            start <= chars.len(),
            chars@ == text@,
            line_pairs(text@) == pairs_view(pairs@) + line_pairs(chars@.skip(start as int)),
        decreases chars.len() - start,
    {
        let end = scan(chars.as_slice(), start, chars.len(), &CharClass::Except('\n'));
        let ghost rest = chars@.skip(start as int);
        assert(rest == chars@.subrange(start as int, chars.len() as int));
        assert(rest.take(end - start) == chars@.subrange(start as int, end as int));
        match first_two(chars.as_slice(), start, end) {
            Some(pair) => {
                let ghost before = pairs_view(pairs@);
                let ghost view = (pair.0@, pair.1@);
                pairs.push(pair);
                assert(pairs_view(pairs@) == before + seq![view]);
            },
            None => {},
        }
        if end == chars.len() {
            return pairs;
        }
        assert(rest.skip(end - start + 1) == chars@.skip(end + 1));
        start = end + 1;
    }
}

/// Whether `pattern` stands at `at` in `s`.
pub open spec fn occurs_at(s: Seq<char>, pattern: Seq<char>, at: int) -> bool {
    0 <= at && at + pattern.len() <= s.len() && s.subrange(at, at + pattern.len()) == pattern
}

/// Where `pattern` first occurs in `s`; the length of `s` where it does
/// not occur.
pub open spec fn find(s: Seq<char>, pattern: Seq<char>) -> nat
    decreases s.len(),
{
    if s.len() == 0 || occurs_at(s, pattern, 0) {
        0
    } else {
        1 + find(s.skip(1), pattern)
    }
}

/// What `find` reports lies within the text, and an occurrence does so
/// with all its length.
pub proof fn lemma_find_bound(s: Seq<char>, pattern: Seq<char>)
    ensures
        find(s, pattern) <= s.len(),
        find(s, pattern) < s.len() ==> find(s, pattern) + pattern.len() <= s.len(),
    decreases s.len(),
{
    if s.len() == 0 || occurs_at(s, pattern, 0) {
    } else {
        lemma_find_bound(s.skip(1), pattern);
    }
}

/// The first occurrence is where a scan from the left finds it.
pub proof fn lemma_find_is(s: Seq<char>, pattern: Seq<char>, n: int)
    requires
        0 <= n <= s.len(),
        forall|k: int| 0 <= k < n ==> !#[trigger] occurs_at(s, pattern, k),
        n < s.len() ==> occurs_at(s, pattern, n),
    ensures
        find(s, pattern) == n,
    decreases s.len(),
{
    if s.len() == 0 || occurs_at(s, pattern, 0) {
    } else {
        let rest = s.skip(1);
        let m = pattern.len() as int;
        assert forall|k: int| 0 <= k < n - 1 implies !#[trigger] occurs_at(rest, pattern, k) by {
            assert(!occurs_at(s, pattern, k + 1));
            if k + m <= rest.len() {
                assert(rest.subrange(k, k + m) == s.subrange(k + 1, k + 1 + m));
            }
        }
        if n < s.len() {
            assert(rest.subrange(n - 1, n - 1 + m) == s.subrange(n, n + m));
        }
        lemma_find_is(rest, pattern, n - 1);
    }
}

/// Whether `pattern` stands at `at` in `chars[from..to]`.
pub fn matches_at(chars: &[char], from: usize, at: usize, to: usize, pattern: &[char]) -> (yes:
    bool)
    requires
        from <= at <= to <= chars.len(),
    ensures
        yes == occurs_at(chars@.subrange(from as int, to as int), pattern@, at - from),
{
    let ghost s = chars@.subrange(from as int, to as int);
    if to - at < pattern.len() {
        return false;
    }
    let mut k: usize = 0;
    while k < pattern.len()
        invariant
            k <= pattern.len(),
            from <= at,
            at + pattern.len() <= to <= chars.len(),
            s == chars@.subrange(from as int, to as int),
            forall|j: int| 0 <= j < k ==> chars@[at + j] == pattern@[j],
        decreases pattern.len() - k,
    {
        if chars[at + k] != pattern[k] {
            assert(s.subrange(at - from, at - from + pattern.len())[k as int] != pattern@[k as int]);
            return false;
        }
        k = k + 1;
    }
    assert(s.subrange(at - from, at - from + pattern.len()) =~= pattern@);
    true
}

/// Where `pattern` first occurs in `chars[from..to]`; `to` where it does
/// not occur.
pub fn find_in(chars: &[char], from: usize, to: usize, pattern: &[char]) -> (at: usize)
    requires
        from <= to <= chars.len(),
    ensures
        from <= at <= to,
        at - from == find(chars@.subrange(from as int, to as int), pattern@),
        at < to ==> at + pattern.len() <= to,
{
    let ghost s = chars@.subrange(from as int, to as int);
    let mut at: usize = from;
    while at < to
        invariant
            from <= at <= to <= chars.len(),
            s == chars@.subrange(from as int, to as int),
            forall|k: int| 0 <= k < at - from ==> !#[trigger] occurs_at(s, pattern@, k),
        decreases to - at,
    {
        if matches_at(chars, from, at, to, pattern) {
            proof {
                lemma_find_is(s, pattern@, at - from);
            }
            return at;
        }
        at = at + 1;
    }
    proof {
        lemma_find_is(s, pattern@, to - from);
    }
    to
}

} // verus!
