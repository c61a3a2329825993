//! Text as sequences of characters: trimming, splitting, numbers.

use vstd::prelude::*;

verus! {

/// The characters with the Unicode property `White_Space`.
pub open spec fn white_space(c: char) -> bool {
    ||| '\u{9}' <= c <= '\u{d}'
    ||| c == '\u{20}'
    ||| c == '\u{85}'
    ||| c == '\u{a0}'
    ||| c == '\u{1680}'
    ||| '\u{2000}' <= c <= '\u{200a}'
    ||| c == '\u{2028}'
    ||| c == '\u{2029}'
    ||| c == '\u{202f}'
    ||| c == '\u{205f}'
    ||| c == '\u{3000}'
}

/// `s` without the white space it begins with.
pub open spec fn trim_start(s: Seq<char>) -> Seq<char>
    decreases s.len(),
{
    if s.len() > 0 && white_space(s[0]) {
        trim_start(s.drop_first())
    } else {
        s
    }
}

/// `s` without the white space it ends with.
pub open spec fn trim_end(s: Seq<char>) -> Seq<char>
    decreases s.len(),
{
    if s.len() > 0 && white_space(s.last()) {
        trim_end(s.drop_last())
    } else {
        s
    }
}

/// `s` without the white space around it.
pub open spec fn trimmed(s: Seq<char>) -> Seq<char> {
    trim_end(trim_start(s))
}

/// `str::trim`: the slice without leading and trailing white space.
pub assume_specification[ str::trim ](s: &str) -> (r: &str)
    ensures
        r@ == trimmed(s@),
;

/// `String::push`: appends one character.
pub assume_specification[ String::push ](s: &mut String, c: char)
    ensures
        final(s)@ == old(s)@.push(c),
;

/// `<str as PartialEq>::eq`: whether two slices hold the same text.
pub assume_specification[ <str as PartialEq>::eq ](a: &str, b: &str) -> (r: bool)
    ensures
        r == (a@ == b@),
;

/// The lower case of an ASCII letter, and any other character itself.
pub open spec fn ascii_lower(c: char) -> char {
    if 'A' <= c <= 'Z' {
        (c as u32 + 32) as char
    } else {
        c
    }
}

/// `s` with every ASCII letter in lower case.
pub open spec fn lowercase(s: Seq<char>) -> Seq<char> {
    Seq::new(s.len(), |i: int| ascii_lower(s[i]))
}

/// `str::to_ascii_lowercase`: a copy with the letters `A` to `Z` mapped to `a`
/// to `z` and every other character unchanged.
pub assume_specification[ str::to_ascii_lowercase ](s: &str) -> (r: String)
    ensures
        r@ == lowercase(s@),
;

/// Whether every character of `s` is a decimal digit.
pub open spec fn all_digits(s: Seq<char>) -> bool {
    forall|i: int| 0 <= i < s.len() ==> '0' <= #[trigger] s[i] <= '9'
}

/// The number that the decimal digits `s` write.
pub open spec fn digits_value(s: Seq<char>) -> int
    decreases s.len(),
{
    if s.len() == 0 {
        0
    } else {
        digits_value(s.drop_last()) * 10 + (s.last() as int - '0' as int)
    }
}

/// The number that `s` writes in decimal, with an optional sign before its
/// digits, where it fits an `i64`.
pub open spec fn integer_value(s: Seq<char>) -> Option<i64> {
    let signed = s.len() > 0 && (s[0] == '+' || s[0] == '-');
    let digits = if signed {
        s.drop_first()
    } else {
        s
    };
    let value = if signed && s[0] == '-' {
        -digits_value(digits)
    } else {
        digits_value(digits)
    };
    if digits.len() > 0 && all_digits(digits) && i64::MIN <= value <= i64::MAX {
        Some(value as i64)
    } else {
        None
    }
}

/// `str::parse::<i64>`: an optional sign followed by digits only, as a number;
/// nothing for any other text or for a number out of range.
#[verifier::external_body]
pub(crate) fn parse_i64(s: &str) -> (r: Option<i64>)
    ensures
        r == integer_value(s@),
{
    s.parse::<i64>().ok()
}

/// The digit `d` as a character.
pub open spec fn digit_char(d: int) -> char {
    ('0' as int + d) as char
}

/// `n` in decimal, without leading zeros.
pub open spec fn decimal(n: nat) -> Seq<char>
    decreases n,
{
    if n < 10 {
        seq![digit_char(n as int)]
    } else {
        decimal(n / 10).push(digit_char((n % 10) as int))
    }
}

/// Digits written in decimal give the number back.
pub proof fn lemma_decimal_value(n: nat)
    ensures
        digits_value(decimal(n)) == n,
    decreases n,
{
    reveal_with_fuel(digits_value, 2);
    if n < 10 {
        assert(decimal(n).drop_last() =~= seq![]);
    } else {
        lemma_decimal_value(n / 10);
        assert(decimal(n).drop_last() =~= decimal(n / 10));
    }
}

/// `n` in decimal, with a minus sign where it is negative.
pub open spec fn signed_decimal(n: int) -> Seq<char> {
    if n < 0 {
        seq!['-'] + decimal((-n) as nat)
    } else {
        decimal(n as nat)
    }
}

/// Writes `n` in decimal.
pub fn decimal_string(n: u64) -> (r: String)
    ensures
        r@ == decimal(n as nat),
    decreases n,
{
    let digit: u8 = (n % 10) as u8;
    let mut out = if n < 10 {
        String::new()
    } else {
        decimal_string(n / 10)
    };
    out.push((48u8 + digit) as char);
    out
}

/// Writes `n` in decimal, with its sign where it is negative.
pub fn signed_decimal_string(n: i64) -> (r: String)
    ensures
        r@ == signed_decimal(n as int),
{
    if n >= 0 {
        decimal_string(n as u64)
    } else {
        let magnitude: u64 = (-(n as i128)) as u64;
        let mut out = "-".to_owned();
        let digits = decimal_string(magnitude);
        proof {
            reveal_strlit("-");
        }
        out.append(digits.as_str());
        out
    }
}

/// The index of the first `c` in `s`, or the length of `s` where there is none.
pub open spec fn first_index(s: Seq<char>, c: char) -> int
    decreases s.len(),
{
    if s.len() == 0 || s[0] == c {
        0
    } else {
        1 + first_index(s.drop_first(), c)
    }
}

/// The index of the last `c` in `s`, or -1 where there is none.
pub open spec fn last_index(s: Seq<char>, c: char) -> int
    decreases s.len(),
{
    if s.len() == 0 || s.last() == c {
        s.len() - 1
    } else {
        last_index(s.drop_last(), c)
    }
}

/// What `first_index` picks out: no `c` before it, and a `c` at it unless it is
/// the end.
pub proof fn lemma_first_index(s: Seq<char>, c: char)
    ensures
        0 <= first_index(s, c) <= s.len(),
        first_index(s, c) < s.len() ==> s[first_index(s, c)] == c,
        forall|i: int| 0 <= i < first_index(s, c) ==> #[trigger] s[i] != c,
        s.contains(c) <==> first_index(s, c) < s.len(),
    decreases s.len(),
{
    if s.len() > 0 && s[0] != c {
        lemma_first_index(s.drop_first(), c);
        let k = first_index(s.drop_first(), c);
        assert forall|i: int| 0 <= i < first_index(s, c) implies #[trigger] s[i] != c by {
            if i > 0 {
                assert(s.drop_first()[i - 1] == s[i]);
            }
        }
    }
}

/// What `last_index` picks out: no `c` after it, and a `c` at it unless there
/// is none.
pub proof fn lemma_last_index(s: Seq<char>, c: char)
    ensures
        -1 <= last_index(s, c) < s.len(),
        last_index(s, c) >= 0 ==> s[last_index(s, c)] == c,
        forall|i: int| last_index(s, c) < i < s.len() ==> #[trigger] s[i] != c,
        s.contains(c) <==> last_index(s, c) >= 0,
    decreases s.len(),
{
    if s.len() > 0 && s.last() != c {
        lemma_last_index(s.drop_last(), c);
        assert forall|i: int| last_index(s, c) < i < s.len() implies #[trigger] s[i] != c by {
            if i < s.len() - 1 {
                assert(s.drop_last()[i] == s[i]);
            }
        }
    } else if s.len() > 0 {
        assert(s[s.len() - 1] == c);
    }
}

/// The characters of `s`.
pub fn chars_of(s: &str) -> (r: Vec<char>)
    ensures
        r@ == s@,
{
    let mut out: Vec<char> = Vec::new();
    for c in it: s.chars()
        invariant
            out@ == it.seq().take(it.index()),
            it.seq() == s@,
    {
        out.push(c);
    }
    out
}


/// The text of `chars` from `from` up to `to`.
pub fn text_of(chars: &[char], from: usize, to: usize) -> (r: String)
    requires
        from <= to <= chars@.len(),
    ensures
        r@ == chars@.subrange(from as int, to as int),
{
    let mut out = String::new();
    let mut i: usize = from;
    while i < to
        invariant
            from <= i <= to <= chars@.len(),
            out@ == chars@.subrange(from as int, i as int),
        decreases to - i,
    {
        out.push(chars[i]);
        i += 1;
    }
    out
}

/// Finds the first `c` in `chars`, or their number where there is none.
pub fn find_first(chars: &[char], c: char) -> (r: usize)
    ensures
        r == first_index(chars@, c),
{
    let mut i: usize = 0;
    assert(chars@.skip(0) =~= chars@);
    while i < chars.len()
        invariant
            i <= chars@.len(),
            first_index(chars@, c) == i + first_index(chars@.skip(i as int), c),
        decreases chars@.len() - i,
    {
        if chars[i] == c {
            return i;
        }
        assert(chars@.skip(i as int).drop_first() =~= chars@.skip(i + 1));
        i += 1;
    }
    i
}

/// Finds the last `c` in `chars`.
pub fn find_last(chars: &[char], c: char) -> (r: Option<usize>)
    ensures
        r is None <==> last_index(chars@, c) < 0,
        r matches Some(i) ==> i == last_index(chars@, c),
{
    let mut i: usize = chars.len();
    assert(chars@.take(i as int) =~= chars@);
    while i > 0
        invariant
            i <= chars@.len(),
            last_index(chars@, c) == last_index(chars@.take(i as int), c),
        decreases i,
    {
        if chars[i - 1] == c {
            return Some(i - 1);
        }
        assert(chars@.take(i as int).drop_last() =~= chars@.take(i - 1));
        i -= 1;
    }
    None
}

/// The text before the first `c` of `s`, or all of `s` where there is none.
pub open spec fn before_first(s: Seq<char>, c: char) -> Seq<char> {
    s.take(first_index(s, c))
}

/// The text before the first `c` of `s` and the text after it.
pub open spec fn split_at_first(s: Seq<char>, c: char) -> Option<(Seq<char>, Seq<char>)> {
    if s.contains(c) {
        Some((s.take(first_index(s, c)), s.skip(first_index(s, c) + 1)))
    } else {
        None
    }
}

/// The text before the first `c`, or all of it where there is none.
pub fn head_before(s: &str, c: char) -> (r: String)
    ensures
        r@ == before_first(s@, c),
{
    let chars = chars_of(s);
    proof {
        lemma_first_index(s@, c);
    }
    let end = find_first(chars.as_slice(), c);
    text_of(chars.as_slice(), 0, end)
}

/// Splits `s` at its first `c`.
pub fn split_once(s: &str, c: char) -> (r: Option<(String, String)>)
    ensures
        r is Some <==> split_at_first(s@, c) is Some,
        r matches Some(parts) ==> split_at_first(s@, c) == Some((parts.0@, parts.1@)),
{
    let chars = chars_of(s);
    proof {
        lemma_first_index(s@, c);
    }
    let at = find_first(chars.as_slice(), c);
    if at < chars.len() {
        let before = text_of(chars.as_slice(), 0, at);
        let after = text_of(chars.as_slice(), at + 1, chars.len());
        assert(after@ =~= s@.skip(at + 1));
        Some((before, after))
    } else {
        None
    }
}

/// What follows `prefix` in `s`, where `s` begins with it.
pub open spec fn after_prefix(s: Seq<char>, prefix: Seq<char>) -> Option<Seq<char>> {
    if prefix.len() <= s.len() && s.take(prefix.len() as int) == prefix {
        Some(s.skip(prefix.len() as int))
    } else {
        None
    }
}

/// What follows `prefix` in `s`, where `s` begins with it.
pub fn strip_prefix(s: &str, prefix: &str) -> (r: Option<String>)
    ensures
        r is Some <==> after_prefix(s@, prefix@) is Some,
        r matches Some(rest) ==> after_prefix(s@, prefix@) == Some(rest@),
{
    let chars = chars_of(s);
    let wanted = chars_of(prefix);
    if wanted.len() > chars.len() {
        return None;
    }
    let mut i: usize = 0;
    while i < wanted.len()
        invariant
            i <= wanted@.len() <= chars@.len(),
            chars@ == s@,
            wanted@ == prefix@,
            forall|j: int| 0 <= j < i ==> chars@[j] == wanted@[j],
        decreases wanted@.len() - i,
    {
        if chars[i] != wanted[i] {
            assert(s@.take(prefix@.len() as int)[i as int] != prefix@[i as int]);
            return None;
        }
        i += 1;
    }
    assert(s@.take(prefix@.len() as int) =~= prefix@);
    let rest = text_of(chars.as_slice(), wanted.len(), chars.len());
    assert(rest@ =~= s@.skip(prefix@.len() as int));
    Some(rest)
}

/// Whether `part` stands in `s` at index `i`.
pub open spec fn stands_at(s: Seq<char>, part: Seq<char>, i: int) -> bool {
    0 <= i && i + part.len() <= s.len() && s.subrange(i, i + part.len()) == part
}

/// Whether `part` stands somewhere in `s`.
pub open spec fn holds_text(s: Seq<char>, part: Seq<char>) -> bool {
    exists|i: int| stands_at(s, part, i)
}

/// Whether `part` stands in `s` at index `at`.
fn found_at(s: &[char], part: &[char], at: usize) -> (r: bool)
    requires
        at + part@.len() <= s@.len(),
    ensures
        r == stands_at(s@, part@, at as int),
{
    let mut i: usize = 0;
    let total = s.len();
    while i < part.len()
        invariant
            i <= part@.len(),
            at + part@.len() <= total == s@.len(),
            forall|j: int| 0 <= j < i ==> #[trigger] part@[j] == s@[at + j],
        decreases part@.len() - i,
    {
        if s[at + i] != part[i] {
            assert(s@.subrange(at as int, at + part@.len())[i as int] != part@[i as int]);
            return false;
        }
        i += 1;
    }
    assert(s@.subrange(at as int, at + part@.len()) =~= part@);
    true
}

/// Whether `part` stands somewhere in `s`.
pub fn contains_text(s: &str, part: &str) -> (r: bool)
    ensures
        r == holds_text(s@, part@),
{
    let chars = chars_of(s);
    let wanted = chars_of(part);
    if wanted.len() == 0 {
        assert(s@.subrange(0, 0) =~= part@);
        assert(stands_at(s@, part@, 0));
        return true;
    }
    if wanted.len() > chars.len() {
        return false;
    }
    let ends = chars.len() - wanted.len() + 1;
    let mut i: usize = 0;
    while i < ends
        invariant
            i <= ends,
            ends == chars@.len() - wanted@.len() + 1,
            chars@ == s@,
            wanted@ == part@,
            forall|j: int| 0 <= j < i ==> !stands_at(s@, part@, j),
        decreases ends - i,
    {
        if found_at(chars.as_slice(), wanted.as_slice(), i) {
            return true;
        }
        i += 1;
    }
    false
}

/// Whether `c` occurs in `s`.
pub fn contains_char(s: &str, c: char) -> (r: bool)
    ensures
        r == s@.contains(c),
{
    let chars = chars_of(s);
    proof {
        lemma_first_index(s@, c);
    }
    find_first(chars.as_slice(), c) < chars.len()
}

/// The texts that a sequence of strings holds.
pub open spec fn texts(v: Seq<String>) -> Seq<Seq<char>> {
    Seq::new(v.len(), |i: int| v[i]@)
}

/// A copy of the texts in `list`.
pub fn copy_of(list: &Vec<String>) -> (r: Vec<String>)
    ensures
        texts(r@) == texts(list@),
{
    let mut out: Vec<String> = Vec::new();
    let mut i: usize = 0;
    while i < list.len()
        invariant
            i <= list@.len(),
            texts(out@) =~= texts(list@).take(i as int),
        decreases list@.len() - i,
    {
        let ghost before = texts(out@);
        out.push(list[i].clone());
        assert(texts(out@) =~= before.push(list@[i as int]@));
        i += 1;
    }
    assert(texts(list@).take(i as int) =~= texts(list@));
    out
}

/// Whether `list` holds `text`.
pub fn holds(list: &Vec<String>, text: &str) -> (r: bool)
    ensures
        r == texts(list@).contains(text@),
{
    let mut i: usize = 0;
    while i < list.len()
        invariant
            i <= list@.len(),
            forall|j: int| 0 <= j < i ==> texts(list@)[j] != text@,
        decreases list@.len() - i,
    {
        if *list[i].as_str() == *text {
            assert(texts(list@)[i as int] == text@);
            return true;
        }
        i += 1;
    }
    false
}

/// The first of `f(0)`, `f(1)`, up to but not including `f(n)`, that is there.
pub open spec fn first_some<A>(n: nat, f: spec_fn(int) -> Option<A>) -> Option<A>
    decreases n,
{
    if n == 0 {
        None
    } else {
        match first_some((n - 1) as nat, f) {
            Some(a) => Some(a),
            None => f(n - 1),
        }
    }
}

/// What was found among the first `n` is what is found among more.
pub proof fn lemma_first_some_stays<A>(n: nat, m: nat, f: spec_fn(int) -> Option<A>)
    requires
        n <= m,
        first_some(n, f) is Some,
    ensures
        first_some(m, f) == first_some(n, f),
    decreases m,
{
    if n < m {
        lemma_first_some_stays(n, (m - 1) as nat, f);
    }
}

/// Nothing is found where nothing is there, and only there.
pub proof fn lemma_first_some_none<A>(n: nat, f: spec_fn(int) -> Option<A>)
    ensures
        first_some(n, f) is None <==> forall|i: int| 0 <= i < n ==> (#[trigger] f(i)) is None,
    decreases n,
{
    if n > 0 {
        lemma_first_some_none((n - 1) as nat, f);
        if first_some(n, f) is None {
            assert forall|i: int| 0 <= i < n implies (#[trigger] f(i)) is None by {
                if i < n - 1 {
                }
            }
        }
        if forall|i: int| 0 <= i < n ==> (#[trigger] f(i)) is None {
            assert(f(n - 1) is None);
        }
    }
}

/// Whether every character of `s` is white space.
pub open spec fn is_blank(s: Seq<char>) -> bool {
    forall|i: int| 0 <= i < s.len() ==> white_space(#[trigger] s[i])
}

proof fn lemma_trim_start(a: Seq<char>, m: Seq<char>)
    requires
        is_blank(a),
        m.len() > 0 ==> !white_space(m[0]),
    ensures
        trim_start(a + m) == m,
    decreases a.len(),
{
    if a.len() == 0 {
        assert(a + m =~= m);
    } else {
        assert((a + m).drop_first() =~= a.drop_first() + m);
        assert forall|i: int| 0 <= i < a.drop_first().len() implies white_space(
            #[trigger] a.drop_first()[i],
        ) by {
            assert(white_space(a[i + 1]));
        }
        lemma_trim_start(a.drop_first(), m);
    }
}

proof fn lemma_trim_end(m: Seq<char>, b: Seq<char>)
    requires
        is_blank(b),
        m.len() > 0 ==> !white_space(m.last()),
    ensures
        trim_end(m + b) == m,
    decreases b.len(),
{
    if b.len() == 0 {
        assert(m + b =~= m);
    } else {
        assert((m + b).drop_last() =~= m + b.drop_last());
        assert((m + b).last() == b.last());
        assert forall|i: int| 0 <= i < b.drop_last().len() implies white_space(
            #[trigger] b.drop_last()[i],
        ) by {
            assert(white_space(b[i]));
        }
        lemma_trim_end(m, b.drop_last());
    }
}

/// White space around a text makes no difference to what is left of it, and
/// nothing else is taken away: a text that neither begins nor ends with white
/// space is what is left of it, whatever white space is put around it.
pub proof fn white_space_around_is_taken_away(a: Seq<char>, m: Seq<char>, b: Seq<char>)
    requires
        is_blank(a),
        is_blank(b),
        m.len() > 0 ==> !white_space(m[0]) && !white_space(m.last()),
    ensures
        trimmed(a + m + b) == m,
{
    if m.len() == 0 {
        let all = a + m + b;
        assert forall|i: int| 0 <= i < all.len() implies white_space(#[trigger] all[i]) by {
            if i < a.len() {
                assert(white_space(a[i]));
            } else {
                assert(white_space(b[i - a.len()]));
            }
        }
        assert(all + m =~= all);
        lemma_trim_start(all, m);
    } else {
        assert(a + m + b =~= a + (m + b));
        lemma_trim_start(a, m + b);
        lemma_trim_end(m, b);
    }
}

/// What is left of a text once the white space around it is taken away stands
/// in it between nothing but white space, and has none at its own ends.
pub proof fn trimmed_text_stands_in_the_text(s: Seq<char>) -> (r: (Seq<char>, Seq<char>))
    ensures
        s == r.0 + trimmed(s) + r.1,
        is_blank(r.0),
        is_blank(r.1),
        trimmed(s).len() > 0 ==> !white_space(trimmed(s)[0]) && !white_space(trimmed(s).last()),
        trimmed(s).len() == 0 <==> is_blank(s),
{
    let a = lemma_trim_start_cuts(s);
    let b = lemma_trim_end_cuts(trim_start(s));
    assert(s =~= a + trimmed(s) + b);
    if trimmed(s).len() > 0 {
        assert(trim_start(s)[0] == trimmed(s)[0]);
        assert(s[a.len() as int] == trimmed(s)[0]);
        assert(!is_blank(s));
    } else {
        assert forall|i: int| 0 <= i < s.len() implies white_space(#[trigger] s[i]) by {
            if i < a.len() {
                assert(white_space(a[i]));
            } else {
                assert(white_space(b[i - a.len()]));
            }
        }
    }
    (a, b)
}

proof fn lemma_trim_start_cuts(s: Seq<char>) -> (a: Seq<char>)
    ensures
        s == a + trim_start(s),
        is_blank(a),
        trim_start(s).len() > 0 ==> !white_space(trim_start(s)[0]),
    decreases s.len(),
{
    if s.len() > 0 && white_space(s[0]) {
        let rest = lemma_trim_start_cuts(s.drop_first());
        let a = seq![s[0]] + rest;
        let t = trim_start(s.drop_first());
        assert(s =~= seq![s[0]] + s.drop_first());
        assert(s =~= a + t) by {
            assert(seq![s[0]] + (rest + t) =~= a + t);
        }
        a
    } else {
        assert(s =~= Seq::<char>::empty() + s);
        Seq::empty()
    }
}

proof fn lemma_trim_end_cuts(s: Seq<char>) -> (b: Seq<char>)
    ensures
        s == trim_end(s) + b,
        is_blank(b),
        trim_end(s).len() > 0 ==> !white_space(trim_end(s).last()),
        trim_end(s).len() > 0 ==> s.len() > 0 && trim_end(s)[0] == s[0],
    decreases s.len(),
{
    if s.len() > 0 && white_space(s.last()) {
        let rest = lemma_trim_end_cuts(s.drop_last());
        let b = rest.push(s.last());
        let t = trim_end(s.drop_last());
        assert(s =~= s.drop_last().push(s.last()));
        assert(s =~= t + b) by {
            assert((t + rest).push(s.last()) =~= t + b);
        }
        b
    } else {
        assert(s =~= s + Seq::<char>::empty());
        Seq::empty()
    }
}

/// A number is written with digits alone, without zeros before it, and they give
/// the number back.
pub proof fn digits_write_the_number(n: nat)
    ensures
        decimal(n).len() > 0,
        all_digits(decimal(n)),
        digits_value(decimal(n)) == n,
        n > 0 ==> decimal(n)[0] != '0',
    decreases n,
{
    lemma_decimal_value(n);
    if n >= 10 {
        digits_write_the_number(n / 10);
        let rest = decimal(n / 10);
        assert(decimal(n) =~= rest.push(digit_char((n % 10) as int)));
        assert forall|i: int| 0 <= i < decimal(n).len() implies '0' <= #[trigger] decimal(n)[i]
            <= '9' by {
            if i < rest.len() {
                assert(decimal(n)[i] == rest[i]);
            }
        }
        assert(decimal(n)[0] == rest[0]);
    }
}

/// A number that is written is read back as that number.
pub proof fn written_numbers_are_read_back(n: i64)
    ensures
        integer_value(signed_decimal(n as int)) == Some(n),
{
    let text = signed_decimal(n as int);
    if n < 0 {
        let m = (-n) as nat;
        digits_write_the_number(m);
        assert(text[0] == '-');
        assert(text.drop_first() =~= decimal(m));
    } else {
        digits_write_the_number(n as nat);
        assert('0' <= text[0] <= '9');
    }
}

/// A text is split at the first of the characters: what stands before it holds
/// none, and the parts put together again give the text. It is not split only
/// where there is none.
pub proof fn split_parts_make_the_text(s: Seq<char>, c: char)
    ensures
        match split_at_first(s, c) {
            Some((before, after)) => s == before + seq![c] + after && !before.contains(c),
            None => !s.contains(c),
        },
        !before_first(s, c).contains(c),
        s == before_first(s, c) || s.skip(before_first(s, c).len() as int)[0] == c,
        before_first(s, c).is_prefix_of(s),
{
    lemma_first_index(s, c);
    let at = first_index(s, c);
    assert forall|i: int| 0 <= i < at implies s.take(at)[i] != c by {
        assert(s[i] != c);
    }
    if at < s.len() {
        assert(s =~= s.take(at) + seq![c] + s.skip(at + 1));
    } else {
        assert(s.take(at) =~= s);
    }
}

/// A text is split into the parts that it was put together from, where the
/// first of them does not hold the character.
pub proof fn put_together_parts_are_split(before: Seq<char>, c: char, after: Seq<char>)
    requires
        !before.contains(c),
    ensures
        split_at_first(before + seq![c] + after, c) == Some((before, after)),
        before_first(before + seq![c] + after, c) == before,
        before_first(before, c) == before,
{
    let s = before + seq![c] + after;
    lemma_first_index(s, c);
    lemma_first_index(before, c);
    assert(s[before.len() as int] == c);
    assert forall|i: int| 0 <= i < before.len() implies s[i] != c by {
        assert(before.contains(before[i]));
    }
    assert(first_index(s, c) == before.len());
    assert(s.take(before.len() as int) =~= before);
    assert(s.skip((before.len() + 1) as int) =~= after);
    assert(before.take(before.len() as int) =~= before);
}

/// What follows a prefix is found exactly where the text is the prefix and that.
pub proof fn prefix_and_rest_make_the_text(s: Seq<char>, prefix: Seq<char>, rest: Seq<char>)
    ensures
        after_prefix(s, prefix) == Some(rest) <==> s == prefix + rest,
{
    let n = prefix.len() as int;
    if s == prefix + rest {
        assert(s.take(n) =~= prefix);
        assert(s.skip(n) =~= rest);
    }
    if after_prefix(s, prefix) == Some(rest) {
        assert(s =~= prefix + rest);
    }
}

/// A part is found in every text that holds it, whatever stands around it.
pub proof fn a_part_is_found(a: Seq<char>, part: Seq<char>, b: Seq<char>)
    ensures
        holds_text(a + part + b, part),
{
    let s = a + part + b;
    let i = a.len() as int;
    assert(s.subrange(i, i + part.len()) =~= part);
    assert(stands_at(s, part, i));
}

/// A part that is found stands in the text.
pub proof fn a_found_part_is_there(s: Seq<char>, part: Seq<char>) -> (r: (Seq<char>, Seq<char>))
    requires
        holds_text(s, part),
    ensures
        s == r.0 + part + r.1,
{
    let i = choose|i: int| stands_at(s, part, i);
    let r = (s.take(i), s.skip(i + part.len()));
    assert(s =~= r.0 + part + r.1);
    r
}

/// What is found stands somewhere, and nothing stands before it; and what stands
/// somewhere with nothing before it is found.
pub proof fn lemma_first_some_found<A>(n: nat, f: spec_fn(int) -> Option<A>, at: int) -> (i: int)
    ensures
        first_some(n, f) is Some ==> 0 <= i < n && f(i) == first_some(n, f) && forall|j: int|
            0 <= j < i ==> (#[trigger] f(j)) is None,
        0 <= at < n && f(at) is Some && (forall|j: int| 0 <= j < at ==> (#[trigger] f(j)) is None)
            ==> first_some(n, f) == f(at),
    decreases n,
{
    if n == 0 {
        0
    } else {
        let before = lemma_first_some_found((n - 1) as nat, f, at);
        lemma_first_some_none((n - 1) as nat, f);
        if first_some((n - 1) as nat, f) is Some {
            before
        } else {
            n - 1
        }
    }
}

} // verus!
