//! Text operations on sequences of characters: trimming, splitting, searching,
//! replacing and reading decimal numbers.

use vstd::prelude::*;

verus! {

/// The characters with the Unicode property `White_Space`.
pub open spec fn is_space(c: char) -> bool {
    ||| '\u{9}' <= c <= '\u{d}'
    ||| c == ' '
    ||| c == '\u{85}'
    ||| c == '\u{a0}'
    ||| c == '\u{1680}'
    ||| '\u{2000}' <= c <= '\u{200a}'
    ||| c == '\u{2028}'
    ||| c == '\u{2029}'
    ||| c == '\u{202f}'
    ||| c == '\u{205f}'
    ||| c == '\u{3000}'
}

/// Whether `c` is white space.
pub fn is_whitespace(c: char) -> (res: bool)
    ensures
        res == is_space(c),
{
    ('\u{9}' <= c && c <= '\u{d}') || c == ' ' || c == '\u{85}' || c == '\u{a0}' || c == '\u{1680}'
        || ('\u{2000}' <= c && c <= '\u{200a}') || c == '\u{2028}' || c == '\u{2029}' || c
        == '\u{202f}' || c == '\u{205f}' || c == '\u{3000}'
}

/// `s` without its leading white space.
pub open spec fn trim_start_of(s: Seq<char>) -> Seq<char>
    decreases s.len(),
{
    if s.len() > 0 && is_space(s.first()) {
        trim_start_of(s.drop_first())
    } else {
        s
    }
}

/// `s` without its trailing white space.
pub open spec fn trim_end_of(s: Seq<char>) -> Seq<char>
    decreases s.len(),
{
    if s.len() > 0 && is_space(s.last()) {
        trim_end_of(s.drop_last())
    } else {
        s
    }
}

/// `s` without leading and trailing white space.
pub open spec fn trimmed(s: Seq<char>) -> Seq<char> {
    trim_end_of(trim_start_of(s))
}

/// Whether `s` neither starts nor ends with white space.
pub open spec fn is_trimmed(s: Seq<char>) -> bool {
    s.len() == 0 || (!is_space(s.first()) && !is_space(s.last()))
}

proof fn lemma_trim_start_of(s: Seq<char>)
    ensures
        trim_start_of(s).len() == 0 || !is_space(trim_start_of(s).first()),
        trim_start_of(s).len() > 0 ==> trim_start_of(s).last() == s.last(),
        forall|c: char| trim_start_of(s).contains(c) ==> s.contains(c),
    decreases s.len(),
{
    if s.len() > 0 && is_space(s.first()) {
        lemma_trim_start_of(s.drop_first());
        assert forall|c: char| s.drop_first().contains(c) implies s.contains(c) by {
            let i = choose|i: int| 0 <= i < s.drop_first().len() && s.drop_first()[i] == c;
            assert(s[i + 1] == c);
        }
    }
}

proof fn lemma_trim_end_of(s: Seq<char>)
    ensures
        trim_end_of(s).len() == 0 || !is_space(trim_end_of(s).last()),
        trim_end_of(s).len() > 0 ==> trim_end_of(s).first() == s.first(),
        forall|c: char| trim_end_of(s).contains(c) ==> s.contains(c),
    decreases s.len(),
{
    if s.len() > 0 && is_space(s.last()) {
        lemma_trim_end_of(s.drop_last());
        assert forall|c: char| s.drop_last().contains(c) implies s.contains(c) by {
            let i = choose|i: int| 0 <= i < s.drop_last().len() && s.drop_last()[i] == c;
            assert(s[i] == c);
        }
    }
}

/// Trimming leaves no white space at the ends and adds no character.
pub proof fn lemma_trimmed(s: Seq<char>)
    ensures
        is_trimmed(trimmed(s)),
        forall|c: char| trimmed(s).contains(c) ==> s.contains(c),
{
    lemma_trim_start_of(s);
    lemma_trim_end_of(trim_start_of(s));
}

/// What is trimmed already stays as it is.
pub proof fn lemma_trimmed_stays(s: Seq<char>)
    requires
        is_trimmed(s),
    ensures
        trimmed(s) == s,
{
}

/// White space in front makes no difference.
pub proof fn lemma_trimmed_after_space(c: char, s: Seq<char>)
    requires
        is_space(c),
    ensures
        trimmed(seq![c] + s) == trimmed(s),
{
    assert((seq![c] + s).drop_first() == s);
}

/// The characters of `s`, in order.
pub fn chars_of(s: &str) -> (res: Vec<char>)
    ensures
        res@ == s@,
{
    let mut out: Vec<char> = Vec::new();
    for c in it: s.chars()
        invariant
            it.seq() == s@,
            out@ == s@.take(it.index()),
    {
        out.push(c);
    }
    assert(s@.take(s@.len() as int) == s@);
    out
}

/// `s` without leading and trailing white space.
pub fn trim(s: &str) -> (res: &str)
    ensures
        res@ == trimmed(s@),
{
    let chars = chars_of(s);
    let mut from: usize = 0;
    assert(s@.skip(0) == s@);
    while from < chars.len() && is_whitespace(chars[from])
        invariant
            chars@ == s@,
            from <= chars.len(),
            trim_start_of(s@) == trim_start_of(s@.skip(from as int)),
        decreases chars.len() - from,
    {
        assert(s@.skip(from as int).drop_first() == s@.skip(from + 1));
        from = from + 1;
    }
    let mut to: usize = chars.len();
    assert(s@.subrange(from as int, to as int) == s@.skip(from as int));
    while from < to && is_whitespace(chars[to - 1])
        invariant
            chars@ == s@,
            from <= to <= chars.len(),
            trimmed(s@) == trim_end_of(s@.subrange(from as int, to as int)),
        decreases to,
    {
        assert(s@.subrange(from as int, to as int).drop_last() == s@.subrange(
            from as int,
            to - 1,
        ));
        to = to - 1;
    }
    s.substring_char(from, to)
}

/// The index of the first `c` in `s`, or the length of `s` if there is none.
pub open spec fn find<T>(s: Seq<T>, c: T) -> int
    decreases s.len(),
{
    if s.len() == 0 || s.first() == c {
        0
    } else {
        1 + find(s.drop_first(), c)
    }
}

/// The pieces of `s` between the occurrences of `sep`: one more than there are
/// separators.
pub open spec fn split_on<T>(s: Seq<T>, sep: T) -> Seq<Seq<T>>
    decreases s.len(),
{
    let i = find(s, sep);
    if 0 <= i < s.len() {
        seq![s.take(i)] + split_on(s.skip(i + 1), sep)
    } else {
        seq![s]
    }
}

/// What stands before and after the first `sep` of `s`, if it has one.
pub open spec fn split_once_on<T>(s: Seq<T>, sep: T) -> Option<(Seq<T>, Seq<T>)> {
    let i = find(s, sep);
    if i < s.len() {
        Some((s.take(i), s.skip(i + 1)))
    } else {
        None
    }
}

/// The contents of a list of string slices.
pub open spec fn texts(parts: Seq<&str>) -> Seq<Seq<char>> {
    parts.map_values(|part: &str| part@)
}

/// `find` is in range, lands on a `c` unless it is the length, and passes no `c`.
pub proof fn lemma_find<T>(s: Seq<T>, c: T)
    ensures
        0 <= find(s, c) <= s.len(),
        find(s, c) < s.len() ==> s[find(s, c)] == c,
        forall|i: int| 0 <= i < find(s, c) ==> s[i] != c,
    decreases s.len(),
{
    if s.len() > 0 && s.first() != c {
        lemma_find(s.drop_first(), c);
        assert forall|i: int| 0 <= i < find(s, c) implies s[i] != c by {
            if i > 0 {
                assert(s[i] == s.drop_first()[i - 1]);
            }
        }
    }
}

/// `find` is the only index with those properties.
pub proof fn lemma_find_is<T>(s: Seq<T>, c: T, k: int)
    requires
        0 <= k <= s.len(),
        k < s.len() ==> s[k] == c,
        forall|i: int| 0 <= i < k ==> s[i] != c,
    ensures
        find(s, c) == k,
{
    lemma_find(s, c);
}

/// Without a separator there is one piece.
pub proof fn lemma_split_on_single<T>(a: Seq<T>, sep: T)
    requires
        !a.contains(sep),
    ensures
        split_on(a, sep) == seq![a],
{
    lemma_find_is(a, sep, a.len() as int);
}

/// The pieces of two texts with a separator in between are those of the one and those of
/// the other.
pub proof fn lemma_split_on_joined<T>(a: Seq<T>, sep: T, b: Seq<T>)
    ensures
        split_on(a.push(sep) + b, sep) == split_on(a, sep) + split_on(b, sep),
    decreases a.len(),
{
    let all = a.push(sep) + b;
    let i = find(a, sep);
    lemma_find(a, sep);
    if i < a.len() {
        let rest = a.skip(i + 1);
        lemma_split_on_joined(rest, sep, b);
        lemma_find_is(all, sep, i);
        assert(all.take(i) == a.take(i));
        assert(all.skip(i + 1) == rest.push(sep) + b);
        assert(split_on(all, sep) == split_on(a, sep) + split_on(b, sep));
    } else {
        assert(!a.contains(sep));
        lemma_find_is(all, sep, i);
        assert(all.take(i) == a);
        assert(all.skip(i + 1) == b);
    }
}

/// No piece holds the separator.
pub proof fn lemma_split_on_pieces<T>(s: Seq<T>, sep: T)
    ensures
        split_on(s, sep).len() > 0,
        forall|i: int| 0 <= i < split_on(s, sep).len() ==> !#[trigger] split_on(s, sep)[i].contains(
            sep,
        ),
    decreases s.len(),
{
    let i = find(s, sep);
    lemma_find(s, sep);
    if i < s.len() {
        lemma_split_on_pieces(s.skip(i + 1), sep);
        let rest = split_on(s.skip(i + 1), sep);
        assert forall|j: int| 0 <= j < split_on(s, sep).len() implies !#[trigger] split_on(
            s,
            sep,
        )[j].contains(sep) by {
            if j > 0 {
                assert(split_on(s, sep)[j] == rest[j - 1]);
            }
        }
    }
}

/// The index of the first `c` at or after `start`, or the number of characters.
fn find_from(chars: &Vec<char>, c: char, start: usize) -> (res: usize)
    requires
        start <= chars.len(),
    ensures
        start <= res <= chars.len(),
        res - start == find(chars@.skip(start as int), c),
{
    let mut i: usize = start;
    while i < chars.len() && chars[i] != c
        invariant
            start <= i <= chars.len(),
            forall|k: int| start <= k < i ==> chars@[k] != c,
        decreases chars.len() - i,
    {
        i = i + 1;
    }
    proof {
        lemma_find_is(chars@.skip(start as int), c, i - start);
    }
    i
}

/// The pieces of `s` between the occurrences of `sep`.
pub fn split(s: &str, sep: char) -> (res: Vec<&str>)
    ensures
        texts(res@) == split_on(s@, sep),
{
    let chars = chars_of(s);
    let mut parts: Vec<&str> = Vec::new();
    let mut start: usize = 0;
    assert(s@.skip(0) == s@);
    let mut end: usize = find_from(&chars, sep, start);
    assert(texts(parts@) + split_on(s@, sep) == split_on(s@, sep));
    while end < chars.len()
        invariant
            chars@ == s@,
            start <= end <= chars.len(),
            end - start == find(s@.skip(start as int), sep),
            split_on(s@, sep) == texts(parts@) + split_on(s@.skip(start as int), sep),
        decreases chars.len() - start,
    {
        let ghost rest = s@.skip(start as int);
        let ghost before = texts(parts@);
        let part = s.substring_char(start, end);
        assert(rest.take(end - start) == part@);
        assert(rest.skip(end - start + 1) == s@.skip(end + 1));
        parts.push(part);
        assert(texts(parts@) == before.push(part@));
        assert(before.push(part@) + split_on(s@.skip(end + 1), sep) == before + (seq![part@]
            + split_on(s@.skip(end + 1), sep)));
        start = end + 1;
        end = find_from(&chars, sep, start);
    }
    let ghost before = texts(parts@);
    let part = s.substring_char(start, end);
    assert(s@.skip(start as int) == part@);
    parts.push(part);
    assert(texts(parts@) == before.push(part@));
    assert(before.push(part@) == before + seq![part@]);
    parts
}

/// What stands before and after the first `sep` of `s`, if it has one.
pub fn split_once(s: &str, sep: char) -> (res: Option<(&str, &str)>)
    ensures
        match res {
            Some((a, b)) => split_once_on(s@, sep) == Some((a@, b@)),
            None => split_once_on(s@, sep) is None,
        },
{
    let chars = chars_of(s);
    assert(s@.skip(0) == s@);
    let i: usize = find_from(&chars, sep, 0);
    if i < chars.len() {
        let a = s.substring_char(0, i);
        let b = s.substring_char(i + 1, chars.len());
        assert(a@ == s@.take(i as int));
        assert(b@ == s@.skip(i + 1));
        Some((a, b))
    } else {
        None
    }
}

/// Whether `pattern` stands in `s` at index `at`.
pub open spec fn occurs_at<T>(s: Seq<T>, pattern: Seq<T>, at: int) -> bool {
    &&& 0 <= at
    &&& at + pattern.len() <= s.len()
    &&& s.subrange(at, at + pattern.len()) == pattern
}

/// Whether `s` starts with `prefix`.
pub open spec fn begins_with<T>(s: Seq<T>, prefix: Seq<T>) -> bool {
    occurs_at(s, prefix, 0)
}

/// Whether `pattern` stands somewhere in `s`.
pub open spec fn occurs_in<T>(s: Seq<T>, pattern: Seq<T>) -> bool {
    exists|at: int| occurs_at(s, pattern, at)
}

/// `s` with every occurrence of `pattern`, taken from the left without overlap,
/// replaced by `with`.
pub open spec fn replaced<T>(s: Seq<T>, pattern: Seq<T>, with: Seq<T>) -> Seq<T>
    recommends
        pattern.len() > 0,
    decreases s.len(),
{
    if s.len() == 0 || pattern.len() == 0 {
        s
    } else if begins_with(s, pattern) {
        with + replaced(s.skip(pattern.len() as int), pattern, with)
    } else {
        seq![s[0]] + replaced(s.skip(1), pattern, with)
    }
}

fn matches_at(chars: &Vec<char>, pattern: &Vec<char>, at: usize) -> (res: bool)
    requires
        at <= chars.len(),
    ensures
        res == occurs_at(chars@, pattern@, at as int),
{
    if pattern.len() > chars.len() - at {
        return false;
    }
    let mut i: usize = 0;
    while i < pattern.len()
        invariant
            i <= pattern.len(),
            at + pattern.len() <= chars.len(),
            forall|k: int| 0 <= k < i ==> chars@[at + k] == pattern@[k],
        decreases pattern.len() - i,
    {
        if chars[at + i] != pattern[i] {
            assert(chars@.subrange(at as int, at + pattern.len())[i as int] != pattern@[i as int]);
            return false;
        }
        i = i + 1;
    }
    assert(chars@.subrange(at as int, at + pattern.len()) == pattern@);
    true
}

/// Whether `s` starts with `prefix`.
pub fn starts_with(s: &str, prefix: &str) -> (res: bool)
    ensures
        res == begins_with(s@, prefix@),
{
    matches_at(&chars_of(s), &chars_of(prefix), 0)
}

/// Whether two texts are equal.
pub fn same_text(a: &str, b: &str) -> (res: bool)
    ensures
        res == (a@ == b@),
{
    let left = chars_of(a);
    let right = chars_of(b);
    assert(left.len() == right.len() ==> left@.subrange(0, 0 + right.len()) == left@);
    left.len() == right.len() && matches_at(&left, &right, 0)
}

/// Whether `pattern` stands somewhere in `s`.
pub fn contains(s: &str, pattern: &str) -> (res: bool)
    ensures
        res == occurs_in(s@, pattern@),
{
    let chars = chars_of(s);
    let wanted = chars_of(pattern);
    let mut at: usize = 0;
    while at < chars.len()
        invariant
            chars@ == s@,
            wanted@ == pattern@,
            at <= chars.len(),
            forall|k: int| 0 <= k < at ==> !occurs_at(s@, pattern@, k),
        decreases chars.len() - at,
    {
        if matches_at(&chars, &wanted, at) {
            return true;
        }
        at = at + 1;
    }
    matches_at(&chars, &wanted, at)
}

/// `s` with every occurrence of `pattern` replaced by `with`.
pub fn replace(s: &str, pattern: &str, with: &str) -> (res: String)
    requires
        pattern@.len() > 0,
    ensures
        res@ == replaced(s@, pattern@, with@),
{
    let chars = chars_of(s);
    let wanted = chars_of(pattern);
    let mut out: String = String::new();
    let mut at: usize = 0;
    assert(s@.skip(0) == s@);
    assert(out@ + replaced(s@, pattern@, with@) == replaced(s@, pattern@, with@));
    while at < chars.len()
        invariant
            chars@ == s@,
            wanted@ == pattern@,
            pattern@.len() > 0,
            at <= chars.len(),
            replaced(s@, pattern@, with@) == out@ + replaced(s@.skip(at as int), pattern@, with@),
        decreases chars.len() - at,
    {
        let ghost before = out@;
        let ghost rest = s@.skip(at as int);
        if matches_at(&chars, &wanted, at) {
            assert(rest.subrange(0, pattern@.len() as int) == s@.subrange(
                at as int,
                at + pattern@.len(),
            ));
            assert(rest.skip(pattern@.len() as int) == s@.skip(at + pattern@.len()));
            out.append(with);
            at = at + wanted.len();
        } else {
            assert(!begins_with(rest, pattern@)) by {
                if begins_with(rest, pattern@) {
                    assert(rest.subrange(0, pattern@.len() as int) == s@.subrange(
                        at as int,
                        at + pattern@.len(),
                    ));
                }
            }
            assert(rest.skip(1) == s@.skip(at + 1));
            let one = s.substring_char(at, at + 1);
            assert(one@ == seq![rest[0]]);
            out.append(one);
            at = at + 1;
        }
        assert(replaced(s@, pattern@, with@) == out@ + replaced(
            s@.skip(at as int),
            pattern@,
            with@,
        ));
    }
    assert(s@.skip(at as int) == Seq::<char>::empty());
    out
}

/// The lower-case form of an ASCII letter; every other character itself.
pub open spec fn ascii_lower(c: char) -> char {
    if 'A' <= c <= 'Z' {
        (c as u32 + 32) as char
    } else {
        c
    }
}

/// `s` with its ASCII letters in lower case.
pub open spec fn ascii_lowered(s: Seq<char>) -> Seq<char> {
    s.map_values(|c: char| ascii_lower(c))
}

/// Whether `s`, with its ASCII letters in lower case, is `lower`.
pub fn lowers_to(s: &str, lower: &str) -> (res: bool)
    ensures
        res == (ascii_lowered(s@) == lower@),
{
    let chars = chars_of(s);
    let wanted = chars_of(lower);
    if chars.len() != wanted.len() {
        return false;
    }
    let mut i: usize = 0;
    while i < chars.len()
        invariant
            chars@ == s@,
            wanted@ == lower@,
            chars.len() == wanted.len(),
            i <= chars.len(),
            forall|k: int| 0 <= k < i ==> ascii_lower(s@[k]) == lower@[k],
        decreases chars.len() - i,
    {
        let c: char = chars[i];
        let w: char = wanted[i];
        proof {
            vstd::utf8::char_is_scalar(w);
            vstd::utf8::char_u32_cast(w, w as u32);
        }
        let same = if 'A' <= c && c <= 'Z' {
            c as u32 + 32 == w as u32
        } else {
            c == w
        };
        if !same {
            assert(ascii_lowered(s@)[i as int] != lower@[i as int]);
            return false;
        }
        i = i + 1;
    }
    assert(ascii_lowered(s@) == lower@);
    true
}

/// The number that a row of decimal digits stands for.
pub open spec fn digits_value(s: Seq<char>) -> nat
    decreases s.len(),
{
    if s.len() == 0 {
        0
    } else {
        digits_value(s.drop_last()) * 10 + (s.last() as u32 - '0' as u32) as nat
    }
}

/// Whether `s` is a non-empty row of decimal digits.
pub open spec fn is_digits(s: Seq<char>) -> bool {
    s.len() > 0 && forall|i: int| 0 <= i < s.len() ==> '0' <= #[trigger] s[i] <= '9'
}

/// `s` without a leading plus sign.
pub open spec fn unsigned_part(s: Seq<char>) -> Seq<char> {
    if s.len() > 0 && s[0] == '+' {
        s.skip(1)
    } else {
        s
    }
}

/// The number that `s` stands for: decimal digits, after at most one plus sign,
/// with a value that fits in a `usize`.
pub open spec fn decimal_number(s: Seq<char>) -> Option<usize> {
    let digits = unsigned_part(s);
    if is_digits(digits) && digits_value(digits) <= usize::MAX {
        Some(digits_value(digits) as usize)
    } else {
        None
    }
}

proof fn lemma_digits_value_grows(s: Seq<char>, k: int)
    requires
        0 <= k <= s.len(),
    ensures
        digits_value(s.take(k)) <= digits_value(s),
    decreases s.len() - k,
{
    if k < s.len() {
        assert(s.take(k + 1).drop_last() == s.take(k));
        lemma_digits_value_grows(s, k + 1);
    } else {
        assert(s.take(k) == s);
    }
}

/// The number that `s` stands for, if it stands for one.
pub fn parse_usize(s: &str) -> (res: Option<usize>)
    ensures
        res == decimal_number(s@),
{
    let chars = chars_of(s);
    let from: usize = if chars.len() > 0 && chars[0] == '+' {
        1
    } else {
        0
    };
    let ghost digits = unsigned_part(s@);
    assert(s@.skip(from as int) == digits);
    if from == chars.len() {
        return None;
    }
    let mut value: usize = 0;
    let mut i: usize = from;
    while i < chars.len()
        invariant
            chars@ == s@,
            from <= i <= chars.len(),
            from <= 1,
            digits == s@.skip(from as int),
            digits == unsigned_part(s@),
            forall|k: int| 0 <= k < i - from ==> '0' <= #[trigger] digits[k] <= '9',
            value == digits_value(digits.take(i - from)),
        decreases chars.len() - i,
    {
        let c = chars[i];
        assert(c == digits[i - from]);
        if c < '0' || '9' < c {
            return None;
        }
        let digit: usize = (c as u32 - '0' as u32) as usize;
        let ghost taken = digits.take(i - from + 1);
        assert(taken.drop_last() == digits.take(i - from));
        assert(taken.last() == c);
        proof {
            lemma_digits_value_grows(digits, i - from + 1);
        }
        if value > (usize::MAX - digit) / 10 {
            return None;
        }
        value = value * 10 + digit;
        i = i + 1;
    }
    assert(digits.take(i - from) == digits);
    Some(value)
}

/// Where the pattern does not occur, nothing is replaced.
pub proof fn lemma_nothing_replaced<T>(s: Seq<T>, pattern: Seq<T>, with: Seq<T>)
    requires
        !occurs_in(s, pattern),
    ensures
        replaced(s, pattern, with) == s,
    decreases s.len(),
{
    if s.len() > 0 && pattern.len() > 0 {
        let rest = s.skip(1);
        assert(!occurs_at(s, pattern, 0));
        assert(!occurs_in(rest, pattern)) by {
            if occurs_in(rest, pattern) {
                let at = choose|at: int| occurs_at(rest, pattern, at);
                assert(rest.subrange(at, at + pattern.len()) == s.subrange(
                    at + 1,
                    at + 1 + pattern.len(),
                ));
                assert(occurs_at(s, pattern, at + 1));
            }
        }
        lemma_nothing_replaced(rest, pattern, with);
        assert(seq![s[0]] + rest == s);
    }
}

/// Whether `s` is nothing but white space.
pub open spec fn all_space(s: Seq<char>) -> bool {
    forall|i: int| 0 <= i < s.len() ==> is_space(#[trigger] s[i])
}

proof fn lemma_leading_space(a: Seq<char>, s: Seq<char>)
    requires
        all_space(a),
    ensures
        trim_start_of(a + s) == trim_start_of(s),
    decreases a.len(),
{
    if a.len() == 0 {
        assert(a + s == s);
    } else {
        let rest = a.drop_first();
        assert forall|i: int| 0 <= i < rest.len() implies is_space(#[trigger] rest[i]) by {
            assert(rest[i] == a[i + 1]);
        }
        assert(is_space(a[0]));
        assert((a + s).drop_first() == rest + s);
        lemma_leading_space(rest, s);
    }
}

proof fn lemma_trailing_space(s: Seq<char>, b: Seq<char>)
    requires
        all_space(b),
    ensures
        trim_end_of(s + b) == trim_end_of(s),
    decreases b.len(),
{
    if b.len() == 0 {
        assert(s + b == s);
    } else {
        let rest = b.drop_last();
        assert forall|i: int| 0 <= i < rest.len() implies is_space(#[trigger] rest[i]) by {
            assert(rest[i] == b[i]);
        }
        assert(is_space(b[b.len() - 1]));
        assert((s + b).drop_last() == s + rest);
        lemma_trailing_space(s, rest);
    }
}

/// Trimming takes away the white space at both ends, all of it and nothing else.
pub proof fn law_only_outer_space_is_trimmed(a: Seq<char>, middle: Seq<char>, b: Seq<char>)
    requires
        all_space(a),
        all_space(b),
        middle.len() > 0 ==> !is_space(middle[0]) && !is_space(middle[middle.len() - 1]),
    ensures
        trimmed(a + middle + b) == middle,
{
    assert(a + middle + b == a + (middle + b));
    lemma_leading_space(a, middle + b);
    if middle.len() > 0 {
        assert((middle + b)[0] == middle[0]);
        lemma_trailing_space(middle, b);
    } else {
        assert(middle + b == b + middle);
        lemma_leading_space(b, middle);
    }
}

/// What stands before the first separator and what stands behind it are told apart there,
/// whatever they are, and a text without a separator is not split.
pub proof fn law_first_separator_splits<T>(a: Seq<T>, sep: T, b: Seq<T>)
    requires
        !a.contains(sep),
    ensures
        split_once_on(a.push(sep) + b, sep) == Some((a, b)),
        split_once_on(a, sep) is None,
{
    let s = a.push(sep) + b;
    lemma_find_is(s, sep, a.len() as int);
    lemma_find_is(a, sep, a.len() as int);
    assert(s.take(a.len() as int) == a);
    assert(s.skip(a.len() as int + 1) == b);
}

/// A text with `sep` in it and white space around both sides of it is trimmed and split
/// into these sides, whatever they are, as long as the first `sep` stands in between.
pub proof fn law_sides_of_a_separator_are_trimmed(
    a: Seq<char>,
    left: Seq<char>,
    b: Seq<char>,
    sep: char,
    c: Seq<char>,
    right: Seq<char>,
    d: Seq<char>,
)
    requires
        all_space(a),
        all_space(b),
        all_space(c),
        all_space(d),
        !is_space(sep),
        !left.contains(sep),
        is_trimmed(left),
        is_trimmed(right),
    ensures
        ({
            let line = trimmed(a + left + b + seq![sep] + c + right + d);
            &&& line.len() > 0
            &&& line[0] == (if left.len() > 0 {
                left[0]
            } else {
                sep
            })
            &&& line[line.len() - 1] == (if right.len() > 0 {
                right[right.len() - 1]
            } else {
                sep
            })
            &&& split_once_on(line, sep) matches Some((before, after)) && trimmed(before) == left
                && trimmed(after) == right
        }),
{
    let none = Seq::<char>::empty();
    let item = a + left + b + seq![sep] + c + right + d;
    let before = if left.len() > 0 {
        left + b
    } else {
        none
    };
    let after = if right.len() > 0 {
        c + right
    } else {
        none
    };
    let lead = if left.len() > 0 {
        a
    } else {
        a + b
    };
    let trail = if right.len() > 0 {
        d
    } else {
        c + d
    };
    let middle = before.push(sep) + after;
    assert(item == lead + middle + trail);
    assert(middle[0] == (if left.len() > 0 {
        left[0]
    } else {
        sep
    }));
    assert(middle[middle.len() - 1] == (if right.len() > 0 {
        right[right.len() - 1]
    } else {
        sep
    }));
    law_only_outer_space_is_trimmed(lead, middle, trail);
    assert(!before.contains(sep)) by {
        if before.contains(sep) {
            let i = choose|i: int| 0 <= i < before.len() && before[i] == sep;
            if i < left.len() {
                assert(left[i] == sep);
            } else {
                assert(is_space(b[i - left.len()]));
            }
        }
    }
    law_first_separator_splits(before, sep, after);
    law_only_outer_space_is_trimmed(none, left, b);
    law_only_outer_space_is_trimmed(c, right, none);
    law_only_outer_space_is_trimmed(none, none, none);
    assert(none + left + b == left + b);
    assert(c + right + none == c + right);
    assert(none + none + none == none);
}

/// `pieces` with `sep` between each two of them.
pub open spec fn joined_by<T>(pieces: Seq<Seq<T>>, sep: T) -> Seq<T>
    decreases pieces.len(),
{
    if pieces.len() == 0 {
        Seq::empty()
    } else if pieces.len() == 1 {
        pieces[0]
    } else {
        joined_by(pieces.drop_last(), sep).push(sep) + pieces.last()
    }
}

/// Splitting gives back the pieces that were joined, however many and however long they are.
pub proof fn law_joined_pieces_are_split<T>(pieces: Seq<Seq<T>>, sep: T)
    requires
        pieces.len() > 0,
        forall|i: int| 0 <= i < pieces.len() ==> !(#[trigger] pieces[i]).contains(sep),
    ensures
        split_on(joined_by(pieces, sep), sep) == pieces,
    decreases pieces.len(),
{
    let last = pieces.last();
    assert(!pieces[pieces.len() - 1].contains(sep));
    lemma_split_on_single(last, sep);
    if pieces.len() == 1 {
        assert(pieces == seq![last]);
    } else {
        let front = pieces.drop_last();
        assert forall|i: int| 0 <= i < front.len() implies !(#[trigger] front[i]).contains(
            sep,
        ) by {
            assert(front[i] == pieces[i]);
        }
        law_joined_pieces_are_split(front, sep);
        lemma_split_on_joined(joined_by(front, sep), sep, last);
        assert(front + seq![last] == pieces);
    }
}

/// A text begins with exactly those texts to which something can be appended to give it.
pub proof fn law_prefix_stands_in_front<T>(s: Seq<T>, prefix: Seq<T>, rest: Seq<T>)
    ensures
        begins_with(prefix + rest, prefix),
        begins_with(s, prefix) ==> s == prefix + s.skip(prefix.len() as int),
        begins_with(s, prefix) ==> prefix.len() <= s.len(),
{
    assert((prefix + rest).subrange(0, prefix.len() as int) == prefix);
    if begins_with(s, prefix) {
        assert(s == s.subrange(0, prefix.len() as int) + s.skip(prefix.len() as int));
    }
}

/// A pattern occurs in exactly those texts that have it somewhere between two others.
pub proof fn law_pattern_stands_in_between<T>(s: Seq<T>, a: Seq<T>, pattern: Seq<T>, b: Seq<T>)
    ensures
        occurs_in(a + pattern + b, pattern),
        occurs_in(s, pattern) ==> exists|at: int|
            0 <= at <= s.len() - pattern.len() && s == #[trigger] s.take(at) + pattern + s.skip(
                at + pattern.len(),
            ),
{
    let all = a + pattern + b;
    assert(all.subrange(a.len() as int, (a.len() + pattern.len()) as int) == pattern);
    assert(occurs_at(all, pattern, a.len() as int));
    if occurs_in(s, pattern) {
        let at = choose|at: int| occurs_at(s, pattern, at);
        assert(s == s.take(at) + s.subrange(at, at + pattern.len()) + s.skip(at + pattern.len()));
    }
}

/// The first occurrence of a pattern is replaced, what stands before it stays, and what
/// follows it is treated alike.
pub proof fn law_first_occurrence_is_replaced<T>(
    a: Seq<T>,
    pattern: Seq<T>,
    b: Seq<T>,
    with: Seq<T>,
)
    requires
        pattern.len() > 0,
        forall|k: int| 0 <= k < a.len() ==> !occurs_at(a + pattern + b, pattern, k),
    ensures
        replaced(a + pattern + b, pattern, with) == a + with + replaced(b, pattern, with),
    decreases a.len(),
{
    let s = a + pattern + b;
    if a.len() == 0 {
        assert(s.subrange(0, pattern.len() as int) == pattern);
        assert(s.skip(pattern.len() as int) == b);
        assert(with + replaced(b, pattern, with) == a + with + replaced(b, pattern, with));
    } else {
        let rest = a.skip(1);
        let tail = rest + pattern + b;
        assert(s.skip(1) == tail);
        assert(!occurs_at(s, pattern, 0));
        assert forall|k: int| 0 <= k < rest.len() implies !occurs_at(tail, pattern, k) by {
            assert(!occurs_at(s, pattern, k + 1));
            if occurs_at(tail, pattern, k) {
                assert(tail.subrange(k, k + pattern.len()) == s.subrange(
                    k + 1,
                    k + 1 + pattern.len(),
                ));
            }
        }
        law_first_occurrence_is_replaced(rest, pattern, b, with);
        assert(seq![s[0]] + (rest + with + replaced(b, pattern, with)) == a + with + replaced(
            b,
            pattern,
            with,
        ));
    }
}

/// Lower case moves each of the 26 ASCII capitals by 32 code points and leaves every other
/// character and the length of the text as they are.
pub proof fn law_only_ascii_capitals_are_lowered(s: Seq<char>, i: int)
    requires
        0 <= i < s.len(),
    ensures
        ascii_lowered(s).len() == s.len(),
        'A' <= s[i] <= 'Z' ==> ascii_lowered(s)[i] as u32 == s[i] as u32 + 32,
        s[i] < 'A' || 'Z' < s[i] ==> ascii_lowered(s)[i] == s[i],
{
}

proof fn lemma_digits_value_push(s: Seq<char>, c: char)
    ensures
        digits_value(s.push(c)) == digits_value(s) * 10 + (c as u32 - '0' as u32) as nat,
{
    assert(s.push(c).drop_last() == s);
}

/// Digits are read one after the other: one digit stands for itself, a further one
/// multiplies by ten and adds, and a number that does not fit is none, whatever follows.
pub proof fn law_digits_are_read_one_by_one(s: Seq<char>, c: char)
    requires
        '0' <= c <= '9',
    ensures
        decimal_number(seq![c]) == Some((c as u32 - '0' as u32) as usize),
        decimal_number(s) matches Some(n) ==> {
            let longer = n * 10 + (c as u32 - '0' as u32);
            decimal_number(s.push(c)) == (if longer <= usize::MAX {
                Some(longer as usize)
            } else {
                None::<usize>
            })
        },
        s.len() > 1 && decimal_number(s) is None ==> decimal_number(s.push(c)) is None,
{
    let one = seq![c];
    assert(unsigned_part(one) == one);
    assert(one.drop_last() == Seq::<char>::empty());
    assert(digits_value(one.drop_last()) == 0);
    assert(digits_value(one) == (c as u32 - '0' as u32) as nat);
    assert(is_digits(one));
    if s.len() > 0 {
        let digits = unsigned_part(s);
        assert(unsigned_part(s.push(c)) == digits.push(c));
        lemma_digits_value_push(digits, c);
        assert forall|i: int| 0 <= i < digits.len() implies digits.push(c)[i] == digits[i] by {}
        if is_digits(digits) {
            assert(is_digits(digits.push(c)));
        }
        if is_digits(digits.push(c)) && digits.len() > 0 {
            assert forall|i: int| 0 <= i < digits.len() implies '0' <= #[trigger] digits[i]
                <= '9' by {
                assert(digits.push(c)[i] == digits[i]);
            }
        }
    }
}

/// A number is at least one digit, after at most one plus sign that makes no difference:
/// anything else anywhere makes a text no number.
pub proof fn law_only_digits_are_numbers(s: Seq<char>, i: int)
    ensures
        decimal_number(Seq::<char>::empty()) is None,
        decimal_number(seq!['+']) is None,
        s.len() > 0 && s[0] != '+' ==> decimal_number(seq!['+'] + s) == decimal_number(s),
        0 <= i < s.len() && !('0' <= s[i] <= '9') && !(i == 0 && s[i] == '+') ==> decimal_number(
            s,
        ) is None,
{
    assert(unsigned_part(seq!['+']) == Seq::<char>::empty());
    assert((seq!['+'] + s).skip(1) == s);
    if 0 <= i < s.len() && !('0' <= s[i] <= '9') && !(i == 0 && s[i] == '+') {
        let digits = unsigned_part(s);
        let at = i - (s.len() - digits.len());
        assert(digits[at] == s[i]);
    }
}

/// The text of each slice of a list stands where the slice stands, whole.
pub proof fn law_texts_stand_where_their_slices_stand(parts: Seq<&str>, i: int)
    requires
        0 <= i < parts.len(),
    ensures
        texts(parts).len() == parts.len(),
        texts(parts)[i] == parts[i]@,
{
}

} // verus!
