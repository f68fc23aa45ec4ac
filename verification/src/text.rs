//! Text operations on `str` and `String`, specified over sequences of characters.

use vstd::prelude::*;
use vstd::string::*;

verus! {

/// The characters behind each string of a sequence.
pub open spec fn texts(v: Seq<String>) -> Seq<Seq<char>> {
    v.map_values(|s: String| s@)
}

/// The characters behind an optional string.
pub open spec fn text_opt(s: Option<String>) -> Option<Seq<char>> {
    match s {
        Some(s) => Some(s@),
        None => None,
    }
}

/// The index of the first `c` in `s`, or the length of `s` when there is none.
pub open spec fn position(s: Seq<char>, c: char) -> int
    decreases s.len(),
{
    if s.len() == 0 || s[0] == c {
        0
    } else {
        1 + position(s.skip(1), c)
    }
}

/// `s` holds no `c` before `position(s, c)`, and a `c` there unless that is its length.
pub proof fn lemma_position(s: Seq<char>, c: char)
    ensures
        0 <= position(s, c) <= s.len(),
        forall|i: int| 0 <= i < position(s, c) ==> s[i] != c,
        position(s, c) < s.len() ==> s[position(s, c)] == c,
    decreases s.len(),
{
    if s.len() > 0 && s[0] != c {
        lemma_position(s.skip(1), c);
        assert forall|i: int| 0 <= i < position(s, c) implies s[i] != c by {
            if i > 0 {
                assert(s[i] == s.skip(1)[i - 1]);
            }
        }
    }
}

/// `position` is the only index that `lemma_position` describes.
pub proof fn lemma_position_unique(s: Seq<char>, c: char, p: int)
    requires
        0 <= p <= s.len(),
        forall|i: int| 0 <= i < p ==> s[i] != c,
        p < s.len() ==> s[p] == c,
    ensures
        position(s, c) == p,
{
    lemma_position(s, c);
    let q = position(s, c);
    if q < p {
        assert(s[q] == c);
    } else if p < q {
        assert(s[p] == c);
    }
}

/// Whether `prefix` is the start of `s`.
pub open spec fn has_prefix(s: Seq<char>, prefix: Seq<char>) -> bool {
    prefix.len() <= s.len() && s.take(prefix.len() as int) == prefix
}

/// The parts of `s` between its separators: always at least one.
pub open spec fn segments(s: Seq<char>, sep: char) -> Seq<Seq<char>>
    decreases s.len(),
{
    let p = position(s, sep);
    if p >= s.len() {
        seq![s]
    } else {
        proof {
            lemma_position(s, sep);
        }
        seq![s.take(p)] + segments(s.skip(p + 1), sep)
    }
}

/// The parts, with `sep` between each two.
pub open spec fn joined(parts: Seq<Seq<char>>, sep: Seq<char>) -> Seq<char>
    decreases parts.len(),
{
    if parts.len() == 0 {
        Seq::empty()
    } else if parts.len() == 1 {
        parts[0]
    } else {
        joined(parts.drop_last(), sep) + sep + parts.last()
    }
}

/// The characters of `s`.
pub fn chars_of(s: &str) -> (r: Vec<char>)
    ensures
        r@ == s@,
{
    let mut out: Vec<char> = Vec::new();
    for c in it: s.chars()
        invariant
            out@ == it.seq().take(it.index()),
    {
        out.push(c);
    }
    out
}

/// Whether two strings hold the same characters.
pub(crate) fn same(a: &str, b: &str) -> (r: bool)
    ensures
        r == (a@ == b@),
{
    let x = chars_of(a);
    let y = chars_of(b);
    if x.len() != y.len() {
        return false;
    }
    let mut i: usize = 0;
    while i < x.len()
        invariant
            i <= x.len(),
            x.len() == y.len(),
            x@ == a@,
            y@ == b@,
            forall|j: int| 0 <= j < i ==> x@[j] == y@[j],
        decreases x.len() - i,
    {
        if x[i] != y[i] {
            return false;
        }
        i += 1;
    }
    proof {
        assert(a@ =~= b@);
    }
    true
}

/// The strict order of sequences, first difference first, under a strict order of their elements.
pub open spec fn lex_less<A>(a: Seq<A>, b: Seq<A>, less: spec_fn(A, A) -> bool) -> bool
    decreases a.len(),
{
    if b.len() == 0 {
        false
    } else if a.len() == 0 {
        true
    } else if a[0] == b[0] {
        lex_less(a.skip(1), b.skip(1), less)
    } else {
        less(a[0], b[0])
    }
}

/// The order of strings: by code point, first difference first.
pub open spec fn text_less(a: Seq<char>, b: Seq<char>) -> bool {
    lex_less(a, b, |x: char, y: char| (x as int) < (y as int))
}

/// No sequence orders before itself.
pub proof fn lemma_lex_irreflexive<A>(a: Seq<A>, less: spec_fn(A, A) -> bool)
    ensures
        !lex_less(a, a, less),
    decreases a.len(),
{
    if a.len() > 0 {
        lemma_lex_irreflexive(a.skip(1), less);
    }
}

/// The order of sequences is transitive where that of the elements is, and is asymmetric.
pub proof fn lemma_lex_transitive<A>(
    a: Seq<A>,
    b: Seq<A>,
    c: Seq<A>,
    less: spec_fn(A, A) -> bool,
)
    requires
        lex_less(a, b, less),
        lex_less(b, c, less),
        forall|x: A, y: A, z: A| #[trigger] less(x, y) && #[trigger] less(y, z) ==> less(x, z),
        forall|x: A| !#[trigger] less(x, x),
    ensures
        lex_less(a, c, less),
    decreases a.len(),
{
    if a.len() > 0 {
        if a[0] == b[0] && b[0] == c[0] {
            lemma_lex_transitive(a.skip(1), b.skip(1), c.skip(1), less);
        } else if a[0] != b[0] && b[0] != c[0] {
            assert(less(a[0], b[0]) && less(b[0], c[0]));
            assert(less(a[0], c[0]));
        }
    }
}

/// Of two sequences that differ one orders before the other, where that holds of the elements.
pub proof fn lemma_lex_total<A>(a: Seq<A>, b: Seq<A>, less: spec_fn(A, A) -> bool)
    requires
        forall|x: A, y: A| x == y || #[trigger] less(x, y) || less(y, x),
    ensures
        a == b || lex_less(a, b, less) || lex_less(b, a, less),
    decreases a.len(),
{
    if a.len() > 0 && b.len() > 0 {
        if a[0] == b[0] {
            lemma_lex_total(a.skip(1), b.skip(1), less);
            if a.skip(1) == b.skip(1) {
                assert(a == seq![a[0]] + a.skip(1));
                assert(b == seq![b[0]] + b.skip(1));
            }
        } else {
            assert(less(a[0], b[0]) || less(b[0], a[0]));
        }
    } else if a.len() == 0 && b.len() == 0 {
        assert(a == b);
    }
}

/// Whether `a` orders before `b`, by code point.
pub(crate) fn less(a: &str, b: &str) -> (r: bool)
    ensures
        r == text_less(a@, b@),
{
    let x = chars_of(a);
    let y = chars_of(b);
    let mut i: usize = 0;
    proof {
        assert(x@.skip(0) =~= x@);
        assert(y@.skip(0) =~= y@);
    }
    while i < x.len() && i < y.len()
        invariant
            i <= x.len(),
            i <= y.len(),
            x@ == a@,
            y@ == b@,
            text_less(a@, b@) == text_less(x@.skip(i as int), y@.skip(i as int)),
        decreases x.len() - i,
    {
        proof {
            assert(x@.skip(i as int).skip(1) =~= x@.skip(i + 1));
            assert(y@.skip(i as int).skip(1) =~= y@.skip(i + 1));
        }
        if x[i] != y[i] {
            return x[i] < y[i];
        }
        i += 1;
    }
    i < y.len()
}

/// Appends one character: `String::push`.
pub assume_specification[ String::push ](s: &mut String, c: char)
    ensures
        final(s)@ == old(s)@.push(c),
;

/// The index of the first `c`, counted in characters.
pub fn find(s: &str, c: char) -> (r: Option<usize>)
    ensures
        match r {
            Some(i) => i < s@.len() && i == position(s@, c),
            None => position(s@, c) == s@.len(),
        },
{
    let chars = chars_of(s);
    let mut i: usize = 0;
    while i < chars.len()
        invariant
            i <= chars.len(),
            chars@ == s@,
            forall|j: int| 0 <= j < i ==> chars@[j] != c,
        decreases chars.len() - i,
    {
        if chars[i] == c {
            proof {
                lemma_position_unique(s@, c, i as int);
            }
            return Some(i);
        }
        i += 1;
    }
    proof {
        lemma_position_unique(s@, c, i as int);
    }
    None
}

/// The text before and after the first `c`.
pub fn split_once(s: &str, c: char) -> (r: Option<(&str, &str)>)
    ensures
        match r {
            Some((a, b)) => {
                &&& position(s@, c) < s@.len()
                &&& a@ == s@.take(position(s@, c))
                &&& b@ == s@.skip(position(s@, c) + 1)
            },
            None => position(s@, c) == s@.len(),
        },
{
    let len: usize = s.unicode_len();
    match find(s, c) {
        Some(i) => Some((s.substring_char(0, i), s.substring_char(i + 1, len))),
        None => None,
    }
}

/// Whether `s` begins with `prefix`.
pub fn starts_with(s: &str, prefix: &str) -> (r: bool)
    ensures
        r == has_prefix(s@, prefix@),
{
    let n: usize = prefix.unicode_len();
    if n <= s.unicode_len() {
        same(s.substring_char(0, n), prefix)
    } else {
        false
    }
}

/// What follows `prefix` in `s`, when `s` begins with it.
pub fn strip_prefix<'a>(s: &'a str, prefix: &str) -> (r: Option<&'a str>)
    ensures
        match r {
            Some(rest) => has_prefix(s@, prefix@) && rest@ == s@.skip(prefix@.len() as int),
            None => !has_prefix(s@, prefix@),
        },
{
    if starts_with(s, prefix) {
        Some(s.substring_char(prefix.unicode_len(), s.unicode_len()))
    } else {
        None
    }
}

/// The segments of `s`, in order.
pub fn split(s: &str, sep: char) -> (r: Vec<String>)
    ensures
        texts(r@) == segments(s@, sep),
{
    let mut out: Vec<String> = Vec::new();
    let mut rest: &str = s;
    loop
        invariant
            texts(out@) + segments(rest@, sep) == segments(s@, sep),
        decreases rest@.len(),
    {
        let ghost done = out@;
        match split_once(rest, sep) {
            Some((head, tail)) => {
                out.push(head.to_owned());
                proof {
                    lemma_position(rest@, sep);
                    assert(texts(out@) == texts(done).push(head@));
                    assert(texts(done) + (seq![head@] + segments(tail@, sep)) == texts(out@)
                        + segments(tail@, sep));
                }
                rest = tail;
            },
            None => {
                out.push(rest.to_owned());
                proof {
                    assert(texts(out@) == texts(done) + seq![rest@]);
                }
                return out;
            },
        }
    }
}

/// The parts as one string, with `sep` between each two.
pub fn join(parts: &[String], sep: &str) -> (r: String)
    ensures
        r@ == joined(texts(parts@), sep@),
{
    let mut out = String::new();
    let mut i: usize = 0;
    while i < parts.len()
        invariant
            i <= parts.len(),
            out@ == joined(texts(parts@).take(i as int), sep@),
        decreases parts.len() - i,
    {
        if i > 0 {
            out.append(sep);
        }
        out.append(parts[i].as_str());
        proof {
            let all = texts(parts@);
            assert(all.take(i + 1).drop_last() == all.take(i as int));
            assert(all.take(i + 1).last() == parts@[i as int]@);
            if i == 0 {
                assert(all.take(0).len() == 0);
            }
        }
        i += 1;
    }
    proof {
        assert(texts(parts@).take(i as int) == texts(parts@));
    }
    out
}

/// The concatenation of two strings.
pub fn concat2(a: &str, b: &str) -> (r: String)
    ensures
        r@ == a@ + b@,
{
    let mut out = String::new();
    out.append(a);
    out.append(b);
    out
}

/// The concatenation of three strings.
pub fn concat3(a: &str, b: &str, c: &str) -> (r: String)
    ensures
        r@ == a@ + b@ + c@,
{
    let mut out = concat2(a, b);
    out.append(c);
    out
}

/// A string between double quotes, as `Debug` prints it.
pub uninterp spec fn quoted(s: Seq<char>) -> Seq<char>;

/// `format!` with `{:?}`: the string between double quotes, with escapes. Which characters are
/// escaped is left open.
#[verifier::external_body]
pub(crate) fn quote(s: &str) -> (r: String)
    ensures
        r@ == quoted(s@),
{
    format!("{s:?}")
}

/// A list of quoted strings.
pub open spec fn quoted_list(items: Seq<Seq<char>>) -> Seq<char> {
    "["@ + joined(items.map_values(|s: Seq<char>| quoted(s)), ", "@) + "]"@
}

/// The strings as a list of quoted strings.
pub fn quote_list(items: &[String]) -> (r: String)
    ensures
        r@ == quoted_list(texts(items@)),
{
    let mut parts: Vec<String> = Vec::new();
    let mut i: usize = 0;
    while i < items.len()
        invariant
            i <= items.len(),
            parts.len() == i,
            forall|j: int| 0 <= j < i ==> (#[trigger] parts@[j])@ == quoted(items@[j]@),
        decreases items.len() - i,
    {
        parts.push(quote(items[i].as_str()));
        i += 1;
    }
    proof {
        assert(texts(parts@) =~= texts(items@).map_values(|s: Seq<char>| quoted(s)));
    }
    concat3("[", join(parts.as_slice(), ", ").as_str(), "]")
}

/// Whether `c` has the Unicode property White_Space.
pub open spec fn is_white(c: char) -> bool {
    let n = c as int;
    ||| 0x09 <= n <= 0x0d
    ||| n == 0x20 || n == 0x85 || n == 0xa0 || n == 0x1680
    ||| 0x2000 <= n <= 0x200a
    ||| n == 0x2028 || n == 0x2029 || n == 0x202f || n == 0x205f || n == 0x3000
}

/// Whether `c` has the Unicode property White_Space.
pub fn is_whitespace(c: char) -> (r: bool)
    ensures
        r == is_white(c),
{
    let n: u32 = c as u32;
    (0x09 <= n && n <= 0x0d) || n == 0x20 || n == 0x85 || n == 0xa0 || n == 0x1680 || (0x2000 <= n
        && n <= 0x200a) || n == 0x2028 || n == 0x2029 || n == 0x202f || n == 0x205f || n == 0x3000
}

/// The characters that trimming takes off.
#[derive(Clone, Copy)]
pub enum Blank {
    /// Unicode white space.
    White,
    /// Line feed, carriage return and space.
    LineEnd,
}

/// Whether trimming takes off `c`.
pub open spec fn is_blank(kind: Blank, c: char) -> bool {
    match kind {
        Blank::White => is_white(c),
        Blank::LineEnd => c == '\n' || c == '\r' || c == ' ',
    }
}

/// What is left of `s` when the blanks at its start are gone.
pub open spec fn trimmed_start(s: Seq<char>, kind: Blank) -> Seq<char>
    decreases s.len(),
{
    if s.len() > 0 && is_blank(kind, s[0]) {
        trimmed_start(s.skip(1), kind)
    } else {
        s
    }
}

/// What is left of `s` when the blanks at its end are gone.
pub open spec fn trimmed_end(s: Seq<char>, kind: Blank) -> Seq<char>
    decreases s.len(),
{
    if s.len() > 0 && is_blank(kind, s.last()) {
        trimmed_end(s.drop_last(), kind)
    } else {
        s
    }
}

/// What is left of `s` when the blanks at both ends are gone.
pub open spec fn trimmed(s: Seq<char>, kind: Blank) -> Seq<char> {
    trimmed_end(trimmed_start(s, kind), kind)
}

fn blank(kind: Blank, c: char) -> (r: bool)
    ensures
        r == is_blank(kind, c),
{
    match kind {
        Blank::White => is_whitespace(c),
        Blank::LineEnd => c == '\n' || c == '\r' || c == ' ',
    }
}

/// `s` without the blanks at its ends.
pub fn trim(s: &str, kind: Blank) -> (r: &str)
    ensures
        r@ == trimmed(s@, kind),
{
    let chars = chars_of(s);
    let mut from: usize = 0;
    proof {
        assert(s@.skip(0) == s@);
    }
    while from < chars.len() && blank(kind, chars[from])
        invariant
            from <= chars.len(),
            chars@ == s@,
            trimmed_start(s@, kind) == trimmed_start(s@.skip(from as int), kind),
        decreases chars.len() - from,
    {
        proof {
            assert(s@.skip(from as int).skip(1) == s@.skip(from + 1));
        }
        from += 1;
    }
    let mut to: usize = chars.len();
    let ghost body = s@.skip(from as int);
    proof {
        assert(body == s@.subrange(from as int, to as int));
    }
    while from < to && blank(kind, chars[to - 1])
        invariant
            from <= to <= chars.len(),
            chars@ == s@,
            trimmed_end(body, kind) == trimmed_end(s@.subrange(from as int, to as int), kind),
        decreases to,
    {
        proof {
            assert(s@.subrange(from as int, to as int).drop_last() == s@.subrange(
                from as int,
                to - 1,
            ));
        }
        to -= 1;
    }
    s.substring_char(from, to)
}

/// The first run of characters that are not white space; empty when there is none.
pub open spec fn first_word_of(s: Seq<char>) -> Seq<char> {
    word_prefix(trimmed_start(s, Blank::White))
}

/// The characters of `s` before its first white space.
pub open spec fn word_prefix(s: Seq<char>) -> Seq<char>
    decreases s.len(),
{
    if s.len() == 0 || is_white(s[0]) {
        Seq::empty()
    } else {
        seq![s[0]] + word_prefix(s.skip(1))
    }
}

/// The first word of `s`.
pub fn first_word(s: &str) -> (r: String)
    ensures
        r@ == first_word_of(s@),
{
    let chars = chars_of(s);
    let mut i: usize = 0;
    proof {
        assert(s@.skip(0) == s@);
    }
    while i < chars.len() && is_whitespace(chars[i])
        invariant
            i <= chars.len(),
            chars@ == s@,
            trimmed_start(s@, Blank::White) == trimmed_start(s@.skip(i as int), Blank::White),
        decreases chars.len() - i,
    {
        proof {
            assert(s@.skip(i as int).skip(1) == s@.skip(i + 1));
        }
        i += 1;
    }
    let mut out = String::new();
    proof {
        assert(out@ + word_prefix(s@.skip(i as int)) == word_prefix(s@.skip(i as int)));
    }
    while i < chars.len() && !is_whitespace(chars[i])
        invariant
            i <= chars.len(),
            chars@ == s@,
            out@ + word_prefix(s@.skip(i as int)) == first_word_of(s@),
        decreases chars.len() - i,
    {
        let ghost before = out@;
        out.push(chars[i]);
        proof {
            let rest = s@.skip(i as int);
            assert(rest.skip(1) == s@.skip(i + 1));
            assert(before + (seq![rest[0]] + word_prefix(rest.skip(1))) == out@ + word_prefix(
                rest.skip(1),
            ));
        }
        i += 1;
    }
    proof {
        assert(out@ + word_prefix(s@.skip(i as int)) == out@);
    }
    out
}

/// The decimal digit of a number below ten.
pub open spec fn digit_of(d: int) -> char {
    if d == 0 { '0' } else if d == 1 { '1' } else if d == 2 { '2' } else if d == 3 { '3' }
    else if d == 4 { '4' } else if d == 5 { '5' } else if d == 6 { '6' } else if d == 7 { '7' }
    else if d == 8 { '8' } else { '9' }
}

/// The decimal digits of `n`, without leading zeros.
pub open spec fn decimal_of(n: nat) -> Seq<char>
    decreases n,
{
    if n < 10 {
        seq![digit_of(n as int)]
    } else {
        decimal_of(n / 10).push(digit_of((n % 10) as int))
    }
}

/// The decimal digits of `n`.
pub fn decimal(n: u64) -> (r: String)
    ensures
        r@ == decimal_of(n as nat),
    decreases n,
{
    let d: u64 = n % 10;
    let c: char = match d {
        0 => '0',
        1 => '1',
        2 => '2',
        3 => '3',
        4 => '4',
        5 => '5',
        6 => '6',
        7 => '7',
        8 => '8',
        _ => '9',
    };
    let mut out = if n < 10 { String::new() } else { decimal(n / 10) };
    out.push(c);
    out
}

/// A text begins with a prefix exactly where it is that prefix and something behind it.
pub proof fn law_prefix_and_rest(s: Seq<char>, prefix: Seq<char>, rest: Seq<char>)
    ensures
        has_prefix(prefix + rest, prefix),
        has_prefix(s, prefix) ==> s == prefix + s.skip(prefix.len() as int),
{
    assert((prefix + rest).take(prefix.len() as int) =~= prefix);
    if has_prefix(s, prefix) {
        assert(s =~= s.take(prefix.len() as int) + s.skip(prefix.len() as int));
    }
}

proof fn lemma_joined_front(first: Seq<char>, rest: Seq<Seq<char>>, sep: Seq<char>)
    requires
        rest.len() > 0,
    ensures
        joined(seq![first] + rest, sep) == first + sep + joined(rest, sep),
    decreases rest.len(),
{
    let all = seq![first] + rest;
    if rest.len() == 1 {
        assert(all.drop_last() =~= seq![first]);
        assert(joined(seq![first], sep) == first);
        assert(all.last() == rest[0]);
    } else {
        let init = rest.drop_last();
        lemma_joined_front(first, init, sep);
        assert(all.drop_last() =~= seq![first] + init);
        assert(joined(all, sep) =~= first + sep + joined(rest, sep));
    }
}

/// Splitting a text loses nothing: the parts with the separator between each two are the text,
/// and no part holds the separator.
pub proof fn law_splitting_loses_nothing(s: Seq<char>, sep: char)
    ensures
        segments(s, sep).len() > 0,
        joined(segments(s, sep), seq![sep]) == s,
        forall|i: int| 0 <= i < segments(s, sep).len() ==> !(#[trigger] segments(s, sep)[i]).contains(
            sep,
        ),
    decreases s.len(),
{
    let p = position(s, sep);
    lemma_position(s, sep);
    if p >= s.len() {
        assert(!s.contains(sep)) by {
            if s.contains(sep) {
                assert(s[s.index_of(sep)] == sep);
            }
        }
    } else {
        let rest = segments(s.skip(p + 1), sep);
        law_splitting_loses_nothing(s.skip(p + 1), sep);
        lemma_joined_front(s.take(p), rest, seq![sep]);
        assert(s =~= s.take(p) + seq![sep] + s.skip(p + 1));
        assert forall|i: int| 0 <= i < segments(s, sep).len() implies !(#[trigger] segments(
            s,
            sep,
        )[i]).contains(sep) by {
            if i == 0 {
                if s.take(p).contains(sep) {
                    let j = s.take(p).index_of(sep);
                    assert(s[j] == sep);
                }
            } else {
                assert(segments(s, sep)[i] == rest[i - 1]);
            }
        }
    }
}

/// The parts of a text are as many as its separators and one more: a part in front of a
/// separator and the parts behind it.
pub proof fn law_splitting_goes_on_behind_a_separator(a: Seq<char>, b: Seq<char>, sep: char)
    requires
        !a.contains(sep),
    ensures
        segments(a, sep) == seq![a],
        segments(a + seq![sep] + b, sep) == seq![a] + segments(b, sep),
{
    let s = a + seq![sep] + b;
    assert forall|i: int| 0 <= i < a.len() implies a[i] != sep by {
        assert(a.contains(a[i]));
    }
    lemma_position_unique(a, sep, a.len() as int);
    assert forall|i: int| 0 <= i < a.len() implies s[i] != sep by {
        assert(s[i] == a[i]);
    }
    lemma_position_unique(s, sep, a.len() as int);
    assert(s.take(a.len() as int) =~= a);
    assert(s.skip(a.len() as int + 1) =~= b);
}

/// The characters that trimming takes off are those of Unicode's white space, among them blank,
/// tab and the ends of a line; of a line's ends they are the blank and the two that end a line.
pub proof fn law_blanks(c: char)
    ensures
        is_white(' ') && is_white('\t') && is_white('\n') && is_white('\r'),
        0x21 <= c as int <= 0x7e ==> !is_white(c),
        is_blank(Blank::White, c) == is_white(c),
        is_blank(Blank::LineEnd, c) <==> c == ' ' || c == '\n' || c == '\r',
{
}

proof fn lemma_trimmed_start(s: Seq<char>, kind: Blank)
    ensures
        exists|a: Seq<char>| #[trigger]
            (a + trimmed_start(s, kind)) == s && forall|i: int|
                0 <= i < a.len() ==> is_blank(kind, #[trigger] a[i]),
        trimmed_start(s, kind).len() > 0 ==> !is_blank(kind, trimmed_start(s, kind)[0]),
    decreases s.len(),
{
    if s.len() > 0 && is_blank(kind, s[0]) {
        lemma_trimmed_start(s.skip(1), kind);
        let t = trimmed_start(s, kind);
        let b = choose|a: Seq<char>| #[trigger]
            (a + t) == s.skip(1) && forall|i: int|
                0 <= i < a.len() ==> is_blank(kind, #[trigger] a[i]);
        let a = seq![s[0]] + b;
        assert(a + t =~= seq![s[0]] + (b + t));
        assert(a + t =~= s);
    } else {
        assert(Seq::<char>::empty() + trimmed_start(s, kind) =~= s);
    }
}

proof fn lemma_trimmed_end(s: Seq<char>, kind: Blank)
    ensures
        exists|b: Seq<char>| #[trigger]
            (trimmed_end(s, kind) + b) == s && forall|i: int|
                0 <= i < b.len() ==> is_blank(kind, #[trigger] b[i]),
        trimmed_end(s, kind).len() > 0 ==> !is_blank(kind, trimmed_end(s, kind).last()),
    decreases s.len(),
{
    if s.len() > 0 && is_blank(kind, s.last()) {
        lemma_trimmed_end(s.drop_last(), kind);
        let t = trimmed_end(s, kind);
        let c = choose|b: Seq<char>| #[trigger]
            (t + b) == s.drop_last() && forall|i: int|
                0 <= i < b.len() ==> is_blank(kind, #[trigger] b[i]);
        let b = c.push(s.last());
        assert(t + b =~= (t + c).push(s.last()));
        assert(t + b =~= s);
    } else {
        assert(trimmed_end(s, kind) + Seq::<char>::empty() =~= s);
    }
}

/// Whether a text is another one between blanks.
pub open spec fn between_blanks(
    s: Seq<char>,
    a: Seq<char>,
    inner: Seq<char>,
    b: Seq<char>,
    kind: Blank,
) -> bool {
    &&& s == a + inner + b
    &&& forall|i: int| 0 <= i < a.len() ==> is_blank(kind, #[trigger] a[i])
    &&& forall|i: int| 0 <= i < b.len() ==> is_blank(kind, #[trigger] b[i])
}

/// Trimming takes off blanks at the ends and nothing else, and leaves none there.
pub proof fn law_trimming_takes_off_blanks_only(s: Seq<char>, kind: Blank)
    ensures
        exists|a: Seq<char>, b: Seq<char>| #[trigger]
            between_blanks(s, a, trimmed(s, kind), b, kind),
        trimmed(s, kind).len() > 0 ==> !is_blank(kind, trimmed(s, kind)[0]) && !is_blank(
            kind,
            trimmed(s, kind).last(),
        ),
{
    lemma_trimmed_start(s, kind);
    let mid = trimmed_start(s, kind);
    lemma_trimmed_end(mid, kind);
    let t = trimmed(s, kind);
    let a = choose|a: Seq<char>| #[trigger]
        (a + mid) == s && forall|i: int| 0 <= i < a.len() ==> is_blank(kind, #[trigger] a[i]);
    let b = choose|b: Seq<char>| #[trigger]
        (t + b) == mid && forall|i: int| 0 <= i < b.len() ==> is_blank(kind, #[trigger] b[i]);
    assert(s =~= a + t + b);
    assert(between_blanks(s, a, t, b, kind));
    if t.len() > 0 {
        assert(t[0] == mid[0]);
    }
}

/// The first word of a text stands behind white space alone, holds none, and ends where the next
/// white space stands or the text ends.
pub proof fn law_first_word(blanks: Seq<char>, word: Seq<char>, rest: Seq<char>)
    requires
        forall|i: int| 0 <= i < blanks.len() ==> is_white(#[trigger] blanks[i]),
        forall|i: int| 0 <= i < word.len() ==> !is_white(#[trigger] word[i]),
        rest.len() > 0 ==> is_white(rest[0]),
        word.len() == 0 ==> rest.len() == 0,
    ensures
        first_word_of(blanks + word + rest) == word,
    decreases blanks.len() + word.len(),
{
    let s = blanks + word + rest;
    if blanks.len() > 0 {
        assert(s[0] == blanks[0]);
        let b = blanks.skip(1);
        assert forall|i: int| 0 <= i < b.len() implies is_white(#[trigger] b[i]) by {
            assert(b[i] == blanks[i + 1]);
        }
        law_first_word(b, word, rest);
        assert(s.skip(1) =~= b + word + rest);
    } else {
        assert(s =~= word + rest);
        lemma_word_prefix(word, rest);
        if word.len() > 0 {
            assert(s[0] == word[0]);
        }
        assert(trimmed_start(s, Blank::White) == s);
    }
}

proof fn lemma_word_prefix(word: Seq<char>, rest: Seq<char>)
    requires
        forall|i: int| 0 <= i < word.len() ==> !is_white(#[trigger] word[i]),
        rest.len() > 0 ==> is_white(rest[0]),
    ensures
        word_prefix(word + rest) == word,
    decreases word.len(),
{
    let s = word + rest;
    if word.len() > 0 {
        let w = word.skip(1);
        assert forall|i: int| 0 <= i < w.len() implies !is_white(#[trigger] w[i]) by {
            assert(w[i] == word[i + 1]);
        }
        lemma_word_prefix(w, rest);
        assert(s.skip(1) =~= w + rest);
        assert(s[0] == word[0]);
        assert(seq![word[0]] + w =~= word);
    } else {
        assert(s =~= rest);
        assert(word =~= Seq::empty());
    }
}

/// The number that decimal digits write.
pub open spec fn number_of(digits: Seq<char>) -> int
    decreases digits.len(),
{
    if digits.len() == 0 {
        0
    } else {
        10 * number_of(digits.drop_last()) + (digits.last() as int - '0' as int)
    }
}

/// The decimal digits of a number write that number, and do not begin with a zero but for the
/// number zero itself.
pub proof fn law_decimal_digits_write_the_number(n: nat)
    ensures
        number_of(decimal_of(n)) == n,
        decimal_of(n).len() > 0,
        n > 0 ==> decimal_of(n)[0] != '0',
        forall|i: int| 0 <= i < decimal_of(n).len() ==> '0' <= #[trigger] decimal_of(n)[i] <= '9',
    decreases n,
{
    let d = decimal_of(n);
    if n >= 10 {
        law_decimal_digits_write_the_number(n / 10);
        assert(d.drop_last() =~= decimal_of(n / 10));
    } else {
        assert(d.drop_last() =~= Seq::<char>::empty());
        assert(number_of(Seq::<char>::empty()) == 0);
    }
}

/// Texts are ordered by the first character in which they differ, and a text comes before every
/// longer one that begins with it.
pub proof fn law_texts_are_ordered_by_their_first_difference(
    start: Seq<char>,
    x: char,
    y: char,
    a: Seq<char>,
    b: Seq<char>,
)
    ensures
        text_less(start, start + seq![x] + a),
        !text_less(start + seq![x] + a, start),
        x != y ==> (text_less(start + seq![x] + a, start + seq![y] + b) <==> (x as int) < (
        y as int)),
    decreases start.len(),
{
    let l = start + seq![x] + a;
    let r = start + seq![y] + b;
    if start.len() > 0 {
        let t = start.skip(1);
        law_texts_are_ordered_by_their_first_difference(t, x, y, a, b);
        assert(l.skip(1) =~= t + seq![x] + a);
        assert(r.skip(1) =~= t + seq![y] + b);
        assert(l[0] == start[0] && r[0] == start[0]);
    } else {
        assert(l[0] == x && r[0] == y);
    }
}

/// A list is shown between brackets, its items in quotes, with a comma and a space between two.
pub proof fn law_lists_are_shown_item_by_item(items: Seq<Seq<char>>, item: Seq<char>)
    ensures
        quoted_list(Seq::empty()) == seq!['[', ']'],
        quoted_list(seq![item]) == seq!['['] + quoted(item) + seq![']'],
        items.len() > 0 ==> quoted_list(items.push(item)) == quoted_list(items).drop_last() + seq![
            ',',
            ' ',
        ] + quoted(item) + seq![']'],
{
    reveal_strlit("[");
    reveal_strlit("]");
    reveal_strlit(", ");
    let q = |s: Seq<char>| quoted(s);
    assert("["@ =~= seq!['['] && "]"@ =~= seq![']'] && ", "@ =~= seq![',', ' ']);
    let none = Seq::<Seq<char>>::empty();
    assert(none.map_values(q) =~= Seq::empty());
    assert(quoted_list(none) =~= seq!['[', ']']);
    assert(seq![item].map_values(q) =~= seq![quoted(item)]);
    assert(quoted_list(seq![item]) =~= seq!['['] + quoted(item) + seq![']']);
    if items.len() > 0 {
        let shown = items.map_values(q);
        let more = items.push(item).map_values(q);
        assert(more =~= shown.push(quoted(item)));
        assert(more.drop_last() =~= shown);
        assert(quoted_list(items).drop_last() =~= seq!['['] + joined(shown, ", "@));
        assert(quoted_list(items.push(item)) =~= quoted_list(items).drop_last() + seq![',', ' ']
            + quoted(item) + seq![']']);
    }
}

} // verus!
