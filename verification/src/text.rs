//! Text as the manager reads and writes it: white space, fields, lines,
//! decimal numbers and the order of names.
use vstd::prelude::*;
use vstd::string::*;

verus! {

/// Whether a character has the Unicode property `White_Space`.
pub open spec fn is_space(c: char) -> bool {
    ||| '\u{9}' <= c <= '\u{d}'
    ||| c == ' '
    ||| c == '\u{85}'
    ||| c == '\u{a0}'
    ||| c == '\u{1680}'
    ||| '\u{2000}' <= c <= '\u{200a}'
    ||| c == '\u{2028}'
    ||| c == '\u{2029}'
    ||| c == '\u{202f}'
    ||| c == '\u{205f}'
    ||| c == '\u{3000}'
}

/// Length of the longest prefix of `s` whose characters all satisfy `p`.
pub open spec fn prefix_len(s: Seq<char>, p: spec_fn(char) -> bool) -> nat
    decreases s.len(),
{
    if s.len() > 0 && p(s[0]) {
        1 + prefix_len(s.drop_first(), p)
    } else {
        0
    }
}

/// `s` without its leading white space.
pub open spec fn trim_start(s: Seq<char>) -> Seq<char> {
    s.skip(prefix_len(s, |c: char| is_space(c)) as int)
}

/// `s` without its trailing white space.
pub open spec fn trim_end(s: Seq<char>) -> Seq<char> {
    s.take(s.len() - prefix_len(s.reverse(), |c: char| is_space(c)))
}

/// `s` without white space at either end.
pub open spec fn trim(s: Seq<char>) -> Seq<char> {
    trim_end(trim_start(s))
}

/// The first field of `s` and what follows it, the white space after the
/// field included. There is none unless white space follows the field.
pub open spec fn first_field(s: Seq<char>) -> Option<(Seq<char>, Seq<char>)> {
    let t = trim_start(s);
    let n = prefix_len(t, |c: char| !is_space(c));
    if n < t.len() {
        Some((t.take(n as int), t.skip(n as int)))
    } else {
        None
    }
}

/// `line` without a carriage return at its end.
pub open spec fn strip_cr(line: Seq<char>) -> Seq<char> {
    if line.len() > 0 && line.last() == '\r' {
        line.drop_last()
    } else {
        line
    }
}

/// The lines of `s`. A line feed ends a line, together with the carriage
/// return before it; after the last line feed comes one more line only if
/// any text does.
pub open spec fn lines(s: Seq<char>) -> Seq<Seq<char>>
    decreases s.len(),
{
    let n = prefix_len(s, |c: char| c != '\n');
    if s.len() == 0 {
        Seq::empty()
    } else if n >= s.len() {
        seq![s]
    } else {
        seq![strip_cr(s.take(n as int))] + lines(s.skip(n as int + 1))
    }
}

pub open spec fn is_digit(c: char) -> bool {
    '0' <= c <= '9'
}

/// The number that a sequence of decimal digits denotes.
pub open spec fn digits_value(s: Seq<char>) -> nat
    decreases s.len(),
{
    if s.len() == 0 {
        0
    } else {
        (10 * digits_value(s.drop_last()) + (s.last() as int - '0' as int)) as nat
    }
}

pub open spec fn all_digits(s: Seq<char>) -> bool {
    forall|i: int| 0 <= i < s.len() ==> is_digit(#[trigger] s[i])
}

/// `s` without one plus sign at its start.
pub open spec fn strip_plus(s: Seq<char>) -> Seq<char> {
    if s.len() > 0 && s[0] == '+' {
        s.skip(1)
    } else {
        s
    }
}

/// What a text denotes as a 32-bit number: decimal digits, at least one,
/// after an optional plus sign.
pub open spec fn u32_value(s: Seq<char>) -> Option<u32> {
    let t = strip_plus(s);
    if t.len() > 0 && all_digits(t) && digits_value(t) <= u32::MAX {
        Some(digits_value(t) as u32)
    } else {
        None
    }
}

/// The decimal digits of `n`, without leading zeros.
pub open spec fn decimal(n: nat) -> Seq<char>
    decreases n,
{
    if n < 10 {
        seq![('0' as int + n) as char]
    } else {
        decimal(n / 10).push(('0' as int + n % 10) as char)
    }
}

/// Whether `needle` occurs in `text`.
pub open spec fn occurs_in(needle: Seq<char>, text: Seq<char>) -> bool {
    exists|i: int|
        0 <= i <= text.len() - needle.len() && #[trigger] text.subrange(i, i + needle.len())
            == needle
}

/// The order of texts: by the first character in which they differ, a
/// proper prefix first.
pub open spec fn text_lt(a: Seq<char>, b: Seq<char>) -> bool
    decreases a.len(),
{
    if b.len() == 0 {
        false
    } else if a.len() == 0 {
        true
    } else if a[0] != b[0] {
        a[0] < b[0]
    } else {
        text_lt(a.drop_first(), b.drop_first())
    }
}

/// The texts of a sequence of strings.
pub open spec fn texts(v: Seq<String>) -> Seq<Seq<char>> {
    Seq::new(v.len(), |i: int| v[i]@)
}

pub proof fn lemma_prefix_len(s: Seq<char>, p: spec_fn(char) -> bool)
    ensures
        prefix_len(s, p) <= s.len(),
        forall|i: int| 0 <= i < prefix_len(s, p) ==> p(#[trigger] s[i]),
        prefix_len(s, p) < s.len() ==> !p(s[prefix_len(s, p) as int]),
    decreases s.len(),
{
    if s.len() > 0 && p(s[0]) {
        let t = s.drop_first();
        lemma_prefix_len(t, p);
        assert forall|i: int| 0 <= i < prefix_len(s, p) implies p(#[trigger] s[i]) by {
            if i > 0 {
                assert(s[i] == t[i - 1]);
            }
        }
    }
}

pub proof fn lemma_prefix_len_unique(s: Seq<char>, p: spec_fn(char) -> bool, n: int)
    requires
        0 <= n <= s.len(),
        forall|i: int| 0 <= i < n ==> p(#[trigger] s[i]),
        n < s.len() ==> !p(s[n]),
    ensures
        prefix_len(s, p) == n,
{
    lemma_prefix_len(s, p);
    let m = prefix_len(s, p) as int;
    if m < n {
        assert(p(s[m]));
    }
}

/// No text comes before itself.
pub proof fn law_order_irreflexive(a: Seq<char>)
    ensures
        !text_lt(a, a),
    decreases a.len(),
{
    if a.len() > 0 {
        law_order_irreflexive(a.drop_first());
    }
}

/// The order of texts is transitive.
pub proof fn law_order_transitive(a: Seq<char>, b: Seq<char>, c: Seq<char>)
    requires
        text_lt(a, b),
        text_lt(b, c),
    ensures
        text_lt(a, c),
    decreases a.len(),
{
    if a.len() > 0 && a[0] == b[0] && b[0] == c[0] {
        law_order_transitive(a.drop_first(), b.drop_first(), c.drop_first());
    }
}

/// Of two different texts one comes before the other.
pub proof fn law_order_total(a: Seq<char>, b: Seq<char>)
    ensures
        text_lt(a, b) || a == b || text_lt(b, a),
    decreases a.len(),
{
    if a.len() > 0 && b.len() > 0 && a[0] == b[0] {
        law_order_total(a.drop_first(), b.drop_first());
        if a.drop_first() == b.drop_first() {
            assert(a =~= seq![a[0]] + a.drop_first());
            assert(b =~= seq![b[0]] + b.drop_first());
        }
    } else if a.len() == 0 && b.len() == 0 {
        assert(a =~= b);
    }
}

/// A 32-bit number written in decimal reads back as itself.
pub proof fn law_decimal_reads_back(n: u32)
    ensures
        u32_value(decimal(n as nat)) == Some(n),
{
    lemma_decimal(n as nat);
}

proof fn lemma_decimal(n: nat)
    ensures
        decimal(n).len() > 0,
        all_digits(decimal(n)),
        digits_value(decimal(n)) == n,
    decreases n,
{
    let s = decimal(n);
    if n >= 10 {
        lemma_decimal(n / 10);
        assert(s.drop_last() =~= decimal(n / 10));
    } else {
        assert(s.drop_last() =~= Seq::<char>::empty());
        assert(digits_value(s.drop_last()) == 0);
    }
}

/// Whether `c` is white space.
pub fn is_whitespace(c: char) -> (r: bool)
    ensures
        r == is_space(c),
{
    ('\u{9}' <= c && c <= '\u{d}') || c == ' ' || c == '\u{85}' || c == '\u{a0}' || c == '\u{1680}'
        || ('\u{2000}' <= c && c <= '\u{200a}') || c == '\u{2028}' || c == '\u{2029}' || c
        == '\u{202f}' || c == '\u{205f}' || c == '\u{3000}'
}

/// The characters of `s`.
pub fn chars_of(s: &str) -> (v: Vec<char>)
    ensures
        v@ == s@,
{
    let mut v: Vec<char> = Vec::new();
    for c in it: s.chars()
        invariant
            it.seq() == s@,
            v@ == s@.take(it.index()),
    {
        v.push(c);
    }
    v
}

/// Whether two texts are the same.
pub fn same_text(a: &str, b: &str) -> (r: bool)
    ensures
        r == (a@ == b@),
{
    let x: Vec<char> = chars_of(a);
    let y: Vec<char> = chars_of(b);
    if x.len() != y.len() {
        return false;
    }
    let mut i: usize = 0;
    while i < x.len()
        invariant
            i <= x.len(),
            x.len() == y.len(),
            x@ == a@,
            y@ == b@,
            forall|j: int| 0 <= j < i ==> x@[j] == y@[j],
        decreases x.len() - i,
    {
        if x[i] != y[i] {
            return false;
        }
        i = i + 1;
    }
    assert(a@ =~= b@);
    true
}

/// Whether `a` comes before `b` in the order of texts.
pub fn text_less(a: &str, b: &str) -> (r: bool)
    ensures
        r == text_lt(a@, b@),
{
    let x: Vec<char> = chars_of(a);
    let y: Vec<char> = chars_of(b);
    let mut i: usize = 0;
    assert(x@.skip(0) =~= x@ && y@.skip(0) =~= y@);
    while i < x.len() && i < y.len() && x[i] == y[i]
        invariant
            i <= x.len(),
            i <= y.len(),
            x@ == a@,
            y@ == b@,
            text_lt(a@, b@) == text_lt(x@.skip(i as int), y@.skip(i as int)),
        decreases x.len() - i,
    {
        assert(x@.skip(i as int).drop_first() =~= x@.skip(i + 1));
        assert(y@.skip(i as int).drop_first() =~= y@.skip(i + 1));
        i = i + 1;
    }
    if i >= y.len() {
        false
    } else if i >= x.len() {
        true
    } else {
        x[i] < y[i]
    }
}

/// Whether `s` begins with `prefix`.
pub fn starts_with(s: &str, prefix: &str) -> (r: bool)
    ensures
        r == prefix@.is_prefix_of(s@),
{
    let x: Vec<char> = chars_of(s);
    let y: Vec<char> = chars_of(prefix);
    if y.len() > x.len() {
        return false;
    }
    occurs_at(&x, &y, 0)
}

/// Whether `needle` stands in `text` at position `at`.
fn occurs_at(text: &Vec<char>, needle: &Vec<char>, at: usize) -> (r: bool)
    requires
        at + needle.len() <= text.len(),
    ensures
        r == (text@.subrange(at as int, at + needle@.len()) == needle@),
{
    let mut i: usize = 0;
    while i < needle.len()
        invariant
            i <= needle.len(),
            at + needle.len() <= text.len(),
            forall|j: int| 0 <= j < i ==> text@[at + j] == needle@[j],
        decreases needle.len() - i,
    {
        if text[at + i] != needle[i] {
            assert(text@.subrange(at as int, at + needle@.len())[i as int] == text@[at + i]);
            return false;
        }
        i = i + 1;
    }
    assert(text@.subrange(at as int, at + needle@.len()) =~= needle@);
    true
}

/// Whether `needle` occurs in `text`.
pub fn contains_text(text: &str, needle: &str) -> (r: bool)
    ensures
        r == occurs_in(needle@, text@),
{
    let x: Vec<char> = chars_of(text);
    let y: Vec<char> = chars_of(needle);
    if y.len() > x.len() {
        return false;
    }
    let last: usize = x.len() - y.len();
    let mut at: usize = 0;
    loop
        invariant
            at <= last,
            last == x.len() - y.len(),
            x@ == text@,
            y@ == needle@,
            forall|i: int| 0 <= i < at ==> #[trigger] x@.subrange(i, i + y@.len()) != y@,
        decreases last - at,
    {
        if occurs_at(&x, &y, at) {
            return true;
        }
        if at == last {
            return false;
        }
        at = at + 1;
    }
}

/// The number of white space characters in `v` from `from` on, up to the
/// first that is none.
fn spaces_from(v: &Vec<char>, from: usize) -> (n: usize)
    requires
        from <= v.len(),
    ensures
        from + n <= v.len(),
        n == prefix_len(v@.skip(from as int), |c: char| is_space(c)),
{
    let ghost p = |c: char| is_space(c);
    let mut i: usize = from;
    while i < v.len() && is_whitespace(v[i])
        invariant
            from <= i <= v.len(),
            p == (|c: char| is_space(c)),
            forall|j: int| from <= j < i ==> is_space(#[trigger] v@[j]),
        decreases v.len() - i,
    {
        i = i + 1;
    }
    proof {
        lemma_prefix_len_unique(v@.skip(from as int), p, i - from);
    }
    i - from
}

/// The number of characters in `v` from `from` on, up to the first white
/// space.
fn word_from(v: &Vec<char>, from: usize) -> (n: usize)
    requires
        from <= v.len(),
    ensures
        from + n <= v.len(),
        n == prefix_len(v@.skip(from as int), |c: char| !is_space(c)),
{
    let ghost p = |c: char| !is_space(c);
    let mut i: usize = from;
    while i < v.len() && !is_whitespace(v[i])
        invariant
            from <= i <= v.len(),
            p == (|c: char| !is_space(c)),
            forall|j: int| from <= j < i ==> !is_space(#[trigger] v@[j]),
        decreases v.len() - i,
    {
        i = i + 1;
    }
    proof {
        lemma_prefix_len_unique(v@.skip(from as int), p, i - from);
    }
    i - from
}

/// Splits off the first field of a line: the text up to the next white
/// space, leading white space aside. The rest keeps the white space in
/// front of it. A field that nothing follows is not split off.
pub fn split_first_field(input: &str) -> (r: Option<(&str, &str)>)
    ensures
        match r {
            Some((field, rest)) => first_field(input@) == Some((field@, rest@)),
            None => first_field(input@) is None,
        },
{
    let v: Vec<char> = chars_of(input);
    let start: usize = spaces_from(&v, 0);
    assert(v@.skip(0) =~= v@);
    let n: usize = word_from(&v, start);
    let ghost t = trim_start(input@);
    if start + n < v.len() {
        let field = input.substring_char(start, start + n);
        let rest = input.substring_char(start + n, v.len());
        assert(field@ =~= t.take(n as int));
        assert(rest@ =~= t.skip(n as int));
        Some((field, rest))
    } else {
        None
    }
}

/// `input` without leading white space.
pub fn trim_start_text(input: &str) -> (r: &str)
    ensures
        r@ == trim_start(input@),
{
    let v: Vec<char> = chars_of(input);
    let start: usize = spaces_from(&v, 0);
    assert(v@.skip(0) =~= v@);
    assert(input@.subrange(start as int, v@.len() as int) =~= trim_start(input@));
    input.substring_char(start, v.len())
}

/// `input` without white space at either end.
pub fn trim_text(input: &str) -> (r: &str)
    ensures
        r@ == trim(input@),
{
    let t = trim_start_text(input);
    let v: Vec<char> = chars_of(t);
    let ghost p = |c: char| is_space(c);
    let mut end: usize = v.len();
    while end > 0 && is_whitespace(v[end - 1])
        invariant
            end <= v.len(),
            p == (|c: char| is_space(c)),
            forall|j: int| end <= j < v.len() ==> is_space(#[trigger] v@[j]),
        decreases end,
    {
        end = end - 1;
    }
    proof {
        let back = t@.reverse();
        let n = v@.len() - end;
        assert forall|i: int| 0 <= i < n implies p(#[trigger] back[i]) by {
            assert(back[i] == v@[v@.len() - 1 - i]);
        }
        assert(n < back.len() ==> back[n] == v@[end - 1]);
        lemma_prefix_len_unique(back, p, n);
        assert(t@.subrange(0, end as int) =~= trim_end(t@));
    }
    t.substring_char(0, end)
}

/// Copies a list of strings.
pub fn clone_texts(v: &Vec<String>) -> (r: Vec<String>)
    ensures
        texts(r@) == texts(v@),
{
    let mut r: Vec<String> = Vec::new();
    let mut i: usize = 0;
    while i < v.len()
        invariant
            i <= v.len(),
            r.len() == i,
            forall|j: int| 0 <= j < i ==> r@[j]@ == v@[j]@,
        decreases v.len() - i,
    {
        r.push(v[i].clone());
        i = i + 1;
    }
    assert(texts(r@) =~= texts(v@));
    r
}

/// The lines of a text.
pub fn split_lines(text: &str) -> (r: Vec<String>)
    ensures
        texts(r@) == lines(text@),
{
    let v: Vec<char> = chars_of(text);
    let ghost p = |c: char| c != '\n';
    let mut r: Vec<String> = Vec::new();
    let mut start: usize = 0;
    let mut i: usize = 0;
    assert(v@.skip(0) =~= v@);
    assert(texts(r@) + lines(v@) =~= lines(v@));
    while i < v.len()
        invariant
            start <= i <= v.len(),
            v@ == text@,
            p == (|c: char| c != '\n'),
            forall|j: int| start <= j < i ==> #[trigger] v@[j] != '\n',
            texts(r@) + lines(v@.skip(start as int)) == lines(text@),
        decreases v.len() - i,
    {
        if v[i] == '\n' {
            let ghost s = v@.skip(start as int);
            let ghost before = r@;
            let end: usize = if i > start && v[i - 1] == '\r' {
                i - 1
            } else {
                i
            };
            let line: String = text.substring_char(start, end).to_owned();
            proof {
                lemma_prefix_len_unique(s, p, i - start);
                assert(s.take(i - start) =~= v@.subrange(start as int, i as int));
                assert(line@ =~= strip_cr(s.take(i - start)));
                assert(s.skip(i - start + 1) =~= v@.skip(i + 1));
            }
            r.push(line);
            proof {
                assert(texts(r@) =~= texts(before).push(line@));
                assert(texts(r@) + lines(v@.skip(i + 1)) =~= texts(before) + (seq![line@] + lines(
                    v@.skip(i + 1),
                )));
            }
            start = i + 1;
        }
        i = i + 1;
    }
    let ghost s = v@.skip(start as int);
    if start < v.len() {
        let ghost before = r@;
        let line: String = text.substring_char(start, v.len()).to_owned();
        proof {
            lemma_prefix_len_unique(s, p, v@.len() - start);
            assert(line@ =~= s);
        }
        r.push(line);
        assert(texts(r@) =~= texts(before) + lines(s));
    } else {
        assert(texts(r@) =~= texts(r@) + lines(s));
    }
    r
}

/// Reads a 32-bit number in decimal.
pub fn parse_u32(s: &str) -> (r: Option<u32>)
    ensures
        r == u32_value(s@),
{
    let v: Vec<char> = chars_of(s);
    let start: usize = if v.len() > 0 && v[0] == '+' {
        1
    } else {
        0
    };
    let ghost t = v@.skip(start as int);
    assert(v@.skip(0) =~= v@);
    if start == v.len() {
        return None;
    }
    let mut value: u64 = 0;
    let mut i: usize = start;
    assert(t.take(0) =~= Seq::<char>::empty());
    while i < v.len()
        invariant
            start <= i <= v.len(),
            t == v@.skip(start as int),
            t == strip_plus(s@),
            forall|j: int| 0 <= j < i - start ==> is_digit(#[trigger] t[j]),
            value == digits_value(t.take(i - start)),
            value <= u32::MAX,
        decreases v.len() - i,
    {
        let c: char = v[i];
        assert(c == t[i - start]);
        if c < '0' || c > '9' {
            return None;
        }
        let digit: u64 = c as u64 - '0' as u64;
        proof {
            assert(t.take(i - start + 1).drop_last() =~= t.take(i - start));
            lemma_digits_value_grows(t, i - start + 1);
        }
        value = value * 10 + digit;
        if value > u32::MAX as u64 {
            return None;
        }
        i = i + 1;
    }
    assert(t.take(t.len() as int) =~= t);
    Some(value as u32)
}

/// A number is at least the number its first digits denote.
proof fn lemma_digits_value_grows(t: Seq<char>, n: int)
    requires
        0 <= n <= t.len(),
    ensures
        all_digits(t) ==> digits_value(t.take(n)) <= digits_value(t),
    decreases t.len(),
{
    if n == t.len() {
        assert(t.take(n) =~= t);
    } else if all_digits(t) {
        let d = t.drop_last();
        lemma_digits_value_grows(d, n);
        assert(d.take(n) =~= t.take(n));
        assert(is_digit(t.last()));
    }
}

fn digit_text(d: u32) -> (r: &'static str)
    requires
        d < 10,
    ensures
        r@ == seq![('0' as int + d) as char],
{
    proof {
        reveal_strlit("0");
        reveal_strlit("1");
        reveal_strlit("2");
        reveal_strlit("3");
        reveal_strlit("4");
        reveal_strlit("5");
        reveal_strlit("6");
        reveal_strlit("7");
        reveal_strlit("8");
        reveal_strlit("9");
    }
    let r = match d {
        0 => "0",
        1 => "1",
        2 => "2",
        3 => "3",
        4 => "4",
        5 => "5",
        6 => "6",
        7 => "7",
        8 => "8",
        _ => "9",
    };
    assert(r@ =~= seq![('0' as int + d) as char]);
    r
}

/// Writes a number in decimal.
pub fn decimal_text(n: u32) -> (r: String)
    ensures
        r@ == decimal(n as nat),
    decreases n,
{
    if n < 10 {
        digit_text(n).to_owned()
    } else {
        let head: String = decimal_text(n / 10);
        let r: String = head.concat(digit_text(n % 10));
        assert(r@ =~= decimal(n as nat));
        r
    }
}

/// White space at the start of a text, and nothing else, is taken away there.
pub proof fn law_trim_start(spaces: Seq<char>, rest: Seq<char>)
    requires
        forall|i: int| 0 <= i < spaces.len() ==> is_space(#[trigger] spaces[i]),
        rest.len() > 0 ==> !is_space(rest[0]),
    ensures
        trim_start(spaces + rest) == rest,
{
    let s = spaces + rest;
    let p = |c: char| is_space(c);
    assert forall|i: int| 0 <= i < spaces.len() implies p(#[trigger] s[i]) by {
        assert(s[i] == spaces[i]);
    }
    assert(spaces.len() < s.len() ==> s[spaces.len() as int] == rest[0]);
    lemma_prefix_len_unique(s, p, spaces.len() as int);
    assert(s.skip(spaces.len() as int) =~= rest);
}

/// White space at either end of a text, and nothing else, is taken away.
pub proof fn law_trim(before: Seq<char>, text: Seq<char>, after: Seq<char>)
    requires
        forall|i: int| 0 <= i < before.len() ==> is_space(#[trigger] before[i]),
        forall|i: int| 0 <= i < after.len() ==> is_space(#[trigger] after[i]),
        text.len() > 0 ==> !is_space(text[0]) && !is_space(text.last()),
    ensures
        trim(before + text + after) == text,
{
    let p = |c: char| is_space(c);
    if text.len() == 0 {
        let all = before + after;
        assert(before + text + after =~= all + Seq::empty());
        assert forall|i: int| 0 <= i < all.len() implies is_space(#[trigger] all[i]) by {
            if i < before.len() {
                assert(all[i] == before[i]);
            } else {
                assert(all[i] == after[i - before.len()]);
            }
        }
        law_trim_start(all, Seq::empty());
        assert(Seq::<char>::empty().reverse() =~= Seq::empty());
        assert(trim_end(Seq::<char>::empty()) =~= Seq::empty());
        assert(text =~= Seq::empty());
    } else {
        let t = text + after;
        assert(before + text + after =~= before + t);
        assert(t[0] == text[0]);
        law_trim_start(before, t);
        let back = t.reverse();
        assert forall|i: int| 0 <= i < after.len() implies p(#[trigger] back[i]) by {
            assert(back[i] == after[after.len() - 1 - i]);
        }
        assert(back[after.len() as int] == text.last());
        lemma_prefix_len_unique(back, p, after.len() as int);
        assert(trim_end(t) =~= text);
    }
}

/// The first field is what stands between the white space at the start and the
/// next white space.
pub proof fn law_first_field(spaces: Seq<char>, field: Seq<char>, rest: Seq<char>)
    requires
        forall|i: int| 0 <= i < spaces.len() ==> is_space(#[trigger] spaces[i]),
        field.len() > 0,
        forall|i: int| 0 <= i < field.len() ==> !is_space(#[trigger] field[i]),
        rest.len() > 0,
        is_space(rest[0]),
    ensures
        first_field(spaces + field + rest) == Some((field, rest)),
{
    let t = field + rest;
    let q = |c: char| !is_space(c);
    assert(spaces + field + rest =~= spaces + t);
    assert(t[0] == field[0]);
    law_trim_start(spaces, t);
    assert forall|i: int| 0 <= i < field.len() implies q(#[trigger] t[i]) by {
        assert(t[i] == field[i]);
    }
    assert(t[field.len() as int] == rest[0]);
    lemma_prefix_len_unique(t, q, field.len() as int);
    assert(t.take(field.len() as int) =~= field);
    assert(t.skip(field.len() as int) =~= rest);
}

/// There is no first field where no white space follows the text after the
/// white space at the start.
pub proof fn law_no_first_field(spaces: Seq<char>, field: Seq<char>)
    requires
        forall|i: int| 0 <= i < spaces.len() ==> is_space(#[trigger] spaces[i]),
        forall|i: int| 0 <= i < field.len() ==> !is_space(#[trigger] field[i]),
    ensures
        first_field(spaces + field) is None,
{
    let q = |c: char| !is_space(c);
    law_trim_start(spaces, field);
    lemma_prefix_len_unique(field, q, field.len() as int);
}

/// A text is the lines up to its first line feed and behind it; one without a
/// line feed is one line, or none if it is empty.
pub proof fn law_lines(line: Seq<char>, rest: Seq<char>)
    requires
        !line.contains('\n'),
    ensures
        lines(line.push('\n') + rest) == seq![strip_cr(line)] + lines(rest),
        line.len() > 0 ==> lines(line) == seq![line],
        lines(Seq::empty()).len() == 0,
{
    let s = line.push('\n') + rest;
    let p = |c: char| c != '\n';
    assert forall|i: int| 0 <= i < line.len() implies #[trigger] line[i] != '\n' by {
        if line[i] == '\n' {
            assert(line.contains('\n'));
        }
    }
    assert forall|i: int| 0 <= i < line.len() implies p(#[trigger] s[i]) by {
        assert(s[i] == line[i]);
    }
    assert(s[line.len() as int] == '\n');
    lemma_prefix_len_unique(s, p, line.len() as int);
    lemma_prefix_len_unique(line, p, line.len() as int);
    assert(s.take(line.len() as int) =~= line);
    assert(s.skip(line.len() as int + 1) =~= rest);
}

/// A carriage return at the end of a line, and nothing else, is taken away.
pub proof fn law_strip_cr(line: Seq<char>)
    ensures
        strip_cr(line.push('\r')) == line,
        line.len() == 0 || line.last() != '\r' ==> strip_cr(line) == line,
{
    assert(line.push('\r').drop_last() =~= line);
}

/// A digit behind a number makes it ten times as large and adds the digit, as
/// long as the result fits; a number that does not fit stays so.
pub proof fn law_number_grows(s: Seq<char>, c: char)
    requires
        '0' <= c <= '9',
        forall|i: int| 0 <= i < s.len() ==> '0' <= #[trigger] s[i] <= '9',
    ensures
        s.len() == 0 ==> u32_value(s.push(c)) == Some((c as int - '0' as int) as u32),
        s.len() > 0 ==> match u32_value(s) {
            Some(n) => {
                let larger = 10 * n + (c as int - '0' as int);
                u32_value(s.push(c)) == (if larger <= u32::MAX {
                    Some(larger as u32)
                } else {
                    None
                })
            },
            None => u32_value(s.push(c)) is None,
        },
{
    let t = s.push(c);
    assert(t.drop_last() =~= s);
    assert(all_digits(s)) by {
        assert forall|i: int| 0 <= i < s.len() implies is_digit(#[trigger] s[i]) by {}
    }
    assert(all_digits(t)) by {
        assert forall|i: int| 0 <= i < t.len() implies is_digit(#[trigger] t[i]) by {
            if i < s.len() {
                assert(t[i] == s[i]);
            }
        }
    }
    assert(strip_plus(s) == s);
    assert(t[0] != '+') by {
        if s.len() > 0 {
            assert(t[0] == s[0]);
        }
    }
    assert(strip_plus(t) == t);
    if s.len() == 0 {
        assert(digits_value(s) == 0);
    }
}

/// A plus sign in front of a number makes no difference; nothing but digits is
/// a number.
pub proof fn law_number_form(s: Seq<char>)
    ensures
        s.len() > 0 && s[0] != '+' ==> u32_value(seq!['+'] + s) == u32_value(s),
        s.len() == 0 ==> u32_value(s) is None && u32_value(seq!['+']) is None,
        (exists|i: int|
            0 <= i < s.len() && !(i == 0 && s[0] == '+') && !('0' <= #[trigger] s[i] <= '9'))
            ==> u32_value(s) is None,
{
    assert((seq!['+'] + s).skip(1) =~= s);
    assert(seq!['+'].skip(1) =~= Seq::empty());
    if exists|i: int|
        0 <= i < s.len() && !(i == 0 && s[0] == '+') && !('0' <= #[trigger] s[i] <= '9') {
        let i = choose|i: int|
            0 <= i < s.len() && !(i == 0 && s[0] == '+') && !('0' <= #[trigger] s[i] <= '9');
        let t = strip_plus(s);
        if s[0] == '+' {
            assert(t[i - 1] == s[i]);
            assert(!is_digit(t[i - 1]));
        } else {
            assert(!is_digit(t[i]));
        }
    }
}

/// A number is written in decimal digits, without a zero in front of another
/// digit.
pub proof fn law_decimal_form(n: nat)
    ensures
        decimal(n).len() > 0,
        forall|i: int| 0 <= i < decimal(n).len() ==> '0' <= #[trigger] decimal(n)[i] <= '9',
        decimal(n).len() > 1 ==> decimal(n)[0] != '0',
    decreases n,
{
    lemma_decimal(n);
    assert forall|i: int| 0 <= i < decimal(n).len() implies '0' <= #[trigger] decimal(n)[i]
        <= '9' by {
        assert(is_digit(decimal(n)[i]));
    }
    if n >= 10 {
        law_decimal_form(n / 10);
        assert(decimal(n)[0] == decimal(n / 10)[0]);
        if n / 10 < 10 {
            assert(decimal(n / 10)[0] as int == '0' as int + n / 10);
        } else {
            lemma_decimal(n / 10 / 10);
            assert(decimal(n / 10).len() > 1);
        }
    }
}

/// The first character in which two texts differ decides which comes first; a
/// proper prefix comes first.
pub proof fn law_order_by_first_difference(
    common: Seq<char>,
    x: char,
    a: Seq<char>,
    y: char,
    b: Seq<char>,
)
    ensures
        x < y ==> text_lt(common + seq![x] + a, common + seq![y] + b),
        text_lt(common, common + seq![x] + a),
    decreases common.len(),
{
    let s = common + seq![x] + a;
    let t = common + seq![y] + b;
    if common.len() > 0 {
        let c = common.drop_first();
        law_order_by_first_difference(c, x, a, y, b);
        assert(s.drop_first() =~= c + seq![x] + a);
        assert(t.drop_first() =~= c + seq![y] + b);
        assert(s[0] == common[0] && t[0] == common[0]);
    } else {
        assert(s[0] == x && t[0] == y);
    }
}

/// A text occurs in another exactly if the other is that text with something,
/// or nothing, on either side.
pub proof fn law_occurs(before: Seq<char>, needle: Seq<char>, after: Seq<char>, text: Seq<char>)
    ensures
        occurs_in(needle, before + needle + after),
        occurs_in(needle, text) ==> exists|a: Seq<char>, b: Seq<char>|
            text == #[trigger] (a + needle + b),
{
    let all = before + needle + after;
    let i = before.len() as int;
    assert(all.subrange(i, i + needle.len()) =~= needle);
    if occurs_in(needle, text) {
        let j = choose|j: int|
            0 <= j <= text.len() - needle.len() && #[trigger] text.subrange(j, j + needle.len())
                == needle;
        let a = text.take(j);
        let b = text.skip(j + needle.len());
        assert(text =~= a + text.subrange(j, j + needle.len()) + b);
        assert(text == a + needle + b);
    }
}

/// A list of strings stands as their texts, one for one.
pub proof fn law_texts(v: Seq<String>)
    ensures
        texts(v).len() == v.len(),
        forall|i: int| 0 <= i < v.len() ==> #[trigger] texts(v)[i] == v[i]@,
{
}

} // verus!
