//! Text: decimal numbers, searching, trimming, ordering.
use vstd::prelude::*;
use crate::table::{views, Dup};

verus! {

/// `std`'s `String::push`: puts the character at the end.
pub assume_specification[ String::push ](s: &mut String, c: char)
    ensures
        final(s)@ == old(s)@.push(c),
;

/// `std`'s `String::pop`: takes the last character off, if there is one.
pub assume_specification[ String::pop ](s: &mut String) -> (last: Option<char>)
    ensures
        old(s)@.len() == 0 ==> last is None && final(s)@ == old(s)@,
        old(s)@.len() > 0 ==> last == Some(old(s)@.last()) && final(s)@ == old(s)@.drop_last(),
;

/// `std`'s `String::clear`: leaves the string empty.
pub assume_specification[ String::clear ](s: &mut String)
    ensures
        final(s)@ == Seq::<char>::empty(),
;

/// The decimal digit of a number below ten.
pub open spec fn digit(d: nat) -> char {
    (48 + d) as char
}

/// A number in decimal, without leading zeros.
pub open spec fn decimal(n: nat) -> Seq<char>
    decreases n,
{
    if n < 10 {
        seq![digit(n)]
    } else {
        decimal(n / 10).push(digit(n % 10))
    }
}

/// Writes a number in decimal.
pub fn dec(n: u64) -> (s: String)
    ensures
        s@ == decimal(n as nat),
    decreases n,
{
    let d: u8 = 48 + (n % 10) as u8;
    let c: char = d as char;
    if n < 10 {
        let mut s = String::new();
        s.push(c);
        assert(s@ =~= decimal(n as nat));
        s
    } else {
        let mut s = dec(n / 10);
        s.push(c);
        s
    }
}

/// Numbers in decimal, with commas between them.
pub open spec fn comma_text(numbers: Seq<u32>) -> Seq<char>
    decreases numbers.len(),
{
    if numbers.len() == 0 {
        Seq::empty()
    } else if numbers.len() == 1 {
        decimal(numbers[0] as nat)
    } else {
        comma_text(numbers.drop_last()) + ", "@ + decimal(numbers.last() as nat)
    }
}

/// A list of numbers, in square brackets.
pub open spec fn list_text(numbers: Seq<u32>) -> Seq<char> {
    "["@ + comma_text(numbers) + "]"@
}

/// Writes a list of numbers in square brackets.
pub fn list(numbers: &Vec<u32>) -> (s: String)
    ensures
        s@ == list_text(numbers@),
{
    let mut inner = String::new();
    let mut i: usize = 0;
    assert(inner@ =~= Seq::<char>::empty());
    assert(numbers@.take(0) =~= Seq::<u32>::empty());
    while i < numbers.len()
        invariant
            i <= numbers.len(),
            inner@ == comma_text(numbers@.take(i as int)),
        decreases numbers.len() - i,
    {
        let ghost now = numbers@.take(i + 1);
        assert(now.drop_last() =~= numbers@.take(i as int));
        assert(now.last() == numbers@[i as int]);
        let number = dec(numbers[i] as u64);
        if i > 0 {
            inner.append(", ");
        }
        inner.append(&number);
        proof {
            if i == 0 {
                assert(Seq::<char>::empty() + number@ =~= number@);
            }
        }
        i = i + 1;
    }
    assert(numbers@.take(i as int) =~= numbers@);
    join3("[", &inner, "]")
}

/// The character is a decimal digit of the ASCII range.
pub open spec fn is_digit(c: char) -> bool {
    '0' <= c <= '9'
}

/// The number that a row of decimal digits stands for.
pub open spec fn digits_value(s: Seq<char>) -> nat
    decreases s.len(),
{
    if s.len() == 0 {
        0
    } else {
        digits_value(s.drop_last()) * 10 + (s.last() as nat - 48) as nat
    }
}

/// The text without one leading plus sign.
pub open spec fn unsigned_part(s: Seq<char>) -> Seq<char> {
    if s.len() > 0 && s[0] == '+' {
        s.skip(1)
    } else {
        s
    }
}

/// The text is a `u64` in decimal: an optional plus sign, then one digit or more, in range.
pub open spec fn is_u64(s: Seq<char>) -> bool {
    &&& unsigned_part(s).len() > 0
    &&& forall|i: int|
        0 <= i < unsigned_part(s).len() ==> is_digit(#[trigger] unsigned_part(s)[i])
    &&& digits_value(unsigned_part(s)) <= u64::MAX
}

proof fn lemma_digits_value_grows(s: Seq<char>, n: int)
    requires
        0 <= n <= s.len(),
        forall|i: int| 0 <= i < s.len() ==> is_digit(#[trigger] s[i]),
    ensures
        digits_value(s.take(n)) <= digits_value(s),
    decreases s.len() - n,
{
    if n == s.len() {
        assert(s.take(n) =~= s);
    } else {
        lemma_digits_value_grows(s, n + 1);
        assert(s.take(n + 1).drop_last() =~= s.take(n));
        assert(is_digit(s[n]));
    }
}

/// Reads a `u64` in decimal.
pub fn parse_u64(s: &str) -> (n: Option<u64>)
    ensures
        n is Some <==> is_u64(s@),
        n matches Some(v) ==> v == digits_value(unsigned_part(s@)),
{
    let cs = chars_of(s);
    let mut i: usize = 0;
    if cs.len() > 0 && cs[0] == '+' {
        i = 1;
    }
    let start = i;
    let ghost part = unsigned_part(s@);
    assert(part =~= cs@.skip(start as int));
    if start == cs.len() {
        return None;
    }
    let mut value: u64 = 0;
    while i < cs.len()
        invariant
            start <= i <= cs.len(),
            start < cs.len(),
            part == cs@.skip(start as int),
            forall|j: int| 0 <= j < i - start ==> is_digit(#[trigger] part[j]),
            value == digits_value(part.take(i - start)),
            part == unsigned_part(s@),
        decreases cs.len() - i,
    {
        let c = cs[i];
        assert(part[i - start] == c);
        if c < '0' || '9' < c {
            return None;
        }
        let d: u64 = c as u64 - 48;
        proof {
            assert(part.take(i + 1 - start).drop_last() =~= part.take(i - start));
            assert(part.take(i + 1 - start).last() == c);
            if forall|j: int| 0 <= j < part.len() ==> is_digit(#[trigger] part[j]) {
                lemma_digits_value_grows(part, i + 1 - start);
            }
        }
        if value > (u64::MAX - d) / 10 {
            return None;
        }
        value = value * 10 + d;
        i = i + 1;
    }
    assert(part.take(i - start) =~= part);
    Some(value)
}

/// A number written in decimal reads back as itself.
pub proof fn law_decimal_reads_back(n: u64)
    ensures
        is_u64(decimal(n as nat)),
        digits_value(unsigned_part(decimal(n as nat))) == n,
{
    lemma_decimal_value(n as nat);
    let s = decimal(n as nat);
    assert(is_digit(s[0]));
    assert(unsigned_part(s) == s);
}

proof fn lemma_decimal_value(n: nat)
    ensures
        decimal(n).len() > 0,
        forall|i: int| 0 <= i < decimal(n).len() ==> is_digit(#[trigger] decimal(n)[i]),
        digits_value(decimal(n)) == n,
    decreases n,
{
    if n < 10 {
        let s = decimal(n);
        assert(s.drop_last() =~= Seq::<char>::empty());
        assert(digits_value(s.drop_last()) == 0);
        assert(s.last() == digit(n));
    } else {
        lemma_decimal_value(n / 10);
        let s = decimal(n);
        assert(s.drop_last() =~= decimal(n / 10));
        assert(s.last() == digit(n % 10));
    }
}

/// One text after another.
pub fn join2(a: &str, b: &str) -> (s: String)
    ensures
        s@ == a@ + b@,
{
    let mut s = a.to_owned();
    s.append(b);
    s
}

/// Three texts, one after another.
pub fn join3(a: &str, b: &str, c: &str) -> (s: String)
    ensures
        s@ == a@ + b@ + c@,
{
    let mut s = join2(a, b);
    s.append(c);
    s
}

/// Four texts, one after another.
pub fn join4(a: &str, b: &str, c: &str, d: &str) -> (s: String)
    ensures
        s@ == a@ + b@ + c@ + d@,
{
    let mut s = join3(a, b, c);
    s.append(d);
    s
}

/// Five texts, one after another.
pub fn join5(a: &str, b: &str, c: &str, d: &str, e: &str) -> (s: String)
    ensures
        s@ == a@ + b@ + c@ + d@ + e@,
{
    let mut s = join4(a, b, c, d);
    s.append(e);
    s
}

/// Six texts, one after another.
pub fn join6(a: &str, b: &str, c: &str, d: &str, e: &str, f: &str) -> (s: String)
    ensures
        s@ == a@ + b@ + c@ + d@ + e@ + f@,
{
    let mut s = join5(a, b, c, d, e);
    s.append(f);
    s
}

/// Whether two texts are the same.
pub fn same_text(a: &str, b: &str) -> (same: bool)
    ensures
        same == (a@ == b@),
{
    let x = a.to_owned();
    let y = b.to_owned();
    x == y
}

/// The characters of a text.
pub fn chars_of(s: &str) -> (cs: Vec<char>)
    ensures
        cs@ == s@,
{
    let mut cs: Vec<char> = Vec::new();
    for c in it: s.chars()
        invariant
            it.seq() == s@,
            cs@ == it.seq().take(it.index() as int),
    {
        cs.push(c);
        assert(cs@ =~= it.seq().take(it.index() as int + 1));
    }
    assert(cs@ =~= s@);
    cs
}

/// The pattern stands in the text at the position.
pub open spec fn stands_at(pattern: Seq<char>, text: Seq<char>, i: int) -> bool {
    0 <= i && i + pattern.len() <= text.len() && text.subrange(i, i + pattern.len()) == pattern
}

/// The pattern stands somewhere in the text.
pub open spec fn occurs_in(pattern: Seq<char>, text: Seq<char>) -> bool {
    exists|i: int| #[trigger] stands_at(pattern, text, i)
}

/// The text begins with the pattern.
pub open spec fn starts(text: Seq<char>, pattern: Seq<char>) -> bool {
    stands_at(pattern, text, 0)
}

/// The text ends with the pattern.
pub open spec fn ends(text: Seq<char>, pattern: Seq<char>) -> bool {
    stands_at(pattern, text, text.len() - pattern.len())
}

fn pattern_at(text: &Vec<char>, pattern: &Vec<char>, at: usize) -> (found: bool)
    requires
        at <= text.len(),
    ensures
        found == stands_at(pattern@, text@, at as int),
{
    if text.len() - at < pattern.len() {
        return false;
    }
    let mut j: usize = 0;
    while j < pattern.len()
        invariant
            j <= pattern.len(),
            at + pattern.len() <= text.len(),
            forall|k: int| 0 <= k < j ==> text@[at + k] == #[trigger] pattern@[k],
        decreases pattern.len() - j,
    {
        if text[at + j] != pattern[j] {
            assert(text@.subrange(at as int, at + pattern.len())[j as int] != pattern@[j as int]);
            return false;
        }
        j = j + 1;
    }
    assert(text@.subrange(at as int, at + pattern.len()) =~= pattern@);
    true
}

/// Whether the pattern stands somewhere in the text.
pub fn contains(text: &str, pattern: &str) -> (found: bool)
    ensures
        found == occurs_in(pattern@, text@),
{
    let t = chars_of(text);
    let p = chars_of(pattern);
    let mut i: usize = 0;
    while i <= t.len()
        invariant
            i <= t.len() + 1,
            t@ == text@,
            p@ == pattern@,
            forall|k: int| 0 <= k < i ==> !#[trigger] stands_at(p@, t@, k),
        decreases t.len() + 1 - i,
    {
        if pattern_at(&t, &p, i) {
            return true;
        }
        if i == t.len() {
            assert(forall|k: int| k > i ==> !#[trigger] stands_at(p@, t@, k));
            return false;
        }
        i = i + 1;
    }
    false
}

/// Whether the text begins with the pattern.
pub fn starts_with(text: &str, pattern: &str) -> (found: bool)
    ensures
        found == starts(text@, pattern@),
{
    let t = chars_of(text);
    let p = chars_of(pattern);
    pattern_at(&t, &p, 0)
}

/// Whether the text ends with the pattern.
pub fn ends_with(text: &str, pattern: &str) -> (found: bool)
    ensures
        found == ends(text@, pattern@),
{
    let t = chars_of(text);
    let p = chars_of(pattern);
    if t.len() < p.len() {
        return false;
    }
    pattern_at(&t, &p, t.len() - p.len())
}

/// What follows the prefix, where the text begins with it.
pub fn strip_prefix<'a>(text: &'a str, prefix: &str) -> (rest: Option<&'a str>)
    ensures
        rest is Some <==> starts(text@, prefix@),
        rest matches Some(r) ==> r@ == text@.skip(prefix@.len() as int),
{
    if starts_with(text, prefix) {
        let n = prefix.unicode_len();
        let m = text.unicode_len();
        let rest = text.substring_char(n, m);
        assert(rest@ =~= text@.skip(n as int));
        Some(rest)
    } else {
        None
    }
}

/// The text without the suffix, taken off as often as it stands at the end.
pub open spec fn trimmed_end(text: Seq<char>, suffix: Seq<char>) -> Seq<char>
    decreases text.len(),
{
    if suffix.len() > 0 && ends(text, suffix) {
        trimmed_end(text.take(text.len() - suffix.len()), suffix)
    } else {
        text
    }
}

/// Takes the suffix off the end of the text as often as it stands there.
pub fn trim_end_matches<'a>(text: &'a str, suffix: &str) -> (rest: &'a str)
    requires
        suffix@.len() > 0,
    ensures
        rest@ == trimmed_end(text@, suffix@),
{
    let t = chars_of(text);
    let p = chars_of(suffix);
    let mut n: usize = t.len();
    assert(t@.take(n as int) =~= text@);
    loop
        invariant
            n <= t.len(),
            t@ == text@,
            p@ == suffix@,
            p@.len() > 0,
            trimmed_end(text@.take(n as int), suffix@) == trimmed_end(text@, suffix@),
        decreases n,
    {
        let ghost now = text@.take(n as int);
        if n < p.len() {
            let rest = text.substring_char(0, n);
            assert(rest@ =~= now);
            return rest;
        }
        let at: usize = n - p.len();
        proof {
            assert(t@.subrange(at as int, at + p.len()) =~= now.subrange(at as int, n as int));
        }
        if pattern_at(&t, &p, at) {
            assert(now.take(at as int) =~= text@.take(at as int));
            n = at;
        } else {
            let rest = text.substring_char(0, n);
            assert(rest@ =~= now);
            return rest;
        }
    }
}

/// The character is white space: it has the Unicode property White_Space.
pub open spec fn is_space(c: char) -> bool {
    ||| '\u{9}' <= c <= '\u{d}'
    ||| c == ' '
    ||| c == '\u{85}'
    ||| c == '\u{a0}'
    ||| c == '\u{1680}'
    ||| '\u{2000}' <= c <= '\u{200a}'
    ||| c == '\u{2028}'
    ||| c == '\u{2029}'
    ||| c == '\u{202f}'
    ||| c == '\u{205f}'
    ||| c == '\u{3000}'
}

fn space(c: char) -> (b: bool)
    ensures
        b == is_space(c),
{
    ('\u{9}' <= c && c <= '\u{d}') || c == ' ' || c == '\u{85}' || c == '\u{a0}' || c
        == '\u{1680}' || ('\u{2000}' <= c && c <= '\u{200a}') || c == '\u{2028}' || c == '\u{2029}'
        || c == '\u{202f}' || c == '\u{205f}' || c == '\u{3000}'
}

/// The text without the white space at its two ends.
pub open spec fn trimmed(s: Seq<char>) -> Seq<char>
    decreases s.len(),
{
    if s.len() > 0 && is_space(s[0]) {
        trimmed(s.skip(1))
    } else if s.len() > 0 && is_space(s.last()) {
        trimmed(s.drop_last())
    } else {
        s
    }
}

/// Takes the white space off both ends.
pub fn trim<'a>(text: &'a str) -> (rest: &'a str)
    ensures
        rest@ == trimmed(text@),
{
    let t = chars_of(text);
    let mut i: usize = 0;
    let mut j: usize = t.len();
    assert(t@.subrange(0, j as int) =~= text@);
    while i < j && space(t[i])
        invariant
            i <= j <= t.len(),
            t@ == text@,
            trimmed(t@.subrange(i as int, j as int)) == trimmed(text@),
        decreases j - i,
    {
        assert(t@.subrange(i as int, j as int).skip(1) =~= t@.subrange(i + 1, j as int));
        i = i + 1;
    }
    while i < j && space(t[j - 1])
        invariant
            i <= j <= t.len(),
            t@ == text@,
            i < j ==> !is_space(t@[i as int]),
            trimmed(t@.subrange(i as int, j as int)) == trimmed(text@),
        decreases j - i,
    {
        assert(t@.subrange(i as int, j as int).drop_last() =~= t@.subrange(i as int, j - 1));
        j = j - 1;
    }
    text.substring_char(i, j)
}

/// The first text comes no later than the second in the order of their characters.
pub open spec fn lex_le(a: Seq<char>, b: Seq<char>) -> bool
    decreases a.len(),
{
    if a.len() == 0 {
        true
    } else if b.len() == 0 {
        false
    } else if a[0] == b[0] {
        lex_le(a.skip(1), b.skip(1))
    } else {
        a[0] < b[0]
    }
}

/// The order of texts is total.
pub proof fn lemma_lex_total(a: Seq<char>, b: Seq<char>)
    ensures
        lex_le(a, b) || lex_le(b, a),
    decreases a.len(),
{
    if a.len() > 0 && b.len() > 0 && a[0] == b[0] {
        lemma_lex_total(a.skip(1), b.skip(1));
    }
}

/// The order of texts is transitive.
pub proof fn lemma_lex_transitive(a: Seq<char>, b: Seq<char>, c: Seq<char>)
    requires
        lex_le(a, b),
        lex_le(b, c),
    ensures
        lex_le(a, c),
    decreases a.len(),
{
    if a.len() > 0 && b.len() > 0 && c.len() > 0 && a[0] == b[0] && b[0] == c[0] {
        lemma_lex_transitive(a.skip(1), b.skip(1), c.skip(1));
    }
}

/// Two texts of which each comes no later than the other are the same.
pub proof fn lemma_lex_antisymmetric(a: Seq<char>, b: Seq<char>)
    requires
        lex_le(a, b),
        lex_le(b, a),
    ensures
        a == b,
    decreases a.len(),
{
    if a.len() > 0 && b.len() > 0 {
        lemma_lex_antisymmetric(a.skip(1), b.skip(1));
        assert(a =~= seq![a[0]] + a.skip(1));
        assert(b =~= seq![b[0]] + b.skip(1));
    } else {
        assert(a =~= b);
    }
}

/// Whether the first text comes no later than the second.
pub fn comes_before(a: &str, b: &str) -> (le: bool)
    ensures
        le == lex_le(a@, b@),
{
    let x = chars_of(a);
    let y = chars_of(b);
    let mut i: usize = 0;
    assert(x@.skip(0) =~= x@ && y@.skip(0) =~= y@);
    while i < x.len() && i < y.len()
        invariant
            i <= x.len(),
            i <= y.len(),
            x@ == a@,
            y@ == b@,
            lex_le(x@.skip(i as int), y@.skip(i as int)) == lex_le(a@, b@),
        decreases x.len() - i,
    {
        assert(x@.skip(i as int)[0] == x@[i as int]);
        assert(y@.skip(i as int)[0] == y@[i as int]);
        if x[i] != y[i] {
            return x[i] < y[i];
        }
        assert(x@.skip(i as int).skip(1) =~= x@.skip(i + 1));
        assert(y@.skip(i as int).skip(1) =~= y@.skip(i + 1));
        i = i + 1;
    }
    i == x.len()
}

/// A value that is shown, and ordered, by a text.
pub trait Label: Dup + View<V = Seq<char>> {
    fn label(&self) -> (text: &str)
        ensures
            text@ == self@,
    ;
}

impl Label for String {
    fn label(&self) -> (text: &str) {
        self.as_str()
    }
}

/// Each text comes no later than those after it.
pub open spec fn in_order(texts: Seq<Seq<char>>) -> bool {
    forall|i: int, j: int|
        0 <= i < j < texts.len() ==> lex_le(#[trigger] texts[i], #[trigger] texts[j])
}

fn insert_in_order<T: Label>(list: &mut Vec<T>, value: T)
    requires
        in_order(views(old(list)@)),
    ensures
        in_order(views(final(list)@)),
        views(final(list)@).to_multiset() == views(old(list)@).to_multiset().insert(value@),
{
    let ghost before = views(list@);
    let mut i: usize = 0;
    while i < list.len() && comes_before(list[i].label(), value.label())
        invariant
            i <= list.len(),
            before == views(list@),
            *list == *old(list),
            in_order(before),
            forall|k: int| 0 <= k < i ==> lex_le(#[trigger] before[k], value@),
        decreases list.len() - i,
    {
        i = i + 1;
    }
    let ghost x = value@;
    proof {
        if i < before.len() {
            lemma_lex_total(before[i as int], x);
        }
        assert forall|k: int| i <= k < before.len() implies lex_le(x, #[trigger] before[k]) by {
            if k > i {
                lemma_lex_transitive(x, before[i as int], before[k]);
            }
        }
    }
    list.insert(i, value);
    proof {
        let after = views(list@);
        assert(after =~= before.insert(i as int, x));
        before.to_multiset_ensures();
        vstd::seq_lib::to_multiset_insert(before, i as int, x);
    }
}

/// Puts the values in the order of their texts.
pub fn sort_by_label<T: Label>(values: Vec<T>) -> (sorted: Vec<T>)
    ensures
        in_order(views(sorted@)),
        views(sorted@).to_multiset() == views(values@).to_multiset(),
{
    let ghost all = views(values@);
    let mut sorted: Vec<T> = Vec::new();
    proof {
        assert(views(sorted@) =~= Seq::<Seq<char>>::empty());
        assert(all.take(0) =~= Seq::<Seq<char>>::empty());
    }
    for value in it: values
        invariant
            all == views(it.seq()),
            in_order(views(sorted@)),
            views(sorted@).to_multiset() == all.take(it.index() as int).to_multiset(),
    {
        let ghost i = it.index() as int;
        proof {
            assert(all[i] == value@);
            assert(all.take(i + 1) =~= all.take(i).push(value@));
            all.take(i).to_multiset_ensures();
        }
        insert_in_order(&mut sorted, value);
    }
    assert(all.take(all.len() as int) =~= all);
    sorted
}

/// How many bytes a character takes up in UTF-8.
pub open spec fn byte_width(c: char) -> int {
    if c <= '\u{7f}' {
        1
    } else if c <= '\u{7ff}' {
        2
    } else if c <= '\u{ffff}' {
        3
    } else {
        4
    }
}

fn width(c: char) -> (n: usize)
    ensures
        n == byte_width(c),
{
    if c <= '\u{7f}' {
        1
    } else if c <= '\u{7ff}' {
        2
    } else if c <= '\u{ffff}' {
        3
    } else {
        4
    }
}

/// How many characters at the beginning of a text take up no more than a number of bytes.
pub open spec fn fitting(text: Seq<char>, n: int) -> int
    decreases text.len(),
{
    if text.len() == 0 || byte_width(text[0]) > n {
        0
    } else {
        1 + fitting(text.skip(1), n - byte_width(text[0]))
    }
}

/// The beginning of a text: as many characters as fit into a number of bytes.
pub open spec fn shortened(text: Seq<char>, n: int) -> Seq<char> {
    text.take(fitting(text, n))
}

/// The beginning of a text: as many characters as fit into a number of bytes.
pub fn shorten(text: &str, n: usize) -> (short: &str)
    ensures
        short@ == shortened(text@, n as int),
{
    let t = chars_of(text);
    let mut i: usize = 0;
    let mut left: usize = n;
    assert(t@.skip(0) =~= t@);
    while i < t.len() && width(t[i]) <= left
        invariant
            i <= t.len(),
            t@ == text@,
            left <= n,
            i + fitting(t@.skip(i as int), left as int) == fitting(text@, n as int),
        decreases t.len() - i,
    {
        assert(t@.skip(i as int)[0] == t@[i as int]);
        assert(t@.skip(i as int).skip(1) =~= t@.skip(i + 1));
        left = left - width(t[i]);
        i = i + 1;
    }
    proof {
        if i < t.len() {
            assert(t@.skip(i as int)[0] == t@[i as int]);
        }
        assert(fitting(text@, n as int) == i);
    }
    let short = text.substring_char(0, i);
    assert(short@ =~= shortened(text@, n as int));
    short
}

/// How many bytes a text takes up in UTF-8.
pub open spec fn bytes_of(text: Seq<char>) -> int
    decreases text.len(),
{
    if text.len() == 0 {
        0
    } else {
        byte_width(text[0]) + bytes_of(text.skip(1))
    }
}

/// A text that is cut short is the beginning of the text, takes up no more than the bytes allowed,
/// and no further character would have fitted.
pub proof fn law_shortened_fits(text: Seq<char>, n: int)
    requires
        n >= 0,
    ensures
        shortened(text, n).is_prefix_of(text),
        bytes_of(shortened(text, n)) <= n,
        shortened(text, n).len() <= n,
        shortened(text, n).len() < text.len() ==> bytes_of(shortened(text, n)) + byte_width(
            text[shortened(text, n).len() as int],
        ) > n,
        n >= 4 && text.len() > 0 ==> shortened(text, n).len() > 0,
    decreases text.len(),
{
    if text.len() > 0 && byte_width(text[0]) <= n {
        let rest = text.skip(1);
        let left = n - byte_width(text[0]);
        law_shortened_fits(rest, left);
        lemma_fitting(text, n);
        lemma_fitting(rest, left);
        let short = shortened(text, n);
        assert(short.skip(1) =~= shortened(rest, left));
        assert(short[0] == text[0]);
        if short.len() < text.len() {
            assert(text[short.len() as int] == rest[short.len() - 1]);
        }
    } else {
        lemma_fitting(text, n);
        assert(shortened(text, n) =~= Seq::<char>::empty());
    }
    assert(shortened(text, n) =~= text.subrange(0, shortened(text, n).len() as int));
}

proof fn lemma_fitting(text: Seq<char>, n: int)
    ensures
        0 <= fitting(text, n) <= text.len(),
    decreases text.len(),
{
    if text.len() > 0 && byte_width(text[0]) <= n {
        lemma_fitting(text.skip(1), n - byte_width(text[0]));
    }
}

/// The characters from one position up to another are white space.
pub open spec fn blank(text: Seq<char>, from: int, to: int) -> bool {
    forall|j: int| from <= j < to ==> is_space(#[trigger] text[j])
}

/// The piece stands in the text at the position, with nothing but white space before and after it.
pub open spec fn in_blanks(piece: Seq<char>, text: Seq<char>, i: int) -> bool {
    stands_at(piece, text, i) && blank(text, 0, i) && blank(text, i + piece.len(), text.len() as int)
}

/// What is left of a text once it is trimmed stands in the text with nothing but white space before
/// and after it, and neither begins nor ends with white space.
pub proof fn law_trimmed(text: Seq<char>)
    ensures
        trimmed(text).len() > 0 ==> !is_space(trimmed(text)[0]) && !is_space(trimmed(text).last()),
        exists|i: int| #[trigger] in_blanks(trimmed(text), text, i),
    decreases text.len(),
{
    let rest = trimmed(text);
    if text.len() > 0 && is_space(text[0]) {
        let inner = text.skip(1);
        law_trimmed(inner);
        let i = choose|i: int| #[trigger] in_blanks(rest, inner, i);
        assert(in_blanks(rest, text, i + 1)) by {
            assert(text.subrange(i + 1, i + 1 + rest.len()) =~= inner.subrange(i, i + rest.len()));
            assert forall|j: int| 0 <= j < i + 1 implies is_space(#[trigger] text[j]) by {
                assert(j > 0 ==> inner[j - 1] == text[j]);
            }
            assert forall|j: int| i + 1 + rest.len() <= j < text.len() implies is_space(
                #[trigger] text[j],
            ) by {
                assert(inner[j - 1] == text[j]);
            }
        }
    } else if text.len() > 0 && is_space(text.last()) {
        let inner = text.drop_last();
        law_trimmed(inner);
        let i = choose|i: int| #[trigger] in_blanks(rest, inner, i);
        assert(in_blanks(rest, text, i)) by {
            assert(text.subrange(i, i + rest.len()) =~= inner.subrange(i, i + rest.len()));
            assert forall|j: int| 0 <= j < i implies is_space(#[trigger] text[j]) by {
                assert(inner[j] == text[j]);
            }
            assert forall|j: int| i + rest.len() <= j < text.len() implies is_space(
                #[trigger] text[j],
            ) by {
                assert(j < inner.len() ==> inner[j] == text[j]);
            }
        }
    } else {
        assert(text.subrange(0, text.len() as int) =~= text);
        assert(in_blanks(rest, text, 0));
    }
}

/// A list in words holds each of its numbers, begins with the first and ends with the last.
pub proof fn law_list_holds_its_numbers(numbers: Seq<u32>, i: int)
    requires
        0 <= i < numbers.len(),
    ensures
        occurs_in(decimal(numbers[i] as nat), list_text(numbers)),
        starts(list_text(numbers), "["@ + decimal(numbers[0] as nat)),
        ends(list_text(numbers), decimal(numbers.last() as nat) + "]"@),
{
    let n = lemma_number_stands(numbers, i);
    let inner = comma_text(numbers);
    let all = list_text(numbers);
    let word = decimal(numbers[i] as nat);
    let b = "["@.len() as int;
    assert(all.subrange(b + n, b + n + word.len()) =~= inner.subrange(n, n + word.len()));
    assert(stands_at(word, all, b + n));
    lemma_list_ends(numbers);
    let first = "["@ + decimal(numbers[0] as nat);
    assert(all.subrange(0, first.len() as int) =~= first) by {
        assert(inner.subrange(0, decimal(numbers[0] as nat).len() as int) =~= decimal(
            numbers[0] as nat,
        ));
        assert forall|k: int| 0 <= k < first.len() implies #[trigger] all[k] == first[k] by {
            if k >= b {
                assert(inner.subrange(0, decimal(numbers[0] as nat).len() as int)[k - b]
                    == inner[k - b]);
            }
        }
    }
    let last = decimal(numbers.last() as nat);
    let tail = last + "]"@;
    assert(all.subrange(all.len() - tail.len(), all.len() as int) =~= tail) by {
        let from = inner.len() - last.len();
        assert(inner.subrange(from, inner.len() as int) =~= last);
        assert forall|k: int| 0 <= k < tail.len() implies #[trigger] all[all.len() - tail.len() + k]
            == tail[k] by {
            if k < last.len() {
                assert(inner.subrange(from, inner.len() as int)[k] == inner[from + k]);
            }
        }
    }
}

proof fn lemma_number_stands(numbers: Seq<u32>, i: int) -> (n: int)
    requires
        0 <= i < numbers.len(),
    ensures
        stands_at(decimal(numbers[i] as nat), comma_text(numbers), n),
    decreases numbers.len(),
{
    let word = decimal(numbers[i] as nat);
    let all = comma_text(numbers);
    if numbers.len() == 1 {
        assert(all.subrange(0, word.len() as int) =~= word);
        0
    } else if i == numbers.len() - 1 {
        let n = all.len() - word.len();
        assert(all.subrange(n, n + word.len()) =~= word);
        n
    } else {
        let front = numbers.drop_last();
        let n = lemma_number_stands(front, i);
        assert(all.subrange(n, n + word.len()) =~= comma_text(front).subrange(n, n + word.len()));
        n
    }
}

proof fn lemma_list_ends(numbers: Seq<u32>)
    requires
        numbers.len() > 0,
    ensures
        starts(comma_text(numbers), decimal(numbers[0] as nat)),
        ends(comma_text(numbers), decimal(numbers.last() as nat)),
    decreases numbers.len(),
{
    let all = comma_text(numbers);
    let first = decimal(numbers[0] as nat);
    let last = decimal(numbers.last() as nat);
    if numbers.len() == 1 {
        assert(all.subrange(0, first.len() as int) =~= first);
        assert(all.subrange(all.len() - last.len(), all.len() as int) =~= last);
    } else {
        let front = numbers.drop_last();
        lemma_list_ends(front);
        assert(all.subrange(0, first.len() as int) =~= comma_text(front).subrange(
            0,
            first.len() as int,
        ));
        assert(all.subrange(all.len() - last.len(), all.len() as int) =~= last);
    }
}

/// What is left of a text without its endings is its beginning and does not end so any more; a text
/// that did not end so is left whole, and one ending more is taken off like the others.
pub proof fn law_endings_are_taken_off(text: Seq<char>, suffix: Seq<char>)
    requires
        suffix.len() > 0,
    ensures
        trimmed_end(text, suffix).is_prefix_of(text),
        !ends(trimmed_end(text, suffix), suffix),
        !ends(text, suffix) ==> trimmed_end(text, suffix) == text,
        trimmed_end(text + suffix, suffix) == trimmed_end(text, suffix),
    decreases text.len(),
{
    let more = text + suffix;
    assert(more.subrange(more.len() - suffix.len(), more.len() as int) =~= suffix);
    assert(more.take(more.len() - suffix.len()) =~= text);
    if ends(text, suffix) {
        law_endings_are_taken_off(text.take(text.len() - suffix.len()), suffix);
    }
}

/// A text comes no later than one that it begins, and of two texts that begin alike the one with
/// the smaller character comes first.
pub proof fn law_order_of_texts(start: Seq<char>, a: char, b: char, more: Seq<char>, rest: Seq<char>)
    ensures
        lex_le(start, start + more),
        more.len() > 0 ==> !lex_le(start + more, start),
        a < b ==> lex_le(start + seq![a] + more, start + seq![b] + rest) && !lex_le(
            start + seq![b] + rest,
            start + seq![a] + more,
        ),
    decreases start.len(),
{
    let one = start + seq![a] + more;
    let two = start + seq![b] + rest;
    if start.len() > 0 {
        let tail = start.skip(1);
        law_order_of_texts(tail, a, b, more, rest);
        assert((start + more).skip(1) =~= tail + more);
        assert(one.skip(1) =~= tail + seq![a] + more);
        assert(two.skip(1) =~= tail + seq![b] + rest);
        assert((start + more)[0] == start[0]);
        assert(one[0] == two[0]);
    } else {
        assert(one[0] == a && two[0] == b);
        assert(start + more =~= more);
    }
}

/// A character takes up one byte with seven bits, two with eleven, three with sixteen, and else
/// four; so a later character never takes up less.
pub proof fn law_later_characters_are_no_narrower(a: char, b: char)
    ensures
        a as u32 <= b as u32 ==> byte_width(a) <= byte_width(b),
        byte_width(a) == 1 <==> (a as u32) < 0x80,
        byte_width(a) == 2 <==> 0x80 <= (a as u32) < 0x800,
        byte_width(a) == 3 <==> 0x800 <= (a as u32) < 0x1_0000,
        byte_width(a) == 4 <==> 0x1_0000 <= a as u32,
{
}

} // verus!
