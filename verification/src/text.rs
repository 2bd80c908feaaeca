//! Text as sequences of characters: searching, trimming, numbers and order.

use vstd::prelude::*;
use vstd::std_specs::iter::IteratorSpec;
use vstd::string::{StrSliceExecFns, StringExecFns};

verus! {

broadcast use vstd::string::group_string_axioms;

/// `part` stands in `s` at position `i`.
pub open spec fn occurs_at(s: Seq<char>, part: Seq<char>, i: int) -> bool {
    &&& 0 <= i
    &&& i + part.len() <= s.len()
    &&& s.subrange(i, i + part.len()) == part
}

/// `part` stands somewhere in `s`.
pub open spec fn occurs(s: Seq<char>, part: Seq<char>) -> bool {
    exists|i: int| occurs_at(s, part, i)
}

/// `i` is the leftmost position at which `part` stands in `s`.
pub open spec fn first_at(s: Seq<char>, part: Seq<char>, i: int) -> bool {
    &&& occurs_at(s, part, i)
    &&& forall|j: int| 0 <= j < i ==> !occurs_at(s, part, j)
}

/// The leftmost position of `part` in `s`; meaningful where `occurs(s, part)`.
pub open spec fn first(s: Seq<char>, part: Seq<char>) -> int {
    choose|i: int| first_at(s, part, i)
}

/// A text that occurs has a leftmost position, and `first` is that position.
pub proof fn lemma_first(s: Seq<char>, part: Seq<char>)
    requires
        occurs(s, part),
    ensures
        first_at(s, part, first(s, part)),
{
    let k = choose|i: int| occurs_at(s, part, i);
    lemma_first_below(s, part, k);
}

proof fn lemma_first_below(s: Seq<char>, part: Seq<char>, k: int)
    requires
        occurs_at(s, part, k),
    ensures
        exists|i: int| first_at(s, part, i),
    decreases k,
{
    if exists|j: int| 0 <= j < k && occurs_at(s, part, j) {
        let j = choose|j: int| 0 <= j < k && occurs_at(s, part, j);
        lemma_first_below(s, part, j);
    } else {
        assert(first_at(s, part, k));
    }
}

/// The leftmost position is unique.
pub proof fn lemma_first_is(s: Seq<char>, part: Seq<char>, i: int)
    requires
        first_at(s, part, i),
    ensures
        occurs(s, part),
        first(s, part) == i,
{
    let f = first(s, part);
    assert(first_at(s, part, f));
    if f < i {
        assert(!occurs_at(s, part, f));
    } else if i < f {
        assert(!occurs_at(s, part, i));
    }
}

/// The characters with the Unicode property `White_Space`.
pub open spec fn is_white(c: char) -> bool {
    ||| '\u{9}' <= c <= '\u{d}'
    ||| c == '\u{20}'
    ||| c == '\u{85}'
    ||| c == '\u{a0}'
    ||| c == '\u{1680}'
    ||| '\u{2000}' <= c <= '\u{200a}'
    ||| c == '\u{2028}'
    ||| c == '\u{2029}'
    ||| c == '\u{202f}'
    ||| c == '\u{205f}'
    ||| c == '\u{3000}'
}

/// `s` without the white space at its two ends.
pub open spec fn trimmed(s: Seq<char>) -> Seq<char>
    decreases s.len(),
{
    if s.len() == 0 {
        s
    } else if is_white(s.first()) {
        trimmed(s.drop_first())
    } else if is_white(s.last()) {
        trimmed(s.drop_last())
    } else {
        s
    }
}

/// `<tag>`
pub open spec fn open_tag(tag: Seq<char>) -> Seq<char> {
    seq!['<'] + tag + seq!['>']
}

/// `</tag>`
pub open spec fn close_tag(tag: Seq<char>) -> Seq<char> {
    seq!['<', '/'] + tag + seq!['>']
}

/// What follows the first `<tag>` of `s`.
pub open spec fn after_open_tag(s: Seq<char>, tag: Seq<char>) -> Seq<char> {
    s.skip(first(s, open_tag(tag)) + open_tag(tag).len())
}

/// The trimmed text between the first `<tag>` of `s` and the first `</tag>` behind it.
pub open spec fn tag_text(s: Seq<char>, tag: Seq<char>) -> Option<Seq<char>> {
    if !occurs(s, open_tag(tag)) {
        None
    } else {
        let rest = after_open_tag(s, tag);
        if !occurs(rest, close_tag(tag)) {
            None
        } else {
            Some(trimmed(rest.take(first(rest, close_tag(tag)))))
        }
    }
}

/// The characters of a text.
pub fn chars_of(s: &str) -> (r: Vec<char>)
    ensures
        r@ == s@,
{
    let mut out: Vec<char> = Vec::new();
    for c in it: s.chars()
        invariant
            out@ == s@.take(it.index()),
            it.seq() == s@,
    {
        out.push(c);
        assert(s@.take(it.index() + 1) == s@.take(it.index()).push(c));
    }
    assert(s@.take(s@.len() as int) == s@);
    out
}

/// Whether two texts are the same.
pub fn same_str(a: &str, b: &str) -> (r: bool)
    ensures
        r == (a@ == b@),
{
    let mut x = a.chars();
    let mut y = b.chars();
    let ghost mut n: int = 0;
    assert(a@.skip(0) == a@);
    assert(b@.skip(0) == b@);
    loop
        invariant
            0 <= n <= a@.len(),
            n <= b@.len(),
            a@.take(n) == b@.take(n),
            x.remaining() == a@.skip(n),
            y.remaining() == b@.skip(n),
        decreases a@.len() - n,
    {
        let c = x.next();
        let d = y.next();
        match (c, d) {
            (None, None) => {
                assert(a@.take(n) == a@);
                assert(b@.take(n) == b@);
                return true;
            },
            (Some(c), Some(d)) => {
                assert(c == a@[n] && d == b@[n]);
                if c != d {
                    return false;
                }
                proof {
                    assert(a@.take(n + 1) == a@.take(n).push(c));
                    assert(b@.take(n + 1) == b@.take(n).push(c));
                    assert(a@.skip(n).drop_first() == a@.skip(n + 1));
                    assert(b@.skip(n).drop_first() == b@.skip(n + 1));
                    n = n + 1;
                }
            },
            _ => {
                assert(a@.len() != b@.len());
                return false;
            },
        }
    }
}

/// Whether `part` stands in `s` at position `i`.
fn stands_at(s: &Vec<char>, part: &Vec<char>, i: usize) -> (r: bool)
    requires
        i + part@.len() <= s@.len(),
    ensures
        r == occurs_at(s@, part@, i as int),
{
    let len: usize = s.len();
    let mut k: usize = 0;
    while k < part.len()
        invariant
            i + part@.len() <= s@.len(),
            s@.len() == len,
            k <= part@.len(),
            forall|m: int| 0 <= m < k ==> s@[i + m] == #[trigger] part@[m],
        decreases part@.len() - k,
    {
        if s[i + k] != part[k] {
            assert(s@.subrange(i as int, i + part@.len())[k as int] == s@[i + k]);
            return false;
        }
        k = k + 1;
    }
    assert(s@.subrange(i as int, i + part@.len()) =~= part@);
    true
}

/// The leftmost position of `part` in what follows the first `from` characters of `s`,
/// counted from the start of `s`.
pub fn find_from(s: &Vec<char>, part: &Vec<char>, from: usize) -> (r: Option<usize>)
    requires
        from <= s@.len(),
    ensures
        match r {
            Some(i) => {
                &&& from <= i
                &&& i + part@.len() <= s@.len()
                &&& occurs(s@.skip(from as int), part@)
                &&& first(s@.skip(from as int), part@) == i - from
            },
            None => !occurs(s@.skip(from as int), part@),
        },
{
    let ghost rest = s@.skip(from as int);
    let mut i: usize = from;
    while i <= s.len() && part.len() <= s.len() - i
        invariant
            from <= i <= s@.len() + 1,
            rest == s@.skip(from as int),
            forall|j: int| 0 <= j < i - from ==> !occurs_at(rest, part@, j),
        decreases s@.len() + 1 - i,
    {
        assert(rest.subrange(i - from, i - from + part@.len()) =~= s@.subrange(
            i as int,
            i + part@.len(),
        ));
        if stands_at(s, part, i) {
            proof {
                assert(first_at(rest, part@, i - from));
                lemma_first_is(rest, part@, i - from);
            }
            return Some(i);
        }
        if i == s.len() {
            assert(forall|j: int| i - from < j ==> !occurs_at(rest, part@, j));
            return None;
        }
        i = i + 1;
    }
    assert forall|j: int| !occurs_at(rest, part@, j) by {
        if j >= i - from {
            assert(j + part@.len() > rest.len());
        }
    }
    None
}

/// Whether `part` stands somewhere in `s`.
pub fn contains_str(s: &str, part: &str) -> (r: bool)
    ensures
        r == occurs(s@, part@),
{
    let hay = chars_of(s);
    let needle = chars_of(part);
    assert(hay@.skip(0) == hay@);
    find_from(&hay, &needle, 0).is_some()
}

/// Whether a character is white space.
pub fn white(c: char) -> (r: bool)
    ensures
        r == is_white(c),
{
    ('\u{9}' <= c && c <= '\u{d}') || c == '\u{20}' || c == '\u{85}' || c == '\u{a0}' || c
        == '\u{1680}' || ('\u{2000}' <= c && c <= '\u{200a}') || c == '\u{2028}' || c == '\u{2029}'
        || c == '\u{202f}' || c == '\u{205f}' || c == '\u{3000}'
}

/// The bounds of the trimmed text of `s[from..to]`.
fn trim_range(s: &Vec<char>, from: usize, to: usize) -> (r: (usize, usize))
    requires
        from <= to <= s@.len(),
    ensures
        from <= r.0 <= r.1 <= to,
        s@.subrange(r.0 as int, r.1 as int) == trimmed(s@.subrange(from as int, to as int)),
{
    let ghost whole = s@.subrange(from as int, to as int);
    let mut a: usize = from;
    let mut b: usize = to;
    while a < b && white(s[a])
        invariant
            from <= a <= b <= to <= s@.len(),
            b == to,
            trimmed(s@.subrange(a as int, b as int)) == trimmed(whole),
        decreases b - a,
    {
        assert(s@.subrange(a as int, b as int).drop_first() == s@.subrange(a + 1, b as int));
        a = a + 1;
    }
    while a < b && white(s[b - 1])
        invariant
            from <= a <= b <= to <= s@.len(),
            a < b ==> !is_white(s@[a as int]),
            trimmed(s@.subrange(a as int, b as int)) == trimmed(whole),
        decreases b - a,
    {
        assert(s@.subrange(a as int, b as int).drop_last() == s@.subrange(a as int, b - 1));
        b = b - 1;
    }
    (a, b)
}

/// The trimmed text between the first `<tag>` and the first `</tag>` behind it.
pub fn extract_tag<'a>(text: &'a str, tag: &str) -> (r: Option<&'a str>)
    ensures
        match r {
            Some(t) => tag_text(text@, tag@) == Some(t@),
            None => tag_text(text@, tag@) is None,
        },
{
    let s = chars_of(text);
    let name = chars_of(tag);
    let mut opening: Vec<char> = Vec::new();
    opening.push('<');
    let mut closing: Vec<char> = Vec::new();
    closing.push('<');
    closing.push('/');
    let mut k: usize = 0;
    while k < name.len()
        invariant
            k <= name@.len(),
            opening@ == seq!['<'] + name@.take(k as int),
            closing@ == seq!['<', '/'] + name@.take(k as int),
        decreases name@.len() - k,
    {
        opening.push(name[k]);
        closing.push(name[k]);
        assert(name@.take(k + 1) == name@.take(k as int).push(name@[k as int]));
        k = k + 1;
    }
    opening.push('>');
    closing.push('>');
    proof {
        assert(name@.take(k as int) == name@);
        assert(opening@ =~= open_tag(tag@));
        assert(closing@ =~= close_tag(tag@));
        assert(s@.skip(0) == s@);
        assert(s@.len() == s.len());
    }
    match find_from(&s, &opening, 0) {
        None => None,
        Some(i) => {
            let start: usize = i + opening.len();
            let ghost rest = after_open_tag(text@, tag@);
            assert(rest == s@.skip(start as int));
            match find_from(&s, &closing, start) {
                None => None,
                Some(end) => {
                    assert(s@.subrange(start as int, end as int) =~= rest.take(end - start));
                    let (a, b) = trim_range(&s, start, end);
                    Some(text.substring_char(a, b))
                },
            }
        },
    }
}

/// `c` is one of the ten decimal digits.
pub open spec fn is_digit(c: char) -> bool {
    '0' <= c <= '9'
}

/// What a decimal digit counts, and 0 for any other character.
pub open spec fn digit_value(c: char) -> nat {
    if is_digit(c) {
        (c as nat - '0' as nat) as nat
    } else {
        0
    }
}

/// The number that a row of decimal digits denotes.
pub open spec fn digits_value(s: Seq<char>) -> nat
    decreases s.len(),
{
    if s.len() == 0 {
        0
    } else {
        digits_value(s.drop_last()) * 10 + digit_value(s.last())
    }
}

/// `s` without one leading plus sign.
pub open spec fn without_plus(s: Seq<char>) -> Seq<char> {
    if s.len() > 0 && s[0] == '+' {
        s.skip(1)
    } else {
        s
    }
}

/// The number that `s` denotes: decimal digits, at least one, behind an optional plus sign, and
/// no more than 64 bits hold.
pub open spec fn parsed_u64(s: Seq<char>) -> Option<u64> {
    let digits = without_plus(s);
    if digits.len() > 0 && (forall|i: int| 0 <= i < digits.len() ==> is_digit(#[trigger] digits[i]))
        && digits_value(digits) <= u64::MAX {
        Some(digits_value(digits) as u64)
    } else {
        None
    }
}

proof fn lemma_digits_grow(s: Seq<char>, k: int)
    requires
        0 <= k <= s.len(),
    ensures
        digits_value(s.take(k)) <= digits_value(s),
    decreases s.len(),
{
    if k < s.len() {
        assert(s.drop_last().take(k) == s.take(k));
        lemma_digits_grow(s.drop_last(), k);
    } else {
        assert(s.take(k) == s);
    }
}

/// The number that a text denotes.
pub fn parse_u64(s: &str) -> (r: Option<u64>)
    ensures
        r == parsed_u64(s@),
{
    let chars = chars_of(s);
    let start: usize = if chars.len() > 0 && chars[0] == '+' {
        1
    } else {
        0
    };
    let ghost digits = without_plus(s@);
    assert(s@.skip(0) == s@);
    if start == chars.len() {
        return None;
    }
    let mut value: u64 = 0;
    let mut i: usize = start;
    while i < chars.len()
        invariant
            start <= i <= chars@.len(),
            digits == chars@.skip(start as int),
            value == digits_value(digits.take(i - start)),
            forall|k: int| 0 <= k < i - start ==> is_digit(#[trigger] digits[k]),
            digits == without_plus(s@),
        decreases chars@.len() - i,
    {
        let c: char = chars[i];
        assert(c == digits[i - start]);
        if c < '0' || c > '9' {
            assert(!is_digit(digits[i - start]));
            assert(parsed_u64(s@) is None);
            return None;
        }
        let d: u64 = (c as u64) - ('0' as u64);
        proof {
            assert(digits.take(i - start + 1).drop_last() == digits.take(i - start));
            lemma_digits_grow(digits, i - start + 1);
        }
        if value > (u64::MAX - d) / 10 {
            assert(digits_value(digits) > u64::MAX);
            return None;
        }
        value = value * 10 + d;
        i = i + 1;
    }
    assert(digits.take(i - start) == digits);
    Some(value)
}

/// A decimal digit.
pub open spec fn digit_char(d: nat) -> char {
    ('0' as nat + d) as char
}

/// A number in decimal digits.
pub open spec fn decimal(n: nat) -> Seq<char>
    decreases n,
{
    if n < 10 {
        seq![digit_char(n)]
    } else {
        decimal(n / 10).push(digit_char(n % 10))
    }
}

fn digit_text(d: u64) -> (r: &'static str)
    requires
        d < 10,
    ensures
        r@ == seq![digit_char(d as nat)],
{
    proof {
        reveal_strlit("0");
        reveal_strlit("1");
        reveal_strlit("2");
        reveal_strlit("3");
        reveal_strlit("4");
        reveal_strlit("5");
        reveal_strlit("6");
        reveal_strlit("7");
        reveal_strlit("8");
        reveal_strlit("9");
    }
    if d == 0 {
        "0"
    } else if d == 1 {
        "1"
    } else if d == 2 {
        "2"
    } else if d == 3 {
        "3"
    } else if d == 4 {
        "4"
    } else if d == 5 {
        "5"
    } else if d == 6 {
        "6"
    } else if d == 7 {
        "7"
    } else if d == 8 {
        "8"
    } else {
        "9"
    }
}

/// Appends a number in decimal digits.
pub fn push_decimal(out: &mut String, n: u64)
    ensures
        final(out)@ == old(out)@ + decimal(n as nat),
    decreases n,
{
    if n >= 10 {
        push_decimal(out, n / 10);
    }
    out.append(digit_text(n % 10));
    assert(out@ =~= old(out)@ + decimal(n as nat));
}

/// `a` comes before `b`: where they first differ it has the smaller character, or it ends.
pub open spec fn text_less(a: Seq<char>, b: Seq<char>) -> bool {
    exists|k: int| differs_at(a, b, k)
}

/// `a` and `b` agree up to `k`, where `a` ends or has the smaller character.
pub open spec fn differs_at(a: Seq<char>, b: Seq<char>, k: int) -> bool {
    &&& 0 <= k <= a.len()
    &&& k < b.len()
    &&& a.take(k) == b.take(k)
    &&& k == a.len() || a[k] < b[k]
}

/// No text comes before itself.
pub proof fn lemma_text_less_not_self(a: Seq<char>)
    ensures
        !text_less(a, a),
{
}

/// The order of texts is transitive.
pub proof fn lemma_text_less_through(a: Seq<char>, b: Seq<char>, c: Seq<char>)
    requires
        text_less(a, b),
        text_less(b, c),
    ensures
        text_less(a, c),
{
    let j = choose|k: int| differs_at(a, b, k);
    let k = choose|k: int| differs_at(b, c, k);
    let m = if j <= k {
        j
    } else {
        k
    };
    assert(a.take(m) =~= a.take(j).take(m));
    assert(b.take(m) =~= b.take(j).take(m));
    assert(b.take(m) =~= b.take(k).take(m));
    assert(c.take(m) =~= c.take(k).take(m));
    if j < k {
        assert(b.take(k)[j] == c.take(k)[j]);
    } else if k < j {
        assert(a.take(j)[k] == b.take(j)[k]);
    }
    assert(differs_at(a, c, m));
}

/// Of two different texts one comes before the other.
pub proof fn lemma_text_less_total(a: Seq<char>, b: Seq<char>)
    requires
        a != b,
    ensures
        text_less(a, b) || text_less(b, a),
{
    assert(a.take(0) =~= b.take(0));
    lemma_text_less_from(a, b, 0);
}

proof fn lemma_text_less_from(a: Seq<char>, b: Seq<char>, k: int)
    requires
        a != b,
        0 <= k <= a.len(),
        k <= b.len(),
        a.take(k) == b.take(k),
    ensures
        text_less(a, b) || text_less(b, a),
    decreases a.len() - k,
{
    if k == a.len() && k == b.len() {
        assert(a.take(k) == a);
        assert(b.take(k) == b);
    } else if k == a.len() {
        assert(differs_at(a, b, k));
    } else if k == b.len() {
        assert(differs_at(b, a, k));
    } else if a[k] < b[k] {
        assert(differs_at(a, b, k));
    } else if b[k] < a[k] {
        assert(differs_at(b, a, k));
    } else {
        assert(a.take(k + 1) =~= a.take(k).push(a[k]));
        assert(b.take(k + 1) =~= b.take(k).push(b[k]));
        lemma_text_less_from(a, b, k + 1);
    }
}

/// Whether `a` comes before `b`.
pub fn str_less(a: &str, b: &str) -> (r: bool)
    ensures
        r == text_less(a@, b@),
{
    let mut x = a.chars();
    let mut y = b.chars();
    let ghost mut n: int = 0;
    assert(a@.skip(0) == a@);
    assert(b@.skip(0) == b@);
    loop
        invariant
            0 <= n <= a@.len(),
            n <= b@.len(),
            a@.take(n) == b@.take(n),
            x.remaining() == a@.skip(n),
            y.remaining() == b@.skip(n),
        decreases a@.len() - n,
    {
        let c = x.next();
        let d = y.next();
        match (c, d) {
            (None, None) => {
                proof {
                    assert(a@.take(n) == a@);
                    assert(b@.take(n) == b@);
                    lemma_text_less_not_self(a@);
                }
                return false;
            },
            (None, Some(_)) => {
                assert(differs_at(a@, b@, n));
                return true;
            },
            (Some(_), None) => {
                proof {
                    assert(differs_at(b@, a@, n));
                    if text_less(a@, b@) {
                        lemma_text_less_through(a@, b@, a@);
                        lemma_text_less_not_self(a@);
                    }
                }
                return false;
            },
            (Some(c), Some(d)) => {
                assert(c == a@[n] && d == b@[n]);
                if c < d {
                    assert(differs_at(a@, b@, n));
                    return true;
                }
                if d < c {
                    proof {
                        assert(differs_at(b@, a@, n));
                        if text_less(a@, b@) {
                            lemma_text_less_through(a@, b@, a@);
                            lemma_text_less_not_self(a@);
                        }
                    }
                    return false;
                }
                proof {
                    assert(a@.take(n + 1) == a@.take(n).push(c));
                    assert(b@.take(n + 1) == b@.take(n).push(c));
                    assert(a@.skip(n).drop_first() == a@.skip(n + 1));
                    assert(b@.skip(n).drop_first() == b@.skip(n + 1));
                    n = n + 1;
                }
            },
        }
    }
}

} // verus!
