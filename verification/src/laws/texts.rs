//! Laws of texts, numbers and times.

use vstd::prelude::*;

use crate::clock::{duration_nanos, epoch_millis, millis};
use crate::daemon::nanos_or;
use crate::discover::{dump_event, dump_problem, dump_text, file_name, four_digits};
use crate::json::JsonView;
use crate::laws::shown::lemma_decimal;
use crate::text::{
    after_open_tag, close_tag, decimal, differs_at, digits_value, first, first_at, is_digit,
    is_white, lemma_first, lemma_first_is, lemma_text_less_not_self, lemma_text_less_through,
    occurs, occurs_at, open_tag, parsed_u64, tag_text, text_less, trimmed, without_plus,
};
use crate::wire::pretty_text;

verus! {

/// `part` stands in `s` at `i`, character by character.
pub open spec fn stands(s: Seq<char>, part: Seq<char>, i: int) -> bool {
    0 <= i && i + part.len() <= s.len() && forall|k: int|
        0 <= k < part.len() ==> s[i + k] == #[trigger] part[k]
}

proof fn lemma_stands(s: Seq<char>, part: Seq<char>, i: int)
    ensures
        stands(s, part, i) == occurs_at(s, part, i),
{
    if stands(s, part, i) {
        assert(s.subrange(i, i + part.len()) =~= part);
    }
    if occurs_at(s, part, i) {
        assert forall|k: int| 0 <= k < part.len() implies s[i + k] == #[trigger] part[k] by {
            assert(s.subrange(i, i + part.len())[k] == s[i + k]);
        }
    }
}

/// A text occurs in another exactly where the other is made of something, the text and something.
pub proof fn law_occurring_is_standing_somewhere(s: Seq<char>, part: Seq<char>, i: int)
    ensures
        stands(s, part, i) ==> occurs(s, part),
        occurs(s, part) ==> exists|k: int| stands(s, part, k),
{
    lemma_stands(s, part, i);
    if occurs(s, part) {
        let k = choose|k: int| occurs_at(s, part, k);
        lemma_stands(s, part, k);
    }
}

/// A character that counts as white space.
pub open spec fn blank(c: char) -> bool {
    let n = c as int;
    ||| n == 9 || n == 10 || n == 11 || n == 12 || n == 13 || n == 32
    ||| n == 0x85 || n == 0xa0 || n == 0x1680 || 0x2000 <= n <= 0x200a
    ||| n == 0x2028 || n == 0x2029 || n == 0x202f || n == 0x205f || n == 0x3000
}

/// Trimming takes away the white space at both ends and nothing else.
pub proof fn law_trimming_takes_the_ends(left: Seq<char>, core: Seq<char>, right: Seq<char>)
    requires
        forall|i: int| 0 <= i < left.len() ==> blank(#[trigger] left[i]),
        forall|i: int| 0 <= i < right.len() ==> blank(#[trigger] right[i]),
        core.len() > 0 ==> !blank(core[0]) && !blank(core[core.len() - 1]),
    ensures
        trimmed(left + core + right) == core,
    decreases left.len() + right.len(),
{
    let s = left + core + right;
    assert forall|c: char| blank(c) == is_white(c) by {}
    if left.len() > 0 {
        let rest = left.drop_first();
        assert forall|i: int| 0 <= i < rest.len() implies blank(#[trigger] rest[i]) by {
            assert(rest[i] == left[i + 1]);
        }
        law_trimming_takes_the_ends(rest, core, right);
        assert(s.first() == left[0]);
        assert(s.drop_first() =~= rest + core + right);
    } else if right.len() > 0 {
        if core.len() == 0 {
            let rest = right.drop_first();
            assert forall|i: int| 0 <= i < rest.len() implies blank(#[trigger] rest[i]) by {
                assert(rest[i] == right[i + 1]);
            }
            law_trimming_takes_the_ends(left, core, rest);
            assert(s.first() == right[0]);
            assert(s.drop_first() =~= left + core + rest);
        } else {
            let rest = right.drop_last();
            assert forall|i: int| 0 <= i < rest.len() implies blank(#[trigger] rest[i]) by {
                assert(rest[i] == right[i]);
            }
            law_trimming_takes_the_ends(left, core, rest);
            assert(s.first() == core[0]);
            assert(s.last() == right[right.len() - 1]);
            assert(s.drop_last() =~= left + core + rest);
        }
    } else {
        assert(s =~= core);
        if core.len() > 0 {
            assert(s.first() == core[0] && s.last() == core[core.len() - 1]);
        }
    }
}

/// What a tag holds is what stands, trimmed, between the first opening tag and the first closing
/// tag behind it.
pub proof fn law_tags_hold_what_is_between(
    before: Seq<char>,
    tag: Seq<char>,
    body: Seq<char>,
    behind: Seq<char>,
)
    requires
        ({
            let opening = seq!['<'] + tag + seq!['>'];
            let closing = seq!['<', '/'] + tag + seq!['>'];
            let s = before + opening + body + closing + behind;
            &&& forall|i: int| 0 <= i < before.len() ==> !stands(s, opening, i)
            &&& forall|i: int| 0 <= i < body.len() ==> !stands(body + closing + behind, closing, i)
        }),
    ensures
        tag_text(
            before + (seq!['<'] + tag + seq!['>']) + body + (seq!['<', '/'] + tag + seq!['>'])
                + behind,
            tag,
        ) == Some(trimmed(body)),
{
    let opening = seq!['<'] + tag + seq!['>'];
    let closing = seq!['<', '/'] + tag + seq!['>'];
    let s = before + opening + body + closing + behind;
    let n = before.len() as int;
    assert(stands(s, opening, n));
    lemma_stands(s, opening, n);
    assert forall|j: int| 0 <= j < n implies !occurs_at(s, opening, j) by {
        lemma_stands(s, opening, j);
    }
    assert(first_at(s, open_tag(tag), n));
    lemma_first_is(s, open_tag(tag), n);
    let rest = after_open_tag(s, tag);
    assert(rest =~= body + closing + behind);
    let m = body.len() as int;
    assert(stands(rest, closing, m));
    lemma_stands(rest, closing, m);
    assert forall|j: int| 0 <= j < m implies !occurs_at(rest, closing, j) by {
        lemma_stands(rest, closing, j);
    }
    assert(first_at(rest, close_tag(tag), m));
    lemma_first_is(rest, close_tag(tag), m);
    assert(rest.take(m) =~= body);
}

/// A tag that is never opened, or is not closed behind where it is first opened, holds nothing.
pub proof fn law_tags_that_do_not_close_hold_nothing(s: Seq<char>, tag: Seq<char>, n: int)
    requires
        ({
            let opening = seq!['<'] + tag + seq!['>'];
            let closing = seq!['<', '/'] + tag + seq!['>'];
            ||| forall|i: int| !stands(s, opening, i)
            ||| {
                &&& stands(s, opening, n)
                &&& forall|i: int| 0 <= i < n ==> !stands(s, opening, i)
                &&& forall|i: int| n + opening.len() <= i ==> !stands(s, closing, i)
            }
        }),
    ensures
        tag_text(s, tag) is None,
{
    let opening = seq!['<'] + tag + seq!['>'];
    let closing = seq!['<', '/'] + tag + seq!['>'];
    if occurs(s, opening) {
        lemma_first(s, opening);
        let f = first(s, opening);
        lemma_stands(s, opening, f);
        lemma_stands(s, opening, n);
        if f < n {
            assert(!stands(s, opening, f));
        } else if n < f {
            assert(!occurs_at(s, opening, n));
        }
        let rest = s.skip(f + opening.len());
        if occurs(rest, closing) {
            lemma_first(rest, closing);
            let g = first(rest, closing);
            lemma_stands(rest, closing, g);
            let at = f + opening.len() + g;
            assert forall|k: int| 0 <= k < closing.len() implies s[at + k] == #[trigger] closing[k] by {
                assert(rest[g + k] == s[at + k]);
            }
            assert(stands(s, closing, at));
        }
    }
}

/// What a decimal digit counts.
pub open spec fn worth(c: char) -> int {
    c as int - '0' as int
}

/// A single digit reads as what it counts; one more digit multiplies by ten and adds, as long as 64
/// bits hold the number; a plus sign before digits makes no difference; nothing else reads.
pub proof fn law_numbers_read_digit_by_digit(s: Seq<char>, c: char)
    ensures
        '0' <= c <= '9' ==> parsed_u64(seq![c]) == Some(worth(c) as u64),
        '0' <= c <= '9' ==> (parsed_u64(s) matches Some(n) ==> parsed_u64(s.push(c)) == (if n * 10
            + worth(c) <= u64::MAX {
            Some((n * 10 + worth(c)) as u64)
        } else {
            None
        })),
        parsed_u64(s) matches Some(n) ==> s.len() > 0 && (s[0] != '+' ==> parsed_u64(seq!['+'] + s)
            == Some(n)),
        parsed_u64(s) is Some ==> forall|i: int|
            0 <= i < s.len() ==> '0' <= #[trigger] s[i] <= '9' || i == 0 && s[i] == '+'
                && s.len() > 1,
        !('0' <= c <= '9') ==> parsed_u64(s.push(c)) is None,
        s.len() == 0 ==> parsed_u64(s) is None,
{
    reveal_with_fuel(digits_value, 2);
    let one = seq![c];
    assert(one.drop_last() =~= Seq::<char>::empty());
    if '0' <= c <= '9' {
        assert(without_plus(one) =~= one);
        assert(one[0] == c && one.last() == c);
    }
    let digits = without_plus(s);
    let more = without_plus(s.push(c));
    if s.len() > 0 {
        assert(more =~= digits.push(c));
        assert(more.drop_last() =~= digits);
        assert(more[more.len() - 1] == c);
        if parsed_u64(s) is Some {
            assert forall|i: int| 0 <= i < more.len() && '0' <= c <= '9' implies is_digit(
                #[trigger] more[i],
            ) by {
                if i < digits.len() {
                    assert(more[i] == digits[i]);
                }
            }
            assert forall|i: int| 0 <= i < s.len() implies '0' <= #[trigger] s[i] <= '9' || i == 0
                && s[i] == '+' && s.len() > 1 by {
                if s[0] == '+' {
                    if i > 0 {
                        assert(digits[i - 1] == s[i]);
                        assert(is_digit(digits[i - 1]));
                    }
                } else {
                    assert(is_digit(digits[i]));
                }
            }
            assert((seq!['+'] + s).skip(1) =~= s);
        }
        if !('0' <= c <= '9') {
            assert(!is_digit(more[more.len() - 1]));
        }
    } else {
        assert(s.push(c) =~= one);
        if !('0' <= c <= '9') {
            if c == '+' {
                assert(more.len() == 0);
            } else {
                assert(more =~= one);
                assert(!is_digit(more[0]));
            }
        }
    }
}

/// A number too large for 64 bits does not read, nor does it with more digits.
pub proof fn law_large_numbers_stay_large(s: Seq<char>, c: char)
    requires
        s.len() > 0,
        forall|i: int| 0 <= i < s.len() ==> '0' <= #[trigger] s[i] <= '9',
        parsed_u64(s) is None,
    ensures
        parsed_u64(s.push(c)) is None,
{
    assert(s[0] != '+');
    assert forall|i: int| 0 <= i < s.len() implies is_digit(#[trigger] s[i]) by {}
    assert(without_plus(s) == s);
    assert(s.push(c).drop_last() =~= s);
    assert(without_plus(s.push(c)) == s.push(c));
}

/// Up to nine a number is written as one digit; any other as its tenth part and one more digit.
pub proof fn law_numbers_are_written_digit_by_digit(n: nat, d: nat)
    requires
        d < 10,
    ensures
        decimal(d) == seq![('0' as nat + d) as char],
        n > 0 ==> decimal(n * 10 + d) == decimal(n).push(('0' as nat + d) as char),
{
    assert((n * 10 + d) / 10 == n && (n * 10 + d) % 10 == d);
}

/// A text comes before those that go on where it ends, and of two that differ the one with the
/// smaller character where they first do comes first; never both ways round.
pub proof fn law_texts_are_ordered_by_their_first_difference(
    p: Seq<char>,
    x: char,
    y: char,
    a: Seq<char>,
    b: Seq<char>,
)
    ensures
        text_less(p, p + seq![y] + b),
        !text_less(p + seq![y] + b, p),
        x < y ==> text_less(p + seq![x] + a, p + seq![y] + b),
        x < y ==> !text_less(p + seq![y] + b, p + seq![x] + a),
        !text_less(p, p),
{
    let l = p + seq![x] + a;
    let r = p + seq![y] + b;
    let n = p.len() as int;
    assert(p.take(n) =~= p && l.take(n) =~= p && r.take(n) =~= p);
    assert(l[n] == x && r[n] == y);
    assert(differs_at(p, r, n));
    lemma_text_less_not_self(p);
    if text_less(r, p) {
        lemma_text_less_through(p, r, p);
    }
    if x < y {
        assert(differs_at(l, r, n));
        lemma_text_less_not_self(l);
        if text_less(r, l) {
            lemma_text_less_through(l, r, l);
        }
    }
}

/// Milliseconds are nanoseconds by a million, with the rest dropped.
pub proof fn law_a_millisecond_is_a_million_nanoseconds(nanos: nat)
    requires
        nanos / 1_000_000 <= u64::MAX,
    ensures
        millis(nanos) * 1_000_000 <= nanos < (millis(nanos) + 1) * 1_000_000,
{
}

/// The time since the Unix epoch is in milliseconds, and 0 where it is unknown.
pub proof fn law_epoch_time_is_in_milliseconds(since: Option<std::time::Duration>)
    ensures
        since is None ==> epoch_millis(since) == 0,
        since matches Some(d) ==> (duration_nanos(d) / 1_000_000 <= u64::MAX ==> epoch_millis(since)
            * 1_000_000 <= duration_nanos(d) < (epoch_millis(since) + 1) * 1_000_000),
{
}

/// A variable that reads as a number gives so many seconds; any other leaves the default.
pub proof fn law_variables_give_seconds(var: Option<Seq<char>>, default_secs: nat)
    ensures
        var is None ==> nanos_or(var, default_secs) == default_secs * 1_000_000_000,
        var matches Some(s) ==> (parsed_u64(s) is None ==> nanos_or(var, default_secs)
            == default_secs * 1_000_000_000),
        var matches Some(s) ==> (parsed_u64(s) matches Some(secs) ==> nanos_or(var, default_secs)
            == secs * 1_000_000_000),
{
}

/// The number of a kept payload has zeros before it up to four digits.
pub proof fn law_kept_payloads_are_numbered_in_four_digits(n: nat)
    ensures
        four_digits(n).len() >= 4,
        four_digits(n).len() > 4 ==> four_digits(n) == decimal(n),
        four_digits(n).len() >= decimal(n).len(),
        four_digits(n).skip(four_digits(n).len() - decimal(n).len()) == decimal(n),
        forall|i: int|
            0 <= i < four_digits(n).len() - decimal(n).len() ==> #[trigger] four_digits(n)[i] == '0',
{
    reveal_strlit("000");
    reveal_strlit("00");
    reveal_strlit("0");
    reveal_with_fuel(decimal, 4);
    lemma_decimal(n);
    if n >= 1000 {
        lemma_decimal(n / 1000);
        assert(n / 10 / 10 / 10 == n / 1000);
        assert(decimal(n).len() >= 4);
    }
    assert(four_digits(n).skip(four_digits(n).len() - decimal(n).len()) =~= decimal(n));
}

/// The file of a kept payload is named by its event and its number, and ends as JSON files do; two
/// payloads with different numbers never share a file of one event.
pub proof fn law_kept_payloads_have_files_of_their_own(event: Seq<char>, n: nat, m: nat)
    ensures
        file_name(event, n) == event + "-"@ + four_digits(n) + ".json"@,
        n != m ==> file_name(event, n) != file_name(event, m),
{
    if file_name(event, n) == file_name(event, m) {
        let a = four_digits(n);
        let b = four_digits(m);
        let start = event.len() + "-"@.len();
        assert(file_name(event, n).len() == start + a.len() + ".json"@.len());
        assert(file_name(event, m).len() == start + b.len() + ".json"@.len());
        assert forall|i: int| 0 <= i < a.len() implies a[i] == b[i] by {
            assert(file_name(event, n)[start + i] == a[i]);
            assert(file_name(event, m)[start + i] == b[i]);
        }
        assert(a =~= b);
        lemma_four_digits_value(n);
        lemma_four_digits_value(m);
    }
}

proof fn lemma_four_digits_value(n: nat)
    ensures
        digits_value(four_digits(n)) == n,
{
    law_kept_payloads_are_numbered_in_four_digits(n);
    lemma_decimal(n);
    let k = four_digits(n).len() - decimal(n).len();
    lemma_zeros_count_nothing(four_digits(n), k);
}

proof fn lemma_zeros_count_nothing(s: Seq<char>, k: int)
    requires
        0 <= k <= s.len(),
        forall|i: int| 0 <= i < k ==> #[trigger] s[i] == '0',
    ensures
        digits_value(s) == digits_value(s.skip(k)),
    decreases s.len(),
{
    if k == s.len() {
        if s.len() > 0 {
            let rest = s.drop_last();
            assert forall|i: int| 0 <= i < k - 1 implies #[trigger] rest[i] == '0' by {
                assert(rest[i] == s[i]);
            }
            lemma_zeros_count_nothing(rest, k - 1);
            assert(s[s.len() - 1] == '0');
            assert(rest.skip(k - 1) =~= s.skip(k));
        }
        assert(s.skip(k) =~= Seq::<char>::empty());
    } else {
        let rest = s.drop_last();
        assert forall|i: int| 0 <= i < k implies #[trigger] rest[i] == '0' by {
            assert(rest[i] == s[i]);
        }
        lemma_zeros_count_nothing(rest, k);
        assert(s.skip(k).drop_last() =~= rest.skip(k));
        assert(s.skip(k).last() == s.last());
    }
}

/// A payload is kept under the event that it names, as its pretty text; one that names none is
/// unknown, and one that is no JSON is invalid and kept as it came, with the reason.
pub proof fn law_payloads_are_kept(read: Result<JsonView, Seq<char>>, raw: Seq<char>)
    ensures
        read matches Ok(v) ==> ({
            &&& v.at("hook_event_name"@) is Str ==> dump_event(read) == v.at("hook_event_name"@)->Str_0
            &&& !(v.at("hook_event_name"@) is Str) ==> dump_event(read) == "unknown"@
            &&& dump_text(read, raw) == pretty_text(v)
            &&& dump_problem(read) is None
        }),
        read matches Err(e) ==> dump_event(read) == "invalid"@ && dump_text(read, raw) == raw
            && dump_problem(read) == Some(e),
{
}

} // verus!
