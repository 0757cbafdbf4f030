//! Operations on text.
use vstd::prelude::*;

verus! {

/// Whether `s` starts with `prefix`.
pub open spec fn starts_with(s: Seq<char>, prefix: Seq<char>) -> bool {
    prefix.len() <= s.len() && s.take(prefix.len() as int) == prefix
}

/// What follows the last dot of `s`; all of `s` where it has none.
pub open spec fn after_last_dot(s: Seq<char>) -> Seq<char>
    decreases s.len(),
{
    if s.len() == 0 || s.last() == '.' {
        Seq::empty()
    } else {
        after_last_dot(s.drop_last()).push(s.last())
    }
}

/// Whether `a` stands before `b` where texts are ordered by code points, and
/// a text before its continuations.
pub open spec fn precedes(a: Seq<char>, b: Seq<char>) -> bool
    decreases a.len(),
{
    if b.len() == 0 {
        false
    } else if a.len() == 0 {
        true
    } else if a[0] == b[0] {
        precedes(a.drop_first(), b.drop_first())
    } else {
        (a[0] as int) < (b[0] as int)
    }
}

/// Whether `c` is a decimal digit.
pub open spec fn is_digit(c: char) -> bool {
    '0' as int <= c as int <= '9' as int
}

/// The number that a run of decimal digits stands for.
pub open spec fn decimal(digits: Seq<char>) -> nat
    decreases digits.len(),
{
    if digits.len() == 0 {
        0
    } else {
        decimal(digits.drop_last()) * 10 + (digits.last() as int - '0' as int) as nat
    }
}

/// The digits of a number that may start with a plus sign.
pub open spec fn unsigned(s: Seq<char>) -> Seq<char> {
    if s.len() > 0 && s[0] == '+' {
        s.skip(1)
    } else {
        s
    }
}

/// The number that `s` writes down: an optional plus sign and one or more
/// decimal digits, no larger than fits into 32 bits.
pub open spec fn parsed_u32(s: Seq<char>) -> Option<u32> {
    let digits = unsigned(s);
    if digits.len() > 0 && (forall|i: int| 0 <= i < digits.len() ==> is_digit(#[trigger] digits[i]))
        && decimal(digits) <= u32::MAX {
        Some(decimal(digits) as u32)
    } else {
        None
    }
}

/// The lower case form of a text.
pub uninterp spec fn lowercase(s: Seq<char>) -> Seq<char>;

/// Calls `str::to_lowercase` of the standard library. Taken on trust: the
/// result depends on the text alone. Which letters map to which is Unicode's
/// and is not stated.
#[verifier::external_body]
pub(crate) fn to_lowercase(s: &str) -> (lower: String)
    ensures
        lower@ == lowercase(s@),
{
    s.to_lowercase()
}

/// The characters of a text.
fn chars_of(s: &str) -> (chars: Vec<char>)
    ensures
        chars@ == s@,
{
    let mut chars: Vec<char> = Vec::new();
    for c in it: s.chars()
        invariant
            it.seq() == s@,
            chars@ == s@.take(it.index()),
    {
        chars.push(c);
        assert(s@.take(it.index() + 1) == s@.take(it.index()).push(c));
    }
    assert(s@.take(s@.len() as int) == s@);
    chars
}

/// Whether two texts are the same.
pub fn same(a: &str, b: &str) -> (r: bool)
    ensures
        r == (a@ == b@),
{
    a.to_owned() == b.to_owned()
}

/// What follows `prefix` in `s`, where `s` starts with it.
pub fn strip_prefix(s: &str, prefix: &str) -> (rest: Option<String>)
    ensures
        rest is Some <==> starts_with(s@, prefix@),
        rest matches Some(rest) ==> rest@ == s@.skip(prefix@.len() as int),
{
    let n: usize = prefix.unicode_len();
    let len: usize = s.unicode_len();
    if n > len || !same(s.substring_char(0, n), prefix) {
        return None;
    }
    Some(s.substring_char(n, len).to_owned())
}

/// What follows the last dot of `s`; all of `s` where it has none.
pub fn last_segment(s: &str) -> (segment: String)
    ensures
        segment@ == after_last_dot(s@),
{
    let chars = chars_of(s);
    let len: usize = chars.len();
    let mut start: usize = len;
    assert(s@.take(len as int) == s@);
    assert(s@.skip(len as int) =~= Seq::empty());
    assert(after_last_dot(s@) + Seq::<char>::empty() =~= after_last_dot(s@));
    while start > 0 && chars[start - 1] != '.'
        invariant
            chars@ == s@,
            start <= len == s@.len(),
            after_last_dot(s@) == after_last_dot(s@.take(start as int)) + s@.skip(start as int),
        decreases start,
    {
        proof {
            let head = s@.take(start as int);
            assert(head.drop_last() == s@.take(start - 1));
            assert(after_last_dot(s@.take(start - 1)).push(s@[start - 1]) + s@.skip(start as int)
                =~= after_last_dot(s@.take(start - 1)) + s@.skip(start - 1));
        }
        start -= 1;
    }
    s.substring_char(start, len).to_owned()
}

/// Whether `a` stands before `b`.
pub fn stands_before(a: &str, b: &str) -> (r: bool)
    ensures
        r == precedes(a@, b@),
{
    let x = chars_of(a);
    let y = chars_of(b);
    let mut i: usize = 0;
    assert(x@.skip(0) == x@);
    assert(y@.skip(0) == y@);
    while i < x.len() && i < y.len() && x[i] == y[i]
        invariant
            i <= x@.len(),
            i <= y@.len(),
            precedes(x@, y@) == precedes(x@.skip(i as int), y@.skip(i as int)),
        decreases x@.len() - i,
    {
        assert(x@.skip(i as int).drop_first() == x@.skip(i + 1));
        assert(y@.skip(i as int).drop_first() == y@.skip(i + 1));
        i += 1;
    }
    if i == y.len() {
        false
    } else if i == x.len() {
        true
    } else {
        x[i] < y[i]
    }
}

/// The number that `s` writes down, where it fits into 32 bits.
pub fn parse_u32(s: &str) -> (number: Option<u32>)
    ensures
        number == parsed_u32(s@),
{
    let chars = chars_of(s);
    let start: usize = if chars.len() > 0 && chars[0] == '+' { 1 } else { 0 };
    let ghost digits = unsigned(s@);
    if start == chars.len() {
        return None;
    }
    let mut value: u32 = 0;
    let mut i: usize = start;
    while i < chars.len()
        invariant
            chars@ == s@,
            start <= i <= s@.len(),
            digits == s@.skip(start as int),
            digits == unsigned(s@),
            forall|j: int| 0 <= j < i - start ==> is_digit(#[trigger] digits[j]),
            value == decimal(digits.take(i - start)),
        decreases s@.len() - i,
    {
        let c: char = chars[i];
        let ghost k = i - start;
        assert(c == digits[k]);
        if c < '0' || c > '9' {
            assert(!is_digit(digits[k]));
            return None;
        }
        assert(digits.take(k + 1).drop_last() == digits.take(k));
        let next: u64 = value as u64 * 10 + (c as u32 - 48) as u64;
        assert(next == decimal(digits.take(k + 1)));
        if next > 0xffff_ffff {
            proof {
                lemma_decimal_grows(digits, k + 1);
            }
            return None;
        }
        value = next as u32;
        i += 1;
    }
    assert(digits.take(digits.len() as int) == digits);
    Some(value)
}

/// A number is no smaller than the number its first digits stand for.
proof fn lemma_decimal_grows(digits: Seq<char>, n: int)
    requires
        0 <= n <= digits.len(),
    ensures
        decimal(digits.take(n)) <= decimal(digits),
    decreases digits.len() - n,
{
    if n == digits.len() {
        assert(digits.take(n) == digits);
    } else {
        lemma_decimal_grows(digits, n + 1);
        assert(digits.take(n + 1).drop_last() == digits.take(n));
    }
}

/// The order of texts is strict: no text stands before itself.
pub proof fn law_order_is_irreflexive(a: Seq<char>)
    ensures
        !precedes(a, a),
    decreases a.len(),
{
    if a.len() > 0 {
        law_order_is_irreflexive(a.drop_first());
    }
}

/// Of two different texts one stands before the other.
pub proof fn law_order_is_total(a: Seq<char>, b: Seq<char>)
    ensures
        a == b || precedes(a, b) || precedes(b, a),
    decreases a.len(),
{
    if a.len() > 0 && b.len() > 0 && a[0] == b[0] {
        law_order_is_total(a.drop_first(), b.drop_first());
        if a.drop_first() == b.drop_first() {
            assert(a =~= seq![a[0]] + a.drop_first());
            assert(b =~= seq![b[0]] + b.drop_first());
        }
    } else if a.len() == 0 && b.len() == 0 {
        assert(a =~= b);
    }
}

/// The order of texts is transitive.
pub proof fn law_order_is_transitive(a: Seq<char>, b: Seq<char>, c: Seq<char>)
    requires
        precedes(a, b),
        precedes(b, c),
    ensures
        precedes(a, c),
    decreases a.len(),
{
    if a.len() > 0 && a[0] == b[0] && b[0] == c[0] {
        law_order_is_transitive(a.drop_first(), b.drop_first(), c.drop_first());
    }
}

/// What `strip_prefix` gives is what must be put behind the prefix to get the
/// text back, and it gives something wherever there is such a rest.
pub proof fn law_stripped_prefix_can_be_put_back(s: &str, prefix: &str, rest: Option<String>)
    requires
        call_ensures(strip_prefix, (s, prefix), rest),
    ensures
        rest matches Some(rest) ==> s@ == prefix@ + rest@,
        forall|tail: Seq<char>|
            s@ == #[trigger] (prefix@ + tail) ==> rest is Some && rest->0@ == tail,
{
    if rest is Some {
        assert(s@ =~= s@.take(prefix@.len() as int) + s@.skip(prefix@.len() as int));
    }
    assert forall|tail: Seq<char>| s@ == #[trigger] (prefix@ + tail) implies rest is Some
        && rest->0@ == tail by {
        assert(s@.take(prefix@.len() as int) =~= prefix@);
        assert(s@.skip(prefix@.len() as int) =~= tail);
    }
}

/// What follows the last dot has no dot, ends the text, and is all of it or
/// stands behind a dot.
pub(crate) proof fn lemma_after_last_dot(s: Seq<char>)
    ensures
        ({
            let segment = after_last_dot(s);
            let start = s.len() - segment.len();
            &&& 0 <= start
            &&& segment == s.skip(start)
            &&& forall|i: int| 0 <= i < segment.len() ==> #[trigger] segment[i] != '.'
            &&& start > 0 ==> s[start - 1] == '.'
        }),
    decreases s.len(),
{
    if s.len() == 0 || s.last() == '.' {
        assert(s.skip(s.len() as int) =~= Seq::empty());
    } else {
        lemma_after_last_dot(s.drop_last());
        let shorter = after_last_dot(s.drop_last());
        let start = s.len() - after_last_dot(s).len();
        assert(start == s.drop_last().len() - shorter.len());
        assert(shorter.push(s.last()) =~= s.skip(start));
    }
}

/// The last segment of a text has no dot, ends the text, and is all of it or
/// stands behind a dot.
pub proof fn law_last_segment_stands_behind_the_last_dot(s: &str, segment: String)
    requires
        call_ensures(last_segment, (s,), segment),
    ensures
        ({
            let start = s@.len() - segment@.len();
            &&& 0 <= start
            &&& segment@ == s@.skip(start)
            &&& !segment@.contains('.')
            &&& start > 0 ==> s@[start - 1] == '.'
        }),
{
    lemma_after_last_dot(s@);
}

/// Whether `a` and `b` agree on their first `k` characters, and there `a` ends
/// or goes on with the smaller one.
spec fn differs_at(a: Seq<char>, b: Seq<char>, k: int) -> bool {
    &&& 0 <= k <= a.len()
    &&& k < b.len()
    &&& a.take(k) == b.take(k)
    &&& k == a.len() || (a[k] as int) < (b[k] as int)
}

proof fn lemma_precedes_by_first_difference(a: Seq<char>, b: Seq<char>)
    ensures
        precedes(a, b) <==> exists|k: int| #[trigger] differs_at(a, b, k),
    decreases a.len(),
{
    if b.len() > 0 && a.len() > 0 && a[0] == b[0] {
        let (x, y) = (a.drop_first(), b.drop_first());
        lemma_precedes_by_first_difference(x, y);
        if precedes(a, b) {
            let k = choose|k: int| #[trigger] differs_at(x, y, k);
            assert forall|i: int| 0 <= i < k + 1 implies a[i] == b[i] by {
                if i > 0 {
                    assert(x.take(k)[i - 1] == y.take(k)[i - 1]);
                }
            }
            assert(a.take(k + 1) =~= b.take(k + 1));
            assert(differs_at(a, b, k + 1));
        }
        if exists|k: int| #[trigger] differs_at(a, b, k) {
            let k = choose|k: int| #[trigger] differs_at(a, b, k);
            assert(k > 0);
            assert forall|i: int| 0 <= i < k - 1 implies x[i] == y[i] by {
                assert(a.take(k)[i + 1] == b.take(k)[i + 1]);
            }
            assert(x.take(k - 1) =~= y.take(k - 1));
            assert(differs_at(x, y, k - 1));
        }
    } else if b.len() > 0 {
        if precedes(a, b) {
            assert(a.take(0) =~= b.take(0));
            assert(differs_at(a, b, 0));
        }
        if exists|k: int| #[trigger] differs_at(a, b, k) {
            let k = choose|k: int| #[trigger] differs_at(a, b, k);
            if k > 0 {
                assert(a.take(k)[0] == b.take(k)[0]);
            }
        }
    }
}

/// One text stands before another if and only if, where the two first differ,
/// it ends or goes on with the smaller character.
pub proof fn law_first_difference_decides(a: &str, b: &str, r: bool)
    requires
        call_ensures(stands_before, (a, b), r),
    ensures
        r <==> exists|k: int|
            0 <= k <= a@.len() && k < b@.len() && #[trigger] a@.take(k) == b@.take(k) && (k
                == a@.len() || (a@[k] as int) < (b@[k] as int)),
{
    lemma_precedes_by_first_difference(a@, b@);
    if r {
        let k = choose|k: int| #[trigger] differs_at(a@, b@, k);
        assert(a@.take(k) == b@.take(k));
    }
    if exists|k: int|
        0 <= k <= a@.len() && k < b@.len() && #[trigger] a@.take(k) == b@.take(k) && (k
            == a@.len() || (a@[k] as int) < (b@[k] as int)) {
        let k = choose|k: int|
            0 <= k <= a@.len() && k < b@.len() && #[trigger] a@.take(k) == b@.take(k) && (k
                == a@.len() || (a@[k] as int) < (b@[k] as int));
        assert(differs_at(a@, b@, k));
    }
}

/// A single character stands for its digit.
proof fn lemma_single_digit(digits: Seq<char>, c: char)
    requires
        digits == seq![c],
    ensures
        digits.len() == 1,
        digits[0] == c,
        decimal(digits) == (c as int - '0' as int) as nat,
{
    assert(digits.drop_last() =~= Seq::empty());
    assert(decimal(digits.drop_last()) == 0);
}

/// Numbers are read digit by digit: with one more character a text is a number
/// if and only if the character is a digit, the text before was a number or
/// had no digit yet, and the result, ten times that number and the digit, fits.
pub proof fn law_numbers_are_read_digit_by_digit(
    s: &str,
    number: Option<u32>,
    c: char,
    longer: &str,
    result: Option<u32>,
)
    requires
        call_ensures(parse_u32, (s,), number),
        call_ensures(parse_u32, (longer,), result),
        longer@ == s@.push(c),
    ensures
        s@.len() == 0 || s@ == seq!['+'] ==> number is None,
        !('0' as int <= c as int <= '9' as int) ==> result is None,
        '0' as int <= c as int <= '9' as int ==> result == if s@.len() == 0 || s@ == seq!['+'] {
            Some((c as int - '0' as int) as u32)
        } else if number is Some && number->0 * 10 + (c as int - '0' as int) <= u32::MAX {
            Some((number->0 * 10 + (c as int - '0' as int)) as u32)
        } else {
            None
        },
{
    let (short, long) = (unsigned(s@), unsigned(longer@));
    if s@ == seq!['+'] {
        assert(short =~= Seq::empty());
        assert(long =~= seq![c]);
        lemma_single_digit(long, c);
    } else if s@.len() == 0 {
        assert(longer@ =~= seq![c]);
        if c == '+' {
            assert(long =~= Seq::empty());
        } else {
            assert(long =~= seq![c]);
            lemma_single_digit(long, c);
        }
    } else {
        if s@[0] == '+' {
            assert(short.len() > 0) by {
                if s@.len() == 1 {
                    assert(s@ =~= seq!['+']);
                }
            }
        }
        assert(longer@[0] == s@[0]);
        assert(long =~= short.push(c));
        assert(long.drop_last() =~= short);
        assert(long[short.len() as int] == c);
        assert(forall|i: int| 0 <= i < short.len() ==> #[trigger] long[i] == short[i]);
        assert(decimal(long) == decimal(short) * 10 + (c as int - '0' as int) as nat);
        if is_digit(c) && number is Some {
            assert forall|i: int| 0 <= i < long.len() implies is_digit(#[trigger] long[i]) by {
                if i < short.len() {
                    assert(is_digit(short[i]));
                }
            }
        }
        if number is None && result is Some {
            assert forall|i: int| 0 <= i < short.len() implies is_digit(#[trigger] short[i]) by {
                assert(long[i] == short[i]);
            }
        }
    }
}

} // verus!
