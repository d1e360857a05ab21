//! The text a location is written in: cutting it at a separator, taking
//! prefixes and suffixes off it, and the decimal numbers inside it.

use vstd::prelude::*;
use vstd::string::*;

verus! {

/// `part` stands in `s` at position `i`.
pub open spec fn occurs_at(s: Seq<char>, part: Seq<char>, i: int) -> bool {
    &&& 0 <= i
    &&& i + part.len() <= s.len()
    &&& s.subrange(i, i + part.len()) == part
}

/// `part` stands somewhere in `s`.
pub open spec fn occurs(s: Seq<char>, part: Seq<char>) -> bool {
    exists|i: int| occurs_at(s, part, i)
}

/// `i` is the first position at which `part` stands in `s`.
pub open spec fn first_at(s: Seq<char>, part: Seq<char>, i: int) -> bool {
    &&& occurs_at(s, part, i)
    &&& forall|j: int| 0 <= j < i ==> !occurs_at(s, part, j)
}

/// What stands before and after the first `part` in `s`; `None` where `s`
/// does not hold it.
pub open spec fn cut(s: Seq<char>, part: Seq<char>) -> Option<(Seq<char>, Seq<char>)> {
    if occurs(s, part) {
        let i = choose|i: int| first_at(s, part, i);
        Some((s.subrange(0, i), s.subrange(i + part.len(), s.len() as int)))
    } else {
        None
    }
}

/// `s` without the run of `c` it ends in.
pub open spec fn trimmed(s: Seq<char>, c: char) -> Seq<char>
    decreases s.len(),
{
    if s.len() > 0 && s.last() == c {
        trimmed(s.drop_last(), c)
    } else {
        s
    }
}

/// `s` without `prefix` where it starts with it, `s` where it does not.
pub open spec fn without_prefix(s: Seq<char>, prefix: Seq<char>) -> Seq<char> {
    if occurs_at(s, prefix, 0) {
        s.subrange(prefix.len() as int, s.len() as int)
    } else {
        s
    }
}

/// `s` without `suffix` where it ends in it, `None` where it does not.
pub open spec fn without_suffix(s: Seq<char>, suffix: Seq<char>) -> Option<Seq<char>> {
    if occurs_at(s, suffix, s.len() - suffix.len()) {
        Some(s.subrange(0, s.len() - suffix.len()))
    } else {
        None
    }
}

/// What stands behind the last `c` in `s`, all of `s` where it holds none.
pub open spec fn after_last(s: Seq<char>, c: char) -> Seq<char>
    decreases s.len(),
{
    if s.len() == 0 || s.last() == c {
        Seq::empty()
    } else {
        after_last(s.drop_last(), c).push(s.last())
    }
}

pub open spec fn is_digit(c: char) -> bool {
    '0' <= c && c <= '9'
}

/// The digit that stands for `d`.
pub open spec fn digit(d: nat) -> char {
    ('0' as nat + d) as char
}

/// `n` in decimal, without leading zeros.
pub open spec fn decimal(n: nat) -> Seq<char>
    decreases n,
{
    if n < 10 {
        seq![digit(n)]
    } else {
        decimal(n / 10).push(digit(n % 10))
    }
}

/// Every character of `s` is a digit.
pub open spec fn all_digits(s: Seq<char>) -> bool {
    forall|i: int| 0 <= i < s.len() ==> is_digit(#[trigger] s[i])
}

/// The number that a run of digits stands for.
pub open spec fn value(s: Seq<char>) -> nat
    decreases s.len(),
{
    if s.len() == 0 {
        0
    } else {
        value(s.drop_last()) * 10 + (s.last() as nat - '0' as nat) as nat
    }
}

/// The digits of `s`, behind one leading `+` where there is one.
pub open spec fn unsigned(s: Seq<char>) -> Seq<char> {
    if s.len() > 0 && s[0] == '+' {
        s.subrange(1, s.len() as int)
    } else {
        s
    }
}

/// The number that `s` writes: at least one digit and nothing else, but for
/// one leading `+`, and no more than `max`.
pub open spec fn parsed(s: Seq<char>, max: nat) -> Option<nat> {
    let digits = unsigned(s);
    if digits.len() > 0 && all_digits(digits) && value(digits) <= max {
        Some(value(digits))
    } else {
        None
    }
}

/// The characters of `s`.
pub fn characters(s: &str) -> (chars: Vec<char>)
    ensures
        chars@ == s@,
{
    let mut chars: Vec<char> = Vec::new();
    for c in it: s.chars()
        invariant
            chars@ == it.seq().take(it.index() as int),
            it.seq() == s@,
    {
        chars.push(c);
        assert(it.seq().take(it.index() + 1) == it.seq().take(it.index() as int).push(c));
    }
    assert(s@.take(s@.len() as int) == s@);
    chars
}

/// `part` stands in `chars` at `at`.
fn stands_at(chars: &Vec<char>, part: &Vec<char>, at: usize) -> (yes: bool)
    ensures
        yes == occurs_at(chars@, part@, at as int),
{
    if at > chars.len() || part.len() > chars.len() - at {
        return false;
    }
    let mut i: usize = 0;
    while i < part.len()
        invariant
            i <= part.len(),
            at + part.len() <= chars.len(),
            forall|k: int| 0 <= k < i ==> chars@[at + k] == part@[k],
        decreases part.len() - i,
    {
        if chars[at + i] != part[i] {
            assert(chars@.subrange(at as int, at + part.len())[i as int] != part@[i as int]);
            return false;
        }
        i = i + 1;
    }
    assert(chars@.subrange(at as int, at + part.len()) =~= part@);
    true
}

/// The two texts are the same.
pub fn same(a: &str, b: &str) -> (yes: bool)
    ensures
        yes == (a@ == b@),
{
    let left = characters(a);
    let right = characters(b);
    if left.len() != right.len() {
        return false;
    }
    let yes = stands_at(&left, &right, 0);
    assert(left@.subrange(0, left@.len() as int) =~= left@);
    yes
}

/// Cuts `s` at the first `part` it holds.
pub fn split_once<'a>(s: &'a str, part: &str) -> (halves: Option<(&'a str, &'a str)>)
    ensures
        match halves {
            Some((before, after)) => cut(s@, part@) == Some((before@, after@)),
            None => cut(s@, part@) is None,
        },
{
    let chars = characters(s);
    let sought = characters(part);
    if sought.len() > chars.len() {
        assert(!occurs(s@, part@));
        return None;
    }
    let last: usize = chars.len() - sought.len();
    let mut i: usize = 0;
    while !stands_at(&chars, &sought, i)
        invariant
            chars@ == s@,
            sought@ == part@,
            last == chars.len() - sought.len(),
            i <= last,
            forall|j: int| 0 <= j < i ==> !occurs_at(s@, part@, j),
        decreases last - i,
    {
        if i == last {
            assert(!occurs(s@, part@));
            return None;
        }
        i = i + 1;
    }
    proof {
        lemma_cut_at(s@, part@, i as int);
    }
    Some((s.substring_char(0, i), s.substring_char(i + sought.len(), chars.len())))
}

/// Where `part` first stands in `s` at `i`, that is where `s` is cut.
pub proof fn lemma_cut_at(s: Seq<char>, part: Seq<char>, i: int)
    requires
        first_at(s, part, i),
    ensures
        cut(s, part) == Some((s.subrange(0, i), s.subrange(i + part.len(), s.len() as int))),
{
    let k = choose|k: int| first_at(s, part, k);
    assert(k == i);
}

/// What is cut is the text before the separator and the text behind it,
/// and the separator does not stand any earlier.
pub proof fn lemma_cut_parts(s: Seq<char>, part: Seq<char>)
    ensures
        match cut(s, part) {
            Some((before, after)) => {
                &&& s == before + part + after
                &&& first_at(s, part, before.len() as int)
            },
            None => !occurs(s, part),
        },
{
    if occurs(s, part) {
        let k = choose|k: int| occurs_at(s, part, k);
        lemma_first_exists(s, part, k);
        let i = choose|i: int| first_at(s, part, i);
        let (before, after) = cut(s, part)->0;
        assert(s.subrange(i, i + part.len()) == part);
        assert(s =~= before + part + after) by {
            assert forall|j: int| i <= j < i + part.len() implies s[j] == part[j - i] by {
                assert(s.subrange(i, i + part.len())[j - i] == s[j]);
            }
        }
    }
}

/// A text that holds `part` holds a first one.
proof fn lemma_first_exists(s: Seq<char>, part: Seq<char>, k: int)
    requires
        occurs_at(s, part, k),
    ensures
        exists|i: int| first_at(s, part, i),
    decreases k,
{
    if exists|j: int| 0 <= j < k && occurs_at(s, part, j) {
        let j = choose|j: int| 0 <= j < k && occurs_at(s, part, j);
        lemma_first_exists(s, part, j);
    } else {
        assert(first_at(s, part, k));
    }
}

/// `s` without the run of `c` it ends in.
pub fn trim_end<'a>(s: &'a str, c: char) -> (rest: &'a str)
    ensures
        rest@ == trimmed(s@, c),
{
    let chars = characters(s);
    let mut end: usize = chars.len();
    assert(s@.take(end as int) =~= s@);
    while end > 0 && chars[end - 1] == c
        invariant
            chars@ == s@,
            end <= chars.len(),
            trimmed(s@.take(end as int), c) == trimmed(s@, c),
        decreases end,
    {
        assert(s@.take(end as int).drop_last() =~= s@.take(end - 1));
        end = end - 1;
    }
    assert(s@.take(end as int) =~= s@.subrange(0, end as int));
    s.substring_char(0, end)
}

/// `s` without `prefix`, where it starts with it.
pub fn strip_prefix<'a>(s: &'a str, prefix: &str) -> (rest: &'a str)
    ensures
        rest@ == without_prefix(s@, prefix@),
{
    let chars = characters(s);
    let sought = characters(prefix);
    if stands_at(&chars, &sought, 0) {
        s.substring_char(sought.len(), chars.len())
    } else {
        s
    }
}

/// `s` without `suffix`, `None` where it does not end in it.
pub fn strip_suffix<'a>(s: &'a str, suffix: &str) -> (rest: Option<&'a str>)
    ensures
        match rest {
            Some(rest) => without_suffix(s@, suffix@) == Some(rest@),
            None => without_suffix(s@, suffix@) is None,
        },
{
    let chars = characters(s);
    let sought = characters(suffix);
    if sought.len() > chars.len() {
        return None;
    }
    let at: usize = chars.len() - sought.len();
    if stands_at(&chars, &sought, at) {
        Some(s.substring_char(0, at))
    } else {
        None
    }
}

/// What stands behind the last `c` in `s`.
pub fn tail<'a>(s: &'a str, c: char) -> (rest: &'a str)
    ensures
        rest@ == after_last(s@, c),
{
    let chars = characters(s);
    let mut start: usize = chars.len();
    assert(s@.take(start as int) =~= s@);
    assert(s@.skip(start as int) =~= Seq::empty());
    assert(after_last(s@, c) =~= after_last(s@, c) + s@.skip(start as int));
    while start > 0 && chars[start - 1] != c
        invariant
            chars@ == s@,
            start <= chars.len(),
            after_last(s@, c) == after_last(s@.take(start as int), c) + s@.skip(start as int),
        decreases start,
    {
        assert(s@.take(start as int).drop_last() =~= s@.take(start - 1));
        assert(after_last(s@, c) =~= after_last(s@.take(start - 1), c) + s@.skip(start - 1));
        start = start - 1;
    }
    assert(after_last(s@.take(start as int), c) =~= Seq::empty());
    assert(after_last(s@, c) =~= s@.subrange(start as int, s@.len() as int));
    s.substring_char(start, chars.len())
}

/// The digit that stands for `d`, as text.
fn numeral(d: u64) -> (s: &'static str)
    requires
        d < 10,
    ensures
        s@ == seq![digit(d as nat)],
{
    proof {
        reveal_strlit("0");
        reveal_strlit("1");
        reveal_strlit("2");
        reveal_strlit("3");
        reveal_strlit("4");
        reveal_strlit("5");
        reveal_strlit("6");
        reveal_strlit("7");
        reveal_strlit("8");
        reveal_strlit("9");
    }
    let s = match d {
        0 => "0",
        1 => "1",
        2 => "2",
        3 => "3",
        4 => "4",
        5 => "5",
        6 => "6",
        7 => "7",
        8 => "8",
        _ => "9",
    };
    assert(s@ =~= seq![digit(d as nat)]);
    s
}

/// `n` in decimal.
pub fn render(n: u64) -> (s: String)
    ensures
        s@ == decimal(n as nat),
    decreases n,
{
    if n < 10 {
        String::from_str(numeral(n))
    } else {
        let mut s = render(n / 10);
        s.append(numeral(n % 10));
        assert(s@ =~= decimal((n / 10) as nat).push(digit((n % 10) as nat)));
        s
    }
}

/// The number that `s` writes, `None` where it writes none or one over
/// `max`.
pub fn parse(s: &str, max: u64) -> (n: Option<u64>)
    ensures
        match n {
            Some(n) => parsed(s@, max as nat) == Some(n as nat),
            None => parsed(s@, max as nat) is None,
        },
{
    let chars = characters(s);
    let start: usize = if chars.len() > 0 && chars[0] == '+' {
        1
    } else {
        0
    };
    let ghost digits = unsigned(s@);
    assert(digits =~= s@.subrange(start as int, s@.len() as int));
    if start == chars.len() {
        return None;
    }
    let mut n: u64 = 0;
    let mut i: usize = start;
    while i < chars.len()
        invariant
            chars@ == s@,
            digits == s@.subrange(start as int, s@.len() as int),
            digits == unsigned(s@),
            start <= i <= chars.len(),
            n == value(digits.take(i - start)),
            n <= max,
            all_digits(digits.take(i - start)),
        decreases chars.len() - i,
    {
        let c: char = chars[i];
        let ghost at: int = i - start;
        assert(digits[at] == c);
        if c < '0' || c > '9' {
            assert(!is_digit(digits[at]));
            return None;
        }
        let d: u64 = c as u64 - '0' as u64;
        assert(digits.take(at + 1).drop_last() =~= digits.take(at));
        assert(value(digits.take(at + 1)) == n * 10 + d);
        if n > max / 10 || d > max - n * 10 {
            proof {
                assert(value(digits.take(at + 1)) > max);
                lemma_value_grows(digits, at + 1);
            }
            return None;
        }
        n = n * 10 + d;
        assert forall|k: int| 0 <= k < at + 1 implies is_digit(#[trigger] digits.take(at + 1)[k]) by {
            if k < at {
                assert(digits.take(at)[k] == digits.take(at + 1)[k]);
            }
        }
        i = i + 1;
    }
    assert(digits.take(digits.len() as int) =~= digits);
    Some(n)
}

/// A run of digits stands for no less than a run that it starts with.
proof fn lemma_value_grows(s: Seq<char>, n: int)
    requires
        0 <= n <= s.len(),
    ensures
        value(s.take(n)) <= value(s),
    decreases s.len() - n,
{
    if n == s.len() {
        assert(s.take(n) =~= s);
    } else {
        assert(s.take(n + 1).drop_last() =~= s.take(n));
        lemma_value_grows(s, n + 1);
    }
}

/// The decimal of a number is a run of digits that stands for it.
pub proof fn lemma_decimal(n: nat)
    ensures
        decimal(n).len() > 0,
        all_digits(decimal(n)),
        value(decimal(n)) == n,
    decreases n,
{
    if n < 10 {
        assert(decimal(n).drop_last() =~= Seq::empty());
        assert(value(Seq::<char>::empty()) == 0);
        assert(decimal(n).last() == digit(n));
    } else {
        lemma_decimal(n / 10);
        assert(decimal(n).drop_last() =~= decimal(n / 10));
        assert forall|i: int| 0 <= i < decimal(n).len() implies is_digit(#[trigger] decimal(n)[i]) by {
            if i < decimal(n).len() - 1 {
                assert(decimal(n)[i] == decimal(n / 10)[i]);
            }
        }
    }
}

/// Reading gives back the number that was written, up to the largest that
/// may be read.
pub proof fn law_parsing_undoes_rendering(n: nat, max: nat)
    requires
        n <= max,
    ensures
        parsed(decimal(n), max) == Some(n),
{
    lemma_decimal(n);
    assert(is_digit(decimal(n)[0]));
}

/// Behind the last `c` stands what was put behind it.
pub proof fn lemma_after_last(s: Seq<char>, c: char, t: Seq<char>)
    requires
        forall|i: int| 0 <= i < t.len() ==> t[i] != c,
    ensures
        after_last(s.push(c) + t, c) == t,
    decreases t.len(),
{
    let whole = s.push(c) + t;
    if t.len() == 0 {
        assert(whole =~= s.push(c));
    } else {
        assert(whole.drop_last() =~= s.push(c) + t.drop_last());
        lemma_after_last(s, c, t.drop_last());
        assert(t.drop_last().push(t.last()) =~= t);
    }
}

/// A text is cut into what joins up to it again around the separator, and no
/// earlier place in it reads as the separator; where it is not cut, no place
/// in it does.
pub proof fn law_a_text_is_cut_at_the_first_separator(s: Seq<char>, part: Seq<char>)
    ensures
        match cut(s, part) {
            Some((before, after)) => {
                &&& s == before + part + after
                &&& forall|j: int|
                    0 <= j < before.len() ==> #[trigger] s.subrange(j, j + part.len()) != part
            },
            None => forall|j: int|
                0 <= j <= s.len() - part.len() ==> #[trigger] s.subrange(j, j + part.len())
                    != part,
        },
        occurs(s, part) <==> exists|before: Seq<char>, after: Seq<char>|
            s == #[trigger] (before + part + after),
{
    lemma_cut_parts(s, part);
    match cut(s, part) {
        Some((before, after)) => {
            assert forall|j: int| 0 <= j < before.len() implies #[trigger] s.subrange(
                j,
                j + part.len(),
            ) != part by {
                assert(!occurs_at(s, part, j));
            }
            assert(s == before + part + after);
        },
        None => {
            assert forall|j: int| 0 <= j <= s.len() - part.len() implies #[trigger] s.subrange(
                j,
                j + part.len(),
            ) != part by {
                assert(!occurs_at(s, part, j));
            }
        },
    }
    if exists|before: Seq<char>, after: Seq<char>| s == #[trigger] (before + part + after) {
        let (before, after) = choose|before: Seq<char>, after: Seq<char>|
            s == #[trigger] (before + part + after);
        let i = before.len() as int;
        assert(s.subrange(i, i + part.len()) =~= part);
        assert(occurs_at(s, part, i));
    }
}

/// Trimming takes off the whole run of `c` at the end, and nothing else.
pub proof fn law_trimming_takes_off_the_run_at_the_end(s: Seq<char>, c: char)
    ensures
        trimmed(s, c).len() <= s.len(),
        trimmed(s, c) == s.take(trimmed(s, c).len() as int),
        forall|i: int| trimmed(s, c).len() <= i < s.len() ==> s[i] == c,
        trimmed(s, c).len() > 0 ==> trimmed(s, c).last() != c,
    decreases s.len(),
{
    if s.len() > 0 && s.last() == c {
        law_trimming_takes_off_the_run_at_the_end(s.drop_last(), c);
        let kept = trimmed(s, c).len() as int;
        assert(s.drop_last().take(kept) =~= s.take(kept));
        assert forall|i: int| kept <= i < s.len() implies s[i] == c by {
            if i < s.len() - 1 {
                assert(s.drop_last()[i] == s[i]);
            }
        }
    } else {
        assert(s.take(s.len() as int) =~= s);
    }
}

/// A prefix is taken off once where it stands, and a text that does not
/// start with it is left as it is.
pub proof fn law_a_prefix_is_taken_off_once(s: Seq<char>, prefix: Seq<char>, rest: Seq<char>)
    ensures
        without_prefix(prefix + rest, prefix) == rest,
        (forall|r: Seq<char>| s != #[trigger] (prefix + r)) ==> without_prefix(s, prefix) == s,
{
    let whole = prefix + rest;
    assert(whole.subrange(0, prefix.len() as int) =~= prefix);
    assert(whole.subrange(prefix.len() as int, whole.len() as int) =~= rest);
    if occurs_at(s, prefix, 0) {
        let r = s.subrange(prefix.len() as int, s.len() as int);
        assert(s =~= prefix + r);
    }
}

/// A suffix is taken off once where it stands, and a text that does not end
/// in it is none.
pub proof fn law_a_suffix_is_taken_off_once(s: Seq<char>, suffix: Seq<char>, rest: Seq<char>)
    ensures
        without_suffix(rest + suffix, suffix) == Some(rest),
        (forall|r: Seq<char>| s != #[trigger] (r + suffix)) ==> without_suffix(s, suffix) is None,
{
    let whole = rest + suffix;
    assert(whole.subrange(rest.len() as int, whole.len() as int) =~= suffix);
    assert(whole.subrange(0, rest.len() as int) =~= rest);
    if occurs_at(s, suffix, s.len() - suffix.len()) {
        let r = s.subrange(0, s.len() - suffix.len());
        assert(s =~= r + suffix);
    }
}

/// Behind the last `c` stands what holds no `c`: all of the text where it
/// holds none.
pub proof fn law_a_tail_stands_behind_the_last(s: Seq<char>, c: char)
    ensures
        !after_last(s, c).contains(c),
        if s.contains(c) {
            exists|head: Seq<char>| s == #[trigger] head.push(c) + after_last(s, c)
        } else {
            after_last(s, c) == s
        },
    decreases s.len(),
{
    if s.len() == 0 {
        assert(after_last(s, c) =~= s);
    } else if s.last() == c {
        assert(s =~= s.drop_last().push(c) + after_last(s, c));
        assert(s.contains(s[s.len() - 1]));
    } else {
        let front = s.drop_last();
        law_a_tail_stands_behind_the_last(front, c);
        let tail = after_last(s, c);
        assert forall|i: int| 0 <= i < tail.len() implies tail[i] != c by {
            if i < tail.len() - 1 {
                assert(after_last(front, c)[i] == tail[i]);
                assert(after_last(front, c).contains(tail[i]));
            }
        }
        if s.contains(c) {
            let k = s.index_of(c);
            assert(front[k] == c);
            assert(front.contains(c));
            let head = choose|head: Seq<char>| front == #[trigger] head.push(c) + after_last(
                front,
                c,
            );
            let behind = after_last(front, c);
            assert(front == head.push(c) + behind);
            assert(s =~= front.push(s.last()));
            assert(s =~= head.push(c) + behind.push(s.last()));
        } else {
            assert forall|i: int| 0 <= i < front.len() implies front[i] != c by {
                assert(s.contains(s[i]));
            }
            assert(tail =~= s);
        }
    }
}

/// A number under ten is written as one digit, counted from `0`; any other
/// is the number of its tens, and behind it the digit of what is left.
pub proof fn law_numbers_are_written_in_tens(tens: nat, ones: nat)
    requires
        ones < 10,
    ensures
        decimal(ones).len() == 1,
        decimal(ones)[0] as nat == '0' as nat + ones,
        tens > 0 ==> decimal(tens * 10 + ones) == decimal(tens) + decimal(ones),
        decimal(tens).len() > 1 ==> decimal(tens)[0] != '0',
    decreases tens,
{
    if tens > 0 {
        assert((tens * 10 + ones) / 10 == tens);
        assert((tens * 10 + ones) % 10 == ones);
        assert(decimal(tens * 10 + ones) =~= decimal(tens) + decimal(ones));
    }
    if tens >= 10 {
        law_numbers_are_written_in_tens(tens / 10, tens % 10);
        assert(decimal(tens)[0] == decimal(tens / 10)[0]) by {
            lemma_decimal(tens / 10);
        }
        if tens / 10 < 10 {
            assert(decimal(tens / 10)[0] == digit(tens / 10));
        } else {
            lemma_decimal(tens / 10 / 10);
            assert(decimal(tens / 10).len() > 1);
        }
    }
}

/// Two numbers that are written alike are the same number.
pub proof fn law_no_two_numbers_are_written_alike(a: nat, b: nat)
    requires
        decimal(a) == decimal(b),
    ensures
        a == b,
{
    lemma_decimal(a);
    lemma_decimal(b);
}

/// Reading takes digits alone: any other character, but for a `+` in front
/// of at least one digit, makes a text no number, and so does its being
/// empty.
pub proof fn law_only_digits_are_read(s: Seq<char>, max: nat, i: int)
    ensures
        parsed(Seq::empty(), max) is None,
        parsed(seq!['+'], max) is None,
        0 <= i < s.len() && !('0' <= s[i] && s[i] <= '9') && !(i == 0 && s[0] == '+') ==> parsed(
            s,
            max,
        ) is None,
{
    assert(unsigned(seq!['+']) =~= Seq::empty());
    if 0 <= i < s.len() && !('0' <= s[i] && s[i] <= '9') && !(i == 0 && s[0] == '+') {
        let digits = unsigned(s);
        let k = if s[0] == '+' {
            i - 1
        } else {
            i
        };
        assert(digits[k] == s[i]);
        assert(!is_digit(digits[k]));
    }
}

/// Reading a digit behind others is ten times what they stand for and the
/// digit; what comes out is never over the most that may be read, and what
/// does not come out of digits is over it. A `+` in front changes nothing.
pub proof fn law_digits_are_read_in_tens(digits: Seq<char>, c: char, max: nat)
    requires
        digits.len() > 0,
        forall|i: int| 0 <= i < digits.len() ==> '0' <= #[trigger] digits[i] && digits[i] <= '9',
        '0' <= c && c <= '9',
    ensures
        parsed(seq![c], max) == (if c as nat - '0' as nat <= max {
            Some((c as nat - '0' as nat) as nat)
        } else {
            None
        }),
        parsed(digits.push(c), max) == (match parsed(digits, max) {
            Some(n) => if n * 10 + (c as nat - '0' as nat) <= max {
                Some((n * 10 + (c as nat - '0' as nat)) as nat)
            } else {
                None
            },
            None => None,
        }),
        parsed(seq!['+'] + digits, max) == parsed(digits, max),
{
    let one = seq![c];
    assert(one.drop_last() =~= Seq::empty());
    assert(value(Seq::<char>::empty()) == 0);
    assert(one.last() == c);
    assert(value(one) == c as nat - '0' as nat);
    assert(one[0] == c);
    assert(unsigned(one) == one);
    assert(all_digits(one));
    let more = digits.push(c);
    assert(more.drop_last() =~= digits);
    assert(more[0] == digits[0]);
    assert(unsigned(more) == more);
    assert(unsigned(digits) == digits);
    assert(all_digits(digits));
    assert forall|i: int| 0 <= i < more.len() implies is_digit(#[trigger] more[i]) by {
        if i < digits.len() {
            assert(more[i] == digits[i]);
        }
    }
    let signed = seq!['+'] + digits;
    assert(unsigned(signed) =~= digits);
}

} // verus!
