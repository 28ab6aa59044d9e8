//! Text over characters: the few string operations that the rest of the
//! library is written in, each with an exact contract.

use vstd::prelude::*;

verus! {

/// `s` without the `c`s at its end.
pub open spec fn trim_end_char(s: Seq<char>, c: char) -> Seq<char>
    decreases s.len(),
{
    if s.len() > 0 && s.last() == c {
        trim_end_char(s.drop_last(), c)
    } else {
        s
    }
}

/// Whether `from` stands in `s` at position `at`.
pub open spec fn occurs_at(s: Seq<char>, from: Seq<char>, at: int) -> bool {
    at + from.len() <= s.len() && s.subrange(at, at + from.len()) == from
}

/// `s` with each occurrence of `from`, taken from the left and without
/// overlap, replaced by `to`.
pub open spec fn replace_all(s: Seq<char>, from: Seq<char>, to: Seq<char>) -> Seq<char>
    decreases s.len(),
{
    if s.len() == 0 || from.len() == 0 {
        s
    } else if occurs_at(s, from, 0) {
        to + replace_all(s.skip(from.len() as int), from, to)
    } else {
        seq![s[0]] + replace_all(s.skip(1), from, to)
    }
}

/// What follows the first `c` in `s`, where there is one.
pub open spec fn after_first(s: Seq<char>, c: char) -> Option<Seq<char>>
    decreases s.len(),
{
    if s.len() == 0 {
        None
    } else if s[0] == c {
        Some(s.skip(1))
    } else {
        after_first(s.skip(1), c)
    }
}

/// The decimal digit of `d`.
pub open spec fn digit(d: nat) -> char {
    (48 + d) as char
}

/// `n` in decimal, without leading zeros.
pub open spec fn decimal(n: nat) -> Seq<char>
    decreases n,
{
    if n < 10 {
        seq![digit(n)]
    } else {
        decimal(n / 10).push(digit(n % 10))
    }
}

/// The texts of a list of strings.
pub open spec fn texts(v: Seq<String>) -> Seq<Seq<char>> {
    v.map_values(|s: String| s@)
}

/// `String::push` appends one character to the end of the string.
pub assume_specification[ String::push ](s: &mut String, c: char)
    ensures
        final(s)@ == old(s)@.push(c),
;

/// The characters of `s`, in order.
pub fn chars_of(s: &str) -> (r: Vec<char>)
    ensures
        r@ == s@,
{
    let mut r: Vec<char> = Vec::new();
    for c in it: s.chars()
        invariant
            it.seq() == s@,
            r@ == s@.take(it.index() as int),
    {
        r.push(c);
    }
    r
}

/// The characters of `cs` from `start` up to `end`, as a string.
pub fn string_of(cs: &Vec<char>, start: usize, end: usize) -> (r: String)
    requires
        start <= end <= cs@.len(),
    ensures
        r@ == cs@.subrange(start as int, end as int),
{
    let mut r = String::new();
    for i in start..end
        invariant
            start <= end <= cs@.len(),
            r@ == cs@.subrange(start as int, i as int),
    {
        r.push(cs[i]);
    }
    r
}

/// A string with the characters of `s`.
pub fn owned(s: &str) -> (r: String)
    ensures
        r@ == s@,
{
    s.to_owned()
}

/// `s` without the `c`s at its end.
pub fn trim_end(s: &str, c: char) -> (r: String)
    ensures
        r@ == trim_end_char(s@, c),
{
    let cs = chars_of(s);
    let mut n: usize = cs.len();
    assert(cs@.take(n as int) =~= s@);
    while n > 0 && cs[n - 1] == c
        invariant
            n <= cs@.len(),
            trim_end_char(cs@.take(n as int), c) == trim_end_char(s@, c),
        decreases n,
    {
        assert(cs@.take(n as int).drop_last() =~= cs@.take(n - 1));
        n = n - 1;
    }
    assert(cs@.subrange(0, n as int) =~= cs@.take(n as int));
    string_of(&cs, 0, n)
}

/// Whether `from` stands in `s` at position `at`.
fn matches_at(s: &Vec<char>, from: &Vec<char>, at: usize) -> (r: bool)
    requires
        at <= s@.len(),
    ensures
        r == occurs_at(s@, from@, at as int),
{
    let n: usize = s.len();
    if from.len() > n - at {
        return false;
    }
    for i in 0..from.len()
        invariant
            n == s@.len(),
            at + from@.len() <= n,
            forall|j: int| 0 <= j < i ==> s@[at + j] == from@[j],
    {
        if s[at + i] != from[i] {
            assert(s@.subrange(at as int, at + from@.len())[i as int] != from@[i as int]);
            return false;
        }
    }
    assert(s@.subrange(at as int, at + from@.len()) =~= from@);
    true
}

/// `s` with each occurrence of `from`, taken from the left and without
/// overlap, replaced by `to`.
pub fn replace(s: &str, from: &str, to: &str) -> (r: String)
    requires
        from@.len() > 0,
    ensures
        r@ == replace_all(s@, from@, to@),
{
    let cs = chars_of(s);
    let pattern = chars_of(from);
    let mut r = String::new();
    let mut i: usize = 0;
    assert(cs@.skip(0) =~= s@);
    while i < cs.len()
        invariant
            i <= cs@.len(),
            pattern@ == from@,
            from@.len() > 0,
            r@ + replace_all(cs@.skip(i as int), from@, to@) == replace_all(s@, from@, to@),
        decreases cs@.len() - i,
    {
        let ghost rest = cs@.skip(i as int);
        let ghost before = r@;
        if matches_at(&cs, &pattern, i) {
            assert(rest.subrange(0, from@.len() as int) =~= cs@.subrange(
                i as int,
                i + from@.len(),
            ));
            assert(occurs_at(rest, from@, 0));
            r.append(to);
            i = i + pattern.len();
            assert(rest.skip(from@.len() as int) =~= cs@.skip(i as int));
        } else {
            assert(!occurs_at(rest, from@, 0)) by {
                if occurs_at(rest, from@, 0) {
                    assert(rest.subrange(0, from@.len() as int) =~= cs@.subrange(
                        i as int,
                        i + from@.len(),
                    ));
                }
            }
            r.push(cs[i]);
            i = i + 1;
            assert(rest.skip(1) =~= cs@.skip(i as int));
            assert(r@ =~= before + seq![rest[0]]);
        }
        assert(r@ + replace_all(cs@.skip(i as int), from@, to@) =~= before + replace_all(
            rest,
            from@,
            to@,
        ));
    }
    assert(cs@.skip(i as int) =~= Seq::empty());
    assert(r@ =~= r@ + Seq::<char>::empty());
    r
}

/// What follows the first `c` in `s`, where there is one.
pub fn split_after(s: &str, c: char) -> (r: Option<String>)
    ensures
        match r {
            Some(t) => after_first(s@, c) == Some(t@),
            None => after_first(s@, c) is None,
        },
{
    let cs = chars_of(s);
    assert(cs@.skip(0) =~= s@);
    for i in 0..cs.len()
        invariant
            after_first(cs@.skip(i as int), c) == after_first(s@, c),
    {
        let ghost rest = cs@.skip(i as int);
        assert(rest.skip(1) =~= cs@.skip(i + 1));
        if cs[i] == c {
            assert(cs@.subrange(i + 1, cs@.len() as int) =~= cs@.skip(i + 1));
            return Some(string_of(&cs, i + 1, cs.len()));
        }
    }
    None
}

/// The decimal digit of `d`.
fn digit_char(d: usize) -> (r: char)
    requires
        d < 10,
    ensures
        r == digit(d as nat),
{
    (48 + d as u8) as char
}

/// `n` in decimal, without leading zeros.
pub fn decimal_text(n: usize) -> (r: String)
    ensures
        r@ == decimal(n as nat),
    decreases n,
{
    if n < 10 {
        let mut r = String::new();
        r.push(digit_char(n));
        r
    } else {
        let mut r = decimal_text(n / 10);
        r.push(digit_char(n % 10));
        r
    }
}

/// Where `from` does not occur, nothing is replaced.
pub proof fn lemma_replace_nothing(s: Seq<char>, from: Seq<char>, to: Seq<char>)
    requires
        forall|i: int| 0 <= i < s.len() ==> !occurs_at(s, from, i),
    ensures
        replace_all(s, from, to) == s,
    decreases s.len(),
{
    if s.len() > 0 && from.len() > 0 {
        let rest = s.skip(1);
        assert forall|i: int| 0 <= i < rest.len() implies !occurs_at(rest, from, i) by {
            if occurs_at(rest, from, i) {
                assert(s.subrange(i + 1, i + 1 + from.len()) =~= rest.subrange(i, i + from.len()));
                assert(occurs_at(s, from, i + 1));
            }
        }
        lemma_replace_nothing(rest, from, to);
        assert(!occurs_at(s, from, 0));
        assert(seq![s[0]] + rest =~= s);
    }
}

/// A pattern of one character occurs where that character stands.
pub proof fn lemma_occurs_char(s: Seq<char>, c: char, at: int)
    requires
        0 <= at < s.len(),
    ensures
        occurs_at(s, seq![c], at) <==> s[at] == c,
{
    let part = s.subrange(at, at + 1);
    assert(part[0] == s[at]);
    if s[at] == c {
        assert(part =~= seq![c]);
    }
}

/// With a pattern of one character, parts are replaced each on its own.
pub proof fn lemma_replace_char_concat(a: Seq<char>, b: Seq<char>, c: char, to: Seq<char>)
    ensures
        replace_all(a + b, seq![c], to) == replace_all(a, seq![c], to) + replace_all(
            b,
            seq![c],
            to,
        ),
    decreases a.len(),
{
    if a.len() == 0 {
        assert(a + b =~= b);
        assert(replace_all(a, seq![c], to) + replace_all(b, seq![c], to) =~= replace_all(
            b,
            seq![c],
            to,
        ));
    } else {
        lemma_occurs_char(a, c, 0);
        lemma_occurs_char(a + b, c, 0);
        lemma_replace_char_concat(a.skip(1), b, c, to);
        assert((a + b).skip(1) =~= a.skip(1) + b);
        assert(replace_all(a + b, seq![c], to) =~= replace_all(a, seq![c], to) + replace_all(
            b,
            seq![c],
            to,
        ));
    }
}

/// The number that a text of decimal digits is.
pub open spec fn number(digits: Seq<char>) -> int
    decreases digits.len(),
{
    if digits.len() == 0 {
        0
    } else {
        10 * number(digits.drop_last()) + (digits.last() as int - '0' as int)
    }
}

/// Texts are taken one by one: as many as there are strings, and each with the
/// characters of its string.
pub proof fn law_each_text_is_its_string(v: Seq<String>)
    ensures
        texts(v).len() == v.len(),
        forall|i: int| 0 <= i < v.len() ==> #[trigger] texts(v)[i] == v[i]@,
{
}

/// Trimming keeps the beginning of a text, drops nothing but `c`s, and leaves
/// none of them at the end.
pub proof fn law_trim_drops_the_end(s: Seq<char>, c: char)
    ensures
        ({
            let trimmed = trim_end_char(s, c);
            &&& trimmed.len() <= s.len()
            &&& s.take(trimmed.len() as int) == trimmed
            &&& forall|i: int| trimmed.len() <= i < s.len() ==> s[i] == c
            &&& trimmed.len() > 0 ==> trimmed.last() != c
        }),
    decreases s.len(),
{
    if s.len() > 0 && s.last() == c {
        law_trim_drops_the_end(s.drop_last(), c);
        let trimmed = trim_end_char(s, c);
        assert(s.take(trimmed.len() as int) =~= s.drop_last().take(trimmed.len() as int));
        assert forall|i: int| trimmed.len() <= i < s.len() implies s[i] == c by {
            if i < s.len() - 1 {
                assert(s.drop_last()[i] == c);
            }
        }
    } else {
        assert(s.take(s.len() as int) =~= s);
    }
}

/// A text stands in another where all its characters stand there, one after
/// the other.
pub proof fn law_occurrence_is_character_by_character(s: Seq<char>, from: Seq<char>, at: int)
    requires
        0 <= at,
    ensures
        occurs_at(s, from, at) <==> {
            &&& at + from.len() <= s.len()
            &&& forall|k: int| 0 <= k < from.len() ==> s[at + k] == #[trigger] from[k]
        },
{
    if at + from.len() <= s.len() {
        let part = s.subrange(at, at + from.len());
        if part == from {
            assert forall|k: int| 0 <= k < from.len() implies s[at + k] == #[trigger] from[k] by {
                assert(part[k] == s[at + k]);
            }
        }
        if forall|k: int| 0 <= k < from.len() ==> s[at + k] == #[trigger] from[k] {
            assert(part =~= from);
        }
    }
}

/// The first occurrence is replaced, what stands before it is kept, and with
/// what follows it goes on in the same way. Together with
/// `lemma_replace_nothing` this says what replacing does to any text.
pub proof fn law_first_occurrence_is_replaced(
    before: Seq<char>,
    from: Seq<char>,
    after: Seq<char>,
    to: Seq<char>,
)
    requires
        from.len() > 0,
        forall|i: int| 0 <= i < before.len() ==> !occurs_at(before + from + after, from, i),
    ensures
        replace_all(before + from + after, from, to) == before + to + replace_all(after, from, to),
    decreases before.len(),
{
    let s = before + from + after;
    if before.len() == 0 {
        assert(s.subrange(0, from.len() as int) =~= from);
        assert(s.skip(from.len() as int) =~= after);
        assert(before + to + replace_all(after, from, to) =~= to + replace_all(after, from, to));
    } else {
        let rest = before.skip(1);
        let tail = rest + from + after;
        assert(s.skip(1) =~= tail);
        assert forall|i: int| 0 <= i < rest.len() implies !occurs_at(tail, from, i) by {
            if occurs_at(tail, from, i) {
                assert(s.subrange(i + 1, i + 1 + from.len()) =~= tail.subrange(i, i + from.len()));
                assert(occurs_at(s, from, i + 1));
            }
        }
        law_first_occurrence_is_replaced(rest, from, after, to);
        assert(!occurs_at(s, from, 0));
        assert(replace_all(s, from, to) =~= before + to + replace_all(after, from, to));
    }
}

/// What follows the first `c` is what follows it, whatever it is.
pub proof fn law_rest_follows_the_first(before: Seq<char>, c: char, rest: Seq<char>)
    requires
        !before.contains(c),
    ensures
        after_first(before + seq![c] + rest, c) == Some(rest),
    decreases before.len(),
{
    let s = before + seq![c] + rest;
    if before.len() == 0 {
        assert(s.skip(1) =~= rest);
    } else {
        assert(before.contains(before[0]));
        let tail = before.skip(1);
        assert(!tail.contains(c)) by {
            if tail.contains(c) {
                let i = choose|i: int| 0 <= i < tail.len() && tail[i] == c;
                assert(before[i + 1] == c);
            }
        }
        law_rest_follows_the_first(tail, c, rest);
        assert(s.skip(1) =~= tail + seq![c] + rest);
    }
}

/// Nothing follows a `c` that is not there.
pub proof fn law_nothing_follows_what_is_missing(s: Seq<char>, c: char)
    requires
        !s.contains(c),
    ensures
        after_first(s, c) is None,
    decreases s.len(),
{
    if s.len() > 0 {
        assert(s.contains(s[0]));
        let tail = s.skip(1);
        assert(!tail.contains(c)) by {
            if tail.contains(c) {
                let i = choose|i: int| 0 <= i < tail.len() && tail[i] == c;
                assert(s[i + 1] == c);
            }
        }
        law_nothing_follows_what_is_missing(tail, c);
    }
}

/// A number can be read back from its decimal text, which is made of digits and
/// does not begin with a zero that it could do without.
pub proof fn law_decimal_is_read_back(n: nat)
    ensures
        number(decimal(n)) == n,
        decimal(n).len() > 0,
        forall|i: int| 0 <= i < decimal(n).len() ==> '0' <= #[trigger] decimal(n)[i] <= '9',
        decimal(n).len() > 1 ==> decimal(n)[0] != '0',
    decreases n,
{
    let text = decimal(n);
    if n < 10 {
        assert(text.drop_last() =~= Seq::empty());
        assert(number(text.drop_last()) == 0);
    } else {
        law_decimal_is_read_back(n / 10);
        assert(text.drop_last() =~= decimal(n / 10));
        assert(decimal(n / 10)[0] == text[0]);
        if n / 10 < 10 {
            assert(text[0] == digit(n / 10));
        } else {
            law_decimal_is_read_back(n / 10 / 10);
        }
        assert forall|i: int| 0 <= i < text.len() implies '0' <= #[trigger] text[i] <= '9' by {
            if i < text.len() - 1 {
                assert(text[i] == decimal(n / 10)[i]);
            }
        }
    }
}

/// One more digit at the end is ten times the number and that digit.
pub proof fn law_digit_at_the_end(n: nat, d: nat, c: char)
    requires
        n > 0,
        d < 10,
        c as int == '0' as int + d,
    ensures
        decimal(10 * n + d) == decimal(n).push(c),
{
    assert((10 * n + d) / 10 == n && (10 * n + d) % 10 == d);
    assert(digit(d) == c);
}

/// Different numbers have different decimal texts.
pub proof fn law_decimal_tells_numbers_apart(m: nat, n: nat)
    requires
        decimal(m) == decimal(n),
    ensures
        m == n,
{
    law_decimal_is_read_back(m);
    law_decimal_is_read_back(n);
}

} // verus!
