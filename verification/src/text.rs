//! Text building blocks: decimal rendering of integers and splitting a
//! character sequence at the first occurrence of a separator.

use vstd::prelude::*;
use vstd::string::*;

verus! {

/// The position of the first occurrence of `x` in `s`, or `s.len()` where
/// `x` does not occur.
pub open spec fn first_index<T>(s: Seq<T>, x: T) -> int
    decreases s.len(),
{
    if s.len() == 0 {
        0
    } else if s[0] == x {
        0
    } else {
        1 + first_index(s.drop_first(), x)
    }
}

/// `first_index` is the least position that holds `x`.
pub proof fn lemma_first_index<T>(s: Seq<T>, x: T)
    ensures
        0 <= first_index(s, x) <= s.len(),
        first_index(s, x) < s.len() ==> s[first_index(s, x)] == x,
        forall|j: int| 0 <= j < first_index(s, x) ==> s[j] != x,
        first_index(s, x) < s.len() <==> s.contains(x),
    decreases s.len(),
{
    if s.len() == 0 {
    } else if s[0] == x {
    } else {
        let t = s.drop_first();
        lemma_first_index(t, x);
        assert forall|j: int| 0 <= j < first_index(s, x) implies s[j] != x by {
            if j > 0 {
                assert(s[j] == t[j - 1]);
            }
        }
        if first_index(s, x) < s.len() {
            assert(s[first_index(s, x)] == t[first_index(t, x)]);
        }
        if s.contains(x) {
            let i = choose|i: int| 0 <= i < s.len() && s[i] == x;
            assert(t[i - 1] == x);
        }
    }
}

/// A position that holds `x` and has no `x` before it is the first one; the
/// length of a sequence without `x` is its `first_index`.
pub proof fn lemma_first_index_is<T>(s: Seq<T>, x: T, i: int)
    requires
        0 <= i <= s.len(),
        forall|j: int| 0 <= j < i ==> s[j] != x,
        i < s.len() ==> s[i] == x,
    ensures
        first_index(s, x) == i,
{
    lemma_first_index(s, x);
    let f = first_index(s, x);
    if f < i {
        assert(s[f] == x);
    } else if f > i {
        assert(s[i] == x);
    }
}

/// In a sequence that holds nothing twice, the position of an element is its
/// `first_index`.
pub proof fn lemma_first_index_unique<T>(s: Seq<T>, x: T, i: int)
    requires
        s.no_duplicates(),
        0 <= i < s.len(),
        s[i] == x,
    ensures
        first_index(s, x) == i,
{
    lemma_first_index_is(s, x, i);
}

/// The first index of `y` after `x` was put at the end of `s`.
pub proof fn lemma_first_index_push<T>(s: Seq<T>, x: T, y: T)
    ensures
        first_index(s.push(x), y) == if s.contains(y) {
            first_index(s, y)
        } else if y == x {
            s.len() as int
        } else {
            s.len() as int + 1
        },
{
    let after = s.push(x);
    lemma_first_index(s, y);
    let f = first_index(s, y);
    if s.contains(y) {
        assert(after[f] == y);
        assert forall|j: int| 0 <= j < f implies after[j] != y by {
            assert(after[j] == s[j]);
        }
        lemma_first_index_is(after, y, f);
    } else if y == x {
        assert forall|j: int| 0 <= j < s.len() implies after[j] != y by {
            assert(after[j] == s[j]);
        }
        lemma_first_index_is(after, y, s.len() as int);
    } else {
        assert forall|j: int| 0 <= j < after.len() implies after[j] != y by {
            if j < s.len() {
                assert(after[j] == s[j]);
            }
        }
        lemma_first_index_is(after, y, after.len() as int);
    }
}

/// The fields, each after a tab.
pub open spec fn tabbed(fields: Seq<Seq<char>>) -> Seq<char>
    decreases fields.len(),
{
    if fields.len() == 0 {
        Seq::empty()
    } else {
        tabbed(fields.drop_last()) + seq!['\t'] + fields.last()
    }
}

/// The first `i + 1` fields are the first `i` and then field `i`.
pub proof fn lemma_tabbed_step(fields: Seq<Seq<char>>, i: int)
    requires
        0 <= i < fields.len(),
    ensures
        tabbed(fields.take(i + 1)) == tabbed(fields.take(i)) + seq!['\t'] + fields[i],
{
    assert(fields.take(i + 1).drop_last() =~= fields.take(i));
    assert(fields.take(i + 1).last() == fields[i]);
}

/// What stands in `s` before the first `separator`: all of `s` where it holds
/// none.
pub open spec fn before_first(s: Seq<char>, separator: char) -> Seq<char> {
    s.take(first_index(s, separator))
}

/// What stands in `s` after the first `separator`; nothing where it holds
/// none.
pub open spec fn after_first(s: Seq<char>, separator: char) -> Seq<char> {
    if s.contains(separator) {
        s.skip(first_index(s, separator) + 1)
    } else {
        Seq::empty()
    }
}

/// The position of the first `separator` in `s`, or the number of characters
/// of `s` where it holds none.
pub fn find_char(s: &str, separator: char) -> (i: usize)
    ensures
        i == first_index(s@, separator),
        i <= s@.len(),
{
    let n = s.unicode_len();
    let mut i: usize = 0;
    while i < n && s.get_char(i) != separator
        invariant
            0 <= i <= n,
            n == s@.len(),
            forall|j: int| 0 <= j < i ==> s@[j] != separator,
        decreases n - i,
    {
        i += 1;
    }
    proof {
        lemma_first_index_is(s@, separator, i as int);
    }
    i
}

/// Splits `s` at its first `separator`: what stands before it and, where
/// there is one, what stands after it.
pub fn split_at_first(s: &str, separator: char) -> (parts: (String, Option<String>))
    ensures
        parts.0@ == before_first(s@, separator),
        parts.1 is Some <==> s@.contains(separator),
        parts.1 matches Some(rest) ==> rest@ == after_first(s@, separator),
{
    let n = s.unicode_len();
    let i = find_char(s, separator);
    proof {
        lemma_first_index(s@, separator);
    }
    let head = String::from_str(s.substring_char(0, i));
    if i < n {
        let rest = String::from_str(s.substring_char(i + 1, n));
        proof {
            assert(s@.subrange(i + 1, n as int) =~= s@.skip(i + 1));
        }
        (head, Some(rest))
    } else {
        (head, None)
    }
}

/// The texts of a sequence of strings.
pub open spec fn texts(v: Seq<String>) -> Seq<Seq<char>> {
    Seq::new(v.len(), |i: int| v[i]@)
}

/// The position of the first string of `names` with the text of `name`, or
/// the length of `names` where there is none.
pub fn position(names: &Vec<String>, name: &String) -> (i: usize)
    ensures
        i == first_index(texts(names@), name@),
{
    let mut i: usize = 0;
    while i < names.len() && names[i] != *name
        invariant
            0 <= i <= names.len(),
            forall|j: int| 0 <= j < i ==> texts(names@)[j] != name@,
        decreases names.len() - i,
    {
        i += 1;
    }
    proof {
        lemma_first_index_is(texts(names@), name@, i as int);
    }
    i
}

/// The decimal digit `d` as a character.
pub open spec fn digit(d: int) -> char {
    if d == 0 {
        '0'
    } else if d == 1 {
        '1'
    } else if d == 2 {
        '2'
    } else if d == 3 {
        '3'
    } else if d == 4 {
        '4'
    } else if d == 5 {
        '5'
    } else if d == 6 {
        '6'
    } else if d == 7 {
        '7'
    } else if d == 8 {
        '8'
    } else {
        '9'
    }
}

/// The base-10 digits of `n`, most significant first, without leading zeros.
pub open spec fn decimal_nat(n: nat) -> Seq<char>
    decreases n,
{
    if n < 10 {
        seq![digit(n as int)]
    } else {
        decimal_nat(n / 10).push(digit((n % 10) as int))
    }
}

/// The base-10 text of `n`: a minus sign for a negative number, then the
/// digits of its magnitude.
pub open spec fn decimal(n: int) -> Seq<char> {
    if n < 0 {
        seq!['-'] + decimal_nat((-n) as nat)
    } else {
        decimal_nat(n as nat)
    }
}

fn digit_str(d: u64) -> (s: &'static str)
    requires
        d < 10,
    ensures
        s@ == seq![digit(d as int)],
{
    proof {
        reveal_strlit("0");
        reveal_strlit("1");
        reveal_strlit("2");
        reveal_strlit("3");
        reveal_strlit("4");
        reveal_strlit("5");
        reveal_strlit("6");
        reveal_strlit("7");
        reveal_strlit("8");
        reveal_strlit("9");
    }
    let s = if d == 0 {
        "0"
    } else if d == 1 {
        "1"
    } else if d == 2 {
        "2"
    } else if d == 3 {
        "3"
    } else if d == 4 {
        "4"
    } else if d == 5 {
        "5"
    } else if d == 6 {
        "6"
    } else if d == 7 {
        "7"
    } else if d == 8 {
        "8"
    } else {
        "9"
    };
    assert(s@ =~= seq![digit(d as int)]);
    s
}

/// Appends the digits of `n` to `out`.
pub fn push_decimal_nat(out: &mut String, n: u64)
    ensures
        final(out)@ == old(out)@ + decimal_nat(n as nat),
    decreases n,
{
    if n >= 10 {
        push_decimal_nat(out, n / 10);
    }
    out.append(digit_str(n % 10));
    assert(out@ =~= old(out)@ + decimal_nat(n as nat));
}

/// Appends the base-10 text of `n` to `out`.
pub fn push_decimal(out: &mut String, n: i64)
    ensures
        final(out)@ == old(out)@ + decimal(n as int),
{
    if n < 0 {
        let magnitude: u64 = if n == i64::MIN {
            9223372036854775808u64
        } else {
            (-n) as u64
        };
        proof {
            reveal_strlit("-");
        }
        out.append("-");
        push_decimal_nat(out, magnitude);
        assert(out@ =~= old(out)@ + decimal(n as int));
    } else {
        push_decimal_nat(out, n as u64);
    }
}

} // verus!
