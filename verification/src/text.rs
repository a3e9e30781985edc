//! Character-sequence helpers shared by the generators: decimal numerals and
//! separator-joined lists.

use vstd::prelude::*;

verus! {

/// The decimal digit `d` (for `d < 10`) as a character.
pub open spec fn digit_char(d: nat) -> char {
    if d == 0 { '0' }
    else if d == 1 { '1' }
    else if d == 2 { '2' }
    else if d == 3 { '3' }
    else if d == 4 { '4' }
    else if d == 5 { '5' }
    else if d == 6 { '6' }
    else if d == 7 { '7' }
    else if d == 8 { '8' }
    else { '9' }
}

/// The shortest decimal numeral of `n`, most significant digit first.
pub open spec fn decimal(n: nat) -> Seq<char>
    decreases n,
{
    if n < 10 {
        seq![digit_char(n)]
    } else {
        decimal(n / 10).push(digit_char(n % 10))
    }
}

/// `parts` with `sep` between each neighbouring pair, as `[..].join(sep)` gives it.
pub open spec fn joined(parts: Seq<Seq<char>>, sep: Seq<char>) -> Seq<char>
    decreases parts.len(),
{
    if parts.len() == 0 {
        Seq::empty()
    } else if parts.len() == 1 {
        parts[0]
    } else {
        joined(parts.take(parts.len() - 1), sep) + sep + parts[parts.len() - 1]
    }
}

/// The views of a list of strings.
pub open spec fn texts_view(parts: Seq<String>) -> Seq<Seq<char>> {
    parts.map_values(|p: String| p@)
}

/// The value of a decimal digit character.
pub open spec fn digit_value(c: char) -> int {
    (c as int) - ('0' as int)
}

/// `c` is one of `0`..`9`.
pub open spec fn is_digit(c: char) -> bool {
    '0' as int <= c as int <= '9' as int
}

/// Every character of `s` is a decimal digit.
pub open spec fn all_digits(s: Seq<char>) -> bool {
    forall|i: int| 0 <= i < s.len() ==> #[trigger] is_digit(s[i])
}

/// The number that the decimal numeral `s` denotes.
pub open spec fn numeral_value(s: Seq<char>) -> int
    decreases s.len(),
{
    if s.len() == 0 {
        0
    } else {
        numeral_value(s.drop_last()) * 10 + digit_value(s.last())
    }
}

/// How many times `c` occurs in `s`.
pub open spec fn occurrences(s: Seq<char>, c: char) -> nat
    decreases s.len(),
{
    if s.len() == 0 {
        0
    } else {
        occurrences(s.drop_last(), c) + if s.last() == c { 1nat } else { 0nat }
    }
}

/// `decimal(n)` is a numeral for `n`: a non-empty string of digits that denotes
/// `n`, with no leading zero.
pub proof fn law_decimal_denotes(n: nat)
    ensures
        decimal(n).len() >= 1,
        all_digits(decimal(n)),
        numeral_value(decimal(n)) == n,
        n > 0 ==> decimal(n)[0] != '0',
    decreases n,
{
    if n >= 10 {
        law_decimal_denotes(n / 10);
        let d = decimal(n);
        assert(d.drop_last() =~= decimal(n / 10));
        assert(n == (n / 10) * 10 + n % 10) by (nonlinear_arith);
        assert(d[0] == decimal(n / 10)[0]);
        assert(d.last() == digit_char(n % 10));
        lemma_digit_char((n % 10) as nat);
        assert(numeral_value(d) == numeral_value(decimal(n / 10)) * 10 + digit_value(d.last()));
    } else {
        let d = decimal(n);
        assert(d.drop_last() =~= Seq::<char>::empty());
        lemma_digit_char(n);
        assert(numeral_value(d) == numeral_value(d.drop_last()) * 10 + digit_value(d.last()));
    }
}

/// `digit_char(d)` is a digit whose value is `d`.
pub proof fn lemma_digit_char(d: nat)
    requires
        d < 10,
    ensures
        is_digit(digit_char(d)),
        digit_value(digit_char(d)) == d,
{
}

/// Occurrences add up over a concatenation.
pub proof fn lemma_occurrences_concat(a: Seq<char>, b: Seq<char>, c: char)
    ensures
        occurrences(a + b, c) == occurrences(a, c) + occurrences(b, c),
    decreases b.len(),
{
    if b.len() > 0 {
        lemma_occurrences_concat(a, b.drop_last(), c);
        assert((a + b).drop_last() =~= a + b.drop_last());
        assert((a + b).last() == b.last());
    } else {
        assert(a + b =~= a);
    }
}

/// A list of `k >= 1` parts none of which holds `c`, joined by a separator that
/// holds `c` once, holds `c` exactly `k - 1` times: one per separator.
pub proof fn law_joined_separators(parts: Seq<Seq<char>>, sep: Seq<char>, c: char)
    requires
        parts.len() >= 1,
        occurrences(sep, c) == 1,
        forall|i: int| 0 <= i < parts.len() ==> occurrences(#[trigger] parts[i], c) == 0,
    ensures
        occurrences(joined(parts, sep), c) + 1 == parts.len(),
    decreases parts.len(),
{
    if parts.len() > 1 {
        let front = parts.take(parts.len() - 1);
        assert forall|i: int| 0 <= i < front.len() implies occurrences(#[trigger] front[i], c) == 0 by {
            assert(front[i] == parts[i]);
        }
        law_joined_separators(front, sep, c);
        lemma_occurrences_concat(joined(front, sep), sep, c);
        lemma_occurrences_concat(joined(front, sep) + sep, parts[parts.len() - 1], c);
    }
}

/// Where the `i`-th part starts in `joined(parts, sep)`: after every earlier
/// part and its separator.
pub open spec fn join_offset(parts: Seq<Seq<char>>, sep: Seq<char>, i: int) -> int
    decreases i,
{
    if i <= 0 {
        0
    } else {
        join_offset(parts, sep, i - 1) + parts[i - 1].len() + sep.len()
    }
}

proof fn lemma_join_offset_prefix(parts: Seq<Seq<char>>, sep: Seq<char>, m: int, i: int)
    requires
        0 <= i <= m <= parts.len(),
    ensures
        join_offset(parts.take(m), sep, i) == join_offset(parts, sep, i),
    decreases i,
{
    if i > 0 {
        lemma_join_offset_prefix(parts, sep, m, i - 1);
        assert(parts.take(m)[i - 1] == parts[i - 1]);
    }
}

proof fn lemma_join_offset_grows(parts: Seq<Seq<char>>, sep: Seq<char>, i: int, j: int)
    requires
        0 <= i <= j <= parts.len(),
    ensures
        join_offset(parts, sep, i) <= join_offset(parts, sep, j),
        i < j ==> join_offset(parts, sep, i) + parts[i].len() + sep.len() <= join_offset(
            parts,
            sep,
            j,
        ),
    decreases j - i,
{
    if i < j {
        lemma_join_offset_grows(parts, sep, i, j - 1);
    }
}

/// `joined(parts, sep)` lays the parts out in order, each unchanged at its
/// offset, with exactly `sep` between neighbours and nothing else.
pub proof fn law_joined_layout(parts: Seq<Seq<char>>, sep: Seq<char>)
    requires
        parts.len() >= 1,
    ensures
        joined(parts, sep).len() == join_offset(parts, sep, parts.len() - 1)
            + parts[parts.len() - 1].len(),
        forall|i: int|
            0 <= i < parts.len() ==> #[trigger] joined(parts, sep).subrange(
                join_offset(parts, sep, i),
                join_offset(parts, sep, i) + parts[i].len(),
            ) == parts[i],
        forall|i: int|
            0 <= i < parts.len() - 1 ==> #[trigger] joined(parts, sep).subrange(
                join_offset(parts, sep, i) + parts[i].len(),
                join_offset(parts, sep, i + 1),
            ) == sep,
    decreases parts.len(),
{
    let n = parts.len() as int;
    let whole = joined(parts, sep);
    if n == 1 {
        assert(whole.subrange(0, parts[0].len() as int) =~= parts[0]);
    } else {
        let front = parts.take(n - 1);
        law_joined_layout(front, sep);
        let head = joined(front, sep);
        let last = parts[n - 1];
        assert(whole == head + sep + last);
        lemma_join_offset_prefix(parts, sep, n - 1, n - 2);
        assert(front[n - 2] == parts[n - 2]);
        assert(head.len() == join_offset(parts, sep, n - 2) + parts[n - 2].len());
        assert forall|i: int| 0 <= i < n implies #[trigger] whole.subrange(
            join_offset(parts, sep, i),
            join_offset(parts, sep, i) + parts[i].len(),
        ) == parts[i] by {
            if i < n - 1 {
                lemma_join_offset_prefix(parts, sep, n - 1, i);
                assert(front[i] == parts[i]);
                lemma_join_offset_grows(parts, sep, i, n - 2);
                lemma_join_offset_grows(parts, sep, 0, i);
                assert(head.subrange(
                    join_offset(front, sep, i),
                    join_offset(front, sep, i) + front[i].len(),
                ) == front[i]);
                assert(whole.subrange(
                    join_offset(parts, sep, i),
                    join_offset(parts, sep, i) + parts[i].len(),
                ) =~= head.subrange(
                    join_offset(front, sep, i),
                    join_offset(front, sep, i) + front[i].len(),
                ));
            } else {
                assert(whole.subrange(
                    join_offset(parts, sep, i),
                    join_offset(parts, sep, i) + parts[i].len(),
                ) =~= last);
            }
        }
        assert forall|i: int| 0 <= i < n - 1 implies #[trigger] whole.subrange(
            join_offset(parts, sep, i) + parts[i].len(),
            join_offset(parts, sep, i + 1),
        ) == sep by {
            if i < n - 2 {
                lemma_join_offset_prefix(parts, sep, n - 1, i);
                lemma_join_offset_prefix(parts, sep, n - 1, i + 1);
                assert(front[i] == parts[i]);
                lemma_join_offset_grows(parts, sep, i + 1, n - 2);
                lemma_join_offset_grows(parts, sep, 0, i);
                lemma_join_offset_grows(parts, sep, i, i + 1);
                assert(head.subrange(
                    join_offset(front, sep, i) + front[i].len(),
                    join_offset(front, sep, i + 1),
                ) == sep);
                assert(whole.subrange(
                    join_offset(parts, sep, i) + parts[i].len(),
                    join_offset(parts, sep, i + 1),
                ) =~= head.subrange(
                    join_offset(front, sep, i) + front[i].len(),
                    join_offset(front, sep, i + 1),
                ));
            } else {
                assert(whole.subrange(
                    join_offset(parts, sep, i) + parts[i].len(),
                    join_offset(parts, sep, i + 1),
                ) =~= sep);
            }
        }
    }
}

fn digit_text(d: usize) -> (s: String)
    requires
        d < 10,
    ensures
        s@ == seq![digit_char(d as nat)],
{
    let lit: &str = match d {
        0 => "0",
        1 => "1",
        2 => "2",
        3 => "3",
        4 => "4",
        5 => "5",
        6 => "6",
        7 => "7",
        8 => "8",
        _ => "9",
    };
    proof {
        reveal_strlit("0");
        reveal_strlit("1");
        reveal_strlit("2");
        reveal_strlit("3");
        reveal_strlit("4");
        reveal_strlit("5");
        reveal_strlit("6");
        reveal_strlit("7");
        reveal_strlit("8");
        reveal_strlit("9");
    }
    String::from_str(lit)
}

/// Writes `n` in decimal, as `n.to_string()` does.
pub fn decimal_text(n: usize) -> (s: String)
    ensures
        s@ == decimal(n as nat),
    decreases n,
{
    if n < 10 {
        digit_text(n)
    } else {
        let mut s = decimal_text(n / 10);
        let d = digit_text(n % 10);
        s.append(d.as_str());
        s
    }
}

/// Joins `parts` with `sep` between neighbours.
pub fn join_texts(parts: &Vec<String>, sep: &str) -> (r: String)
    ensures
        r@ == joined(texts_view(parts@), sep@),
{
    let ghost views = texts_view(parts@);
    let mut r = String::new();
    let n: usize = parts.len();
    for i in 0..n
        invariant
            n == parts@.len(),
            views == texts_view(parts@),
            r@ == joined(views.take(i as int), sep@),
    {
        assert(views.take(i + 1).take(i as int) =~= views.take(i as int));
        if i > 0 {
            r.append(sep);
        } else {
            assert(joined(views.take(0), sep@) =~= Seq::<char>::empty());
        }
        r.append(parts[i].as_str());
    }
    assert(views.take(n as int) =~= views);
    r
}

} // verus!
