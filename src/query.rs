//! Reading a query line of the form `path:line:col`.
use vstd::prelude::*;

verus! {

pub open spec fn is_digit(c: char) -> bool {
    '0' <= c && c <= '9'
}

pub open spec fn all_digits(d: Seq<char>) -> bool {
    forall|i: int| 0 <= i < d.len() ==> is_digit(#[trigger] d[i])
}

/// Decimal value of a sequence of digits.
pub open spec fn decimal_value(s: Seq<char>) -> nat
    decreases s.len(),
{
    if s.len() == 0 {
        0
    } else {
        decimal_value(s.drop_last()) * 10 + ((s.last() as u32) - ('0' as u32)) as nat
    }
}

/// The `u32` that `s` spells: an optional `+`, then one or more decimal digits whose
/// value fits in 32 bits.
pub open spec fn u32_text(s: Seq<char>) -> Option<u32> {
    let d = if s.len() > 0 && s[0] == '+' {
        s.drop_first()
    } else {
        s
    };
    if d.len() > 0 && all_digits(d) && decimal_value(d) <= u32::MAX {
        Some(decimal_value(d) as u32)
    } else {
        None
    }
}

/// Index of the first `:` at or after `from` (`s.len()` if none).
pub open spec fn next_colon(s: Seq<char>, from: nat) -> nat
    decreases s.len() - from,
{
    if from >= s.len() {
        s.len()
    } else if s[from as int] == ':' {
        from
    } else {
        next_colon(s, from + 1)
    }
}

/// A query line cut at its `:` characters into a path, a line and a column; `None`
/// unless there are exactly three parts and the last two are numbers.
pub open spec fn query_spec(s: Seq<char>) -> Option<(Seq<char>, u32, u32)> {
    let a = next_colon(s, 0);
    let b = next_colon(s, a + 1);
    if a < s.len() && b < s.len() && next_colon(s, b + 1) == s.len() {
        match (u32_text(s.subrange((a + 1) as int, b as int)), u32_text(s.subrange((b + 1) as int, s.len() as int))) {
            (Some(l), Some(c)) => Some((s.subrange(0, a as int), l, c)),
            _ => None,
        }
    } else {
        None
    }
}

proof fn lemma_next_colon_bounds(s: Seq<char>, from: nat)
    requires
        from <= s.len(),
    ensures
        from <= next_colon(s, from) <= s.len(),
    decreases s.len() - from,
{
    if from < s.len() && s[from as int] != ':' {
        lemma_next_colon_bounds(s, from + 1);
    }
}

proof fn lemma_value_grows(s: Seq<char>, i: int)
    requires
        0 <= i <= s.len(),
    ensures
        decimal_value(s.take(i)) <= decimal_value(s),
    decreases s.len(),
{
    if i < s.len() {
        assert(s.take(i) =~= s.drop_last().take(i));
        lemma_value_grows(s.drop_last(), i);
    } else {
        assert(s.take(i) =~= s);
    }
}

/// Reads `s[from..to]` as a `u32` the way `u32_text` describes.
fn read_u32(s: &str, from: usize, to: usize) -> (r: Option<u32>)
    requires
        from <= to <= s@.len(),
    ensures
        r == u32_text(s@.subrange(from as int, to as int)),
{
    let ghost whole = s@.subrange(from as int, to as int);
    let mut start = from;
    if from < to && s.get_char(from) == '+' {
        start = from + 1;
    }
    let ghost d = s@.subrange(start as int, to as int);
    assert(d =~= (if whole.len() > 0 && whole[0] == '+' { whole.drop_first() } else { whole }));
    assert(u32_text(whole) == (if d.len() > 0 && all_digits(d) && decimal_value(d) <= u32::MAX {
        Some(decimal_value(d) as u32)
    } else {
        None
    }));
    if start >= to {
        return None;
    }
    let mut v: u64 = 0;
    let mut i: usize = start;
    while i < to
        invariant
            start <= i <= to <= s@.len(),
            d == s@.subrange(start as int, to as int),
            u32_text(s@.subrange(from as int, to as int)) == (if d.len() > 0 && all_digits(d)
                && decimal_value(d) <= u32::MAX {
                Some(decimal_value(d) as u32)
            } else {
                None
            }),
            v == decimal_value(d.take(i - start)),
            v <= u32::MAX,
            forall|k: int| 0 <= k < i - start ==> is_digit(#[trigger] d[k]),
        decreases to - i,
    {
        let c = s.get_char(i);
        assert(c == d[i - start]);
        if !('0' <= c && c <= '9') {
            assert(!is_digit(d[i - start]));
            assert(!all_digits(d));
            return None;
        }
        assert(d.take(i - start + 1).drop_last() =~= d.take(i - start));
        v = v * 10 + ((c as u32) - ('0' as u32)) as u64;
        if v > 0xffff_ffff {
            proof {
                lemma_value_grows(d, i - start + 1);
                assert(decimal_value(d) > u32::MAX);
            }
            return None;
        }
        i = i + 1;
    }
    assert(d.take(i - start) =~= d);
    Some(v as u32)
}

/// Splits a query line `path:line:col` into its path and its 1-based line and column.
pub fn parse_query(s: &str) -> (r: Option<(String, u32, u32)>)
    ensures
        r matches Some(q) ==> query_spec(s@) == Some((q.0@, q.1, q.2)),
        r is None ==> query_spec(s@) is None,
{
    let n = s.unicode_len();
    let mut colons: Vec<usize> = Vec::new();
    let mut i: usize = 0;
    while i < n && colons.len() < 3
        invariant
            n == s@.len(),
            i <= n,
            colons@.len() <= 3,
            colons@.len() >= 1 ==> colons@[0] == next_colon(s@, 0) && colons@[0] < i,
            colons@.len() >= 2 ==> colons@[1] == next_colon(s@, (colons@[0] + 1) as nat) && colons@[1] < i,
            colons@.len() >= 3 ==> colons@[2] == next_colon(s@, (colons@[1] + 1) as nat) && colons@[2] < i,
            colons@.len() == 0 ==> next_colon(s@, 0) == next_colon(s@, i as nat),
            colons@.len() > 0 && colons@.len() < 3 ==> next_colon(s@, (colons@.last() + 1) as nat) == next_colon(s@, i as nat),
        decreases n - i,
    {
        if s.get_char(i) == ':' {
            colons.push(i);
        }
        i = i + 1;
    }
    if colons.len() != 2 {
        return None;
    }
    let a = colons[0];
    let b = colons[1];
    proof {
        lemma_next_colon_bounds(s@, (a + 1) as nat);
    }
    let line = read_u32(s, a + 1, b);
    let col = read_u32(s, b + 1, n);
    match (line, col) {
        (Some(l), Some(c)) => Some((s.substring_char(0, a).to_owned(), l, c)),
        _ => None,
    }
}

} // verus!
