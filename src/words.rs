//! Splitting command lines into words, and reading window indices.

use vstd::prelude::*;

use crate::time::is_decimal;

verus! {

/// Unicode `White_Space`: what `char::is_whitespace` accepts.
pub open spec fn is_white(c: char) -> bool {
    let u = c as u32;
    ||| 0x09 <= u <= 0x0d
    ||| u == 0x20 || u == 0x85 || u == 0xa0 || u == 0x1680
    ||| 0x2000 <= u <= 0x200a
    ||| u == 0x2028 || u == 0x2029 || u == 0x202f || u == 0x205f || u == 0x3000
}

/// The maximal runs of characters of `s` that are not white space, in
/// order.
pub open spec fn words(s: Seq<char>) -> Seq<Seq<char>>
    decreases s.len(),
{
    if s.len() == 0 {
        Seq::empty()
    } else if is_white(s.last()) {
        words(s.drop_last())
    } else if s.len() >= 2 && !is_white(s[s.len() - 2]) {
        let w = words(s.drop_last());
        w.drop_last().push(w.last().push(s.last()))
    } else {
        words(s.drop_last()).push(seq![s.last()])
    }
}

/// `s` without its trailing white space.
pub open spec fn trimmed_end(s: Seq<char>) -> Seq<char>
    decreases s.len(),
{
    if s.len() > 0 && is_white(s.last()) {
        trimmed_end(s.drop_last())
    } else {
        s
    }
}

/// Relies on `str::split_whitespace`: the words of `s` between runs of
/// `char::is_whitespace` characters.
#[verifier::external_body]
pub(crate) fn split_whitespace(s: &str) -> (r: Vec<String>)
    ensures
        r@.map_values(|w: String| w@) == words(s@),
{
    s.split_whitespace().map(|w| w.to_string()).collect()
}

fn is_white_char(c: char) -> (r: bool)
    ensures
        r == is_white(c),
{
    let u = c as u32;
    (0x09 <= u && u <= 0x0d) || u == 0x20 || u == 0x85 || u == 0xa0 || u == 0x1680 || (0x2000 <= u
        && u <= 0x200a) || u == 0x2028 || u == 0x2029 || u == 0x202f || u == 0x205f || u == 0x3000
}

proof fn lemma_trimmed_prefix(s: Seq<char>, k: int)
    requires
        0 <= k <= s.len(),
        forall|j: int| k <= j < s.len() ==> is_white(#[trigger] s[j]),
    ensures
        trimmed_end(s) == trimmed_end(s.subrange(0, k)),
    decreases s.len() - k,
{
    if k < s.len() {
        assert(s.drop_last() =~= s.subrange(0, s.len() - 1));
        lemma_trimmed_prefix(s.drop_last(), k);
        assert(s.drop_last().subrange(0, k) =~= s.subrange(0, k));
    } else {
        assert(s.subrange(0, k) =~= s);
    }
}

/// `s` without its trailing white space.
pub fn trim_end(s: &str) -> (r: String)
    ensures
        r@ == trimmed_end(s@),
{
    let cs = crate::text::chars_of(s);
    let mut k: usize = cs.len();
    while k > 0 && is_white_char(cs[k - 1])
        invariant
            k <= cs@.len(),
            cs@ == s@,
            forall|j: int| k <= j < cs@.len() ==> is_white(#[trigger] cs@[j]),
        decreases k,
    {
        k = k - 1;
    }
    proof {
        lemma_trimmed_prefix(s@, k as int);
        let p = s@.subrange(0, k as int);
        if k > 0 {
            assert(!is_white(p.last()));
        }
    }
    let mut r: Vec<char> = Vec::new();
    let mut i: usize = 0;
    while i < k
        invariant
            i <= k <= cs@.len(),
            r@ == cs@.subrange(0, i as int),
        decreases k - i,
    {
        r.push(cs[i]);
        assert(cs@.subrange(0, i + 1) =~= cs@.subrange(0, i as int).push(cs@[i as int]));
        i = i + 1;
    }
    crate::text::string_of(&r)
}

/// The number that a run of decimal digits spells.
pub open spec fn digits_value(s: Seq<char>) -> int
    decreases s.len(),
{
    if s.len() == 0 {
        0
    } else {
        digits_value(s.drop_last()) * 10 + (s.last() as u32 - 48)
    }
}

/// `s` without a leading `+`.
pub open spec fn index_digits(s: Seq<char>) -> Seq<char> {
    if s.len() > 0 && s[0] == '+' {
        s.drop_first()
    } else {
        s
    }
}

/// What `usize::from_str` reads from `s`, bounds aside: an optional `+`
/// and then one or more decimal digits.
pub open spec fn index_value(s: Seq<char>) -> Option<int> {
    let d = index_digits(s);
    if d.len() > 0 && forall|i: int| 0 <= i < d.len() ==> is_decimal(#[trigger] d[i]) {
        Some(digits_value(d))
    } else {
        None
    }
}

proof fn lemma_digits_grow(d: Seq<char>, i: int)
    requires
        0 <= i <= d.len(),
        forall|j: int| 0 <= j < d.len() ==> is_decimal(#[trigger] d[j]),
    ensures
        digits_value(d) >= digits_value(d.subrange(0, i)) >= 0,
    decreases d.len(),
{
    if d.len() == 0 {
        assert(d.subrange(0, i) =~= d);
    } else {
        let p = d.drop_last();
        assert forall|j: int| 0 <= j < p.len() implies is_decimal(#[trigger] p[j]) by {
            assert(p[j] == d[j]);
        }
        assert(is_decimal(d[d.len() - 1]));
        if i == d.len() {
            lemma_digits_grow(p, p.len() as int);
            assert(d.subrange(0, i) =~= d);
        } else {
            lemma_digits_grow(p, i);
            assert(p.subrange(0, i) =~= d.subrange(0, i));
        }
    }
}

/// Reads a window index as `usize::from_str` does: an optional `+`, then
/// decimal digits; nothing when there are none, another character stands
/// among them, or the number does not fit.
pub fn parse_index(s: &str) -> (r: Option<usize>)
    ensures
        r matches Some(v) ==> index_value(s@) == Some(v as int),
        r is None ==> (index_value(s@) matches Some(v) ==> v > usize::MAX),
{
    let cs = crate::text::chars_of(s);
    let start: usize = if cs.len() > 0 && cs[0] == '+' {
        1
    } else {
        0
    };
    let ghost d = index_digits(s@);
    assert(d =~= cs@.subrange(start as int, cs@.len() as int));
    if start >= cs.len() {
        return None;
    }
    let mut v: usize = 0;
    let mut i: usize = start;
    while i < cs.len()
        invariant
            start <= i <= cs@.len(),
            cs@ == s@,
            d == index_digits(s@),
            d == cs@.subrange(start as int, cs@.len() as int),
            forall|j: int| 0 <= j < i - start ==> is_decimal(#[trigger] d[j]),
            v == digits_value(d.subrange(0, i - start)),
        decreases cs@.len() - i,
    {
        let c = cs[i];
        let u = c as u32;
        if u < 48 || u > 57 {
            proof {
                let k = (i - start) as int;
                assert(!is_decimal(d[k]));
                assert(!(forall|j: int| 0 <= j < d.len() ==> is_decimal(#[trigger] d[j])));
                assert(index_value(s@) is None);
            }
            return None;
        }
        proof {
            let p = d.subrange(0, i + 1 - start);
            assert(p.drop_last() =~= d.subrange(0, i - start));
        }
        match v.checked_mul(10) {
            None => {
                proof {
                    let p = d.subrange(0, i + 1 - start);
                    assert(p.drop_last() =~= d.subrange(0, i - start));
                    if forall|j: int| 0 <= j < d.len() ==> is_decimal(#[trigger] d[j]) {
                        lemma_digits_grow(d, i + 1 - start);
                    }
                }
                return None;
            },
            Some(t) => match t.checked_add((u - 48) as usize) {
                None => {
                    proof {
                        let p = d.subrange(0, i + 1 - start);
                        assert(p.drop_last() =~= d.subrange(0, i - start));
                        assert(p.last() == c);
                        assert(digits_value(p) > usize::MAX);
                        if forall|j: int| 0 <= j < d.len() ==> is_decimal(#[trigger] d[j]) {
                            lemma_digits_grow(d, i + 1 - start);
                        }
                    }
                    return None;
                },
                Some(n) => {
                    v = n;
                },
            },
        }
        i = i + 1;
    }
    assert(d.subrange(0, d.len() as int) =~= d);
    Some(v)
}

} // verus!
