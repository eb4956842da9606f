//! Verified string utilities: prefix tests, substring search and
//! replacement, line splitting and decimal formatting / parsing.
//! Specifications are stated over `Seq<char>` views.

use vstd::prelude::*;

verus! {

/// The character-sequence views of a sequence of strings.
pub open spec fn str_views(l: Seq<String>) -> Seq<Seq<char>> {
    l.map_values(|s: String| s@)
}

/// Appending a string appends its view.
pub proof fn lemma_str_views_push(l: Seq<String>, s: String)
    ensures
        str_views(l.push(s)) == str_views(l).push(s@),
{
    assert(str_views(l.push(s)) =~= str_views(l).push(s@));
}

/// `p` is a prefix of `s`.
pub open spec fn spec_starts_with(s: Seq<char>, p: Seq<char>) -> bool {
    p.len() <= s.len() && s.subrange(0, p.len() as int) == p
}

/// `p` occurs in `s` at position `i`.
pub open spec fn spec_match_at(s: Seq<char>, p: Seq<char>, i: int) -> bool {
    0 <= i && i + p.len() <= s.len() && s.subrange(i, i + p.len() as int) == p
}

/// `p` occurs somewhere in `s`.
pub open spec fn spec_contains(s: Seq<char>, p: Seq<char>) -> bool {
    exists|i: int| spec_match_at(s, p, i)
}

/// Appends one character to a string.
/// Relies on `String::push` from std: appends exactly that character.
#[verifier::external_body]
pub fn push_char(s: &mut String, c: char)
    ensures
        final(s)@ == old(s)@.push(c),
{
    s.push(c);
}

/// Whether `p` occurs in `s` starting at `i`, by character comparison.
pub fn match_at(s: &str, p: &str, i: usize) -> (r: bool)
    ensures
        r == spec_match_at(s@, p@, i as int),
{
    let s_len = s.unicode_len();
    let p_len = p.unicode_len();
    if i > s_len || p_len > s_len - i {
        assert(!spec_match_at(s@, p@, i as int));
        return false;
    }
    let mut j: usize = 0;
    while j < p_len
        invariant
            i + p_len <= s_len,
            s_len == s@.len(),
            p_len == p@.len(),
            j <= p_len,
            forall|k: int| 0 <= k < j ==> s@[i + k] == p@[k],
        decreases p_len - j,
    {
        if s.get_char(i + j) != p.get_char(j) {
            assert(s@.subrange(i as int, i + p@.len() as int)[j as int] != p@[j as int]);
            return false;
        }
        j += 1;
    }
    assert(s@.subrange(i as int, i + p@.len() as int) =~= p@);
    true
}

/// Matching at position `i` is the same as `p` being a prefix of what
/// remains of `s` from `i` on.
pub proof fn lemma_match_at_skip(s: Seq<char>, p: Seq<char>, i: int)
    requires
        0 <= i <= s.len(),
    ensures
        spec_match_at(s, p, i) == spec_starts_with(s.skip(i), p),
{
    if p.len() <= s.len() - i {
        assert(s.skip(i).subrange(0, p.len() as int) =~= s.subrange(i, i + p.len() as int));
    }
}

/// Whether `p` is a prefix of `s`.
pub fn starts_with(s: &str, p: &str) -> (r: bool)
    ensures
        r == spec_starts_with(s@, p@),
{
    let r = match_at(s, p, 0);
    assert(spec_match_at(s@, p@, 0) == spec_starts_with(s@, p@)) by {
        if spec_starts_with(s@, p@) {
            assert(s@.subrange(0, 0 + p@.len() as int) == s@.subrange(0, p@.len() as int));
        }
    }
    r
}

/// Whether `p` occurs anywhere in `s`.
pub fn contains(s: &str, p: &str) -> (r: bool)
    ensures
        r == spec_contains(s@, p@),
{
    let s_len = s.unicode_len();
    let p_len = p.unicode_len();
    if p_len > s_len {
        assert(!spec_contains(s@, p@)) by {
            assert(forall|i: int| !spec_match_at(s@, p@, i));
        }
        return false;
    }
    let mut i: usize = 0;
    loop
        invariant_except_break
            p_len <= s_len,
            s_len == s@.len(),
            p_len == p@.len(),
            i <= s_len - p_len,
            forall|k: int| 0 <= k < i ==> !spec_match_at(s@, p@, k),
        ensures
            !spec_contains(s@, p@),
        decreases s_len - p_len - i,
    {
        if match_at(s, p, i) {
            return true;
        }
        if i == s_len - p_len {
            assert(forall|k: int| !spec_match_at(s@, p@, k)) by {
                assert(forall|k: int| k > s@.len() - p@.len() ==> !spec_match_at(s@, p@, k));
                assert(forall|k: int| 0 <= k <= i ==> !spec_match_at(s@, p@, k));
            }
            break;
        }
        i += 1;
    }
    false
}

/// What follows the first occurrence of `p` in `s`, or `None` when `p`
/// does not occur. For an empty `p` this is all of `s`.
pub open spec fn spec_after_first(s: Seq<char>, p: Seq<char>) -> Option<Seq<char>>
    decreases s.len(),
{
    if p.len() == 0 {
        Some(s)
    } else if spec_starts_with(s, p) {
        Some(s.skip(p.len() as int))
    } else if s.len() == 0 {
        None
    } else {
        spec_after_first(s.skip(1), p)
    }
}

/// The characters of `s` before the first occurrence of `c`; all of `s`
/// when `c` does not occur.
pub open spec fn spec_take_until(s: Seq<char>, c: char) -> Seq<char>
    decreases s.len(),
{
    if s.len() == 0 {
        s
    } else if s[0] == c {
        Seq::empty()
    } else {
        seq![s[0]] + spec_take_until(s.skip(1), c)
    }
}

/// `s` with every (non-overlapping, left-to-right) occurrence of `p`
/// replaced by `rep`; `s` itself when `p` is empty.
pub open spec fn spec_replace(s: Seq<char>, p: Seq<char>, rep: Seq<char>) -> Seq<char>
    decreases s.len(),
{
    if p.len() == 0 {
        s
    } else if spec_starts_with(s, p) {
        rep + spec_replace(s.skip(p.len() as int), p, rep)
    } else if s.len() == 0 {
        s
    } else {
        seq![s[0]] + spec_replace(s.skip(1), p, rep)
    }
}

/// The pieces of `s` between occurrences of the separator `c`; one more
/// piece than there are separators, so never empty.
pub open spec fn spec_split(s: Seq<char>, c: char) -> Seq<Seq<char>>
    decreases s.len(),
{
    if s.len() == 0 {
        seq![Seq::empty()]
    } else {
        let rest = spec_split(s.skip(1), c);
        if s[0] == c {
            seq![Seq::<char>::empty()] + rest
        } else {
            seq![seq![s[0]] + rest[0]] + rest.skip(1)
        }
    }
}

pub proof fn lemma_split_nonempty(s: Seq<char>, c: char)
    ensures
        spec_split(s, c).len() >= 1,
    decreases s.len(),
{
    if s.len() > 0 {
        lemma_split_nonempty(s.skip(1), c);
    }
}

/// What follows the first occurrence of `p` in `s`, or `None` when `p`
/// does not occur.
pub fn after_first(s: &str, p: &str) -> (r: Option<String>)
    ensures
        match r {
            Some(t) => spec_after_first(s@, p@) == Some(t@),
            None => spec_after_first(s@, p@) is None,
        },
{
    let s_len = s.unicode_len();
    let p_len = p.unicode_len();
    if p_len == 0 {
        return Some(s.to_owned());
    }
    let mut i: usize = 0;
    proof {
        assert(s@.skip(0) =~= s@);
    }
    loop
        invariant_except_break
            p_len == p@.len(),
            s_len == s@.len(),
            p_len > 0,
            i <= s_len,
            spec_after_first(s@, p@) == spec_after_first(s@.skip(i as int), p@),
        ensures
            spec_after_first(s@, p@) is None,
        decreases s_len - i,
    {
        if match_at(s, p, i) {
            assert(spec_starts_with(s@.skip(i as int), p@)) by {
                assert(s@.skip(i as int).subrange(0, p@.len() as int) =~= s@.subrange(
                    i as int,
                    i + p@.len() as int,
                ));
            }
            let t = s.substring_char(i + p_len, s_len);
            assert(t@ =~= s@.skip(i as int).skip(p@.len() as int));
            return Some(t.to_owned());
        }
        if i == s_len {
            assert(s@.skip(i as int).len() == 0);
            break;
        }
        proof {
            assert(!spec_starts_with(s@.skip(i as int), p@)) by {
                if spec_starts_with(s@.skip(i as int), p@) {
                    assert(s@.subrange(i as int, i + p@.len() as int) =~= s@.skip(
                        i as int,
                    ).subrange(0, p@.len() as int));
                }
            }
            assert(s@.skip(i as int).skip(1) =~= s@.skip(i + 1));
        }
        i += 1;
    }
    None
}

/// The characters of `s` before the first occurrence of `c`.
pub fn take_until(s: &str, c: char) -> (r: String)
    ensures
        r@ == spec_take_until(s@, c),
{
    let s_len = s.unicode_len();
    let mut i: usize = 0;
    let mut out = String::new();
    proof {
        assert(s@.skip(0) =~= s@);
        if s@.len() > 0 {
            assert(Seq::<char>::empty() + spec_take_until(s@, c) =~= spec_take_until(s@, c));
        } else {
            assert(spec_take_until(s@, c) =~= Seq::<char>::empty() + Seq::<char>::empty());
        }
    }
    while i < s_len
        invariant
            s_len == s@.len(),
            i <= s_len,
            spec_take_until(s@, c) == out@ + if i < s@.len() {
                spec_take_until(s@.skip(i as int), c)
            } else {
                Seq::<char>::empty()
            },
            (forall|k: int| 0 <= k < i ==> s@[k] != c),
        decreases s_len - i,
    {
        let ch = s.get_char(i);
        if ch == c {
            assert(spec_take_until(s@.skip(i as int), c) =~= Seq::<char>::empty());
            assert(spec_take_until(s@, c) =~= out@);
            return out;
        }
        push_char(&mut out, ch);
        proof {
            assert(s@.skip(i as int).skip(1) =~= s@.skip(i + 1));
            if i + 1 == s@.len() {
                assert(s@.skip(i + 1).len() == 0);
                assert(spec_take_until(s@.skip(i + 1), c) =~= Seq::<char>::empty());
            }
        }
        i += 1;
    }
    assert(spec_take_until(s@, c) =~= out@);
    out
}

/// `s` with every occurrence of `p` replaced by `rep`, left to right and
/// without overlap, as `str::replace` does.
pub fn replace(s: &str, p: &str, rep: &str) -> (r: String)
    ensures
        r@ == spec_replace(s@, p@, rep@),
{
    let s_len = s.unicode_len();
    let p_len = p.unicode_len();
    let mut out = String::new();
    if p_len == 0 {
        out.append(s);
        return out;
    }
    let mut i: usize = 0;
    proof {
        assert(s@.skip(0) =~= s@);
        assert(Seq::<char>::empty() + spec_replace(s@, p@, rep@) =~= spec_replace(s@, p@, rep@));
    }
    while i < s_len
        invariant
            s_len == s@.len(),
            p_len == p@.len(),
            p_len > 0,
            i <= s_len,
            spec_replace(s@, p@, rep@) == out@ + spec_replace(s@.skip(i as int), p@, rep@),
        decreases s_len - i,
    {
        if match_at(s, p, i) {
            assert(spec_starts_with(s@.skip(i as int), p@)) by {
                assert(s@.skip(i as int).subrange(0, p@.len() as int) =~= s@.subrange(
                    i as int,
                    i + p@.len() as int,
                ));
            }
            out.append(rep);
            proof {
                assert(s@.skip(i as int).skip(p@.len() as int) =~= s@.skip(i + p@.len()));
            }
            i += p_len;
        } else {
            proof {
                assert(!spec_starts_with(s@.skip(i as int), p@)) by {
                    if spec_starts_with(s@.skip(i as int), p@) {
                        assert(s@.subrange(i as int, i + p@.len() as int) =~= s@.skip(
                            i as int,
                        ).subrange(0, p@.len() as int));
                    }
                }
                assert(s@.skip(i as int).skip(1) =~= s@.skip(i + 1));
            }
            let ch = s.get_char(i);
            push_char(&mut out, ch);
            i += 1;
        }
    }
    proof {
        assert(s@.skip(i as int).len() == 0);
        assert(spec_replace(s@.skip(i as int), p@, rep@) =~= Seq::<char>::empty());
        assert(out@ =~= spec_replace(s@, p@, rep@));
    }
    out
}

/// Splits `s` at every occurrence of the separator `c`.
pub fn split_by(s: &str, c: char) -> (r: Vec<String>)
    ensures
        r@.map_values(|piece: String| piece@) == spec_split(s@, c),
{
    let s_len = s.unicode_len();
    let mut out: Vec<String> = Vec::new();
    let mut cur = String::new();
    let mut i: usize = 0;
    proof {
        assert(s@.skip(0) =~= s@);
        lemma_split_nonempty(s@, c);
        let rest0 = spec_split(s@, c);
        assert(Seq::<char>::empty() + rest0[0] =~= rest0[0]);
        assert(seq![rest0[0]] + rest0.skip(1) =~= rest0);
        assert(out@.map_values(|piece: String| piece@) + rest0 =~= rest0);
    }
    while i < s_len
        invariant
            s_len == s@.len(),
            i <= s_len,
            spec_split(s@, c) == out@.map_values(|piece: String| piece@) + ({
                let rest = spec_split(s@.skip(i as int), c);
                seq![cur@ + rest[0]] + rest.skip(1)
            }),
        decreases s_len - i,
    {
        let ch = s.get_char(i);
        proof {
            lemma_split_nonempty(s@.skip(i + 1), c);
            assert(s@.skip(i as int).skip(1) =~= s@.skip(i + 1));
        }
        let ghost prev_out = out@;
        let ghost prev_cur = cur@;
        let ghost rest_next = spec_split(s@.skip(i + 1), c);
        if ch == c {
            let done = cur;
            cur = String::new();
            out.push(done);
            proof {
                assert(out@.map_values(|piece: String| piece@) =~= prev_out.map_values(
                    |piece: String| piece@,
                ).push(prev_cur));
                assert(seq![prev_cur + Seq::<char>::empty()] + rest_next =~= seq![prev_cur]
                    + rest_next);
                assert(seq![rest_next[0]] + rest_next.skip(1) =~= rest_next);
                assert(spec_split(s@, c) =~= out@.map_values(|piece: String| piece@) + (seq![
                    cur@ + rest_next[0],
                ] + rest_next.skip(1)));
            }
        } else {
            push_char(&mut cur, ch);
            proof {
                assert(cur@ + rest_next[0] =~= prev_cur + (seq![s@[i as int]] + rest_next[0]));
                assert(spec_split(s@, c) =~= out@.map_values(|piece: String| piece@) + (seq![
                    cur@ + rest_next[0],
                ] + rest_next.skip(1)));
            }
        }
        i += 1;
    }
    proof {
        assert(s@.skip(i as int).len() == 0);
        let rest = spec_split(s@.skip(i as int), c);
        assert(rest =~= seq![Seq::<char>::empty()]);
        assert(cur@ + rest[0] =~= cur@);
    }
    out.push(cur);
    proof {
        assert(out@.map_values(|piece: String| piece@) =~= spec_split(s@, c));
    }
    out
}

/// The digit character for a value below ten.
pub open spec fn spec_digit_char(d: int) -> char {
    if d == 0 { '0' }
    else if d == 1 { '1' }
    else if d == 2 { '2' }
    else if d == 3 { '3' }
    else if d == 4 { '4' }
    else if d == 5 { '5' }
    else if d == 6 { '6' }
    else if d == 7 { '7' }
    else if d == 8 { '8' }
    else { '9' }
}

/// The decimal representation of a natural number.
pub open spec fn spec_u64_str(n: nat) -> Seq<char>
    decreases n,
{
    if n < 10 {
        seq![spec_digit_char(n as int)]
    } else {
        spec_u64_str(n / 10).push(spec_digit_char((n % 10) as int))
    }
}

/// The decimal representation of an integer, with a leading minus sign
/// when it is negative.
pub open spec fn spec_i64_str(v: int) -> Seq<char> {
    if v < 0 {
        seq!['-'] + spec_u64_str((-v) as nat)
    } else {
        spec_u64_str(v as nat)
    }
}

fn digit_char(d: u64) -> (c: char)
    requires
        d < 10,
    ensures
        c == spec_digit_char(d as int),
{
    if d == 0 { '0' }
    else if d == 1 { '1' }
    else if d == 2 { '2' }
    else if d == 3 { '3' }
    else if d == 4 { '4' }
    else if d == 5 { '5' }
    else if d == 6 { '6' }
    else if d == 7 { '7' }
    else if d == 8 { '8' }
    else { '9' }
}

/// Formats a natural number in decimal.
pub fn u64_to_string(n: u64) -> (r: String)
    ensures
        r@ == spec_u64_str(n as nat),
    decreases n,
{
    if n < 10 {
        let mut s = String::new();
        push_char(&mut s, digit_char(n));
        assert(s@ =~= spec_u64_str(n as nat));
        s
    } else {
        let mut s = u64_to_string(n / 10);
        push_char(&mut s, digit_char(n % 10));
        s
    }
}

/// Formats a signed integer in decimal.
pub fn i64_to_string(v: i64) -> (r: String)
    ensures
        r@ == spec_i64_str(v as int),
{
    if v < 0 {
        let mut s = String::new();
        push_char(&mut s, '-');
        let m: u64 = (-(v as i128)) as u64;
        assert(m as nat == (-(v as int)) as nat);
        let d = u64_to_string(m);
        s.append(d.as_str());
        assert(s@ =~= spec_i64_str(v as int));
        s
    } else {
        u64_to_string(v as u64)
    }
}

/// Formats an `i32` in decimal.
pub fn i32_to_string(v: i32) -> (r: String)
    ensures
        r@ == spec_i64_str(v as int),
{
    i64_to_string(v as i64)
}

/// The character is a decimal digit.
pub open spec fn spec_is_digit(c: char) -> bool {
    48 <= c as u32 <= 57
}

/// The numeric value of a digit character.
pub open spec fn spec_digit_val(c: char) -> int {
    c as u32 - 48
}

/// A non-empty sequence of decimal digits.
pub open spec fn spec_all_digits(s: Seq<char>) -> bool {
    s.len() > 0 && forall|i: int| 0 <= i < s.len() ==> spec_is_digit(#[trigger] s[i])
}

/// The value of a digit sequence read in base ten.
pub open spec fn spec_digits_val(s: Seq<char>) -> int
    decreases s.len(),
{
    if s.len() == 0 {
        0
    } else {
        spec_digits_val(s.drop_last()) * 10 + spec_digit_val(s.last())
    }
}

/// The integer denoted by `s` under the syntax of `str::parse` for
/// integers: an optional `+` or `-` sign followed by one or more digits.
pub open spec fn spec_int_of(s: Seq<char>) -> Option<int> {
    if s.len() == 0 {
        None
    } else if s[0] == '+' || s[0] == '-' {
        if spec_all_digits(s.skip(1)) {
            if s[0] == '-' {
                Some(-spec_digits_val(s.skip(1)))
            } else {
                Some(spec_digits_val(s.skip(1)))
            }
        } else {
            None
        }
    } else if spec_all_digits(s) {
        Some(spec_digits_val(s))
    } else {
        None
    }
}

/// The value of `s` as an `i32`, or zero when `s` is not a decimal
/// integer in range.
pub open spec fn spec_i32_or_zero(s: Seq<char>) -> int {
    match spec_int_of(s) {
        Some(v) => if -0x8000_0000 <= v <= 0x7fff_ffff {
            v
        } else {
            0
        },
        None => 0,
    }
}

proof fn lemma_digits_val_nonneg(s: Seq<char>)
    requires
        forall|i: int| 0 <= i < s.len() ==> spec_is_digit(#[trigger] s[i]),
    ensures
        spec_digits_val(s) >= 0,
    decreases s.len(),
{
    if s.len() > 0 {
        lemma_digits_val_nonneg(s.drop_last());
    }
}

proof fn lemma_digits_val_prefix_le(s: Seq<char>, j: int)
    requires
        forall|i: int| 0 <= i < s.len() ==> spec_is_digit(#[trigger] s[i]),
        0 <= j <= s.len(),
    ensures
        spec_digits_val(s.subrange(0, j)) <= spec_digits_val(s),
    decreases s.len() - j,
{
    if j == s.len() {
        assert(s.subrange(0, j) =~= s);
    } else {
        lemma_digits_val_prefix_le(s, j + 1);
        let t = s.subrange(0, j + 1);
        assert(t.drop_last() =~= s.subrange(0, j));
        lemma_digits_val_nonneg(s.subrange(0, j));
        assert(spec_digits_val(t) == spec_digits_val(s.subrange(0, j)) * 10 + spec_digit_val(
            s[j],
        ));
    }
}

/// Parses `s` as an `i32` as `str::parse` would, returning zero instead
/// of an error for malformed or out-of-range input.
pub fn parse_i32_or_zero(s: &str) -> (r: i32)
    ensures
        r as int == spec_i32_or_zero(s@),
{
    let s_len = s.unicode_len();
    if s_len == 0 {
        return 0;
    }
    let first = s.get_char(0);
    let negative = first == '-';
    let start: usize = if first == '-' || first == '+' {
        1
    } else {
        0
    };
    let ghost t = s@.skip(start as int);
    proof {
        if start == 0 {
            assert(t =~= s@);
        }
    }
    if start == s_len {
        assert(t.len() == 0);
        return 0;
    }
    let mut acc: u64 = 0;
    let mut k: usize = start;
    while k < s_len
        invariant
            s_len == s@.len(),
            start <= k <= s_len,
            start < s_len,
            start <= 1,
            negative == (s@[0] == '-'),
            start as int == (if s@[0] == '+' || s@[0] == '-' { 1int } else { 0int }),
            t == s@.skip(start as int),
            forall|i: int| start <= i < k ==> spec_is_digit(#[trigger] s@[i]),
            acc as int == spec_digits_val(t.subrange(0, k - start)),
            acc <= 0x8000_0000,
        decreases s_len - k,
    {
        let c = s.get_char(k);
        let cv = c as u32;
        if cv < 48 || cv > 57 {
            assert(!spec_is_digit(t[k - start]));
            assert(!spec_all_digits(t));
            return 0;
        }
        let d: u64 = (cv - 48) as u64;
        proof {
            let pre = t.subrange(0, k + 1 - start);
            assert(pre.drop_last() =~= t.subrange(0, k - start));
            assert(pre.last() == s@[k as int]);
        }
        acc = acc * 10 + d;
        k += 1;
        if acc > 0x8000_0000 {
            // The digits seen so far already exceed the `i32` range, and
            // appending further digits can only increase the value.
            proof {
                assert(acc as int == spec_digits_val(t.subrange(0, k - start)));
                if start == 0 {
                    assert(t =~= s@);
                }
                if spec_all_digits(t) {
                    lemma_digits_val_prefix_le(t, k - start);
                    assert(spec_digits_val(t) > 0x8000_0000);
                    assert(spec_int_of(s@) == Some(
                        if negative {
                            -spec_digits_val(t)
                        } else {
                            spec_digits_val(t)
                        },
                    ));
                    assert(spec_i32_or_zero(s@) == 0);
                } else {
                    assert(spec_int_of(s@) is None);
                }
            }
            return 0;
        }
    }
    assert(t.subrange(0, s@.len() - start) =~= t);
    assert(spec_all_digits(t));
    if negative {
        if acc == 0x8000_0000 {
            return i32::MIN;
        }
        let m = acc as i64;
        return (-m) as i32;
    }
    if acc > 0x7fff_ffff {
        return 0;
    }
    acc as i32
}

} // verus!
