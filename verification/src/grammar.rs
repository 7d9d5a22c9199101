//! The grammar descriptor: a mathematical model of the two duration
//! syntaxes, stated over sequences of characters.
//!
//! Clock form is `digits ":" digits ":" digits`, anchored at both ends.
//! Shorthand form is one or more `quantity unit` pairs, where a quantity is
//! a run of decimal digits, optionally grouped as a leading run of one to
//! three digits followed by underscore-separated groups of exactly three,
//! and a unit is a short suffix (`w d h m s ms us ns`, case-insensitive,
//! directly abutting the quantity) or a lowercase long name (`week`,
//! `day`, ..., with an optional plural `s` and an optional single space
//! before it).  Matching is greedy and deterministic, with longer unit
//! spellings tried before shorter ones.
//!
//! The functions here are the single source of truth that the recognizer,
//! the assembler and the formatter are verified against.

use vstd::prelude::*;

verus! {

/// The eight recognized time granularities, largest first.
#[derive(Clone, Copy, PartialEq, Eq, Structural, Debug)]
pub enum UnitKind {
    Week,
    Day,
    Hour,
    Minute,
    Second,
    Millisecond,
    Microsecond,
    Nanosecond,
}

/// Whole seconds contributed by one unit of `u`.
pub open spec fn unit_seconds(u: UnitKind) -> nat {
    match u {
        UnitKind::Week => 604800,
        UnitKind::Day => 86400,
        UnitKind::Hour => 3600,
        UnitKind::Minute => 60,
        UnitKind::Second => 1,
        UnitKind::Millisecond => 0,
        UnitKind::Microsecond => 0,
        UnitKind::Nanosecond => 0,
    }
}

/// Sub-second nanoseconds contributed by one unit of `u`.
pub open spec fn unit_nanoseconds(u: UnitKind) -> nat {
    match u {
        UnitKind::Week => 0,
        UnitKind::Day => 0,
        UnitKind::Hour => 0,
        UnitKind::Minute => 0,
        UnitKind::Second => 0,
        UnitKind::Millisecond => 1_000_000,
        UnitKind::Microsecond => 1_000,
        UnitKind::Nanosecond => 1,
    }
}

pub open spec fn is_digit(c: char) -> bool {
    '0' <= c && c <= '9'
}

pub open spec fn digit_val(c: char) -> nat {
    (c as int - '0' as int) as nat
}

/// The numeric value of a sequence of decimal digits, most significant first.
pub open spec fn seq_val(ds: Seq<char>) -> nat
    decreases ds.len(),
{
    if ds.len() == 0 {
        0
    } else {
        seq_val(ds.drop_last()) * 10 + digit_val(ds.last())
    }
}

pub open spec fn all_digits(ds: Seq<char>) -> bool {
    forall|i: int| 0 <= i < ds.len() ==> is_digit(ds[i])
}

pub proof fn lemma_seq_val_push(x: Seq<char>, c: char)
    ensures
        seq_val(x.push(c)) == seq_val(x) * 10 + digit_val(c),
{
    assert(x.push(c).drop_last() =~= x);
    assert(x.push(c).last() == c);
}

/// ASCII lowercasing of a single character; unit letters are matched
/// case-insensitively through this.
pub open spec fn lower(c: char) -> char {
    if 'A' <= c && c <= 'Z' {
        ((c as u8) + 32) as char
    } else {
        c
    }
}

/// First position at or after `i` that does not hold a decimal digit.
pub open spec fn digit_run_end(s: Seq<char>, i: int) -> int
    decreases s.len() - i,
{
    if 0 <= i < s.len() && is_digit(s[i]) {
        digit_run_end(s, i + 1)
    } else {
        i
    }
}

pub proof fn lemma_digit_run_end(s: Seq<char>, i: int)
    requires
        0 <= i <= s.len(),
    ensures
        i <= digit_run_end(s, i) <= s.len(),
        forall|k: int| i <= k < digit_run_end(s, i) ==> is_digit(s[k]),
        digit_run_end(s, i) < s.len() ==> !is_digit(s[digit_run_end(s, i)]),
    decreases s.len() - i,
{
    if 0 <= i < s.len() && is_digit(s[i]) {
        lemma_digit_run_end(s, i + 1);
    }
}

pub proof fn lemma_digit_run_end_exact(s: Seq<char>, i: int, j: int)
    requires
        0 <= i <= j <= s.len(),
        forall|k: int| i <= k < j ==> is_digit(s[k]),
        j == s.len() || !is_digit(s[j]),
    ensures
        digit_run_end(s, i) == j,
    decreases j - i,
{
    if i < j {
        lemma_digit_run_end_exact(s, i + 1, j);
    }
}

/// Does an underscore-separated group of exactly three digits begin at `p`?
pub open spec fn has_group(s: Seq<char>, p: int) -> bool {
    &&& p + 4 <= s.len()
    &&& s[p] == '_'
    &&& is_digit(s[p + 1])
    &&& is_digit(s[p + 2])
    &&& is_digit(s[p + 3])
}

/// End of the greedy run of `_ddd` groups starting at `p`.
pub open spec fn group_run_end(s: Seq<char>, p: int) -> int
    decreases s.len() - p,
{
    if has_group(s, p) {
        group_run_end(s, p + 4)
    } else {
        p
    }
}

/// The digits of the greedy run of `_ddd` groups starting at `p`, with the
/// separators removed.
pub open spec fn group_digits(s: Seq<char>, p: int) -> Seq<char>
    decreases s.len() - p,
{
    if has_group(s, p) {
        seq![s[p + 1], s[p + 2], s[p + 3]] + group_digits(s, p + 4)
    } else {
        Seq::empty()
    }
}

pub proof fn lemma_group_run(s: Seq<char>, p: int)
    requires
        0 <= p <= s.len(),
    ensures
        p <= group_run_end(s, p) <= s.len(),
        all_digits(group_digits(s, p)),
    decreases s.len() - p,
{
    if has_group(s, p) {
        lemma_group_run(s, p + 4);
    }
}

/// Scan a quantity beginning at `i`: a digit run, optionally continued by
/// grouped triples when the leading run has at most three digits.  Returns
/// the position after the quantity and its digits with separators removed.
pub open spec fn quantity_scan(s: Seq<char>, i: int) -> Option<(int, Seq<char>)> {
    if 0 <= i < s.len() && is_digit(s[i]) {
        let r = digit_run_end(s, i);
        if r - i <= 3 && has_group(s, r) {
            Some((group_run_end(s, r), s.subrange(i, r) + group_digits(s, r)))
        } else {
            Some((r, s.subrange(i, r)))
        }
    } else {
        None
    }
}

pub proof fn lemma_quantity_scan(s: Seq<char>, i: int)
    requires
        0 <= i <= s.len(),
        quantity_scan(s, i) is Some,
    ensures
        i < quantity_scan(s, i)->Some_0.0 <= s.len(),
        quantity_scan(s, i)->Some_0.1.len() > 0,
        all_digits(quantity_scan(s, i)->Some_0.1),
{
    lemma_digit_run_end(s, i);
    let r = digit_run_end(s, i);
    lemma_group_run(s, r);
    let ds = quantity_scan(s, i)->Some_0.1;
    assert forall|k: int| 0 <= k < ds.len() implies is_digit(ds[k]) by {
        if k < r - i {
            assert(ds[k] == s[i + k]);
        }
    }
}

pub open spec fn word_week_at(s: Seq<char>, j: int) -> bool {
    &&& 0 <= j
    &&& j + 4 <= s.len()
    &&& s[j] == 'w'
    &&& s[j + 1] == 'e'
    &&& s[j + 2] == 'e'
    &&& s[j + 3] == 'k'
}

pub open spec fn word_day_at(s: Seq<char>, j: int) -> bool {
    &&& 0 <= j
    &&& j + 3 <= s.len()
    &&& s[j] == 'd'
    &&& s[j + 1] == 'a'
    &&& s[j + 2] == 'y'
}

pub open spec fn word_hour_at(s: Seq<char>, j: int) -> bool {
    &&& 0 <= j
    &&& j + 4 <= s.len()
    &&& s[j] == 'h'
    &&& s[j + 1] == 'o'
    &&& s[j + 2] == 'u'
    &&& s[j + 3] == 'r'
}

pub open spec fn word_minute_at(s: Seq<char>, j: int) -> bool {
    &&& 0 <= j
    &&& j + 6 <= s.len()
    &&& s[j] == 'm'
    &&& s[j + 1] == 'i'
    &&& s[j + 2] == 'n'
    &&& s[j + 3] == 'u'
    &&& s[j + 4] == 't'
    &&& s[j + 5] == 'e'
}

pub open spec fn word_second_at(s: Seq<char>, j: int) -> bool {
    &&& 0 <= j
    &&& j + 6 <= s.len()
    &&& s[j] == 's'
    &&& s[j + 1] == 'e'
    &&& s[j + 2] == 'c'
    &&& s[j + 3] == 'o'
    &&& s[j + 4] == 'n'
    &&& s[j + 5] == 'd'
}

pub open spec fn word_millisecond_at(s: Seq<char>, j: int) -> bool {
    &&& 0 <= j
    &&& j + 5 <= s.len()
    &&& s[j] == 'm'
    &&& s[j + 1] == 'i'
    &&& s[j + 2] == 'l'
    &&& s[j + 3] == 'l'
    &&& s[j + 4] == 'i'
    &&& word_second_at(s, j + 5)
}

pub open spec fn word_microsecond_at(s: Seq<char>, j: int) -> bool {
    &&& 0 <= j
    &&& j + 5 <= s.len()
    &&& s[j] == 'm'
    &&& s[j + 1] == 'i'
    &&& s[j + 2] == 'c'
    &&& s[j + 3] == 'r'
    &&& s[j + 4] == 'o'
    &&& word_second_at(s, j + 5)
}

pub open spec fn word_nanosecond_at(s: Seq<char>, j: int) -> bool {
    &&& 0 <= j
    &&& j + 4 <= s.len()
    &&& s[j] == 'n'
    &&& s[j + 1] == 'a'
    &&& s[j + 2] == 'n'
    &&& s[j + 3] == 'o'
    &&& word_second_at(s, j + 4)
}

/// Position after an optional plural `s` at `e`.
pub open spec fn plural_end(s: Seq<char>, e: int) -> int {
    if 0 <= e < s.len() && s[e] == 's' {
        e + 1
    } else {
        e
    }
}

/// Match a lowercase long unit name beginning exactly at `j`.
pub open spec fn long_unit_at(s: Seq<char>, j: int) -> Option<(int, UnitKind)> {
    if word_week_at(s, j) {
        Some((plural_end(s, j + 4), UnitKind::Week))
    } else if word_day_at(s, j) {
        Some((plural_end(s, j + 3), UnitKind::Day))
    } else if word_hour_at(s, j) {
        Some((plural_end(s, j + 4), UnitKind::Hour))
    } else if word_minute_at(s, j) {
        Some((plural_end(s, j + 6), UnitKind::Minute))
    } else if word_millisecond_at(s, j) {
        Some((plural_end(s, j + 11), UnitKind::Millisecond))
    } else if word_microsecond_at(s, j) {
        Some((plural_end(s, j + 11), UnitKind::Microsecond))
    } else if word_nanosecond_at(s, j) {
        Some((plural_end(s, j + 10), UnitKind::Nanosecond))
    } else if word_second_at(s, j) {
        Some((plural_end(s, j + 6), UnitKind::Second))
    } else {
        None
    }
}

/// Match a two-letter short suffix (`ms`, `us`, `µs`, `ns`) at `j`,
/// case-insensitively.
pub open spec fn short2_unit_at(s: Seq<char>, j: int) -> Option<UnitKind> {
    if 0 <= j && j + 2 <= s.len() && lower(s[j + 1]) == 's' {
        if lower(s[j]) == 'm' {
            Some(UnitKind::Millisecond)
        } else if lower(s[j]) == 'u' || s[j] == 'µ' {
            Some(UnitKind::Microsecond)
        } else if lower(s[j]) == 'n' {
            Some(UnitKind::Nanosecond)
        } else {
            None
        }
    } else {
        None
    }
}

/// Match a one-letter short suffix (`w d h m s`) at `j`, case-insensitively.
pub open spec fn short1_unit_at(s: Seq<char>, j: int) -> Option<UnitKind> {
    if 0 <= j < s.len() {
        if lower(s[j]) == 'w' {
            Some(UnitKind::Week)
        } else if lower(s[j]) == 'd' {
            Some(UnitKind::Day)
        } else if lower(s[j]) == 'h' {
            Some(UnitKind::Hour)
        } else if lower(s[j]) == 'm' {
            Some(UnitKind::Minute)
        } else if lower(s[j]) == 's' {
            Some(UnitKind::Second)
        } else {
            None
        }
    } else {
        None
    }
}

/// Match a unit at `j`: after a single space only a long name is accepted;
/// otherwise longer spellings are tried before shorter ones.
pub open spec fn unit_scan(s: Seq<char>, j: int) -> Option<(int, UnitKind)> {
    if 0 <= j < s.len() && s[j] == ' ' {
        long_unit_at(s, j + 1)
    } else {
        match long_unit_at(s, j) {
            Some(r) => Some(r),
            None => match short2_unit_at(s, j) {
                Some(u) => Some((j + 2, u)),
                None => match short1_unit_at(s, j) {
                    Some(u) => Some((j + 1, u)),
                    None => None,
                },
            },
        }
    }
}

pub proof fn lemma_unit_scan(s: Seq<char>, j: int)
    requires
        0 <= j <= s.len(),
        unit_scan(s, j) is Some,
    ensures
        j < unit_scan(s, j)->Some_0.0 <= s.len(),
{
}

/// Scan one `quantity unit` token at `i`.  Returns the position after the
/// token, the quantity's numeric value and the unit kind.
pub open spec fn token_scan(s: Seq<char>, i: int) -> Option<(int, nat, UnitKind)> {
    match quantity_scan(s, i) {
        None => None,
        Some((j, ds)) => match unit_scan(s, j) {
            None => None,
            Some((k, u)) => Some((k, seq_val(ds), u)),
        },
    }
}

pub proof fn lemma_token_scan(s: Seq<char>, i: int)
    requires
        0 <= i <= s.len(),
        token_scan(s, i) is Some,
    ensures
        i < token_scan(s, i)->Some_0.0 <= s.len(),
{
    lemma_quantity_scan(s, i);
    let j = quantity_scan(s, i)->Some_0.0;
    lemma_unit_scan(s, j);
}

/// Greedily scan `quantity unit` tokens from `i`.  Returns the position
/// where scanning stopped and the tokens in source order.
pub open spec fn tokens_from(s: Seq<char>, i: int) -> (int, Seq<(nat, UnitKind)>)
    decreases s.len() - i,
{
    match token_scan(s, i) {
        None => (i, Seq::empty()),
        Some((k, q, u)) => if i < k <= s.len() {
            let rest = tokens_from(s, k);
            (rest.0, seq![(q, u)] + rest.1)
        } else {
            (i, Seq::empty())
        },
    }
}

pub proof fn lemma_tokens_from(s: Seq<char>, i: int)
    requires
        0 <= i <= s.len(),
    ensures
        i <= tokens_from(s, i).0 <= s.len(),
    decreases s.len() - i,
{
    if token_scan(s, i) is Some {
        lemma_token_scan(s, i);
        let k = token_scan(s, i)->Some_0.0;
        lemma_tokens_from(s, k);
    }
}

/// The anchored shorthand grammar: one or more tokens consuming the whole
/// input.
pub open spec fn shorthand_tokens(s: Seq<char>) -> Option<Seq<(nat, UnitKind)>> {
    let (e, toks) = tokens_from(s, 0);
    if e == s.len() && toks.len() > 0 {
        Some(toks)
    } else {
        None
    }
}

/// The anchored clock grammar `digits ":" digits ":" digits`, split into
/// its three digit fields.
pub open spec fn clock_split(s: Seq<char>) -> Option<(Seq<char>, Seq<char>, Seq<char>)> {
    let i = digit_run_end(s, 0);
    if 0 < i < s.len() && s[i] == ':' {
        let j = digit_run_end(s, i + 1);
        if i + 1 < j < s.len() && s[j] == ':' {
            let k = digit_run_end(s, j + 1);
            if j + 1 < k && k == s.len() {
                Some((s.subrange(0, i), s.subrange(i + 1, j), s.subrange(j + 1, k)))
            } else {
                None
            }
        } else {
            None
        }
    } else {
        None
    }
}

/// An unanchored clock match beginning exactly at `i`, as found inside free
/// text.  Returns the position after the match and the three digit fields.
pub open spec fn clock_at(s: Seq<char>, i: int) -> Option<(int, (Seq<char>, Seq<char>, Seq<char>))> {
    if 0 <= i < s.len() && is_digit(s[i]) {
        let a = digit_run_end(s, i);
        if a < s.len() && s[a] == ':' {
            let b = digit_run_end(s, a + 1);
            if a + 1 < b < s.len() && s[b] == ':' {
                let c = digit_run_end(s, b + 1);
                if b + 1 < c {
                    Some((c, (s.subrange(i, a), s.subrange(a + 1, b), s.subrange(b + 1, c))))
                } else {
                    None
                }
            } else {
                None
            }
        } else {
            None
        }
    } else {
        None
    }
}

pub proof fn lemma_clock_at(s: Seq<char>, i: int)
    requires
        0 <= i <= s.len(),
        clock_at(s, i) is Some,
    ensures
        i < clock_at(s, i)->Some_0.0 <= s.len(),
{
    lemma_digit_run_end(s, i);
    let a = digit_run_end(s, i);
    lemma_digit_run_end(s, a + 1);
    let b = digit_run_end(s, a + 1);
    lemma_digit_run_end(s, b + 1);
}

} // verus!
