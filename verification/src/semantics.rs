//! The semantic model: how a recognized parse is validated and accumulated
//! into a duration value, and how a duration value is rendered back as
//! canonical shorthand text.

use vstd::prelude::*;

use crate::grammar::{
    UnitKind, clock_at, clock_split, seq_val, shorthand_tokens, tokens_from, unit_nanoseconds,
    unit_seconds,
};

verus! {

/// Total whole seconds contributed by a token sequence.
pub open spec fn tokens_secs(toks: Seq<(nat, UnitKind)>) -> nat
    decreases toks.len(),
{
    if toks.len() == 0 {
        0
    } else {
        toks[0].0 * unit_seconds(toks[0].1) + tokens_secs(toks.drop_first())
    }
}

/// Total sub-second nanoseconds contributed by a token sequence, before
/// carrying whole seconds out.
pub open spec fn tokens_nanos(toks: Seq<(nat, UnitKind)>) -> nat
    decreases toks.len(),
{
    if toks.len() == 0 {
        0
    } else {
        toks[0].0 * unit_nanoseconds(toks[0].1) + tokens_nanos(toks.drop_first())
    }
}

/// Every quantity is representable as an unsigned 64-bit integer.
pub open spec fn tokens_ok(toks: Seq<(nat, UnitKind)>) -> bool {
    forall|i: int| 0 <= i < toks.len() ==> (#[trigger] toks[i]).0 <= u64::MAX
}

/// The mathematical reading of machine-level tokens.
pub open spec fn toks_view(ts: Seq<(u64, UnitKind)>) -> Seq<(nat, UnitKind)> {
    ts.map_values(|t: (u64, UnitKind)| (t.0 as nat, t.1))
}

pub proof fn lemma_tokens_secs_concat(a: Seq<(nat, UnitKind)>, b: Seq<(nat, UnitKind)>)
    ensures
        tokens_secs(a + b) == tokens_secs(a) + tokens_secs(b),
        tokens_nanos(a + b) == tokens_nanos(a) + tokens_nanos(b),
    decreases a.len(),
{
    if a.len() == 0 {
        assert(a + b =~= b);
    } else {
        assert((a + b).drop_first() =~= a.drop_first() + b);
        lemma_tokens_secs_concat(a.drop_first(), b);
    }
}

pub proof fn lemma_tokens_push(a: Seq<(nat, UnitKind)>, t: (nat, UnitKind))
    ensures
        tokens_secs(a.push(t)) == tokens_secs(a) + t.0 * unit_seconds(t.1),
        tokens_nanos(a.push(t)) == tokens_nanos(a) + t.0 * unit_nanoseconds(t.1),
{
    assert(a.push(t) =~= a + seq![t]);
    lemma_tokens_secs_concat(a, seq![t]);
    assert(seq![t].drop_first() =~= Seq::<(nat, UnitKind)>::empty());
    assert(tokens_secs(Seq::<(nat, UnitKind)>::empty()) == 0);
    assert(tokens_nanos(Seq::<(nat, UnitKind)>::empty()) == 0);
    assert(seq![t][0] == t);
    assert(tokens_secs(seq![t]) == t.0 * unit_seconds(t.1));
    assert(tokens_nanos(seq![t]) == t.0 * unit_nanoseconds(t.1));
}

/// Carrying: adding `b` nanoseconds to `a` nanoseconds adds the whole
/// seconds of `b` plus at most one more carried second.
pub proof fn lemma_carry(a: nat, b: nat)
    ensures
        (a + b) / 1_000_000_000 == a / 1_000_000_000 + b / 1_000_000_000 + (a % 1_000_000_000 + b
            % 1_000_000_000) / 1_000_000_000,
        (a + b) % 1_000_000_000 == (a % 1_000_000_000 + b % 1_000_000_000) % 1_000_000_000,
{
    let d = 1_000_000_000int;
    vstd::arithmetic::div_mod::lemma_fundamental_div_mod(a as int, d);
    vstd::arithmetic::div_mod::lemma_fundamental_div_mod(b as int, d);
    vstd::arithmetic::div_mod::lemma_mod_bound(a as int, d);
    vstd::arithmetic::div_mod::lemma_mod_bound(b as int, d);
    let s = a % 1_000_000_000 + b % 1_000_000_000;
    vstd::arithmetic::div_mod::lemma_fundamental_div_mod(s as int, d);
    vstd::arithmetic::div_mod::lemma_mod_bound(s as int, d);
    vstd::arithmetic::div_mod::lemma_fundamental_div_mod_converse(
        (a + b) as int,
        d,
        a as int / d + b as int / d + s as int / d,
        s as int % d,
    );
}

/// Accumulate a shorthand token sequence: sum each unit's contribution,
/// carry whole seconds out of the nanosecond total, and fail on a quantity
/// or a seconds total that exceeds the unsigned 64-bit range.
pub open spec fn assemble_shorthand(toks: Seq<(nat, UnitKind)>) -> Option<(u64, u32)> {
    if !tokens_ok(toks) {
        None
    } else {
        let total = tokens_secs(toks) + tokens_nanos(toks) / 1_000_000_000;
        if total > u64::MAX {
            None
        } else {
            Some((total as u64, (tokens_nanos(toks) % 1_000_000_000) as u32))
        }
    }
}

/// Assemble a clock-form match: the hour is unbounded, the minute and the
/// second must lie in `[0, 59]`, and the whole-second total must be
/// representable as an unsigned 64-bit integer.
pub open spec fn assemble_clock(h: Seq<char>, m: Seq<char>, s: Seq<char>) -> Option<u64> {
    let hv = seq_val(h);
    let mv = seq_val(m);
    let sv = seq_val(s);
    if hv > u64::MAX || mv > 59 || sv > 59 {
        None
    } else if hv * 3600 + mv * 60 + sv > u64::MAX {
        None
    } else {
        Some((hv * 3600 + mv * 60 + sv) as u64)
    }
}

/// The clock-form parse: grammar match, then assembly.
pub open spec fn spec_parse_hms(s: Seq<char>) -> Option<u64> {
    match clock_split(s) {
        None => None,
        Some((h, m, sec)) => assemble_clock(h, m, sec),
    }
}

/// The shorthand parse: grammar match, then assembly.
pub open spec fn spec_parse_shorthand(s: Seq<char>) -> Option<(u64, u32)> {
    match shorthand_tokens(s) {
        None => None,
        Some(toks) => assemble_shorthand(toks),
    }
}

/// The unified parse: clock form when its grammar matches the whole input,
/// shorthand form otherwise.  An assembly failure of a matched clock form
/// does not fall back to shorthand.
pub open spec fn spec_parse_duration(s: Seq<char>) -> Option<(u64, u32)> {
    if clock_split(s) is Some {
        match spec_parse_hms(s) {
            Some(t) => Some((t, 0)),
            None => None,
        }
    } else {
        spec_parse_shorthand(s)
    }
}

/// One duration match beginning exactly at `i` inside free text: a clock
/// match is preferred, otherwise a greedy non-empty run of shorthand
/// tokens.  Returns the position after the match and its assembly result
/// (`None` for a match whose assembly fails).
pub open spec fn match_at_pos(s: Seq<char>, i: int) -> Option<(int, Option<(u64, u32)>)> {
    match clock_at(s, i) {
        Some((e, (h, m, sec))) => Some(
            (
                e,
                match assemble_clock(h, m, sec) {
                    Some(t) => Some((t, 0)),
                    None => None,
                },
            ),
        ),
        None => {
            let (e, toks) = tokens_from(s, i);
            if e > i && toks.len() > 0 {
                Some((e, assemble_shorthand(toks)))
            } else {
                None
            }
        },
    }
}

/// All non-overlapping duration matches of the free text from `i` on, in
/// left-to-right order; text between matches is skipped.
pub open spec fn extract_from(s: Seq<char>, i: int) -> Seq<Option<(u64, u32)>>
    decreases s.len() - i,
{
    if !(0 <= i < s.len()) {
        Seq::empty()
    } else {
        match match_at_pos(s, i) {
            Some((e, d)) => if i < e <= s.len() {
                seq![d] + extract_from(s, e)
            } else {
                seq![d]
            },
            None => extract_from(s, i + 1),
        }
    }
}

/// The list parse: every match must assemble, and there must be at least
/// one.
pub open spec fn spec_parse_durations(s: Seq<char>) -> Option<Seq<(u64, u32)>> {
    let ms = extract_from(s, 0);
    if ms.len() == 0 {
        None
    } else if forall|i: int| 0 <= i < ms.len() ==> (#[trigger] ms[i]) is Some {
        Some(Seq::new(ms.len(), |i: int| ms[i]->Some_0))
    } else {
        None
    }
}

/// The decimal digit character for `d` in `[0, 9]`.
pub open spec fn digit_char(d: nat) -> char {
    if d == 0 {
        '0'
    } else if d == 1 {
        '1'
    } else if d == 2 {
        '2'
    } else if d == 3 {
        '3'
    } else if d == 4 {
        '4'
    } else if d == 5 {
        '5'
    } else if d == 6 {
        '6'
    } else if d == 7 {
        '7'
    } else if d == 8 {
        '8'
    } else {
        '9'
    }
}

/// The decimal representation of `n`, most significant digit first, with
/// no leading zeros except for `n == 0` itself.
pub open spec fn dec_rep(n: nat) -> Seq<char>
    decreases n,
{
    if n < 10 {
        seq![digit_char(n)]
    } else {
        dec_rep(n / 10) + seq![digit_char(n % 10)]
    }
}

/// The canonical short suffix emitted for each unit.
pub open spec fn unit_suffix(u: UnitKind) -> Seq<char> {
    match u {
        UnitKind::Week => seq!['w'],
        UnitKind::Day => seq!['d'],
        UnitKind::Hour => seq!['h'],
        UnitKind::Minute => seq!['m'],
        UnitKind::Second => seq!['s'],
        UnitKind::Millisecond => seq!['m', 's'],
        UnitKind::Microsecond => seq!['µ', 's'],
        UnitKind::Nanosecond => seq!['n', 's'],
    }
}

/// One formatted component: empty when the value is zero, else the value
/// followed by the unit's short suffix.
pub open spec fn spec_part(v: nat, u: UnitKind) -> Seq<char> {
    if v == 0 {
        Seq::empty()
    } else {
        dec_rep(v) + unit_suffix(u)
    }
}

/// The largest-unit-first decomposition of a duration value.
pub open spec fn weeks_of(secs: nat) -> nat {
    secs / 604800
}

pub open spec fn days_of(secs: nat) -> nat {
    (secs % 604800) / 86400
}

pub open spec fn hours_of(secs: nat) -> nat {
    (secs % 86400) / 3600
}

pub open spec fn minutes_of(secs: nat) -> nat {
    (secs % 3600) / 60
}

pub open spec fn secs_of(secs: nat) -> nat {
    secs % 60
}

pub open spec fn millis_of(nanos: nat) -> nat {
    nanos / 1_000_000
}

pub open spec fn micros_of(nanos: nat) -> nat {
    (nanos % 1_000_000) / 1_000
}

pub open spec fn nanos_of(nanos: nat) -> nat {
    nanos % 1_000
}

/// The canonical shorthand rendering of a duration value: each non-zero
/// component of the largest-unit-first decomposition, in fixed order, with
/// no separators.  A zero duration renders as the empty sequence.
pub open spec fn spec_duration_as_string(secs: nat, nanos: nat) -> Seq<char> {
    spec_part(weeks_of(secs), UnitKind::Week) + spec_part(days_of(secs), UnitKind::Day) + spec_part(
        hours_of(secs),
        UnitKind::Hour,
    ) + spec_part(minutes_of(secs), UnitKind::Minute) + spec_part(secs_of(secs), UnitKind::Second)
        + spec_part(millis_of(nanos), UnitKind::Millisecond) + spec_part(
        micros_of(nanos),
        UnitKind::Microsecond,
    ) + spec_part(nanos_of(nanos), UnitKind::Nanosecond)
}

} // verus!
