//! Proved laws relating the formatter and the parsers.
//!
//! The central statement is [`lemma_canonical_round_trip`]: parsing the
//! canonical rendering of any duration value gives back exactly that
//! value, whenever the rendering is non-empty.

use vstd::prelude::*;

use crate::grammar::{UnitKind, all_digits, clock_split, digit_run_end, digit_val, is_digit,
    lemma_digit_run_end, lemma_digit_run_end_exact, lemma_seq_val_push, seq_val, shorthand_tokens,
    token_scan, tokens_from, unit_scan, quantity_scan, has_group, lower, long_unit_at,
    short1_unit_at, short2_unit_at, unit_seconds, unit_nanoseconds, group_run_end, group_digits,
    lemma_quantity_scan, lemma_unit_scan, lemma_token_scan, lemma_tokens_from, plural_end,
    word_week_at, word_day_at, word_hour_at, word_minute_at, word_second_at, word_millisecond_at,
    word_microsecond_at, word_nanosecond_at};
use crate::semantics::{assemble_shorthand, dec_rep, digit_char, spec_duration_as_string,
    spec_parse_duration, spec_parse_shorthand, spec_part, tokens_nanos, tokens_ok, tokens_secs,
    unit_suffix, lemma_tokens_secs_concat, weeks_of, days_of, hours_of, minutes_of, secs_of,
    millis_of, micros_of, nanos_of};

verus! {

proof fn lemma_dec_rep_digits(v: nat)
    ensures
        all_digits(dec_rep(v)),
        dec_rep(v).len() >= 1,
        is_digit(dec_rep(v)[0]),
    decreases v,
{
    if v < 10 {
        assert(is_digit(digit_char(v)));
        assert(dec_rep(v)[0] == digit_char(v));
    } else {
        lemma_dec_rep_digits(v / 10);
        assert(is_digit(digit_char(v % 10)));
        let d = dec_rep(v / 10);
        assert forall|k: int| 0 <= k < dec_rep(v).len() implies is_digit(dec_rep(v)[k]) by {
            if k < d.len() {
                assert(dec_rep(v)[k] == d[k]);
            } else {
                assert(dec_rep(v)[k] == digit_char(v % 10));
            }
        }
        assert(dec_rep(v)[0] == d[0]);
    }
}

proof fn lemma_dec_rep_val(v: nat)
    ensures
        seq_val(dec_rep(v)) == v,
    decreases v,
{
    if v < 10 {
        assert(seq![digit_char(v)].drop_last() =~= Seq::<char>::empty());
        assert(seq_val(Seq::<char>::empty()) == 0);
        assert(seq![digit_char(v)].last() == digit_char(v));
        assert(digit_val(digit_char(v)) == v);
    } else {
        lemma_dec_rep_val(v / 10);
        lemma_seq_val_push(dec_rep(v / 10), digit_char(v % 10));
        assert(dec_rep(v) =~= dec_rep(v / 10).push(digit_char(v % 10)));
        assert(digit_val(digit_char(v % 10)) == v % 10);
        vstd::arithmetic::div_mod::lemma_fundamental_div_mod(v as int, 10);
    }
}

/// The characters that a canonical rendering can contain: decimal digits
/// and the letters of the short suffixes.
pub open spec fn is_render_char(c: char) -> bool {
    ||| is_digit(c)
    ||| c == 'w'
    ||| c == 'd'
    ||| c == 'h'
    ||| c == 'm'
    ||| c == 's'
    ||| c == 'µ'
    ||| c == 'n'
}

proof fn lemma_suffix_chars(u: UnitKind)
    ensures
        1 <= unit_suffix(u).len() <= 2,
        forall|k: int| 0 <= k < unit_suffix(u).len() ==> is_render_char(#[trigger] unit_suffix(u)[k]),
        !is_digit(unit_suffix(u)[0]),
        unit_suffix(u)[0] != '_',
        unit_suffix(u)[0] != ' ',
{
    let sf = unit_suffix(u);
    match u {
        UnitKind::Week => {
            assert(sf[0] == 'w');
        },
        UnitKind::Day => {
            assert(sf[0] == 'd');
        },
        UnitKind::Hour => {
            assert(sf[0] == 'h');
        },
        UnitKind::Minute => {
            assert(sf[0] == 'm');
        },
        UnitKind::Second => {
            assert(sf[0] == 's');
        },
        UnitKind::Millisecond => {
            assert(sf[0] == 'm' && sf[1] == 's');
        },
        UnitKind::Microsecond => {
            assert(sf[0] == 'µ' && sf[1] == 's');
        },
        UnitKind::Nanosecond => {
            assert(sf[0] == 'n' && sf[1] == 's');
        },
    }
}

/// The concatenated rendering of a list of components, zero-valued ones
/// omitted.
pub open spec fn render_parts(ps: Seq<(nat, UnitKind)>) -> Seq<char>
    decreases ps.len(),
{
    if ps.len() == 0 {
        Seq::empty()
    } else {
        spec_part(ps[0].0, ps[0].1) + render_parts(ps.drop_first())
    }
}

/// The components with a non-zero value, in order.
pub open spec fn nonzero_tokens(ps: Seq<(nat, UnitKind)>) -> Seq<(nat, UnitKind)>
    decreases ps.len(),
{
    if ps.len() == 0 {
        Seq::empty()
    } else if ps[0].0 == 0 {
        nonzero_tokens(ps.drop_first())
    } else {
        seq![ps[0]] + nonzero_tokens(ps.drop_first())
    }
}

proof fn lemma_render_head(ps: Seq<(nat, UnitKind)>)
    ensures
        render_parts(ps).len() > 0 ==> is_digit(render_parts(ps)[0]),
    decreases ps.len(),
{
    if ps.len() == 0 {
    } else if ps[0].0 == 0 {
        lemma_render_head(ps.drop_first());
        assert(render_parts(ps) =~= render_parts(ps.drop_first()));
    } else {
        lemma_dec_rep_digits(ps[0].0);
        assert(render_parts(ps)[0] == dec_rep(ps[0].0)[0]);
    }
}

proof fn lemma_render_chars(ps: Seq<(nat, UnitKind)>)
    ensures
        forall|k: int|
            0 <= k < render_parts(ps).len() ==> is_render_char(#[trigger] render_parts(ps)[k]),
    decreases ps.len(),
{
    if ps.len() == 0 {
    } else {
        lemma_render_chars(ps.drop_first());
        let v = ps[0].0;
        let u = ps[0].1;
        let rest = render_parts(ps.drop_first());
        if v == 0 {
            assert(render_parts(ps) =~= rest);
        } else {
            lemma_dec_rep_digits(v);
            lemma_suffix_chars(u);
            let d = dec_rep(v);
            let sf = unit_suffix(u);
            assert forall|k: int| 0 <= k < render_parts(ps).len() implies is_render_char(
                #[trigger] render_parts(ps)[k],
            ) by {
                if k < d.len() {
                    assert(render_parts(ps)[k] == d[k]);
                } else if k < d.len() + sf.len() {
                    assert(render_parts(ps)[k] == sf[k - d.len()]);
                } else {
                    assert(render_parts(ps)[k] == rest[k - d.len() - sf.len()]);
                }
            }
        }
    }
}

proof fn lemma_no_colon_no_clock(s: Seq<char>)
    requires
        forall|k: int| 0 <= k < s.len() ==> s[k] != ':',
    ensures
        clock_split(s) is None,
{
    lemma_digit_run_end(s, 0);
}

proof fn lemma_nonzero_sums(ps: Seq<(nat, UnitKind)>)
    ensures
        tokens_secs(nonzero_tokens(ps)) == tokens_secs(ps),
        tokens_nanos(nonzero_tokens(ps)) == tokens_nanos(ps),
        tokens_ok(ps) ==> tokens_ok(nonzero_tokens(ps)),
        render_parts(ps).len() > 0 ==> nonzero_tokens(ps).len() > 0,
        nonzero_tokens(ps).len() > 0 ==> render_parts(ps).len() > 0,
        forall|k: int| 0 <= k < nonzero_tokens(ps).len() ==> (#[trigger] nonzero_tokens(ps)[k]).0
            > 0,
    decreases ps.len(),
{
    if ps.len() == 0 {
    } else {
        let t = ps[0];
        let rest = ps.drop_first();
        lemma_nonzero_sums(rest);
        if t.0 > 0 {
            lemma_dec_rep_digits(t.0);
        }
        if tokens_ok(ps) {
            assert forall|k: int| 0 <= k < rest.len() implies (#[trigger] rest[k]).0
                <= u64::MAX by {
                assert(rest[k] == ps[k + 1]);
            }
        }
        assert(tokens_secs(ps) == t.0 * unit_seconds(t.1) + tokens_secs(rest));
        assert(tokens_nanos(ps) == t.0 * unit_nanoseconds(t.1) + tokens_nanos(rest));
        if t.0 == 0 {
            assert(render_parts(ps) =~= render_parts(rest));
        } else {
            lemma_tokens_secs_concat(seq![t], nonzero_tokens(rest));
            assert(seq![t].drop_first() =~= Seq::<(nat, UnitKind)>::empty());
            assert(tokens_secs(Seq::<(nat, UnitKind)>::empty()) == 0);
            assert(tokens_nanos(Seq::<(nat, UnitKind)>::empty()) == 0);
            assert(seq![t][0] == t);
            assert(tokens_secs(seq![t]) == t.0 * unit_seconds(t.1));
            assert(tokens_nanos(seq![t]) == t.0 * unit_nanoseconds(t.1));
            let nz = nonzero_tokens(ps);
            if tokens_ok(ps) {
                assert forall|k: int| 0 <= k < nz.len() implies (#[trigger] nz[k]).0
                    <= u64::MAX by {
                    if k == 0 {
                        assert(nz[0] == t);
                    } else {
                        assert(nz[k] == nonzero_tokens(rest)[k - 1]);
                    }
                }
            }
            assert forall|k: int| 0 <= k < nz.len() implies (#[trigger] nz[k]).0 > 0 by {
                if k == 0 {
                    assert(nz[0] == t);
                } else {
                    assert(nz[k] == nonzero_tokens(rest)[k - 1]);
                }
            }
        }
    }
}

/// A token list whose head has a positive quantity contributes a positive
/// total: every unit is worth at least one nanosecond.
proof fn lemma_tokens_positive(t: Seq<(nat, UnitKind)>)
    requires
        t.len() > 0,
        t[0].0 > 0,
    ensures
        tokens_secs(t) + tokens_nanos(t) > 0,
{
    assert(unit_seconds(t[0].1) + unit_nanoseconds(t[0].1) >= 1);
    assert(t[0].0 * unit_seconds(t[0].1) + t[0].0 * unit_nanoseconds(t[0].1) >= 1) by {
        vstd::arithmetic::mul::lemma_mul_is_distributive_add(
            t[0].0 as int,
            unit_seconds(t[0].1) as int,
            unit_nanoseconds(t[0].1) as int,
        );
        vstd::arithmetic::mul::lemma_mul_inequality(
            1,
            t[0].0 as int,
            (unit_seconds(t[0].1) + unit_nanoseconds(t[0].1)) as int,
        );
    }
}

/// A unit suffix placed in text, followed by a digit or by the end of the
/// text, scans as exactly that unit.
proof fn lemma_unit_scan_suffix(s: Seq<char>, j: int, u: UnitKind)
    requires
        0 <= j,
        j + unit_suffix(u).len() <= s.len(),
        s.subrange(j, j + unit_suffix(u).len()) == unit_suffix(u),
        j + unit_suffix(u).len() == s.len() || is_digit(s[j + unit_suffix(u).len()]),
    ensures
        unit_scan(s, j) == Some((j + unit_suffix(u).len(), u)),
{
    let sf = unit_suffix(u);
    let e = j + sf.len();
    assert forall|k: int| 0 <= k < sf.len() implies s[j + k] == sf[k] by {
        assert(s.subrange(j, e)[k] == s[j + k]);
    }
    lemma_suffix_chars(u);
    match u {
        UnitKind::Week => {
            assert(s[j] == 'w');
        },
        UnitKind::Day => {
            assert(s[j] == 'd');
        },
        UnitKind::Hour => {
            assert(s[j] == 'h');
        },
        UnitKind::Minute => {
            assert(s[j] == 'm');
        },
        UnitKind::Second => {
            assert(s[j] == 's');
        },
        UnitKind::Millisecond => {
            assert(s[j] == 'm' && s[j + 1] == 's');
        },
        UnitKind::Microsecond => {
            assert(s[j] == 'µ' && s[j + 1] == 's');
        },
        UnitKind::Nanosecond => {
            assert(s[j] == 'n' && s[j + 1] == 's');
        },
    }
}

/// The central scanning lemma: a rendered component list, placed after any
/// prefix, scans from the end of that prefix to the end of the text and
/// yields exactly the non-zero components as tokens.
#[verifier::rlimit(100)]
proof fn lemma_scan_render(prefix: Seq<char>, ps: Seq<(nat, UnitKind)>)
    ensures
        tokens_from(prefix + render_parts(ps), prefix.len() as int) == (
            (prefix + render_parts(ps)).len() as int,
            nonzero_tokens(ps),
        ),
    decreases ps.len(),
{
    let s = prefix + render_parts(ps);
    let i = prefix.len() as int;
    if ps.len() == 0 {
        assert(s =~= prefix);
        assert(quantity_scan(s, i) is None);
        assert(token_scan(s, i) is None);
    } else {
        let t = ps[0];
        let rest = ps.drop_first();
        if t.0 == 0 {
            assert(prefix + render_parts(ps) =~= prefix + render_parts(rest));
            lemma_scan_render(prefix, rest);
        } else {
            let v = t.0;
            let u = t.1;
            let d = dec_rep(v);
            let sf = unit_suffix(u);
            lemma_dec_rep_digits(v);
            lemma_dec_rep_val(v);
            lemma_suffix_chars(u);
            let r = i + d.len();
            let k = r + sf.len();
            let rr = render_parts(rest);
            assert(render_parts(ps) == (d + sf) + rr);
            assert forall|x: int| 0 <= x < d.len() implies s[i + x] == d[x] by {
                assert(render_parts(ps)[x] == d[x]);
            }
            assert forall|x: int| 0 <= x < sf.len() implies s[r + x] == sf[x] by {
                assert(render_parts(ps)[d.len() + x] == sf[x]);
            }
            assert forall|x: int| 0 <= x < rr.len() implies s[k + x] == rr[x] by {
                assert(render_parts(ps)[d.len() + sf.len() + x] == rr[x]);
            }
            // the quantity scan takes exactly the decimal digits
            assert(s[r] == sf[0]);
            lemma_digit_run_end_exact(s, i, r);
            assert(!has_group(s, r));
            assert(s.subrange(i, r) =~= d);
            assert(quantity_scan(s, i) == Some((r, d)));
            // the unit scan takes exactly the suffix
            lemma_render_head(rest);
            if k < s.len() {
                assert(s[k] == rr[0]);
            }
            assert(s.subrange(r, k) =~= sf);
            lemma_unit_scan_suffix(s, r, u);
            assert(token_scan(s, i) == Some((k, v, u)));
            // the remaining components scan by induction
            lemma_scan_render(prefix + (d + sf), rest);
            assert((prefix + (d + sf)) + rr =~= s);
            assert((prefix + (d + sf)).len() as int == k);
            assert(tokens_from(s, k) == (s.len() as int, nonzero_tokens(rest)));
            assert(tokens_from(s, i).0 == s.len() as int);
            assert(tokens_from(s, i).1 == seq![(v, u)] + nonzero_tokens(rest));
            assert(seq![(v, u)] + nonzero_tokens(rest) =~= nonzero_tokens(ps));
        }
    }
}

/// The component list of the canonical decomposition, largest unit first,
/// zero-valued components included.
pub open spec fn canonical_parts(sn: nat, nn: nat) -> Seq<(nat, UnitKind)> {
    seq![
        (weeks_of(sn), UnitKind::Week),
        (days_of(sn), UnitKind::Day),
        (hours_of(sn), UnitKind::Hour),
        (minutes_of(sn), UnitKind::Minute),
        (secs_of(sn), UnitKind::Second),
        (millis_of(nn), UnitKind::Millisecond),
        (micros_of(nn), UnitKind::Microsecond),
        (nanos_of(nn), UnitKind::Nanosecond),
    ]
}

/// Unfold the recursions over the eight-component canonical list.
#[verifier::rlimit(100)]
proof fn lemma_canonical_structure(sn: nat, nn: nat)
    ensures
        tokens_secs(canonical_parts(sn, nn)) == weeks_of(sn) * 604800 + days_of(sn) * 86400
            + hours_of(sn) * 3600 + minutes_of(sn) * 60 + secs_of(sn),
        tokens_nanos(canonical_parts(sn, nn)) == millis_of(nn) * 1_000_000 + micros_of(nn) * 1_000
            + nanos_of(nn),
{
    let s0 = canonical_parts(sn, nn);
    let s1 = seq![
        (days_of(sn), UnitKind::Day),
        (hours_of(sn), UnitKind::Hour),
        (minutes_of(sn), UnitKind::Minute),
        (secs_of(sn), UnitKind::Second),
        (millis_of(nn), UnitKind::Millisecond),
        (micros_of(nn), UnitKind::Microsecond),
        (nanos_of(nn), UnitKind::Nanosecond),
    ];
    let s2 = s1.drop_first();
    let s3 = s2.drop_first();
    let s4 = s3.drop_first();
    let s5 = s4.drop_first();
    let s6 = s5.drop_first();
    let s7 = s6.drop_first();
    let s8 = s7.drop_first();
    assert(s0.drop_first() =~= s1);
    assert(s8 =~= Seq::<(nat, UnitKind)>::empty());
    assert(s1[0] == (days_of(sn), UnitKind::Day));
    assert(s2[0] == (hours_of(sn), UnitKind::Hour));
    assert(s3[0] == (minutes_of(sn), UnitKind::Minute));
    assert(s4[0] == (secs_of(sn), UnitKind::Second));
    assert(s5[0] == (millis_of(nn), UnitKind::Millisecond));
    assert(s6[0] == (micros_of(nn), UnitKind::Microsecond));
    assert(s7[0] == (nanos_of(nn), UnitKind::Nanosecond));
    assert(tokens_secs(s8) == 0);
    assert(tokens_secs(s7) == nanos_of(nn) * 0 + tokens_secs(s8));
    assert(tokens_secs(s6) == micros_of(nn) * 0 + tokens_secs(s7));
    assert(tokens_secs(s5) == millis_of(nn) * 0 + tokens_secs(s6));
    assert(tokens_secs(s4) == secs_of(sn) * 1 + tokens_secs(s5));
    assert(tokens_secs(s3) == minutes_of(sn) * 60 + tokens_secs(s4));
    assert(tokens_secs(s2) == hours_of(sn) * 3600 + tokens_secs(s3));
    assert(tokens_secs(s1) == days_of(sn) * 86400 + tokens_secs(s2));
    assert(tokens_secs(s0) == weeks_of(sn) * 604800 + tokens_secs(s1));
    assert(tokens_nanos(s8) == 0);
    assert(tokens_nanos(s7) == nanos_of(nn) * 1 + tokens_nanos(s8));
    assert(tokens_nanos(s6) == micros_of(nn) * 1_000 + tokens_nanos(s7));
    assert(tokens_nanos(s5) == millis_of(nn) * 1_000_000 + tokens_nanos(s6));
    assert(tokens_nanos(s4) == secs_of(sn) * 0 + tokens_nanos(s5));
    assert(tokens_nanos(s3) == minutes_of(sn) * 0 + tokens_nanos(s4));
    assert(tokens_nanos(s2) == hours_of(sn) * 0 + tokens_nanos(s3));
    assert(tokens_nanos(s1) == days_of(sn) * 0 + tokens_nanos(s2));
    assert(tokens_nanos(s0) == weeks_of(sn) * 0 + tokens_nanos(s1));
}

/// Unfold the rendering of the eight-component canonical list.
#[verifier::rlimit(100)]
proof fn lemma_canonical_render(sn: nat, nn: nat)
    ensures
        render_parts(canonical_parts(sn, nn)) == spec_duration_as_string(sn, nn),
{
    let s0 = canonical_parts(sn, nn);
    let s1 = seq![
        (days_of(sn), UnitKind::Day),
        (hours_of(sn), UnitKind::Hour),
        (minutes_of(sn), UnitKind::Minute),
        (secs_of(sn), UnitKind::Second),
        (millis_of(nn), UnitKind::Millisecond),
        (micros_of(nn), UnitKind::Microsecond),
        (nanos_of(nn), UnitKind::Nanosecond),
    ];
    let s2 = s1.drop_first();
    let s3 = s2.drop_first();
    let s4 = s3.drop_first();
    let s5 = s4.drop_first();
    let s6 = s5.drop_first();
    let s7 = s6.drop_first();
    let s8 = s7.drop_first();
    assert(s0.drop_first() =~= s1);
    assert(s8 =~= Seq::<(nat, UnitKind)>::empty());
    assert(s1[0] == (days_of(sn), UnitKind::Day));
    assert(s2[0] == (hours_of(sn), UnitKind::Hour));
    assert(s3[0] == (minutes_of(sn), UnitKind::Minute));
    assert(s4[0] == (secs_of(sn), UnitKind::Second));
    assert(s5[0] == (millis_of(nn), UnitKind::Millisecond));
    assert(s6[0] == (micros_of(nn), UnitKind::Microsecond));
    assert(s7[0] == (nanos_of(nn), UnitKind::Nanosecond));
    let a1 = spec_part(weeks_of(sn), UnitKind::Week);
    let a2 = spec_part(days_of(sn), UnitKind::Day);
    let a3 = spec_part(hours_of(sn), UnitKind::Hour);
    let a4 = spec_part(minutes_of(sn), UnitKind::Minute);
    let a5 = spec_part(secs_of(sn), UnitKind::Second);
    let a6 = spec_part(millis_of(nn), UnitKind::Millisecond);
    let a7 = spec_part(micros_of(nn), UnitKind::Microsecond);
    let a8 = spec_part(nanos_of(nn), UnitKind::Nanosecond);
    assert(render_parts(s8) =~= Seq::<char>::empty());
    assert(render_parts(s7) == a8 + render_parts(s8));
    assert(render_parts(s7) =~= a8);
    assert(render_parts(s6) == a7 + render_parts(s7));
    assert(render_parts(s5) == a6 + (a7 + a8));
    assert(render_parts(s4) == a5 + (a6 + (a7 + a8)));
    assert(render_parts(s3) == a4 + (a5 + (a6 + (a7 + a8))));
    assert(render_parts(s2) == a3 + (a4 + (a5 + (a6 + (a7 + a8)))));
    assert(render_parts(s1) == a2 + (a3 + (a4 + (a5 + (a6 + (a7 + a8))))));
    assert(render_parts(s0) == a1 + (a2 + (a3 + (a4 + (a5 + (a6 + (a7 + a8)))))));
    // re-associate towards the formatter's left-nested concatenation
    assert(((((((a1 + a2) + a3) + a4) + a5) + a6) + a7) + a8 =~= (((((a1 + a2) + a3) + a4) + a5)
        + a6) + (a7 + a8));
    assert((((((a1 + a2) + a3) + a4) + a5) + a6) + (a7 + a8) =~= ((((a1 + a2) + a3) + a4) + a5) + (
    a6 + (a7 + a8)));
    assert(((((a1 + a2) + a3) + a4) + a5) + (a6 + (a7 + a8)) =~= (((a1 + a2) + a3) + a4) + (a5 + (a6
        + (a7 + a8))));
    assert((((a1 + a2) + a3) + a4) + (a5 + (a6 + (a7 + a8))) =~= ((a1 + a2) + a3) + (a4 + (a5 + (a6
        + (a7 + a8)))));
    assert(((a1 + a2) + a3) + (a4 + (a5 + (a6 + (a7 + a8)))) =~= (a1 + a2) + (a3 + (a4 + (a5 + (a6
        + (a7 + a8))))));
    assert((a1 + a2) + (a3 + (a4 + (a5 + (a6 + (a7 + a8))))) =~= a1 + (a2 + (a3 + (a4 + (a5 + (a6
        + (a7 + a8)))))));
    assert(spec_duration_as_string(sn, nn) == ((((((a1 + a2) + a3) + a4) + a5) + a6) + a7) + a8);
}

#[verifier::rlimit(100)]
proof fn lemma_canonical_sums(sn: nat, nn: nat)
    requires
        sn <= u64::MAX,
        nn < 1_000_000_000,
    ensures
        tokens_secs(canonical_parts(sn, nn)) == sn,
        tokens_nanos(canonical_parts(sn, nn)) == nn,
        tokens_ok(canonical_parts(sn, nn)),
{
    let ps = canonical_parts(sn, nn);
    lemma_canonical_structure(sn, nn);
    vstd::arithmetic::div_mod::lemma_mod_mod(sn as int, 86400, 7);
    vstd::arithmetic::div_mod::lemma_mod_mod(sn as int, 3600, 24);
    vstd::arithmetic::div_mod::lemma_mod_mod(sn as int, 60, 60);
    vstd::arithmetic::div_mod::lemma_fundamental_div_mod(sn as int, 604800);
    vstd::arithmetic::div_mod::lemma_fundamental_div_mod((sn % 604800) as int, 86400);
    vstd::arithmetic::div_mod::lemma_fundamental_div_mod((sn % 86400) as int, 3600);
    vstd::arithmetic::div_mod::lemma_fundamental_div_mod((sn % 3600) as int, 60);
    vstd::arithmetic::div_mod::lemma_mod_bound(sn as int, 604800);
    vstd::arithmetic::div_mod::lemma_mod_bound(sn as int, 86400);
    vstd::arithmetic::div_mod::lemma_mod_bound(sn as int, 3600);
    vstd::arithmetic::div_mod::lemma_mod_bound(sn as int, 60);
    assert(tokens_secs(ps) == sn);
    vstd::arithmetic::div_mod::lemma_mod_mod(nn as int, 1000, 1000);
    vstd::arithmetic::div_mod::lemma_fundamental_div_mod(nn as int, 1_000_000);
    vstd::arithmetic::div_mod::lemma_fundamental_div_mod((nn % 1_000_000) as int, 1000);
    vstd::arithmetic::div_mod::lemma_mod_bound(nn as int, 1_000_000);
    vstd::arithmetic::div_mod::lemma_mod_bound(nn as int, 1000);
    assert(tokens_nanos(ps) == nn);
    assert(tokens_ok(ps));
}

/// Round trip through the canonical form: parsing the canonical rendering
/// of a duration value yields exactly that value, whenever the rendering
/// is non-empty.  (Only the zero duration renders as the empty string,
/// which no duration grammar accepts.)
#[verifier::rlimit(100)]
pub proof fn lemma_canonical_round_trip(secs: u64, nanos: u32)
    requires
        nanos < 1_000_000_000,
        spec_duration_as_string(secs as nat, nanos as nat).len() > 0,
    ensures
        spec_parse_duration(spec_duration_as_string(secs as nat, nanos as nat)) == Some(
            (secs, nanos),
        ),
{
    let sn = secs as nat;
    let nn = nanos as nat;
    let f = spec_duration_as_string(sn, nn);
    let ps = canonical_parts(sn, nn);
    // the canonical rendering is the rendering of the component list
    lemma_canonical_render(sn, nn);
    // it scans as exactly the non-zero components
    lemma_scan_render(Seq::<char>::empty(), ps);
    assert(Seq::<char>::empty() + render_parts(ps) =~= f);
    let toks = nonzero_tokens(ps);
    lemma_nonzero_sums(ps);
    assert(tokens_from(f, 0) == (f.len() as int, toks));
    assert(toks.len() > 0);
    assert(shorthand_tokens(f) == Some(toks));
    // it holds no colon, so the clock grammar does not match it
    lemma_render_chars(ps);
    assert forall|k: int| 0 <= k < f.len() implies f[k] != ':' by {
        assert(is_render_char(f[k]));
    }
    lemma_no_colon_no_clock(f);
    // the component contributions recombine into the original value
    lemma_canonical_sums(sn, nn);
    // assembling the tokens gives back the original pair
    vstd::arithmetic::div_mod::lemma_basic_div(nn as int, 1_000_000_000);
    vstd::arithmetic::div_mod::lemma_small_mod(nn, 1_000_000_000);
    assert(tokens_secs(toks) + tokens_nanos(toks) / 1_000_000_000 == sn);
    assert(assemble_shorthand(toks) == Some((secs, nanos)));
    assert(spec_parse_shorthand(f) == Some((secs, nanos)));
}

proof fn lemma_shift_digit_run(p: Seq<char>, b: Seq<char>, j: int)
    requires
        0 <= j <= b.len(),
    ensures
        digit_run_end(p + b, p.len() + j) == p.len() + digit_run_end(b, j),
    decreases b.len() - j,
{
    if j < b.len() {
        assert((p + b)[p.len() + j] == b[j]);
        if is_digit(b[j]) {
            lemma_shift_digit_run(p, b, j + 1);
        }
    }
}

proof fn lemma_shift_group(p: Seq<char>, b: Seq<char>, j: int)
    requires
        0 <= j <= b.len(),
    ensures
        has_group(p + b, p.len() + j) == has_group(b, j),
        group_run_end(p + b, p.len() + j) == p.len() + group_run_end(b, j),
        group_digits(p + b, p.len() + j) == group_digits(b, j),
    decreases b.len() - j,
{
    let s = p + b;
    let q = p.len() + j;
    if j + 4 <= b.len() {
        assert(s[q] == b[j]);
        assert(s[q + 1] == b[j + 1]);
        assert(s[q + 2] == b[j + 2]);
        assert(s[q + 3] == b[j + 3]);
    }
    if has_group(b, j) {
        lemma_shift_group(p, b, j + 4);
        assert(group_digits(s, q) =~= group_digits(b, j));
    } else {
        assert(!has_group(s, q));
        assert(group_digits(s, q) =~= group_digits(b, j));
    }
}

proof fn lemma_shift_quantity(p: Seq<char>, b: Seq<char>, j: int)
    requires
        0 <= j <= b.len(),
    ensures
        quantity_scan(p + b, p.len() + j) == (match quantity_scan(b, j) {
            None => None::<(int, Seq<char>)>,
            Some((e, ds)) => Some((p.len() + e, ds)),
        }),
{
    let s = p + b;
    let q = p.len() + j;
    if j < b.len() {
        assert(s[q] == b[j]);
    }
    lemma_shift_digit_run(p, b, j);
    let r = digit_run_end(b, j);
    lemma_digit_run_end(b, j);
    lemma_shift_group(p, b, r);
    if quantity_scan(b, j) is Some {
        assert(s.subrange(q, p.len() + r) =~= b.subrange(j, r));
    }
}

proof fn lemma_shift_unit(p: Seq<char>, b: Seq<char>, j: int)
    requires
        0 <= j <= b.len(),
    ensures
        unit_scan(p + b, p.len() + j) == (match unit_scan(b, j) {
            None => None::<(int, UnitKind)>,
            Some((e, u)) => Some((p.len() + e, u)),
        }),
{
    let s = p + b;
    let q = p.len() + j;
    assert forall|k: int| j <= k < b.len() implies s[p.len() + k] == b[k] by {}
    assert(s.len() == p.len() + b.len());
    assert(long_unit_at(s, q) == (match long_unit_at(b, j) {
        None => None::<(int, UnitKind)>,
        Some((e, u)) => Some((p.len() + e, u)),
    }));
    assert(long_unit_at(s, q + 1) == (match long_unit_at(b, j + 1) {
        None => None::<(int, UnitKind)>,
        Some((e, u)) => Some((p.len() + e, u)),
    }));
    assert(short2_unit_at(s, q) == short2_unit_at(b, j));
    assert(short1_unit_at(s, q) == short1_unit_at(b, j));
}

proof fn lemma_shift_tokens_from(p: Seq<char>, b: Seq<char>, j: int)
    requires
        0 <= j <= b.len(),
    ensures
        tokens_from(p + b, p.len() + j) == (
            p.len() + tokens_from(b, j).0,
            tokens_from(b, j).1,
        ),
    decreases b.len() - j,
{
    let s = p + b;
    let q = p.len() + j;
    lemma_shift_quantity(p, b, j);
    if quantity_scan(b, j) is Some {
        let (e, ds) = quantity_scan(b, j)->Some_0;
        lemma_quantity_scan(b, j);
        lemma_shift_unit(p, b, e);
        if unit_scan(b, e) is Some {
            let (k, u) = unit_scan(b, e)->Some_0;
            lemma_unit_scan(b, e);
            assert(token_scan(s, q) == Some((p.len() + k, seq_val(ds), u)));
            lemma_shift_tokens_from(p, b, k);
        } else {
            assert(token_scan(s, q) is None);
            assert(token_scan(b, j) is None);
        }
    } else {
        assert(token_scan(s, q) is None);
        assert(token_scan(b, j) is None);
    }
}

/// A unit can begin neither with a digit nor with a separator.
proof fn lemma_unit_first_char(s: Seq<char>, j: int)
    requires
        unit_scan(s, j) is Some,
    ensures
        0 <= j < s.len(),
        !is_digit(s[j]),
        s[j] != '_',
{
}

/// Appending digit-led text does not change the groups scanned strictly
/// inside the original text.
proof fn lemma_group_stable(a: Seq<char>, b: Seq<char>, p: int)
    requires
        0 <= p <= a.len(),
        group_run_end(a, p) < a.len(),
        a[group_run_end(a, p)] != '_',
    ensures
        has_group(a + b, p) == has_group(a, p),
        group_run_end(a + b, p) == group_run_end(a, p),
        group_digits(a + b, p) == group_digits(a, p),
    decreases a.len() - p,
{
    let s = a + b;
    if has_group(a, p) {
        assert(s[p] == a[p]);
        assert(s[p + 1] == a[p + 1]);
        assert(s[p + 2] == a[p + 2]);
        assert(s[p + 3] == a[p + 3]);
        lemma_group_stable(a, b, p + 4);
        assert(group_digits(s, p) =~= group_digits(a, p));
    } else {
        assert(s[p] == a[p]);
        assert(!has_group(s, p));
        assert(group_digits(s, p) =~= group_digits(a, p));
    }
}

/// Appending digit-led text does not change a quantity that is followed,
/// strictly inside the original text, by something other than a digit or
/// a separator.
proof fn lemma_quantity_stable(a: Seq<char>, b: Seq<char>, i: int)
    requires
        0 <= i <= a.len(),
        quantity_scan(a, i) is Some,
        quantity_scan(a, i)->Some_0.0 < a.len(),
        !is_digit(a[quantity_scan(a, i)->Some_0.0]),
        a[quantity_scan(a, i)->Some_0.0] != '_',
    ensures
        quantity_scan(a + b, i) == quantity_scan(a, i),
{
    let s = a + b;
    let j = quantity_scan(a, i)->Some_0.0;
    let r = digit_run_end(a, i);
    lemma_digit_run_end(a, i);
    assert(s[i] == a[i]);
    if r - i <= 3 && has_group(a, r) {
        // the grouped path: the digit run ends at the first separator
        assert(a[r] == '_');
        assert(r < a.len());
        lemma_digit_run_end_exact(s, i, r);
        assert(j == group_run_end(a, r));
        lemma_group_stable(a, b, r);
        assert(s.subrange(i, r) =~= a.subrange(i, r));
    } else {
        // the plain path: the run is followed by the unit inside `a`
        assert(j == r);
        lemma_digit_run_end_exact(s, i, r);
        assert(!has_group(s, r));
        assert(s.subrange(i, r) =~= a.subrange(i, r));
    }
}

/// Appending digit-led text does not change the long name matched at a
/// position of the original text: a name crossing the junction would put
/// a letter where the digit stands.
#[verifier::rlimit(100)]
proof fn lemma_long_unit_stable(a: Seq<char>, b: Seq<char>, j2: int)
    requires
        0 <= j2 <= a.len(),
        b.len() > 0,
        is_digit(b[0]),
    ensures
        long_unit_at(a + b, j2) == long_unit_at(a, j2),
{
    let s = a + b;
    let m = a.len() as int;
    assert(s[m] == b[0]);
    assert forall|x: int| 0 <= x < m implies s[x] == a[x] by {}
    assert(word_week_at(s, j2) == word_week_at(a, j2)) by {
        if word_week_at(s, j2) && j2 + 4 > m {
            assert(is_digit(s[m]));
            assert(false);
        }
    }
    assert(word_day_at(s, j2) == word_day_at(a, j2)) by {
        if word_day_at(s, j2) && j2 + 3 > m {
            assert(is_digit(s[m]));
            assert(false);
        }
    }
    assert(word_hour_at(s, j2) == word_hour_at(a, j2)) by {
        if word_hour_at(s, j2) && j2 + 4 > m {
            assert(is_digit(s[m]));
            assert(false);
        }
    }
    assert(word_minute_at(s, j2) == word_minute_at(a, j2)) by {
        if word_minute_at(s, j2) && j2 + 6 > m {
            assert(is_digit(s[m]));
            assert(false);
        }
    }
    assert(word_millisecond_at(s, j2) == word_millisecond_at(a, j2)) by {
        if word_millisecond_at(s, j2) && j2 + 11 > m {
            assert(is_digit(s[m]));
            assert(false);
        }
    }
    assert(word_microsecond_at(s, j2) == word_microsecond_at(a, j2)) by {
        if word_microsecond_at(s, j2) && j2 + 11 > m {
            assert(is_digit(s[m]));
            assert(false);
        }
    }
    assert(word_nanosecond_at(s, j2) == word_nanosecond_at(a, j2)) by {
        if word_nanosecond_at(s, j2) && j2 + 10 > m {
            assert(is_digit(s[m]));
            assert(false);
        }
    }
    assert(word_second_at(s, j2) == word_second_at(a, j2)) by {
        if word_second_at(s, j2) && j2 + 6 > m {
            assert(is_digit(s[m]));
            assert(false);
        }
    }
    assert forall|e: int| 0 <= e <= m implies plural_end(s, e) == plural_end(a, e) by {
        if e < m {
            assert(s[e] == a[e]);
        } else {
            assert(s[e] == b[0]);
        }
    }
}

/// Appending digit-led text does not change the unit scanned at a
/// position of the original text.
#[verifier::rlimit(100)]
proof fn lemma_unit_stable(a: Seq<char>, b: Seq<char>, j: int)
    requires
        0 <= j <= a.len(),
        b.len() > 0 ==> is_digit(b[0]),
    ensures
        unit_scan(a + b, j) == unit_scan(a, j),
{
    let s = a + b;
    if b.len() == 0 {
        assert(s =~= a);
    } else {
        let m = a.len() as int;
        assert(s[m] == b[0]);
        assert forall|x: int| 0 <= x < m implies s[x] == a[x] by {}
        lemma_long_unit_stable(a, b, j);
        if j < s.len() && s[j] == ' ' {
            assert(j < m);
            lemma_long_unit_stable(a, b, j + 1);
        } else {
            assert(short2_unit_at(s, j) == short2_unit_at(a, j)) by {
                if j + 1 < m {
                    assert(s[j + 1] == a[j + 1]);
                } else if j + 1 == m {
                    assert(s[j + 1] == b[0]);
                    assert(lower(s[j + 1]) != 's');
                }
            }
            assert(short1_unit_at(s, j) == short1_unit_at(a, j)) by {
                if j < m {
                    assert(s[j] == a[j]);
                } else if j == m {
                    assert(s[j] == b[0]);
                }
            }
        }
    }
}

/// Appending a valid shorthand string to a fully scanned one scans the
/// original tokens first and continues at the junction.
proof fn lemma_append_tokens(a: Seq<char>, b: Seq<char>, i: int)
    requires
        0 <= i <= a.len(),
        tokens_from(a, i).0 == a.len(),
        b.len() > 0 ==> is_digit(b[0]),
    ensures
        tokens_from(a + b, i) == (
            tokens_from(a + b, a.len() as int).0,
            tokens_from(a, i).1 + tokens_from(a + b, a.len() as int).1,
        ),
    decreases a.len() - i,
{
    let s = a + b;
    match token_scan(a, i) {
        None => {
            assert(tokens_from(a, i) == (i, Seq::<(nat, UnitKind)>::empty()));
            assert(i == a.len());
            assert(Seq::<(nat, UnitKind)>::empty() + tokens_from(s, a.len() as int).1 =~= tokens_from(
                s,
                a.len() as int,
            ).1);
        },
        Some((k, q, u)) => {
            lemma_token_scan(a, i);
            let j = quantity_scan(a, i)->Some_0.0;
            lemma_quantity_scan(a, i);
            lemma_unit_first_char(a, j);
            lemma_quantity_stable(a, b, i);
            lemma_unit_stable(a, b, j);
            assert(token_scan(s, i) == Some((k, q, u)));
            assert(tokens_from(a, i).0 == tokens_from(a, k).0);
            assert(tokens_from(a, i).1 == seq![(q, u)] + tokens_from(a, k).1);
            lemma_append_tokens(a, b, k);
            assert(tokens_from(s, i).1 == seq![(q, u)] + tokens_from(s, k).1);
            assert(seq![(q, u)] + (tokens_from(a, k).1 + tokens_from(s, a.len() as int).1) =~= (
            seq![(q, u)] + tokens_from(a, k).1) + tokens_from(s, a.len() as int).1);
        },
    }
}

/// Accumulation across concatenation: gluing two valid shorthand strings
/// together parses to the tokens of the first followed by the tokens of
/// the second, so every unit's contributions are summed, never
/// overwritten.  With [`crate::semantics::lemma_tokens_secs_concat`] the
/// totals of the concatenation are the sums of the two strings' totals.
pub proof fn lemma_shorthand_concat(a: Seq<char>, b: Seq<char>)
    requires
        shorthand_tokens(a) is Some,
        shorthand_tokens(b) is Some,
    ensures
        shorthand_tokens(a + b) == Some(
            shorthand_tokens(a)->Some_0 + shorthand_tokens(b)->Some_0,
        ),
{
    let ta = shorthand_tokens(a)->Some_0;
    let tb = shorthand_tokens(b)->Some_0;
    assert(tokens_from(b, 0).1.len() > 0);
    assert(token_scan(b, 0) is Some);
    assert(is_digit(b[0]));
    lemma_append_tokens(a, b, 0);
    lemma_shift_tokens_from(a, b, 0);
    lemma_tokens_from(b, 0);
    assert(tokens_from(a + b, 0) == ((a + b).len() as int, ta + tb));
    assert((ta + tb).len() > 0);
}

/// The canonical rendering is empty exactly for the zero duration.
pub proof fn lemma_empty_rendering_iff_zero(secs: u64, nanos: u32)
    requires
        nanos < 1_000_000_000,
    ensures
        spec_duration_as_string(secs as nat, nanos as nat).len() == 0 <==> (secs == 0 && nanos
            == 0),
{
    let sn = secs as nat;
    let nn = nanos as nat;
    let ps = canonical_parts(sn, nn);
    let nz = nonzero_tokens(ps);
    lemma_canonical_render(sn, nn);
    lemma_canonical_sums(sn, nn);
    lemma_nonzero_sums(ps);
    if nz.len() > 0 {
        lemma_tokens_positive(nz);
        assert(sn + nn > 0);
        assert(render_parts(ps).len() > 0);
    } else {
        assert(sn == 0 && nn == 0);
        assert(render_parts(ps).len() == 0);
    }
}

} // verus!
