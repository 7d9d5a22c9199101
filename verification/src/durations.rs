//! The public parsing and formatting operations on duration values.

use vstd::prelude::*;

use crate::error::{Error, is_invalid_duration};
use crate::grammar::{UnitKind, unit_seconds, unit_nanoseconds, tokens_from, is_digit,
    lemma_clock_at};
use crate::recognizer::{exec_clock_split, exec_clock_at, exec_scan_tokens, parse_field, to_chars};
use crate::semantics::{spec_parse_hms, spec_parse_shorthand, spec_parse_duration,
    spec_parse_durations, assemble_shorthand, assemble_clock, match_at_pos, extract_from,
    toks_view, tokens_ok, tokens_secs, tokens_nanos, lemma_tokens_push, lemma_tokens_secs_concat,
    lemma_carry, spec_duration_as_string, spec_part, dec_rep, digit_char};
use vstd::string::StringExecFns;

verus! {

/// A non-negative span of time: whole seconds plus sub-second nanoseconds.
///
/// A well-formed value keeps the nanosecond part below one second; every
/// operation of this crate constructs and returns well-formed values only.
#[derive(Clone, Copy, PartialEq, Eq, Structural, Debug, Hash)]
pub struct Duration {
    pub secs: u64,
    pub nanos: u32,
}

impl Duration {
    /// The invariant of a duration value: the sub-second part holds fewer
    /// nanoseconds than one whole second.
    pub open spec fn wf(&self) -> bool {
        self.nanos < 1_000_000_000
    }

    pub fn new(secs: u64, nanos: u32) -> (r: Duration)
        requires
            nanos < 1_000_000_000,
        ensures
            r == (Duration { secs, nanos }),
            r.wf(),
    {
        Duration { secs, nanos }
    }

    pub fn as_secs(&self) -> (r: u64)
        ensures
            r == self.secs,
    {
        self.secs
    }

    pub fn subsec_nanos(&self) -> (r: u32)
        ensures
            r == self.nanos,
    {
        self.nanos
    }
}

/// Parse the clock form `H:M:S`: one or more digits per field, anchored at
/// both ends.  The hour is unbounded below the unsigned 64-bit limit; the
/// minute and the second must lie in `[0, 59]`.  Any failure reports the
/// whole input as an invalid duration.
pub fn parse_duration_hms(interval: &str) -> (r: Result<Duration, Error>)
    ensures
        match spec_parse_hms(interval@) {
            Some(t) => r matches Ok(d) && d == (Duration { secs: t, nanos: 0 }),
            None => r matches Err(e) && is_invalid_duration(e, interval@),
        },
{
    let cs = to_chars(interval);
    hms_from_chars(&cs, interval)
}

/// The clock-form recognizer and assembler over already decoded characters.
fn hms_from_chars(cs: &Vec<char>, interval: &str) -> (r: Result<Duration, Error>)
    requires
        cs@ == interval@,
    ensures
        match spec_parse_hms(interval@) {
            Some(t) => r matches Ok(d) && d == (Duration { secs: t, nanos: 0 }),
            None => r matches Err(e) && is_invalid_duration(e, interval@),
        },
{
    match exec_clock_split(cs) {
        None => Err(Error::invalid_duration(interval)),
        Some((i, j)) => match clock_fields_value(cs, 0, i, j, cs.len()) {
            None => Err(Error::invalid_duration(interval)),
            Some(t) => Ok(Duration { secs: t, nanos: 0 }),
        },
    }
}

/// Validate and combine the three digit fields of a clock match:
/// `hours * 3600 + minutes * 60 + seconds`, with the minute and the second
/// bounded by 59 and the total bounded by the unsigned 64-bit range.
fn clock_fields_value(cs: &Vec<char>, start: usize, a: usize, b: usize, c: usize) -> (r: Option<
    u64,
>)
    requires
        start <= a,
        a + 1 <= b,
        b + 1 <= c <= cs.len(),
        forall|k: int| start <= k < a ==> is_digit(cs@[k]),
        forall|k: int| a < k < b ==> is_digit(cs@[k]),
        forall|k: int| b < k < c ==> is_digit(cs@[k]),
    ensures
        r == assemble_clock(
            cs@.subrange(start as int, a as int),
            cs@.subrange(a as int + 1, b as int),
            cs@.subrange(b as int + 1, c as int),
        ),
{
    let (hv, hover) = parse_field(cs, start, a);
    let (mv, mover) = parse_field(cs, a + 1, b);
    let (sv, sover) = parse_field(cs, b + 1, c);
    if hover || mover || sover || mv > 59 || sv > 59 {
        return None;
    }
    match hv.checked_mul(3600) {
        None => None,
        Some(t1) => match t1.checked_add(mv * 60 + sv) {
            None => None,
            Some(t) => Some(t),
        },
    }
}

/// The conversion factors of one unit into whole seconds and into
/// sub-second nanoseconds; exactly one of the two is non-zero.
fn unit_factors(u: UnitKind) -> (r: (u64, u64))
    ensures
        r.0 as nat == unit_seconds(u),
        r.1 as nat == unit_nanoseconds(u),
{
    match u {
        UnitKind::Week => (604800, 0),
        UnitKind::Day => (86400, 0),
        UnitKind::Hour => (3600, 0),
        UnitKind::Minute => (60, 0),
        UnitKind::Second => (1, 0),
        UnitKind::Millisecond => (0, 1_000_000),
        UnitKind::Microsecond => (0, 1_000),
        UnitKind::Nanosecond => (0, 1),
    }
}

/// Accumulate scanned tokens into a duration value, carrying whole seconds
/// out of the running nanosecond total; `None` when the whole-second total
/// leaves the unsigned 64-bit range.
fn assemble_tokens(toks: &Vec<(u64, UnitKind)>) -> (r: Option<Duration>)
    ensures
        match assemble_shorthand(toks_view(toks@)) {
            Some(p) => r matches Some(d) && d == (Duration { secs: p.0, nanos: p.1 }),
            None => r is None,
        },
{
    let ghost st = toks_view(toks@);
    proof {
        assert forall|k: int| 0 <= k < st.len() implies (#[trigger] st[k]).0 <= u64::MAX by {
            assert(st[k] == (toks@[k].0 as nat, toks@[k].1));
        }
        assert(st.take(0) =~= Seq::<(nat, UnitKind)>::empty());
    }
    let mut secs: u64 = 0;
    let mut nanos: u64 = 0;
    let mut t: usize = 0;
    while t < toks.len()
        invariant
            t <= toks.len(),
            st == toks_view(toks@),
            st.len() == toks@.len(),
            tokens_ok(st),
            nanos < 1_000_000_000,
            secs as nat == tokens_secs(st.take(t as int)) + tokens_nanos(st.take(t as int))
                / 1_000_000_000,
            nanos as nat == tokens_nanos(st.take(t as int)) % 1_000_000_000,
        decreases toks.len() - t,
    {
        let (q, u) = toks[t];
        let (fs, fnn) = unit_factors(u);
        let ghost tt = t as int;
        let ghost tok = st[tt];
        let ghost a_nanos = tokens_nanos(st.take(tt));
        let ghost qs = tok.0 * unit_seconds(tok.1);
        let ghost qn = tok.0 * unit_nanoseconds(tok.1);
        let ghost target = tokens_secs(st.take(tt + 1)) + tokens_nanos(st.take(tt + 1))
            / 1_000_000_000;
        proof {
            assert(st[tt] == (toks@[tt].0 as nat, toks@[tt].1));
            assert(st.take(tt + 1) =~= st.take(tt).push(tok));
            lemma_tokens_push(st.take(tt), tok);
            assert(st =~= st.take(tt + 1) + st.skip(tt + 1));
            lemma_tokens_secs_concat(st.take(tt + 1), st.skip(tt + 1));
            vstd::arithmetic::div_mod::lemma_div_is_ordered(
                tokens_nanos(st.take(tt + 1)) as int,
                tokens_nanos(st) as int,
                1_000_000_000,
            );
            vstd::arithmetic::div_mod::lemma_div_is_ordered(
                a_nanos as int,
                (a_nanos + qn) as int,
                1_000_000_000,
            );
            lemma_carry(a_nanos, qn);
            assert(tokens_secs(st) + tokens_nanos(st) / 1_000_000_000 >= target);
        }
        let csec = match q.checked_mul(fs) {
            Some(c) => c,
            None => {
                proof {
                    assert(qs > u64::MAX);
                    assert(tokens_secs(st.take(tt + 1)) >= qs);
                }
                return None;
            },
        };
        let s1 = match secs.checked_add(csec) {
            Some(s) => s,
            None => {
                return None;
            },
        };
        proof {
            assert(fnn <= 1_000_000);
            vstd::arithmetic::mul::lemma_mul_upper_bound(
                q as int,
                u64::MAX as int,
                fnn as int,
                1_000_000,
            );
        }
        let big: u128 = (q as u128) * (fnn as u128);
        proof {
            assert(big as nat == qn);
            vstd::arithmetic::div_mod::lemma_div_is_ordered(
                big as int,
                u64::MAX as int * 1_000_000,
                1_000_000_000,
            );
        }
        let carry = (big / 1_000_000_000) as u64;
        let add_n = (big % 1_000_000_000) as u64;
        let n2 = nanos + add_n;
        let carry2 = n2 / 1_000_000_000;
        let rem = n2 % 1_000_000_000;
        let s2 = match s1.checked_add(carry) {
            Some(s) => s,
            None => {
                return None;
            },
        };
        let s3 = match s2.checked_add(carry2) {
            Some(s) => s,
            None => {
                return None;
            },
        };
        secs = s3;
        nanos = rem;
        proof {
            assert(tokens_nanos(st.take(tt + 1)) == a_nanos + qn);
            assert((a_nanos + qn) / 1_000_000_000 == a_nanos / 1_000_000_000 + carry + carry2);
            assert((a_nanos + qn) % 1_000_000_000 == rem);
        }
        t += 1;
    }
    proof {
        assert(st.take(toks@.len() as int) =~= st);
    }
    Some(Duration { secs, nanos: nanos as u32 })
}

/// The shorthand recognizer and assembler over already decoded characters.
fn shorthand_from_chars(cs: &Vec<char>, interval: &str) -> (r: Result<Duration, Error>)
    requires
        cs@ == interval@,
    ensures
        match spec_parse_shorthand(interval@) {
            Some(p) => r matches Ok(d) && d == (Duration { secs: p.0, nanos: p.1 }),
            None => r matches Err(e) && is_invalid_duration(e, interval@),
        },
{
    let (end, toks, over) = exec_scan_tokens(cs, 0);
    if end != cs.len() || toks.len() == 0 {
        Err(Error::invalid_duration(interval))
    } else if over {
        Err(Error::invalid_duration(interval))
    } else {
        match assemble_tokens(&toks) {
            None => Err(Error::invalid_duration(interval)),
            Some(d) => Ok(d),
        }
    }
}

/// Parse the shorthand form: one or more `quantity unit` pairs consuming
/// the whole input, their contributions summed and normalized.  Any
/// failure reports the whole input as an invalid duration.
pub fn parse_duration_shorthand(interval: &str) -> (r: Result<Duration, Error>)
    ensures
        match spec_parse_shorthand(interval@) {
            Some(p) => r matches Ok(d) && d == (Duration { secs: p.0, nanos: p.1 }),
            None => r matches Err(e) && is_invalid_duration(e, interval@),
        },
{
    let cs = to_chars(interval);
    shorthand_from_chars(&cs, interval)
}

/// Parse either form: the clock form when its grammar matches the whole
/// input, the shorthand form otherwise.  Any failure reports the whole
/// input as an invalid duration.
pub fn parse_duration(interval: &str) -> (r: Result<Duration, Error>)
    ensures
        match spec_parse_duration(interval@) {
            Some(p) => r matches Ok(d) && d == (Duration { secs: p.0, nanos: p.1 }),
            None => r matches Err(e) && is_invalid_duration(e, interval@),
        },
{
    let cs = to_chars(interval);
    match exec_clock_split(&cs) {
        Some(_) => hms_from_chars(&cs, interval),
        None => shorthand_from_chars(&cs, interval),
    }
}

/// Extract every duration occurrence from free text, in left-to-right
/// order; text between matches is skipped.  Fails when a matched
/// occurrence does not assemble, or when there is no match at all, and
/// then reports the whole input as an invalid duration.
pub fn parse_durations(string: &str) -> (r: Result<Vec<Duration>, Error>)
    ensures
        match spec_parse_durations(string@) {
            Some(ds) => r matches Ok(v) && v@.len() == ds.len() && (forall|k: int|
                0 <= k < ds.len() ==> (#[trigger] v@[k]) == (Duration {
                    secs: ds[k].0,
                    nanos: ds[k].1,
                })),
            None => r matches Err(e) && is_invalid_duration(e, string@),
        },
{
    let cs = to_chars(string);
    let ghost s = cs@;
    let mut out: Vec<Duration> = Vec::new();
    let mut i: usize = 0;
    let ghost mut done: Seq<Option<(u64, u32)>> = Seq::empty();
    proof {
        assert(extract_from(s, 0) =~= done + extract_from(s, 0));
    }
    while i < cs.len()
        invariant
            i <= cs.len(),
            s == cs@,
            s == string@,
            extract_from(s, 0) == done + extract_from(s, i as int),
            out@.len() == done.len(),
            forall|k: int|
                0 <= k < done.len() ==> (#[trigger] done[k]) is Some && out@[k] == (Duration {
                    secs: done[k]->Some_0.0,
                    nanos: done[k]->Some_0.1,
                }),
        decreases cs.len() - i,
    {
        let ghost prev_done = done;
        match exec_clock_at(&cs, i) {
            Some((a, b, c)) => {
                proof {
                    lemma_clock_at(s, i as int);
                }
                let v = clock_fields_value(&cs, i, a, b, c);
                let ghost dopt = match_at_pos(s, i as int)->Some_0.1;
                proof {
                    assert(match_at_pos(s, i as int) matches Some(p) && p.0 == c as int);
                    assert(extract_from(s, i as int) == seq![dopt] + extract_from(s, c as int));
                    assert(prev_done + (seq![dopt] + extract_from(s, c as int)) =~= (prev_done
                        + seq![dopt]) + extract_from(s, c as int));
                }
                match v {
                    None => {
                        proof {
                            let ms = extract_from(s, 0);
                            assert(ms[prev_done.len() as int] is None);
                        }
                        return Err(Error::invalid_duration(string));
                    },
                    Some(t) => {
                        out.push(Duration { secs: t, nanos: 0 });
                        proof {
                            done = prev_done + seq![dopt];
                        }
                        i = c;
                    },
                }
            },
            None => {
                let (e, toks, over) = exec_scan_tokens(&cs, i);
                if e > i {
                    let ghost st = tokens_from(s, i as int).1;
                    let ghost dopt = assemble_shorthand(st);
                    proof {
                        assert(st.len() > 0);
                        assert(match_at_pos(s, i as int) == Some((e as int, dopt)));
                        assert(extract_from(s, i as int) == seq![dopt] + extract_from(s, e as int));
                        assert(prev_done + (seq![dopt] + extract_from(s, e as int)) =~= (prev_done
                            + seq![dopt]) + extract_from(s, e as int));
                    }
                    let d = if over {
                        None
                    } else {
                        assemble_tokens(&toks)
                    };
                    match d {
                        None => {
                            proof {
                                let ms = extract_from(s, 0);
                                assert(dopt is None);
                                assert(ms[prev_done.len() as int] is None);
                            }
                            return Err(Error::invalid_duration(string));
                        },
                        Some(dur) => {
                            out.push(dur);
                            proof {
                                done = prev_done + seq![dopt];
                            }
                            i = e;
                        },
                    }
                } else {
                    proof {
                        assert(match_at_pos(s, i as int) is None);
                        assert(extract_from(s, i as int) == extract_from(s, i as int + 1));
                    }
                    i = i + 1;
                }
            },
        }
    }
    proof {
        assert(extract_from(s, i as int) =~= Seq::<Option<(u64, u32)>>::empty());
        assert(extract_from(s, 0) =~= done);
    }
    if out.len() == 0 {
        Err(Error::invalid_duration(string))
    } else {
        Ok(out)
    }
}

/// Append one decimal digit character.
fn append_digit(out: &mut String, d: u64)
    requires
        d < 10,
    ensures
        final(out)@ == old(out)@ + seq![digit_char(d as nat)],
{
    if d == 0 {
        out.append("0");
        proof {
            reveal_strlit("0");
            assert(final(out)@ =~= old(out)@ + seq![digit_char(d as nat)]);
        }
    } else if d == 1 {
        out.append("1");
        proof {
            reveal_strlit("1");
            assert(final(out)@ =~= old(out)@ + seq![digit_char(d as nat)]);
        }
    } else if d == 2 {
        out.append("2");
        proof {
            reveal_strlit("2");
            assert(final(out)@ =~= old(out)@ + seq![digit_char(d as nat)]);
        }
    } else if d == 3 {
        out.append("3");
        proof {
            reveal_strlit("3");
            assert(final(out)@ =~= old(out)@ + seq![digit_char(d as nat)]);
        }
    } else if d == 4 {
        out.append("4");
        proof {
            reveal_strlit("4");
            assert(final(out)@ =~= old(out)@ + seq![digit_char(d as nat)]);
        }
    } else if d == 5 {
        out.append("5");
        proof {
            reveal_strlit("5");
            assert(final(out)@ =~= old(out)@ + seq![digit_char(d as nat)]);
        }
    } else if d == 6 {
        out.append("6");
        proof {
            reveal_strlit("6");
            assert(final(out)@ =~= old(out)@ + seq![digit_char(d as nat)]);
        }
    } else if d == 7 {
        out.append("7");
        proof {
            reveal_strlit("7");
            assert(final(out)@ =~= old(out)@ + seq![digit_char(d as nat)]);
        }
    } else if d == 8 {
        out.append("8");
        proof {
            reveal_strlit("8");
            assert(final(out)@ =~= old(out)@ + seq![digit_char(d as nat)]);
        }
    } else {
        out.append("9");
        proof {
            reveal_strlit("9");
            assert(final(out)@ =~= old(out)@ + seq![digit_char(d as nat)]);
        }
    }
}

/// Append the decimal representation of `n`, most significant digit first.
fn push_dec(out: &mut String, n: u64)
    ensures
        final(out)@ == old(out)@ + dec_rep(n as nat),
    decreases n,
{
    if n >= 10 {
        push_dec(out, n / 10);
        append_digit(out, n % 10);
        proof {
            assert(final(out)@ =~= old(out)@ + (dec_rep(n as nat / 10) + seq![
                digit_char((n % 10) as nat),
            ]));
        }
    } else {
        append_digit(out, n);
    }
}

/// Append one formatted component: nothing when the value is zero, else
/// the value followed by the unit's short suffix.
fn append_part(out: &mut String, v: u64, u: UnitKind)
    ensures
        final(out)@ == old(out)@ + spec_part(v as nat, u),
{
    if v > 0 {
        push_dec(out, v);
        match u {
            UnitKind::Week => {
                out.append("w");
                proof {
                    reveal_strlit("w");
                    assert(final(out)@ =~= old(out)@ + spec_part(v as nat, u));
                }
            },
            UnitKind::Day => {
                out.append("d");
                proof {
                    reveal_strlit("d");
                    assert(final(out)@ =~= old(out)@ + spec_part(v as nat, u));
                }
            },
            UnitKind::Hour => {
                out.append("h");
                proof {
                    reveal_strlit("h");
                    assert(final(out)@ =~= old(out)@ + spec_part(v as nat, u));
                }
            },
            UnitKind::Minute => {
                out.append("m");
                proof {
                    reveal_strlit("m");
                    assert(final(out)@ =~= old(out)@ + spec_part(v as nat, u));
                }
            },
            UnitKind::Second => {
                out.append("s");
                proof {
                    reveal_strlit("s");
                    assert(final(out)@ =~= old(out)@ + spec_part(v as nat, u));
                }
            },
            UnitKind::Millisecond => {
                out.append("ms");
                proof {
                    reveal_strlit("ms");
                    assert(final(out)@ =~= old(out)@ + spec_part(v as nat, u));
                }
            },
            UnitKind::Microsecond => {
                out.append("µs");
                proof {
                    reveal_strlit("µs");
                    assert(final(out)@ =~= old(out)@ + spec_part(v as nat, u));
                }
            },
            UnitKind::Nanosecond => {
                out.append("ns");
                proof {
                    reveal_strlit("ns");
                    assert(final(out)@ =~= old(out)@ + spec_part(v as nat, u));
                }
            },
        }
    } else {
        proof {
            assert(final(out)@ =~= old(out)@ + spec_part(v as nat, u));
        }
    }
}

/// Render a duration value as canonical shorthand text: each non-zero
/// component of the largest-unit-first decomposition, largest first, with
/// no separators, using the short suffixes.  A zero duration renders as
/// the empty string.
pub fn duration_as_string(duration: &Duration) -> (r: String)
    ensures
        r@ == spec_duration_as_string(duration.secs as nat, duration.nanos as nat),
{
    let total = duration.secs;
    let subsec: u64 = duration.nanos as u64;
    let weeks = total / 604800;
    let days = (total % 604800) / 86400;
    let hours = (total % 86400) / 3600;
    let minutes = (total % 3600) / 60;
    let seconds = total % 60;
    let millis = subsec / 1_000_000;
    let micros = (subsec % 1_000_000) / 1_000;
    let nanos = subsec % 1_000;
    let mut out = String::new();
    append_part(&mut out, weeks, UnitKind::Week);
    append_part(&mut out, days, UnitKind::Day);
    append_part(&mut out, hours, UnitKind::Hour);
    append_part(&mut out, minutes, UnitKind::Minute);
    append_part(&mut out, seconds, UnitKind::Second);
    append_part(&mut out, millis, UnitKind::Millisecond);
    append_part(&mut out, micros, UnitKind::Microsecond);
    append_part(&mut out, nanos, UnitKind::Nanosecond);
    proof {
        assert(out@ =~= spec_duration_as_string(duration.secs as nat, duration.nanos as nat));
    }
    out
}

} // verus!
