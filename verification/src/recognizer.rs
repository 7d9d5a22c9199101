//! The recognizer: executable scanning over the characters of the input,
//! verified against the grammar descriptor in [`crate::grammar`].

use vstd::prelude::*;
use vstd::string::StrSliceExecFns;

use crate::grammar::{digit_run_end, digit_val, is_digit, lemma_digit_run_end, seq_val, clock_split,
    lemma_seq_val_push, UnitKind, lower, long_unit_at, short1_unit_at, short2_unit_at, unit_scan,
    has_group, group_run_end, group_digits, lemma_group_run, quantity_scan, lemma_quantity_scan,
    token_scan, tokens_from, lemma_token_scan, word_second_at, word_week_at, word_day_at,
    word_hour_at, word_minute_at, word_millisecond_at, word_microsecond_at, word_nanosecond_at,
    plural_end, clock_at};
use crate::semantics::{toks_view, tokens_ok};

verus! {

/// The characters of `s`, in order.
pub(crate) fn to_chars(s: &str) -> (r: Vec<char>)
    ensures
        r@ == s@,
{
    let n = s.unicode_len();
    let mut v: Vec<char> = Vec::new();
    let mut i: usize = 0;
    while i < n
        invariant
            n == s@.len(),
            i <= n,
            v@ == s@.subrange(0, i as int),
        decreases n - i,
    {
        v.push(s.get_char(i));
        i += 1;
        proof {
            assert(v@ =~= s@.subrange(0, i as int));
        }
    }
    proof {
        assert(s@.subrange(0, n as int) =~= s@);
    }
    v
}

/// First position at or after `i` that does not hold a decimal digit.
pub(crate) fn scan_digit_run(cs: &Vec<char>, i: usize) -> (r: usize)
    requires
        i <= cs.len(),
    ensures
        r as int == digit_run_end(cs@, i as int),
        i <= r <= cs.len(),
        forall|k: int| i <= k < r ==> is_digit(cs@[k]),
        r < cs.len() ==> !is_digit(cs@[r as int]),
{
    let mut j = i;
    while j < cs.len() && '0' <= cs[j] && cs[j] <= '9'
        invariant
            i <= j <= cs.len(),
            digit_run_end(cs@, i as int) == digit_run_end(cs@, j as int),
        decreases cs.len() - j,
    {
        j += 1;
    }
    proof {
        lemma_digit_run_end(cs@, i as int);
    }
    j
}

/// Fold the digits of `cs[a..b]` onto an accumulated value, reporting by a
/// flag when the value has left the unsigned 64-bit range.  The ghost
/// sequence `ds` holds the digits already folded into `acc`.
pub(crate) fn accumulate_range(
    cs: &Vec<char>,
    a: usize,
    b: usize,
    acc: u64,
    over: bool,
    ds: Ghost<Seq<char>>,
) -> (r: (u64, bool))
    requires
        a <= b <= cs.len(),
        forall|k: int| a <= k < b ==> is_digit(cs@[k]),
        !over ==> acc == seq_val(ds@),
        over ==> seq_val(ds@) > u64::MAX,
    ensures
        !r.1 ==> r.0 == seq_val(ds@ + cs@.subrange(a as int, b as int)),
        r.1 ==> seq_val(ds@ + cs@.subrange(a as int, b as int)) > u64::MAX,
{
    let mut j = a;
    let mut cur = acc;
    let mut o = over;
    proof {
        assert(ds@ + cs@.subrange(a as int, a as int) =~= ds@);
    }
    while j < b
        invariant
            a <= j <= b <= cs.len(),
            forall|k: int| a <= k < b ==> is_digit(cs@[k]),
            !o ==> cur == seq_val(ds@ + cs@.subrange(a as int, j as int)),
            o ==> seq_val(ds@ + cs@.subrange(a as int, j as int)) > u64::MAX,
        decreases b - j,
    {
        let c = cs[j];
        let ghost prev = ds@ + cs@.subrange(a as int, j as int);
        let d = (c as u32 - 48) as u64;
        proof {
            assert(is_digit(cs@[j as int]));
            assert(d == digit_val(c));
            lemma_seq_val_push(prev, c);
            assert(ds@ + cs@.subrange(a as int, j as int + 1) =~= prev.push(c));
        }
        if !o {
            match cur.checked_mul(10) {
                Some(m) => match m.checked_add(d) {
                    Some(v) => {
                        cur = v;
                    },
                    None => {
                        o = true;
                    },
                },
                None => {
                    proof {
                        assert(seq_val(prev) * 10 + digit_val(c) >= seq_val(prev) * 10);
                    }
                    o = true;
                },
            }
        } else {
            proof {
                assert(seq_val(prev) * 10 >= seq_val(prev));
            }
        }
        j += 1;
    }
    (cur, o)
}

/// Fold the digits of `cs[a..b]` into a value from zero.
pub(crate) fn parse_field(cs: &Vec<char>, a: usize, b: usize) -> (r: (u64, bool))
    requires
        a <= b <= cs.len(),
        forall|k: int| a <= k < b ==> is_digit(cs@[k]),
    ensures
        !r.1 ==> r.0 == seq_val(cs@.subrange(a as int, b as int)),
        r.1 ==> seq_val(cs@.subrange(a as int, b as int)) > u64::MAX,
{
    let r = accumulate_range(cs, a, b, 0, false, Ghost(Seq::empty()));
    proof {
        assert(Seq::<char>::empty() + cs@.subrange(a as int, b as int) =~= cs@.subrange(
            a as int,
            b as int,
        ));
    }
    r
}

/// Match the whole input against the anchored clock grammar, returning the
/// positions of the two colons.
pub(crate) fn exec_clock_split(cs: &Vec<char>) -> (r: Option<(usize, usize)>)
    ensures
        r is Some <==> clock_split(cs@) is Some,
        r matches Some(p) ==> {
            &&& 0 < p.0 < p.1 < cs.len()
            &&& clock_split(cs@) == Some(
                (
                    cs@.subrange(0, p.0 as int),
                    cs@.subrange(p.0 as int + 1, p.1 as int),
                    cs@.subrange(p.1 as int + 1, cs@.len() as int),
                ),
            )
            &&& forall|k: int| 0 <= k < p.0 ==> is_digit(cs@[k])
            &&& forall|k: int| p.0 < k < p.1 ==> is_digit(cs@[k])
            &&& forall|k: int| p.1 < k < cs@.len() ==> is_digit(cs@[k])
        },
{
    let i = scan_digit_run(cs, 0);
    if !(0 < i && i < cs.len()) {
        return None;
    }
    if cs[i] != ':' {
        return None;
    }
    let j = scan_digit_run(cs, i + 1);
    if !(i + 1 < j && j < cs.len()) {
        return None;
    }
    if cs[j] != ':' {
        return None;
    }
    let k = scan_digit_run(cs, j + 1);
    if !(j + 1 < k && k == cs.len()) {
        return None;
    }
    Some((i, j))
}

/// Match a clock form `digits ":" digits ":" digits` beginning exactly at
/// `i` inside free text, returning the positions of the two colons and the
/// position after the match.
pub(crate) fn exec_clock_at(cs: &Vec<char>, i: usize) -> (r: Option<(usize, usize, usize)>)
    requires
        i <= cs.len(),
    ensures
        r is Some <==> clock_at(cs@, i as int) is Some,
        r matches Some(p) ==> {
            &&& i < p.0 < p.1 < p.2 <= cs.len()
            &&& clock_at(cs@, i as int) == Some(
                (
                    p.2 as int,
                    (
                        cs@.subrange(i as int, p.0 as int),
                        cs@.subrange(p.0 as int + 1, p.1 as int),
                        cs@.subrange(p.1 as int + 1, p.2 as int),
                    ),
                ),
            )
            &&& forall|k: int| i <= k < p.0 ==> is_digit(cs@[k])
            &&& forall|k: int| p.0 < k < p.1 ==> is_digit(cs@[k])
            &&& forall|k: int| p.1 < k < p.2 ==> is_digit(cs@[k])
        },
{
    if !(i < cs.len() && '0' <= cs[i] && cs[i] <= '9') {
        return None;
    }
    let a = scan_digit_run(cs, i);
    if !(a < cs.len()) {
        return None;
    }
    if cs[a] != ':' {
        return None;
    }
    let b = scan_digit_run(cs, a + 1);
    if !(a + 1 < b && b < cs.len()) {
        return None;
    }
    if cs[b] != ':' {
        return None;
    }
    let c = scan_digit_run(cs, b + 1);
    if !(b + 1 < c) {
        return None;
    }
    Some((a, b, c))
}

/// ASCII lowercasing of one character.
fn exec_lower(c: char) -> (r: char)
    ensures
        r == lower(c),
{
    if 'A' <= c && c <= 'Z' {
        ((c as u8) + 32) as char
    } else {
        c
    }
}

fn word_second(cs: &Vec<char>, j: usize) -> (b: bool)
    requires
        j <= cs.len(),
    ensures
        b == word_second_at(cs@, j as int),
{
    cs.len() - j >= 6 && cs[j] == 's' && cs[j + 1] == 'e' && cs[j + 2] == 'c' && cs[j + 3] == 'o'
        && cs[j + 4] == 'n' && cs[j + 5] == 'd'
}

fn exec_plural_end(cs: &Vec<char>, e: usize) -> (r: usize)
    requires
        e <= cs.len(),
    ensures
        r as int == plural_end(cs@, e as int),
        e <= r <= cs.len(),
{
    if e < cs.len() && cs[e] == 's' {
        e + 1
    } else {
        e
    }
}

/// Match a lowercase long unit name beginning exactly at `j`.
fn exec_long_unit(cs: &Vec<char>, j: usize) -> (r: Option<(usize, UnitKind)>)
    requires
        j <= cs.len(),
    ensures
        r is Some <==> long_unit_at(cs@, j as int) is Some,
        r matches Some(p) ==> long_unit_at(cs@, j as int) == Some((p.0 as int, p.1)) && j < p.0
            <= cs.len(),
{
    if cs.len() - j >= 4 && cs[j] == 'w' && cs[j + 1] == 'e' && cs[j + 2] == 'e' && cs[j + 3]
        == 'k' {
        Some((exec_plural_end(cs, j + 4), UnitKind::Week))
    } else if cs.len() - j >= 3 && cs[j] == 'd' && cs[j + 1] == 'a' && cs[j + 2] == 'y' {
        Some((exec_plural_end(cs, j + 3), UnitKind::Day))
    } else if cs.len() - j >= 4 && cs[j] == 'h' && cs[j + 1] == 'o' && cs[j + 2] == 'u' && cs[j
        + 3] == 'r' {
        Some((exec_plural_end(cs, j + 4), UnitKind::Hour))
    } else if cs.len() - j >= 6 && cs[j] == 'm' && cs[j + 1] == 'i' && cs[j + 2] == 'n' && cs[j
        + 3] == 'u' && cs[j + 4] == 't' && cs[j + 5] == 'e' {
        Some((exec_plural_end(cs, j + 6), UnitKind::Minute))
    } else if cs.len() - j >= 5 && cs[j] == 'm' && cs[j + 1] == 'i' && cs[j + 2] == 'l' && cs[j
        + 3] == 'l' && cs[j + 4] == 'i' && word_second(cs, j + 5) {
        Some((exec_plural_end(cs, j + 11), UnitKind::Millisecond))
    } else if cs.len() - j >= 5 && cs[j] == 'm' && cs[j + 1] == 'i' && cs[j + 2] == 'c' && cs[j
        + 3] == 'r' && cs[j + 4] == 'o' && word_second(cs, j + 5) {
        Some((exec_plural_end(cs, j + 11), UnitKind::Microsecond))
    } else if cs.len() - j >= 4 && cs[j] == 'n' && cs[j + 1] == 'a' && cs[j + 2] == 'n' && cs[j
        + 3] == 'o' && word_second(cs, j + 4) {
        Some((exec_plural_end(cs, j + 10), UnitKind::Nanosecond))
    } else if word_second(cs, j) {
        Some((exec_plural_end(cs, j + 6), UnitKind::Second))
    } else {
        None
    }
}

/// Match a two-letter short suffix at `j`, case-insensitively.
fn exec_short2_unit(cs: &Vec<char>, j: usize) -> (r: Option<UnitKind>)
    requires
        j <= cs.len(),
    ensures
        r == short2_unit_at(cs@, j as int),
{
    if cs.len() - j >= 2 && exec_lower(cs[j + 1]) == 's' {
        let a = exec_lower(cs[j]);
        if a == 'm' {
            Some(UnitKind::Millisecond)
        } else if a == 'u' || cs[j] == 'µ' {
            Some(UnitKind::Microsecond)
        } else if a == 'n' {
            Some(UnitKind::Nanosecond)
        } else {
            None
        }
    } else {
        None
    }
}

/// Match a one-letter short suffix at `j`, case-insensitively.
fn exec_short1_unit(cs: &Vec<char>, j: usize) -> (r: Option<UnitKind>)
    requires
        j <= cs.len(),
    ensures
        r == short1_unit_at(cs@, j as int),
{
    if j < cs.len() {
        let a = exec_lower(cs[j]);
        if a == 'w' {
            Some(UnitKind::Week)
        } else if a == 'd' {
            Some(UnitKind::Day)
        } else if a == 'h' {
            Some(UnitKind::Hour)
        } else if a == 'm' {
            Some(UnitKind::Minute)
        } else if a == 's' {
            Some(UnitKind::Second)
        } else {
            None
        }
    } else {
        None
    }
}

/// Match a unit at `j`: after a single space only a long name is accepted;
/// otherwise longer spellings win over shorter ones.
pub(crate) fn exec_unit_scan(cs: &Vec<char>, j: usize) -> (r: Option<(usize, UnitKind)>)
    requires
        j <= cs.len(),
    ensures
        r is Some <==> unit_scan(cs@, j as int) is Some,
        r matches Some(p) ==> unit_scan(cs@, j as int) == Some((p.0 as int, p.1)) && j < p.0
            <= cs.len(),
{
    if j < cs.len() && cs[j] == ' ' {
        match exec_long_unit(cs, j + 1) {
            Some(p) => Some(p),
            None => None,
        }
    } else {
        match exec_long_unit(cs, j) {
            Some(p) => Some(p),
            None => match exec_short2_unit(cs, j) {
                Some(u) => Some((j + 2, u)),
                None => match exec_short1_unit(cs, j) {
                    Some(u) => Some((j + 1, u)),
                    None => None,
                },
            },
        }
    }
}

fn exec_has_group(cs: &Vec<char>, p: usize) -> (b: bool)
    requires
        p <= cs.len(),
    ensures
        b == has_group(cs@, p as int),
{
    cs.len() - p >= 4 && cs[p] == '_' && '0' <= cs[p + 1] && cs[p + 1] <= '9' && '0' <= cs[p + 2]
        && cs[p + 2] <= '9' && '0' <= cs[p + 3] && cs[p + 3] <= '9'
}

/// Scan a quantity at `i`: its end position, its value, and a flag raised
/// when the value exceeds the unsigned 64-bit range.
pub(crate) fn exec_quantity(cs: &Vec<char>, i: usize) -> (r: Option<(usize, u64, bool)>)
    requires
        i <= cs.len(),
    ensures
        r is Some <==> quantity_scan(cs@, i as int) is Some,
        r matches Some(t) ==> {
            let (e, ds) = quantity_scan(cs@, i as int)->Some_0;
            &&& t.0 as int == e
            &&& i < t.0 <= cs.len()
            &&& (!t.2 ==> t.1 as nat == seq_val(ds))
            &&& (t.2 ==> seq_val(ds) > u64::MAX)
        },
{
    if !(i < cs.len() && '0' <= cs[i] && cs[i] <= '9') {
        return None;
    }
    let r_end = scan_digit_run(cs, i);
    proof {
        lemma_quantity_scan(cs@, i as int);
    }
    let (v0, o0) = parse_field(cs, i, r_end);
    if !(r_end - i <= 3 && exec_has_group(cs, r_end)) {
        return Some((r_end, v0, o0));
    }
    let ghost lead = cs@.subrange(i as int, r_end as int);
    let mut p = r_end;
    let mut v = v0;
    let mut o = o0;
    let ghost mut done = lead;
    proof {
        lemma_group_run(cs@, r_end as int);
        assert(lead + group_digits(cs@, r_end as int) =~= done + group_digits(cs@, p as int));
    }
    while exec_has_group(cs, p)
        invariant
            i <= r_end <= p <= cs.len(),
            group_run_end(cs@, r_end as int) == group_run_end(cs@, p as int),
            lead + group_digits(cs@, r_end as int) == done + group_digits(cs@, p as int),
            !o ==> v as nat == seq_val(done),
            o ==> seq_val(done) > u64::MAX,
        decreases cs.len() - p,
    {
        let (v2, o2) = accumulate_range(cs, p + 1, p + 4, v, o, Ghost(done));
        v = v2;
        o = o2;
        proof {
            let s = cs@;
            let pp = p as int;
            assert(s.subrange(pp + 1, pp + 4) =~= seq![s[pp + 1], s[pp + 2], s[pp + 3]]);
            assert(group_digits(s, pp) == seq![s[pp + 1], s[pp + 2], s[pp + 3]] + group_digits(
                s,
                pp + 4,
            ));
            assert((done + s.subrange(pp + 1, pp + 4)) + group_digits(s, pp + 4) =~= done
                + group_digits(s, pp));
            done = done + s.subrange(pp + 1, pp + 4);
        }
        p = p + 4;
    }
    proof {
        assert(group_digits(cs@, p as int) =~= Seq::<char>::empty());
        assert(done + Seq::<char>::empty() =~= done);
        assert(done == lead + group_digits(cs@, r_end as int));
    }
    Some((p, v, o))
}

/// Scan one `quantity unit` token at `i`.
pub(crate) fn exec_token_scan(cs: &Vec<char>, i: usize) -> (r: Option<(usize, u64, bool, UnitKind)>)
    requires
        i <= cs.len(),
    ensures
        r is Some <==> token_scan(cs@, i as int) is Some,
        r matches Some(t) ==> {
            let (k, q, u) = token_scan(cs@, i as int)->Some_0;
            &&& t.0 as int == k
            &&& i < t.0 <= cs.len()
            &&& t.3 == u
            &&& (!t.2 ==> t.1 as nat == q)
            &&& (t.2 ==> q > u64::MAX)
        },
{
    match exec_quantity(cs, i) {
        None => None,
        Some((j, v, o)) => match exec_unit_scan(cs, j) {
            None => None,
            Some((k, u)) => Some((k, v, o, u)),
        },
    }
}

/// Greedily scan tokens from `start`: the position where scanning stopped,
/// the tokens, and a flag raised when some quantity exceeds the unsigned
/// 64-bit range.
pub(crate) fn exec_scan_tokens(cs: &Vec<char>, start: usize) -> (r: (
    usize,
    Vec<(u64, UnitKind)>,
    bool,
))
    requires
        start <= cs.len(),
    ensures
        ({
            let (e, st) = tokens_from(cs@, start as int);
            &&& r.0 as int == e
            &&& start <= r.0 <= cs.len()
            &&& r.1@.len() == st.len()
            &&& (!r.2 ==> toks_view(r.1@) == st)
            &&& (r.2 ==> !tokens_ok(st))
        }),
{
    let mut i = start;
    let mut toks: Vec<(u64, UnitKind)> = Vec::new();
    let mut over = false;
    let ghost mut done: Seq<(nat, UnitKind)> = Seq::empty();
    let mut stop = false;
    proof {
        assert(done + tokens_from(cs@, i as int).1 =~= tokens_from(cs@, i as int).1);
        assert(toks_view(toks@) =~= done);
    }
    while !stop
        invariant
            start <= i <= cs.len(),
            tokens_from(cs@, start as int).0 == tokens_from(cs@, i as int).0,
            tokens_from(cs@, start as int).1 == done + tokens_from(cs@, i as int).1,
            toks@.len() == done.len(),
            !over ==> toks_view(toks@) == done,
            over ==> exists|k: int| 0 <= k < done.len() && (#[trigger] done[k]).0 > u64::MAX,
            stop ==> token_scan(cs@, i as int) is None,
        decreases cs.len() - i + (if stop {
            0int
        } else {
            1int
        }),
    {
        match exec_token_scan(cs, i) {
            None => {
                stop = true;
            },
            Some((k, v, o, u)) => {
                let ghost tok = (token_scan(cs@, i as int)->Some_0.1, u);
                let ghost prev_done = done;
                proof {
                    lemma_token_scan(cs@, i as int);
                    assert(tokens_from(cs@, i as int).1 == seq![tok] + tokens_from(
                        cs@,
                        k as int,
                    ).1);
                    assert((prev_done + seq![tok]) + tokens_from(cs@, k as int).1 =~= prev_done + (
                    seq![tok] + tokens_from(cs@, k as int).1));
                    done = prev_done + seq![tok];
                }
                toks.push((v, u));
                proof {
                    if !over && !o {
                        assert(toks_view(toks@) =~= done);
                    }
                    if o {
                        assert(done[prev_done.len() as int] == tok);
                    }
                    if over {
                        let kk = choose|kk: int|
                            0 <= kk < prev_done.len() && (#[trigger] prev_done[kk]).0 > u64::MAX;
                        assert(done[kk] == prev_done[kk]);
                    }
                }
                if o {
                    over = true;
                }
                i = k;
            },
        }
    }
    proof {
        assert(tokens_from(cs@, i as int).1 =~= Seq::<(nat, UnitKind)>::empty());
        assert(done + tokens_from(cs@, i as int).1 =~= done);
        if over {
            let st = tokens_from(cs@, start as int).1;
            assert(exists|k: int| 0 <= k < st.len() && (#[trigger] st[k]).0 > u64::MAX);
        }
    }
    (i, toks, over)
}

} // verus!
