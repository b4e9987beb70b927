//! Run configuration: the workload description and the renderer path.
//!
//! A latency distribution is written as a comma-separated list of
//! items, each a duration literal (`"1s"`, `"300ms"`, or a plain
//! number of milliseconds) or a `value*count` repetition. Parsing is
//! a configuration-time concern: a malformed item is an error, never
//! a default.

use vstd::prelude::*;

verus! {

/// How requests are executed: a bounded pool of blocking workers, or
/// one independently scheduled unit per request.
#[derive(Clone, Copy, PartialEq, Eq, Structural, Debug)]
pub enum Mode {
    /// Blocking workers; the payload is the worker count.
    Sync(usize),
    Async,
}

/// A malformed piece of workload configuration.
#[derive(Clone, Copy, PartialEq, Eq, Structural, Debug)]
pub enum ConfigError {
    /// A value is neither a duration literal nor a plain number.
    IllegalNumeric,
}

/// A full run configuration, as the command line supplies it.
#[derive(Clone, Debug)]
pub struct ModelConfig {
    pub name: String,
    pub n_jobs: usize,
    pub rps: usize,
    pub latency_distribution: Vec<u64>,
    pub python_path: Option<String>,
    pub mode: Mode,
}

/// A decimal digit.
pub open spec fn is_digit(c: char) -> bool {
    48 <= c as int <= 57
}

/// The value of a decimal digit.
pub open spec fn digit_val(c: char) -> int {
    c as int - 48
}

/// Every character is a decimal digit.
pub open spec fn all_digits(s: Seq<char>) -> bool {
    forall|i: int| 0 <= i < s.len() ==> is_digit(#[trigger] s[i])
}

/// The numeric value of a digit string, most significant digit first.
pub open spec fn dec_val(s: Seq<char>) -> int
    decreases s.len(),
{
    if s.len() == 0 {
        0
    } else {
        dec_val(s.drop_last()) * 10 + digit_val(s.last())
    }
}

/// The digits of a plain decimal literal: one optional leading plus
/// sign is allowed, as Rust's own integer parsing allows it.
pub open spec fn dec_digits(s: Seq<char>) -> Seq<char> {
    if s.len() > 0 && s[0] == '+' {
        s.drop_first()
    } else {
        s
    }
}

/// A plain decimal literal that fits in a `u64`: digits after an
/// optional leading plus sign, at least one of them.
pub open spec fn is_u64_dec(s: Seq<char>) -> bool {
    let d = dec_digits(s);
    d.len() > 0 && all_digits(d) && dec_val(d) <= u64::MAX
}

proof fn lemma_dec_val_nonneg(s: Seq<char>)
    requires
        all_digits(s),
    ensures
        dec_val(s) >= 0,
    decreases s.len(),
{
    if s.len() > 0 {
        assert(all_digits(s.drop_last()));
        lemma_dec_val_nonneg(s.drop_last());
    }
}

proof fn lemma_dec_val_monotone(s: Seq<char>, i: int)
    requires
        all_digits(s),
        0 <= i <= s.len(),
    ensures
        dec_val(s.take(i)) <= dec_val(s),
    decreases s.len() - i,
{
    if i < s.len() {
        assert(all_digits(s.take(i)));
        lemma_dec_val_nonneg(s.take(i));
        assert(s.take(i + 1).drop_last() =~= s.take(i));
        assert(dec_val(s.take(i)) <= dec_val(s.take(i + 1)));
        lemma_dec_val_monotone(s, i + 1);
    } else {
        assert(s.take(i) =~= s);
    }
}

/// Parses a plain decimal number. `None` exactly when the string is
/// empty, holds a non-digit after the optional leading plus sign, or
/// exceeds the `u64` range.
pub fn parse_u64_dec(s: &str) -> (r: Option<u64>)
    ensures
        r matches Some(v) ==> is_u64_dec(s@) && v == dec_val(dec_digits(s@)),
        r is None ==> !is_u64_dec(s@),
{
    let n = s.unicode_len();
    if n == 0 {
        return None;
    }
    let digits = if s.get_char(0) == '+' {
        s.substring_char(1, n)
    } else {
        s
    };
    proof {
        assert(digits@ =~= dec_digits(s@));
    }
    parse_digits(digits)
}

/// Parses a string of decimal digits and nothing else.
fn parse_digits(s: &str) -> (r: Option<u64>)
    ensures
        r matches Some(v) ==> s@.len() > 0 && all_digits(s@) && dec_val(s@) <= u64::MAX && v
            == dec_val(s@),
        r is None ==> !(s@.len() > 0 && all_digits(s@) && dec_val(s@) <= u64::MAX),
{
    let n = s.unicode_len();
    if n == 0 {
        return None;
    }
    let mut acc: u64 = 0;
    let mut i: usize = 0;
    proof {
        assert(s@.take(0) =~= Seq::<char>::empty());
    }
    while i < n
        invariant
            n == s@.len(),
            i <= n,
            all_digits(s@.take(i as int)),
            acc == dec_val(s@.take(i as int)),
        decreases n - i,
    {
        let c = s.get_char(i);
        let u = c as u32;
        proof {
            assert(s@.take(i + 1).drop_last() =~= s@.take(i as int));
            assert(s@.take(i + 1).last() == s@[i as int]);
        }
        if u < 48 || u > 57 {
            return None;
        }
        let d = (u - 48) as u64;
        if acc > (u64::MAX - d) / 10 {
            proof {
                assert(10 * acc + d > u64::MAX) by (nonlinear_arith)
                    requires
                        acc > (u64::MAX - d) / 10,
                        0 <= d <= 9,
                        acc <= u64::MAX,
                ;
                if all_digits(s@) {
                    lemma_dec_val_monotone(s@, i + 1);
                }
            }
            return None;
        }
        proof {
            assert(acc * 10 + d <= u64::MAX) by (nonlinear_arith)
                requires
                    acc <= (u64::MAX - d) / 10,
                    0 <= d <= 9,
                    acc >= 0,
            ;
        }
        acc = acc * 10 + d;
        i = i + 1;
    }
    proof {
        assert(s@.take(n as int) =~= s@);
    }
    Some(acc)
}

/// The longest literal handed to the duration parser. Latency literals
/// are millisecond-scale and far shorter; the bound also keeps the
/// parser well inside its domain (see `parse_duration_millis`).
pub const MAX_DURATION_LEN: usize = 20;

/// What `humantime` parses a duration string to, in whole milliseconds:
/// a function of the characters alone.
pub uninterp spec fn humantime_millis(s: Seq<char>) -> Option<u64>;

/// Relies on humantime::parse_duration: parses a human-readable
/// duration (`"1s"`, `"300ms"`, ...) deterministically from the
/// string's characters; the result is converted to whole milliseconds.
/// The length bound keeps the call away from the one input family the
/// parser does not survive: summed spans whose seconds land exactly on
/// the largest representable count, which its normalization then tips
/// over. Reaching that count takes well over `MAX_DURATION_LEN`
/// characters, since digits are single characters and every unit
/// multiplies a checked value.
#[verifier::external_body]
fn parse_duration_millis(s: &str) -> (r: Option<u64>)
    requires
        s@.len() <= MAX_DURATION_LEN,
    ensures
        r == humantime_millis(s@),
{
    match humantime::parse_duration(s) {
        Ok(d) => Some(d.as_millis() as u64),
        Err(_) => None,
    }
}

/// The value of one latency literal: what `humantime` makes of it, or
/// failing that its reading as a plain number of milliseconds. A
/// literal longer than `MAX_DURATION_LEN` characters is read as a
/// plain number only.
pub open spec fn spec_latency_value(s: Seq<char>) -> Option<u64> {
    let fallback = if is_u64_dec(s) {
        Some(dec_val(dec_digits(s)) as u64)
    } else {
        None::<u64>
    };
    if s.len() <= MAX_DURATION_LEN {
        match humantime_millis(s) {
            Some(v) => Some(v),
            None => fallback,
        }
    } else {
        fallback
    }
}

/// First position at or after `j` holding character `c`, or the length
/// when there is none.
pub open spec fn find_char(s: Seq<char>, c: char, j: int) -> int
    decreases s.len() - j,
{
    if j >= s.len() {
        s.len() as int
    } else if s[j] == c {
        j
    } else {
        find_char(s, c, j + 1)
    }
}

proof fn lemma_find_char(s: Seq<char>, c: char, j: int)
    requires
        0 <= j <= s.len(),
    ensures
        j <= find_char(s, c, j) <= s.len(),
        forall|k: int| j <= k < find_char(s, c, j) ==> s[k] != c,
        find_char(s, c, j) < s.len() ==> s[find_char(s, c, j)] == c,
    decreases s.len() - j,
{
    if j < s.len() && s[j] != c {
        lemma_find_char(s, c, j + 1);
    }
}

/// The expansion of one latency item. An item without `*` is one
/// value; `value*count` expands to `count` copies of `value`, reading
/// the count as the characters between the first `*` and the second
/// `*` or the end. `None` exactly on a malformed value or count.
pub open spec fn spec_latency_item(s: Seq<char>) -> Option<Seq<u64>> {
    let p = find_char(s, '*', 0);
    if p == s.len() {
        match spec_latency_value(s) {
            Some(x) => Some(seq![x]),
            None => None,
        }
    } else {
        let q = find_char(s, '*', p + 1);
        let cnt = s.subrange(p + 1, q);
        let val = s.subrange(0, p);
        if is_u64_dec(cnt) && dec_val(dec_digits(cnt)) <= usize::MAX && spec_latency_value(val)
            is Some {
            Some(Seq::new(dec_val(dec_digits(cnt)) as nat, |i: int| spec_latency_value(val)->Some_0))
        } else {
            None
        }
    }
}

/// The expansion of a comma-separated latency list, item by item,
/// starting at `pos`. `None` as soon as any item is malformed.
pub open spec fn spec_latency_list_from(s: Seq<char>, pos: int) -> Option<Seq<u64>>
    decreases s.len() - pos,
    via spec_latency_list_from_decreases
{
    let p = find_char(s, ',', pos);
    if p >= s.len() {
        spec_latency_item(s.subrange(pos, s.len() as int))
    } else {
        match (spec_latency_item(s.subrange(pos, p)), spec_latency_list_from(s, p + 1)) {
            (Some(a), Some(b)) => Some(a + b),
            _ => None,
        }
    }
}

proof fn lemma_find_char_ge(s: Seq<char>, c: char, j: int)
    ensures
        find_char(s, c, j) < s.len() ==> find_char(s, c, j) >= j,
    decreases s.len() - j,
{
    if j < s.len() && s[j] != c {
        lemma_find_char_ge(s, c, j + 1);
    }
}

#[via_fn]
proof fn spec_latency_list_from_decreases(s: Seq<char>, pos: int) {
    lemma_find_char_ge(s, ',', pos);
}

/// The expansion of a whole latency distribution string.
pub open spec fn spec_latency_list(s: Seq<char>) -> Option<Seq<u64>> {
    spec_latency_list_from(s, 0)
}

/// Scans for the first occurrence of `c` at or after `from`.
fn find_char_at(s: &str, c: char, from: usize) -> (p: usize)
    requires
        from <= s@.len(),
    ensures
        p == find_char(s@, c, from as int),
        from <= p <= s@.len(),
        p < s@.len() ==> s@[p as int] == c,
{
    proof {
        lemma_find_char(s@, c, from as int);
    }
    let n = s.unicode_len();
    let mut p = from;
    while p < n && s.get_char(p) != c
        invariant
            n == s@.len(),
            from <= p <= n,
            find_char(s@, c, from as int) == find_char(s@, c, p as int),
        decreases n - p,
    {
        p = p + 1;
    }
    p
}

impl ModelConfig {
    /// Parses one latency literal: a human-readable duration string,
    /// converted to milliseconds, or failing that a plain decimal
    /// number of milliseconds. Literals longer than `MAX_DURATION_LEN`
    /// characters are read as plain numbers only.
    pub fn parse_latency(value: &str) -> (r: Result<u64, ConfigError>)
        ensures
            r matches Ok(v) ==> spec_latency_value(value@) == Some(v),
            r is Err <==> spec_latency_value(value@) is None,
            r is Err ==> r == Err::<u64, ConfigError>(ConfigError::IllegalNumeric),
    {
        let as_duration = if value.unicode_len() <= MAX_DURATION_LEN {
            parse_duration_millis(value)
        } else {
            None
        };
        match as_duration {
            Some(v) => Ok(v),
            None => match parse_u64_dec(value) {
                Some(v) => Ok(v),
                None => Err(ConfigError::IllegalNumeric),
            },
        }
    }

    /// Expands one latency item: a bare literal yields one value, and
    /// `value*count` yields `count` copies of `value`.
    pub fn parse_latency_item(s: &str) -> (r: Result<Vec<u64>, ConfigError>)
        ensures
            r matches Ok(v) ==> spec_latency_item(s@) == Some(v@),
            r is Err <==> spec_latency_item(s@) is None,
            r is Err ==> r == Err::<Vec<u64>, ConfigError>(ConfigError::IllegalNumeric),
    {
        let n = s.unicode_len();
        let p = find_char_at(s, '*', 0);
        if p == n {
            match Self::parse_latency(s) {
                Ok(x) => {
                    let mut out: Vec<u64> = Vec::new();
                    out.push(x);
                    proof {
                        assert(out@ =~= seq![x]);
                    }
                    Ok(out)
                },
                Err(e) => Err(e),
            }
        } else {
            let q = find_char_at(s, '*', p + 1);
            let value = s.substring_char(0, p);
            let cnt_str = s.substring_char(p + 1, q);
            let cnt_u64 = match parse_u64_dec(cnt_str) {
                Some(c) => c,
                None => {
                    return Err(ConfigError::IllegalNumeric);
                },
            };
            if cnt_u64 > (usize::MAX as u64) {
                return Err(ConfigError::IllegalNumeric);
            }
            let cnt = cnt_u64 as usize;
            let x = match Self::parse_latency(value) {
                Ok(x) => x,
                Err(_) => {
                    return Err(ConfigError::IllegalNumeric);
                },
            };
            let mut out: Vec<u64> = Vec::new();
            let mut i: usize = 0;
            while i < cnt
                invariant
                    i <= cnt,
                    out@ =~= Seq::new(i as nat, |m: int| x),
                decreases cnt - i,
            {
                out.push(x);
                proof {
                    assert(out@ =~= Seq::new((i + 1) as nat, |m: int| x));
                }
                i = i + 1;
            }
            proof {
                assert(out@ =~= Seq::new(
                    dec_val(dec_digits(cnt_str@)) as nat,
                    |m: int| spec_latency_value(value@)->Some_0,
                ));
            }
            Ok(out)
        }
    }

    /// Expands a whole comma-separated latency distribution.
    pub fn parse_latency_list(s: &str) -> (r: Result<Vec<u64>, ConfigError>)
        ensures
            r matches Ok(v) ==> spec_latency_list(s@) == Some(v@),
            r is Err <==> spec_latency_list(s@) is None,
            r is Err ==> r == Err::<Vec<u64>, ConfigError>(ConfigError::IllegalNumeric),
    {
        let n = s.unicode_len();
        let mut out: Vec<u64> = Vec::new();
        let mut pos: usize = 0;
        let mut p = find_char_at(s, ',', 0);
        while p < n
            invariant
                n == s@.len(),
                pos <= n,
                p == find_char(s@, ',', pos as int),
                pos <= p <= n,
                spec_latency_list(s@) == match spec_latency_list_from(s@, pos as int) {
                    Some(u) => Some(out@ + u),
                    None => None::<Seq<u64>>,
                },
            decreases n - pos,
        {
            let seg = s.substring_char(pos, p);
            match Self::parse_latency_item(seg) {
                Ok(mut v) => {
                    out.append(&mut v);
                },
                Err(e) => {
                    return Err(e);
                },
            }
            pos = p + 1;
            p = find_char_at(s, ',', pos);
        }
        let seg = s.substring_char(pos, n);
        proof {
            assert(s@.subrange(pos as int, s@.len() as int) == seg@);
        }
        match Self::parse_latency_item(seg) {
            Ok(mut v) => {
                out.append(&mut v);
                Ok(out)
            },
            Err(e) => Err(e),
        }
    }

    /// The python interpreter handed to the external renderer: the
    /// configured path, or the conventional default location.
    pub fn get_python_path(&self) -> (r: Option<&str>)
        ensures
            r matches Some(p) ==> p@ == match self.python_path {
                Some(s) => s@,
                None => default_python_path(),
            },
            r is Some,
    {
        let python_path = match self.python_path.as_ref() {
            None => Some("/usr/bin/python3"),
            Some(s) => Some(s.as_str()),
        };
        python_path
    }
}

/// Where the external renderer looks for python when no path is given.
pub open spec fn default_python_path() -> Seq<char> {
    "/usr/bin/python3"@
}

/// The cost of the `i`-th request: the distribution is consumed
/// cyclically, so a short pattern feeds arbitrarily many requests.
pub fn cost_at(dist: &Vec<u64>, i: usize) -> (c: u64)
    requires
        dist@.len() > 0,
    ensures
        c == dist@[i as int % dist@.len() as int],
{
    dist[i % dist.len()]
}

} // verus!
