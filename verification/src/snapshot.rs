//! The rule snapshot's wire format.
//!
//! The snapshot lives in the counter store as one JSON document: an object
//! keyed by rule id whose values are the rules' minimal projections.  The
//! watcher writes it and every gateway reads it back, so this module carries
//! both directions and proves them inverse: what the watcher publishes, a
//! gateway reads back unchanged.
//!
//! The encoder is canonical: fields in a fixed order, no whitespace, strings
//! escaped with `\"`, `\\` and `\u00XX` for control characters.  The parser
//! accepts exactly that canonical form.

use vstd::prelude::*;

use vstd::string::StringExecFns;

use crate::text::{spec_dec, string_to_chars, u64_to_chars};

verus! {

/// The character for one hexadecimal digit, lower case.
pub open spec fn hex_digit_char(d: int) -> char
    recommends
        0 <= d < 16,
{
    if d < 10 {
        crate::text::digit_char(d)
    } else if d == 10 {
        'a'
    } else if d == 11 {
        'b'
    } else if d == 12 {
        'c'
    } else if d == 13 {
        'd'
    } else if d == 14 {
        'e'
    } else {
        'f'
    }
}

/// How one character appears inside a JSON string literal.
pub open spec fn esc_char(c: char) -> Seq<char> {
    if c == '"' {
        seq!['\\', '"']
    } else if c == '\\' {
        seq!['\\', '\\']
    } else if (c as u32) < 0x20 {
        seq![
            '\\',
            'u',
            '0',
            '0',
            hex_digit_char((c as u32) as int / 16),
            hex_digit_char((c as u32) as int % 16),
        ]
    } else {
        seq![c]
    }
}

/// The escaped body of a JSON string literal.
pub open spec fn spec_escape(s: Seq<char>) -> Seq<char>
    decreases s.len(),
{
    if s.len() == 0 {
        Seq::empty()
    } else {
        esc_char(s[0]) + spec_escape(s.drop_first())
    }
}

/// A whole JSON string literal, quotes included.
pub open spec fn spec_json_string(s: Seq<char>) -> Seq<char> {
    seq!['"'] + spec_escape(s) + seq!['"']
}

pub proof fn lemma_escape_snoc(s: Seq<char>, c: char)
    ensures
        spec_escape(s.push(c)) == spec_escape(s) + esc_char(c),
    decreases s.len(),
{
    if s.len() == 0 {
        assert(s.push(c)[0] == c);
        assert(s.push(c).drop_first() =~= Seq::<char>::empty());
        assert(spec_escape(s.push(c).drop_first()) == spec_escape(Seq::<char>::empty()));
        assert(spec_escape(Seq::<char>::empty()) =~= Seq::<char>::empty());
        assert(esc_char(c) + Seq::<char>::empty() =~= esc_char(c));
        assert(spec_escape(s) + esc_char(c) =~= esc_char(c));
    } else {
        assert(s.push(c)[0] == s[0]);
        assert(s.push(c).drop_first() =~= s.drop_first().push(c));
        lemma_escape_snoc(s.drop_first(), c);
        assert(esc_char(s[0]) + (spec_escape(s.drop_first()) + esc_char(c)) =~= (esc_char(s[0])
            + spec_escape(s.drop_first())) + esc_char(c));
    }
}

pub open spec fn is_hex_lower(c: char) -> bool {
    crate::text::is_digit(c) || c == 'a' || c == 'b' || c == 'c' || c == 'd' || c == 'e' || c
        == 'f'
}

pub open spec fn hex_val(c: char) -> int
    recommends
        is_hex_lower(c),
{
    if crate::text::is_digit(c) {
        crate::text::digit_val(c)
    } else if c == 'a' {
        10
    } else if c == 'b' {
        11
    } else if c == 'c' {
        12
    } else if c == 'd' {
        13
    } else if c == 'e' {
        14
    } else {
        15
    }
}

pub proof fn lemma_hex_digit_char(d: int)
    requires
        0 <= d < 16,
    ensures
        is_hex_lower(hex_digit_char(d)),
        hex_val(hex_digit_char(d)) == d,
{
}

/// Reads a JSON string body up to its closing quote; returns the decoded
/// characters and what follows the literal.
pub open spec fn spec_parse_string_body(s: Seq<char>) -> Option<(Seq<char>, Seq<char>)>
    decreases s.len(),
{
    if s.len() == 0 {
        None
    } else if s[0] == '"' {
        Some((Seq::empty(), s.drop_first()))
    } else if s[0] == '\\' {
        if s.len() >= 2 && (s[1] == '"' || s[1] == '\\') {
            match spec_parse_string_body(s.skip(2)) {
                Some((v, rest)) => Some((seq![s[1]] + v, rest)),
                None => None,
            }
        } else if s.len() >= 6 && s[1] == 'u' && s[2] == '0' && s[3] == '0' && is_hex_lower(s[4])
            && is_hex_lower(s[5]) {
                let c = ((hex_val(s[4]) * 16 + hex_val(s[5])) as u32) as char;
            match spec_parse_string_body(s.skip(6)) {
                Some((v, rest)) => Some((seq![c] + v, rest)),
                None => None,
            }
        } else {
            None
        }
    } else {
        match spec_parse_string_body(s.drop_first()) {
            Some((v, rest)) => Some((seq![s[0]] + v, rest)),
            None => None,
        }
    }
}

/// Reads a whole JSON string literal.
pub open spec fn spec_parse_string(s: Seq<char>) -> Option<(Seq<char>, Seq<char>)> {
    if s.len() >= 1 && s[0] == '"' {
        spec_parse_string_body(s.drop_first())
    } else {
        None
    }
}

/// A string literal the encoder wrote parses back to the escaped text, with
/// everything after the literal untouched.
pub proof fn lemma_parse_string_body_round_trip(v: Seq<char>, rest: Seq<char>)
    ensures
        spec_parse_string_body(spec_escape(v) + seq!['"'] + rest) == Some((v, rest)),
    decreases v.len(),
{
    if v.len() == 0 {
        let s = spec_escape(v) + seq!['"'] + rest;
        assert(s =~= seq!['"'] + rest);
        assert(s[0] == '"');
        assert(s.drop_first() =~= rest);
    } else {
        let c = v[0];
        let tail = spec_escape(v.drop_first()) + seq!['"'] + rest;
        let s = spec_escape(v) + seq!['"'] + rest;
        assert(s =~= esc_char(c) + tail);
        lemma_parse_string_body_round_trip(v.drop_first(), rest);
        if c == '"' {
            assert(s[0] == '\\' && s[1] == '"');
            assert(s.skip(2) =~= tail);
            assert(seq![s[1]] + v.drop_first() =~= v);
        } else if c == '\\' {
            assert(s[0] == '\\' && s[1] == '\\');
            assert(s.skip(2) =~= tail);
            assert(seq![s[1]] + v.drop_first() =~= v);
        } else if (c as u32) < 0x20 {
            let hi = (c as u32) as int / 16;
            let lo = (c as u32) as int % 16;
            lemma_hex_digit_char(hi);
            lemma_hex_digit_char(lo);
            assert(s[0] == '\\' && s[1] == 'u' && s[2] == '0' && s[3] == '0');
            assert(s[4] == hex_digit_char(hi) && s[5] == hex_digit_char(lo));
            assert(s.skip(6) =~= tail);
            assert(hex_val(s[4]) * 16 + hex_val(s[5]) == c as u32);
            vstd::utf8::char_u32_cast(c, c as u32);
            assert((((hex_val(s[4]) * 16 + hex_val(s[5])) as u32) as char) == c);
            assert(seq![(((hex_val(s[4]) * 16 + hex_val(s[5])) as u32) as char)] + v.drop_first()
                =~= v);
        } else {
            assert(s[0] == c);
            assert(s[0] != '"' && s[0] != '\\');
            assert(s.drop_first() =~= tail);
            assert(seq![s[0]] + v.drop_first() =~= v);
        }
    }
}

/// A canonical JSON string literal parses back to its text.
pub proof fn lemma_parse_string_round_trip(v: Seq<char>, rest: Seq<char>)
    ensures
        spec_parse_string(spec_json_string(v) + rest) == Some((v, rest)),
{
    let s = spec_json_string(v) + rest;
    assert(s[0] == '"');
    assert(s.drop_first() =~= spec_escape(v) + seq!['"'] + rest);
    lemma_parse_string_body_round_trip(v, rest);
}

/// Consumes decimal digits, folding them onto `acc`; fails on a value that
/// does not fit a 64-bit integer.
pub open spec fn spec_parse_digits(s: Seq<char>, acc: nat) -> Option<(nat, Seq<char>)>
    decreases s.len(),
{
    if s.len() > 0 && crate::text::is_digit(s[0]) {
        let acc2 = acc * 10 + crate::text::digit_val(s[0]);
        if acc2 > u64::MAX {
            None
        } else {
            spec_parse_digits(s.drop_first(), acc2 as nat)
        }
    } else {
        Some((acc, s))
    }
}

/// Reads a decimal number: at least one digit, value within 64 bits.
pub open spec fn spec_parse_u64(s: Seq<char>) -> Option<(nat, Seq<char>)> {
    if s.len() > 0 && crate::text::is_digit(s[0]) {
        spec_parse_digits(s, 0)
    } else {
        None
    }
}

pub open spec fn pow10(k: nat) -> nat
    decreases k,
{
    if k == 0 {
        1
    } else {
        10 * pow10((k - 1) as nat)
    }
}

/// The decimal notation of `n` folds onto `acc` as `acc * 10^len + n`.
pub proof fn lemma_parse_digits_dec(n: u64, acc: nat, rest: Seq<char>)
    requires
        acc * pow10(spec_dec(n as nat).len()) + n <= u64::MAX,
    ensures
        spec_parse_digits(spec_dec(n as nat) + rest, acc) == spec_parse_digits(
            rest,
            (acc * pow10(spec_dec(n as nat).len()) + n) as nat,
        ),
    decreases n,
{
    let s = spec_dec(n as nat) + rest;
    if n < 10 {
        crate::text::lemma_digit_char_val(n as int);
        assert(s[0] == crate::text::digit_char(n as int));
        assert(pow10(1) == 10 * pow10(0)) by {
            assert(pow10(1) == 10 * pow10((1 - 1) as nat));
        }
        assert(pow10(0) == 1);
        assert(pow10(1) == 10);
        assert(acc * 10 + n <= u64::MAX);
        assert(s.drop_first() =~= rest);
    } else {
        let hi = n / 10;
        let lo = n % 10;
        let ltail = seq![crate::text::digit_char(lo as int)] + rest;
        assert(spec_dec(n as nat) =~= spec_dec(hi as nat).push(crate::text::digit_char(lo as int)));
        assert(s =~= spec_dec(hi as nat) + ltail);
        let lh = spec_dec(hi as nat).len();
        assert(spec_dec(n as nat).len() == lh + 1);
        assert(pow10(lh + 1) == 10 * pow10(lh)) by {
            assert(pow10((lh + 1) as nat) == 10 * pow10(((lh + 1) - 1) as nat));
        }
        assert((acc * pow10(lh) + hi) * 10 + lo == acc * pow10(lh + 1) + n) by (nonlinear_arith)
            requires
                hi == n / 10,
                lo == n % 10,
                n >= 10,
                pow10(lh + 1) == 10 * pow10(lh),
        ;
        assert(acc * pow10(lh) + hi <= u64::MAX) by (nonlinear_arith)
            requires
                (acc * pow10(lh) + hi) * 10 + lo == acc * pow10(lh + 1) + n,
                acc * pow10(lh + 1) + n <= u64::MAX,
                0 <= lo,
                0 <= acc * pow10(lh) + hi,
        ;
        lemma_parse_digits_dec(hi, acc, ltail);
        let acc2 = (acc * pow10(lh) + hi) as nat;
        crate::text::lemma_digit_char_val(lo as int);
        assert(ltail[0] == crate::text::digit_char(lo as int));
        assert(ltail.drop_first() =~= rest);
        assert(spec_parse_digits(ltail, acc2) == spec_parse_digits(
            rest,
            (acc2 * 10 + lo) as nat,
        ));
    }
}

/// A decimal the encoder wrote parses back to its value when what follows
/// does not begin with a digit.
pub proof fn lemma_parse_u64_round_trip(n: u64, rest: Seq<char>)
    requires
        rest.len() == 0 || !crate::text::is_digit(rest[0]),
    ensures
        spec_parse_u64(spec_dec(n as nat) + rest) == Some((n as nat, rest)),
{
    let s = spec_dec(n as nat) + rest;
    crate::text::lemma_spec_dec_digits(n as nat);
    assert(s[0] == spec_dec(n as nat)[0]);
    assert(crate::text::is_digit(s[0]));
    assert(pow10(spec_dec(n as nat).len()) >= 1) by {
        lemma_pow10_pos(spec_dec(n as nat).len());
    }
    assert(0 * pow10(spec_dec(n as nat).len()) + n <= u64::MAX);
    lemma_parse_digits_dec(n, 0, rest);
    assert(spec_parse_digits(rest, n as nat) == Some((n as nat, rest)));
}

pub proof fn lemma_pow10_pos(k: nat)
    ensures
        pow10(k) >= 1,
    decreases k,
{
    if k > 0 {
        lemma_pow10_pos((k - 1) as nat);
    }
}

/// Recognizes an exact literal prefix and returns what follows it.
pub open spec fn spec_parse_lit(s: Seq<char>, lit: Seq<char>) -> Option<Seq<char>> {
    if lit.len() <= s.len() && s.take(lit.len() as int) == lit {
        Some(s.skip(lit.len() as int))
    } else {
        None
    }
}

pub proof fn lemma_parse_lit(lit: Seq<char>, rest: Seq<char>)
    ensures
        spec_parse_lit(lit + rest, lit) == Some(rest),
{
    let s = lit + rest;
    assert(s.take(lit.len() as int) =~= lit);
    assert(s.skip(lit.len() as int) =~= rest);
}

pub open spec fn spec_json_bool(b: bool) -> Seq<char> {
    if b {
        "true"@
    } else {
        "false"@
    }
}

pub open spec fn spec_parse_bool(s: Seq<char>) -> Option<(bool, Seq<char>)> {
    match spec_parse_lit(s, "true"@) {
        Some(rest) => Some((true, rest)),
        None => match spec_parse_lit(s, "false"@) {
            Some(rest) => Some((false, rest)),
            None => None,
        },
    }
}

pub proof fn lemma_parse_bool_round_trip(b: bool, rest: Seq<char>)
    ensures
        spec_parse_bool(spec_json_bool(b) + rest) == Some((b, rest)),
{
    reveal_strlit("true");
    reveal_strlit("false");
    lemma_parse_lit(spec_json_bool(b), rest);
    if !b {
        let s = "false"@ + rest;
        assert(spec_parse_lit(s, "true"@) is None) by {
            if "true"@.len() <= s.len() && s.take(4) == "true"@ {
                assert(s.take(4)[0] == 'f');
                assert("true"@[0] == 't');
            }
        }
    }
}

/// The algorithm a wire code names.
pub open spec fn code_to_alg(s: Seq<char>) -> Option<
    crate::rate_limiter::RateLimiterAlgorithms,
> {
    if s == crate::rate_limiter::RateLimiterAlgorithms::FixedWindow.spec_code() {
        Some(crate::rate_limiter::RateLimiterAlgorithms::FixedWindow)
    } else if s == crate::rate_limiter::RateLimiterAlgorithms::SlidingWindowCounter.spec_code() {
        Some(crate::rate_limiter::RateLimiterAlgorithms::SlidingWindowCounter)
    } else if s == crate::rate_limiter::RateLimiterAlgorithms::SlidingWindowLog.spec_code() {
        Some(crate::rate_limiter::RateLimiterAlgorithms::SlidingWindowLog)
    } else if s == crate::rate_limiter::RateLimiterAlgorithms::TokenBucket.spec_code() {
        Some(crate::rate_limiter::RateLimiterAlgorithms::TokenBucket)
    } else if s == crate::rate_limiter::RateLimiterAlgorithms::LeakyBucket.spec_code() {
        Some(crate::rate_limiter::RateLimiterAlgorithms::LeakyBucket)
    } else {
        None
    }
}

/// The tracking type a wire code names.
pub open spec fn code_to_tracking(s: Seq<char>) -> Option<
    crate::rate_limiter::LimiterTrackingType,
> {
    if s == crate::rate_limiter::LimiterTrackingType::IP.spec_code() {
        Some(crate::rate_limiter::LimiterTrackingType::IP)
    } else if s == crate::rate_limiter::LimiterTrackingType::Header.spec_code() {
        Some(crate::rate_limiter::LimiterTrackingType::Header)
    } else {
        None
    }
}

pub proof fn lemma_codes_distinct()
    ensures
        forall|a: crate::rate_limiter::RateLimiterAlgorithms| #![all_triggers]
            code_to_alg(a.spec_code()) == Some(a),
        forall|t: crate::rate_limiter::LimiterTrackingType| #![all_triggers]
            code_to_tracking(t.spec_code()) == Some(t),
{
    reveal_strlit("fw");
    reveal_strlit("swc");
    reveal_strlit("swl");
    reveal_strlit("tb");
    reveal_strlit("lb");
    reveal_strlit("ip");
    reveal_strlit("header");
    assert(crate::rate_limiter::RateLimiterAlgorithms::FixedWindow.spec_code().len() == 2);
    assert(crate::rate_limiter::RateLimiterAlgorithms::SlidingWindowCounter.spec_code().len()
        == 3);
    assert(crate::rate_limiter::RateLimiterAlgorithms::SlidingWindowLog.spec_code().len() == 3);
    assert(crate::rate_limiter::RateLimiterAlgorithms::TokenBucket.spec_code().len() == 2);
    assert(crate::rate_limiter::RateLimiterAlgorithms::LeakyBucket.spec_code().len() == 2);
    assert(crate::rate_limiter::RateLimiterAlgorithms::FixedWindow.spec_code()[0] == 'f');
    assert(crate::rate_limiter::RateLimiterAlgorithms::TokenBucket.spec_code()[0] == 't');
    assert(crate::rate_limiter::RateLimiterAlgorithms::LeakyBucket.spec_code()[0] == 'l');
    assert(crate::rate_limiter::RateLimiterAlgorithms::SlidingWindowCounter.spec_code()[2]
        == 'c');
    assert(crate::rate_limiter::RateLimiterAlgorithms::SlidingWindowLog.spec_code()[2] == 'l');
    assert(crate::rate_limiter::LimiterTrackingType::IP.spec_code().len() == 2);
    assert(crate::rate_limiter::LimiterTrackingType::Header.spec_code().len() == 6);
}

/// The custom tracking key on the wire: an absent key is the empty string.
pub open spec fn spec_custom_key_text(k: Option<Seq<char>>) -> Seq<char> {
    match k {
        Some(s) => s,
        None => Seq::empty(),
    }
}

/// One rule as the snapshot's JSON object: fields in canonical order.
#[verifier::opaque]
pub open spec fn spec_rule_json(r: crate::rules::MinimalRuleV) -> Seq<char> {
    "{\"id\":"@ + spec_json_string(r.id) + ",\"route\":"@ + spec_json_string(r.route)
        + ",\"algorithm\":"@ + spec_json_string(r.algorithm.spec_code()) + ",\"tracking_type\":"@
        + spec_json_string(r.tracking_type.spec_code()) + ",\"limit\":"@ + spec_dec(
        r.limit as nat,
    ) + ",\"expiration\":"@ + spec_dec(r.expiration as nat) + ",\"custom_tracking_key\":"@
        + spec_json_string(spec_custom_key_text(r.custom_tracking_key)) + ",\"status\":"@
        + spec_json_bool(r.status) + ",\"ttl\":"@ + spec_dec(r.ttl as nat) + "}"@
}

/// The numeric and boolean tail of a rule object: from the limit field to
/// the closing brace.
#[verifier::opaque]
pub open spec fn spec_rule_json_tail(r: crate::rules::MinimalRuleV) -> Seq<char> {
    ",\"limit\":"@ + spec_dec(r.limit as nat) + ",\"expiration\":"@ + spec_dec(
        r.expiration as nat,
    ) + ",\"custom_tracking_key\":"@ + spec_json_string(
        spec_custom_key_text(r.custom_tracking_key),
    ) + ",\"status\":"@ + spec_json_bool(r.status) + ",\"ttl\":"@ + spec_dec(r.ttl as nat)
        + "}"@
}

/// Reads a rule object's tail: the limit, expiration, custom tracking key,
/// status and ttl fields, then the closing brace.
#[verifier::opaque]
pub open spec fn spec_parse_rule_tail(s: Seq<char>) -> Option<
    ((int, int, Option<Seq<char>>, bool, int), Seq<char>),
> {
    match spec_parse_lit(s, ",\"limit\":"@) {
        None => None,
        Some(s9) => match spec_parse_u64(s9) {
            None => None,
            Some((limit, s10)) => match spec_parse_lit(s10, ",\"expiration\":"@) {
                None => None,
                Some(s11) => match spec_parse_u64(s11) {
                    None => None,
                    Some((expiration, s12)) => match spec_parse_lit(
                        s12,
                        ",\"custom_tracking_key\":"@,
                    ) {
                        None => None,
                        Some(s13) => match spec_parse_string(s13) {
                            None => None,
                            Some((custom, s14)) => match spec_parse_lit(s14, ",\"status\":"@) {
                                None => None,
                                Some(s15) => match spec_parse_bool(s15) {
                                    None => None,
                                    Some((status, s16)) => match spec_parse_lit(
                                        s16,
                                        ",\"ttl\":"@,
                                    ) {
                                        None => None,
                                        Some(s17) => match spec_parse_u64(s17) {
                                            None => None,
                                            Some((ttl, s18)) => match spec_parse_lit(s18, "}"@) {
                                                None => None,
                                                Some(s19) => Some(
                                                    (
                                                        (
                                                            limit as int,
                                                            expiration as int,
                                                            if custom.len() == 0 {
                                                                None
                                                            } else {
                                                                Some(custom)
                                                            },
                                                            status,
                                                            ttl as int,
                                                        ),
                                                        s19,
                                                    ),
                                                ),
                                            },
                                        },
                                    },
                                },
                            },
                        },
                    },
                },
            },
        },
    }
}

/// Reads one rule object of the canonical form back.
#[verifier::opaque]
pub open spec fn spec_parse_rule(s: Seq<char>) -> Option<(crate::rules::MinimalRuleV, Seq<char>)> {
    match spec_parse_lit(s, "{\"id\":"@) {
        None => None,
        Some(s1) => match spec_parse_string(s1) {
            None => None,
            Some((id, s2)) => match spec_parse_lit(s2, ",\"route\":"@) {
                None => None,
                Some(s3) => match spec_parse_string(s3) {
                    None => None,
                    Some((route, s4)) => match spec_parse_lit(s4, ",\"algorithm\":"@) {
                        None => None,
                        Some(s5) => match spec_parse_string(s5) {
                            None => None,
                            Some((alg_code, s6)) => match code_to_alg(alg_code) {
                                None => None,
                                Some(algorithm) => match spec_parse_lit(
                                    s6,
                                    ",\"tracking_type\":"@,
                                ) {
                                    None => None,
                                    Some(s7) => match spec_parse_string(s7) {
                                        None => None,
                                        Some((tt_code, s8)) => match code_to_tracking(tt_code) {
                                            None => None,
                                            Some(tracking_type) => match spec_parse_rule_tail(
                                                s8,
                                            ) {
                                                None => None,
                                                Some(
                                                    ((limit, expiration, custom, status, ttl), s19),
                                                ) => Some(
                                                    (
                                                        crate::rules::MinimalRuleV {
                                                            id,
                                                            route,
                                                            algorithm,
                                                            limit,
                                                            expiration,
                                                            tracking_type,
                                                            custom_tracking_key: custom,
                                                            status,
                                                            ttl,
                                                        },
                                                        s19,
                                                    ),
                                                ),
                                            },
                                        },
                                    },
                                },
                            },
                        },
                    },
                },
            },
        },
    }
}

/// The tail of a rule in canonical form reads back unchanged.
#[verifier::rlimit(100)]
pub proof fn lemma_parse_rule_tail_round_trip(r: crate::rules::MinimalRuleV, rest: Seq<char>)
    requires
        0 <= r.limit <= u64::MAX,
        0 <= r.expiration <= u64::MAX,
        0 <= r.ttl <= u64::MAX,
        r.custom_tracking_key matches Some(k) ==> k.len() > 0,
    ensures
        spec_parse_rule_tail(spec_rule_json_tail(r) + rest) == Some(
            ((r.limit, r.expiration, r.custom_tracking_key, r.status, r.ttl), rest),
        ),
{
    reveal(spec_rule_json_tail);
    reveal(spec_parse_rule_tail);
    reveal_strlit(",\"expiration\":");
    reveal_strlit(",\"custom_tracking_key\":");
    reveal_strlit("}");
    let s = spec_rule_json_tail(r) + rest;
    let p18 = "}"@ + rest;
    let p17 = spec_dec(r.ttl as nat) + p18;
    let p16 = ",\"ttl\":"@ + p17;
    let p15 = spec_json_bool(r.status) + p16;
    let p14 = ",\"status\":"@ + p15;
    let p13 = spec_json_string(spec_custom_key_text(r.custom_tracking_key)) + p14;
    let p12 = ",\"custom_tracking_key\":"@ + p13;
    let p11 = spec_dec(r.expiration as nat) + p12;
    let p10 = ",\"expiration\":"@ + p11;
    let p9 = spec_dec(r.limit as nat) + p10;
    assert(s =~= ",\"limit\":"@ + p9);
    lemma_parse_lit(",\"limit\":"@, p9);
    assert(p10[0] == ',');
    lemma_parse_u64_round_trip(r.limit as u64, p10);
    lemma_parse_lit(",\"expiration\":"@, p11);
    assert(p12[0] == ',');
    lemma_parse_u64_round_trip(r.expiration as u64, p12);
    lemma_parse_lit(",\"custom_tracking_key\":"@, p13);
    lemma_parse_string_round_trip(spec_custom_key_text(r.custom_tracking_key), p14);
    lemma_parse_lit(",\"status\":"@, p15);
    lemma_parse_bool_round_trip(r.status, p16);
    lemma_parse_lit(",\"ttl\":"@, p17);
    assert(p18[0] == '}');
    lemma_parse_u64_round_trip(r.ttl as u64, p18);
    lemma_parse_lit("}"@, rest);
}

/// A rule in the canonical wire form reads back unchanged.  The wire cannot
/// tell an absent custom tracking key from an empty one, so the key must not
/// be present-but-empty.
#[verifier::rlimit(100)]
pub proof fn lemma_parse_rule_round_trip(r: crate::rules::MinimalRuleV, rest: Seq<char>)
    requires
        0 <= r.limit <= u64::MAX,
        0 <= r.expiration <= u64::MAX,
        0 <= r.ttl <= u64::MAX,
        r.custom_tracking_key matches Some(k) ==> k.len() > 0,
    ensures
        spec_parse_rule(spec_rule_json(r) + rest) == Some((r, rest)),
{
    reveal(spec_rule_json);
    reveal(spec_rule_json_tail);
    reveal(spec_parse_rule);
    lemma_codes_distinct();
    let s = spec_rule_json(r) + rest;
    let p8 = spec_rule_json_tail(r) + rest;
    let p7 = spec_json_string(r.tracking_type.spec_code()) + p8;
    let p6 = ",\"tracking_type\":"@ + p7;
    let p5 = spec_json_string(r.algorithm.spec_code()) + p6;
    let p4 = ",\"algorithm\":"@ + p5;
    let p3 = spec_json_string(r.route) + p4;
    let p2 = ",\"route\":"@ + p3;
    let p1 = spec_json_string(r.id) + p2;
    assert(spec_rule_json(r) =~= "{\"id\":"@ + spec_json_string(r.id) + ",\"route\":"@
        + spec_json_string(r.route) + ",\"algorithm\":"@ + spec_json_string(
        r.algorithm.spec_code(),
    ) + ",\"tracking_type\":"@ + spec_json_string(r.tracking_type.spec_code())
        + spec_rule_json_tail(r));
    assert(s =~= "{\"id\":"@ + p1);
    lemma_parse_lit("{\"id\":"@, p1);
    lemma_parse_string_round_trip(r.id, p2);
    lemma_parse_lit(",\"route\":"@, p3);
    lemma_parse_string_round_trip(r.route, p4);
    lemma_parse_lit(",\"algorithm\":"@, p5);
    lemma_parse_string_round_trip(r.algorithm.spec_code(), p6);
    lemma_parse_lit(",\"tracking_type\":"@, p7);
    lemma_parse_string_round_trip(r.tracking_type.spec_code(), p8);
    lemma_parse_rule_tail_round_trip(r, rest);
}

/// One snapshot entry: the rule's id as the key, the rule object as the
/// value.
pub open spec fn spec_snapshot_entry(r: crate::rules::MinimalRuleV) -> Seq<char> {
    spec_json_string(r.id) + ":"@ + spec_rule_json(r)
}

/// The members of the snapshot object, comma separated, in snapshot order.
pub open spec fn spec_snapshot_entries(rules: Seq<crate::rules::MinimalRuleV>) -> Seq<char>
    decreases rules.len(),
{
    if rules.len() == 0 {
        Seq::empty()
    } else if rules.len() == 1 {
        spec_snapshot_entry(rules[0])
    } else {
        spec_snapshot_entry(rules[0]) + ","@ + spec_snapshot_entries(rules.drop_first())
    }
}

/// The whole snapshot document: one JSON object keyed by rule id.
pub open spec fn spec_snapshot_json(rules: Seq<crate::rules::MinimalRuleV>) -> Seq<char> {
    if rules.len() == 0 {
        "{}"@
    } else {
        "{"@ + spec_snapshot_entries(rules) + "}"@
    }
}

/// Reads the members of a snapshot object until the closing brace; the keys
/// are read and dropped, as the gateway keys rules by their own id field.
pub open spec fn spec_parse_entries(s: Seq<char>) -> Option<
    (Seq<crate::rules::MinimalRuleV>, Seq<char>),
>
    decreases s.len(),
{
    match spec_parse_string(s) {
        None => None,
        Some((_key, s1)) => match spec_parse_lit(s1, ":"@) {
            None => None,
            Some(s2) => match spec_parse_rule(s2) {
                None => None,
                Some((r, s3)) => match spec_parse_lit(s3, ","@) {
                    Some(s4) => if s4.len() < s.len() {
                        match spec_parse_entries(s4) {
                            Some((rs, rest)) => Some((seq![r] + rs, rest)),
                            None => None,
                        }
                    } else {
                        None
                    },
                    None => match spec_parse_lit(s3, "}"@) {
                        Some(s5) => Some((seq![r], s5)),
                        None => None,
                    },
                },
            },
        },
    }
}

/// Reads a whole snapshot document; the document must end with the object.
pub open spec fn spec_parse_snapshot(s: Seq<char>) -> Option<Seq<crate::rules::MinimalRuleV>> {
    match spec_parse_lit(s, "{}"@) {
        Some(rest) => if rest.len() == 0 {
            Some(Seq::empty())
        } else {
            None
        },
        None => match spec_parse_lit(s, "{"@) {
            None => None,
            Some(s1) => match spec_parse_entries(s1) {
                None => None,
                Some((rules, rest)) => if rest.len() == 0 {
                    Some(rules)
                } else {
                    None
                },
            },
        },
    }
}

/// Every rule of the sequence can ride the wire: its numbers fit 64 bits and
/// its custom tracking key is not present-but-empty.
pub open spec fn all_encodable(rules: Seq<crate::rules::MinimalRuleV>) -> bool {
    forall|i: int|
        0 <= i < rules.len() ==> {
            &&& 0 <= (#[trigger] rules[i]).limit <= u64::MAX
            &&& 0 <= rules[i].expiration <= u64::MAX
            &&& 0 <= rules[i].ttl <= u64::MAX
            &&& (rules[i].custom_tracking_key matches Some(k) ==> k.len() > 0)
        }
}

/// The members the watcher writes read back unchanged, with what follows the
/// closing brace untouched.
#[verifier::rlimit(100)]
pub proof fn lemma_parse_entries_round_trip(
    rules: Seq<crate::rules::MinimalRuleV>,
    rest: Seq<char>,
)
    requires
        rules.len() >= 1,
        all_encodable(rules),
    ensures
        spec_parse_entries(spec_snapshot_entries(rules) + "}"@ + rest) == Some((rules, rest)),
    decreases rules.len(),
{
    reveal_strlit(":");
    reveal_strlit(",");
    reveal_strlit("}");
    let r = rules[0];
    if rules.len() == 1 {
        let s = spec_snapshot_entries(rules) + "}"@ + rest;
        let p2 = spec_rule_json(r) + "}"@ + rest;
        let p1 = ":"@ + p2;
        assert(s =~= spec_json_string(r.id) + p1);
        lemma_parse_string_round_trip(r.id, p1);
        lemma_parse_lit(":"@, p2);
        lemma_parse_rule_round_trip(r, "}"@ + rest);
        assert(p2 =~= spec_rule_json(r) + ("}"@ + rest));
        let p3 = "}"@ + rest;
        assert(spec_parse_lit(p3, ","@) is None) by {
            if ","@.len() <= p3.len() && p3.take(1) == ","@ {
                assert(p3.take(1)[0] == '}');
                assert((","@)[0] == ',');
            }
        }
        lemma_parse_lit("}"@, rest);
        assert(seq![r] =~= rules);
    } else {
        let s = spec_snapshot_entries(rules) + "}"@ + rest;
        let tail = spec_snapshot_entries(rules.drop_first()) + "}"@ + rest;
        let p3 = ","@ + tail;
        let p2 = spec_rule_json(r) + p3;
        let p1 = ":"@ + p2;
        assert(s =~= spec_json_string(r.id) + p1);
        lemma_parse_string_round_trip(r.id, p1);
        lemma_parse_lit(":"@, p2);
        lemma_parse_rule_round_trip(r, p3);
        lemma_parse_lit(","@, tail);
        assert(tail.len() < s.len()) by {
            assert(spec_json_string(r.id).len() >= 2);
        }
        assert(all_encodable(rules.drop_first())) by {
            assert(forall|i: int|
                0 <= i < rules.drop_first().len() ==> #[trigger] rules.drop_first()[i] == rules[i
                    + 1]);
        }
        lemma_parse_entries_round_trip(rules.drop_first(), rest);
        assert(seq![r] + rules.drop_first() =~= rules);
    }
}

/// What the watcher publishes, a gateway reads back unchanged: the canonical
/// snapshot document parses to exactly the rules it was written from.
#[verifier::rlimit(100)]
pub proof fn lemma_snapshot_round_trip(rules: Seq<crate::rules::MinimalRuleV>)
    requires
        all_encodable(rules),
    ensures
        spec_parse_snapshot(spec_snapshot_json(rules)) == Some(rules),
{
    reveal_strlit("{");
    reveal_strlit("}");
    reveal_strlit("{}");
    if rules.len() == 0 {
        let s = spec_snapshot_json(rules);
        assert(s == "{}"@);
        assert(s.take(2) =~= s);
        assert(s.skip(2) =~= Seq::<char>::empty());
        assert(spec_parse_lit(s, "{}"@) == Some(s.skip(2)));
    } else {
        let s = spec_snapshot_json(rules);
        let body = spec_snapshot_entries(rules) + "}"@ + Seq::<char>::empty();
        assert(s =~= "{"@ + body);
        lemma_parse_entries_round_trip(rules, Seq::empty());
        lemma_parse_lit("{"@, body);
        assert(spec_parse_lit(s, "{}"@) is None) by {
            assert(spec_snapshot_entries(rules).len() >= 1) by {
                assert(spec_snapshot_entry(rules[0]).len() >= 2);
            }
            if "{}"@.len() <= s.len() && s.take(2) == "{}"@ {
                assert(s.take(2)[1] == body[0]);
                assert(body[0] == '"') by {
                    assert(spec_snapshot_entry(rules[0])[0] == '"');
                    if rules.len() == 1 {
                    } else {
                    }
                }
                assert(("{}"@)[1] == '}');
            }
        }
    }
}

/// Appends a vector of characters.
fn push_chars(out: &mut Vec<char>, cs: &Vec<char>)
    ensures
        final(out)@ == old(out)@ + cs@,
{
    let mut i: usize = 0;
    proof {
        assert(out@ =~= out@ + cs@.take(0));
    }
    while i < cs.len()
        invariant
            i <= cs@.len(),
            out@ == old(out)@ + cs@.take(i as int),
        decreases cs@.len() - i,
    {
        out.push(cs[i]);
        proof {
            assert((old(out)@ + cs@.take(i as int)).push(cs@[i as int]) =~= old(out)@ + cs@.take(
                i as int + 1,
            ));
        }
        i = i + 1;
    }
    proof {
        assert(cs@.take(cs@.len() as int) =~= cs@);
    }
}

/// Appends a literal.
fn push_lit(out: &mut Vec<char>, lit: &str)
    ensures
        final(out)@ == old(out)@ + lit@,
{
    let cs = string_to_chars(lit);
    push_chars(out, &cs);
}

/// Appends a number in decimal.
fn push_u64(out: &mut Vec<char>, n: u64)
    ensures
        final(out)@ == old(out)@ + spec_dec(n as nat),
{
    let cs = u64_to_chars(n);
    push_chars(out, &cs);
}

fn push_bool(out: &mut Vec<char>, b: bool)
    ensures
        final(out)@ == old(out)@ + spec_json_bool(b),
{
    if b {
        push_lit(out, "true");
    } else {
        push_lit(out, "false");
    }
}

/// Turns one hexadecimal digit value into its character.
fn hex_to_char(d: u64) -> (c: char)
    requires
        d < 16,
    ensures
        c == hex_digit_char(d as int),
{
    if d < 10 {
        crate::text::digit_to_char(d)
    } else if d == 10 {
        'a'
    } else if d == 11 {
        'b'
    } else if d == 12 {
        'c'
    } else if d == 13 {
        'd'
    } else if d == 14 {
        'e'
    } else {
        'f'
    }
}

/// Appends one character in its escaped form.
fn push_esc_char(out: &mut Vec<char>, c: char)
    ensures
        final(out)@ == old(out)@ + esc_char(c),
{
    if c == '"' {
        out.push('\\');
        out.push('"');
        proof {
            assert(old(out)@.push('\\').push('"') =~= old(out)@ + esc_char(c));
        }
    } else if c == '\\' {
        out.push('\\');
        out.push('\\');
        proof {
            assert(old(out)@.push('\\').push('\\') =~= old(out)@ + esc_char(c));
        }
    } else {
        let v = c as u32;
        if v < 0x20 {
            out.push('\\');
            out.push('u');
            out.push('0');
            out.push('0');
            out.push(hex_to_char((v / 16) as u64));
            out.push(hex_to_char((v % 16) as u64));
            proof {
                assert(old(out)@.push('\\').push('u').push('0').push('0').push(
                    hex_digit_char((c as u32) as int / 16),
                ).push(hex_digit_char((c as u32) as int % 16)) =~= old(out)@ + esc_char(c));
            }
        } else {
            out.push(c);
            proof {
                assert(old(out)@.push(c) =~= old(out)@ + esc_char(c));
            }
        }
    }
}

/// Appends a JSON string literal, quotes and escapes included.
fn push_json_string(out: &mut Vec<char>, s: &str)
    ensures
        final(out)@ == old(out)@ + spec_json_string(s@),
{
    let cs = string_to_chars(s);
    out.push('"');
    let ghost base = out@;
    let mut i: usize = 0;
    proof {
        assert(spec_escape(cs@.take(0)) =~= Seq::<char>::empty());
        assert(out@ =~= base + spec_escape(cs@.take(0)));
    }
    while i < cs.len()
        invariant
            i <= cs@.len(),
            out@ == base + spec_escape(cs@.take(i as int)),
        decreases cs@.len() - i,
    {
        push_esc_char(out, cs[i]);
        proof {
            assert(cs@.take(i as int).push(cs@[i as int]) =~= cs@.take(i as int + 1));
            lemma_escape_snoc(cs@.take(i as int), cs@[i as int]);
            assert((base + spec_escape(cs@.take(i as int))) + esc_char(cs@[i as int]) =~= base
                + spec_escape(cs@.take(i as int + 1)));
        }
        i = i + 1;
    }
    out.push('"');
    proof {
        assert(cs@.take(cs@.len() as int) =~= cs@);
        assert((base + spec_escape(s@)).push('"') =~= old(out)@ + spec_json_string(s@));
    }
}

/// Appends one rule as its canonical JSON object.
#[verifier::rlimit(100)]
fn push_rule_json(out: &mut Vec<char>, r: &crate::rules::MinimalRule)
    ensures
        final(out)@ == old(out)@ + spec_rule_json(r@),
{
    let ghost base = out@;
    push_lit(out, "{\"id\":");
    let ghost a1 = "{\"id\":"@;
    push_json_string(out, r.id.as_str());
    let ghost a2 = a1 + spec_json_string(r@.id);
    proof {
        assert(out@ =~= base + a2);
    }
    push_lit(out, ",\"route\":");
    let ghost a3 = a2 + ",\"route\":"@;
    proof {
        assert(out@ =~= base + a3);
    }
    push_json_string(out, r.route.as_str());
    let ghost a4 = a3 + spec_json_string(r@.route);
    proof {
        assert(out@ =~= base + a4);
    }
    push_lit(out, ",\"algorithm\":");
    let ghost a5 = a4 + ",\"algorithm\":"@;
    proof {
        assert(out@ =~= base + a5);
    }
    let alg_code = r.algorithm.to_string();
    push_json_string(out, alg_code.as_str());
    let ghost a6 = a5 + spec_json_string(r@.algorithm.spec_code());
    proof {
        assert(out@ =~= base + a6);
    }
    push_lit(out, ",\"tracking_type\":");
    let ghost a7 = a6 + ",\"tracking_type\":"@;
    proof {
        assert(out@ =~= base + a7);
    }
    let tt_code = r.tracking_type.to_string();
    push_json_string(out, tt_code.as_str());
    let ghost a8 = a7 + spec_json_string(r@.tracking_type.spec_code());
    proof {
        assert(out@ =~= base + a8);
    }
    push_lit(out, ",\"limit\":");
    let ghost a9 = a8 + ",\"limit\":"@;
    proof {
        assert(out@ =~= base + a9);
    }
    push_u64(out, r.limit);
    let ghost a10 = a9 + spec_dec(r@.limit as nat);
    proof {
        assert(out@ =~= base + a10);
    }
    push_lit(out, ",\"expiration\":");
    let ghost a11 = a10 + ",\"expiration\":"@;
    proof {
        assert(out@ =~= base + a11);
    }
    push_u64(out, r.expiration);
    let ghost a12 = a11 + spec_dec(r@.expiration as nat);
    proof {
        assert(out@ =~= base + a12);
    }
    push_lit(out, ",\"custom_tracking_key\":");
    let ghost a13 = a12 + ",\"custom_tracking_key\":"@;
    proof {
        assert(out@ =~= base + a13);
    }
    match &r.custom_tracking_key {
        Some(k) => {
            push_json_string(out, k.as_str());
        },
        None => {
            push_json_string(out, "");
            proof {
                reveal_strlit("");
                assert(""@ =~= spec_custom_key_text(r@.custom_tracking_key));
            }
        },
    }
    let ghost a14 = a13 + spec_json_string(spec_custom_key_text(r@.custom_tracking_key));
    proof {
        assert(out@ =~= base + a14);
    }
    push_lit(out, ",\"status\":");
    let ghost a15 = a14 + ",\"status\":"@;
    proof {
        assert(out@ =~= base + a15);
    }
    push_bool(out, r.status);
    let ghost a16 = a15 + spec_json_bool(r@.status);
    proof {
        assert(out@ =~= base + a16);
    }
    push_lit(out, ",\"ttl\":");
    let ghost a17 = a16 + ",\"ttl\":"@;
    proof {
        assert(out@ =~= base + a17);
    }
    push_u64(out, r.ttl);
    let ghost a18 = a17 + spec_dec(r@.ttl as nat);
    proof {
        assert(out@ =~= base + a18);
    }
    push_lit(out, "}");
    proof {
        reveal(spec_rule_json);
        assert(out@ =~= base + (a18 + "}"@));
        assert(a18 + "}"@ =~= spec_rule_json(r@));
    }
}

/// The rules of a snapshot, as their mathematical images.
pub open spec fn rules_view(s: Seq<crate::rules::MinimalRule>) -> Seq<crate::rules::MinimalRuleV> {
    s.map(|i: int, r: crate::rules::MinimalRule| r@)
}

/// Appending one more rule appends one more member.
pub proof fn lemma_entries_snoc(a: Seq<crate::rules::MinimalRuleV>, r: crate::rules::MinimalRuleV)
    requires
        a.len() >= 1,
    ensures
        spec_snapshot_entries(a.push(r)) == spec_snapshot_entries(a) + ","@ + spec_snapshot_entry(
            r,
        ),
    decreases a.len(),
{
    if a.len() == 1 {
        let b = a.push(r);
        assert(b[0] == a[0]);
        assert(b.drop_first() =~= seq![r]);
        assert(spec_snapshot_entries(seq![r]) == spec_snapshot_entry(r));
    } else {
        let b = a.push(r);
        assert(b[0] == a[0]);
        assert(b.drop_first() =~= a.drop_first().push(r));
        lemma_entries_snoc(a.drop_first(), r);
        assert(spec_snapshot_entry(b[0]) + ","@ + (spec_snapshot_entries(a.drop_first()) + ","@
            + spec_snapshot_entry(r)) =~= (spec_snapshot_entry(a[0]) + ","@
            + spec_snapshot_entries(a.drop_first())) + ","@ + spec_snapshot_entry(r));
    }
}

/// Writes the canonical snapshot document for a rule set: the JSON object the
/// watcher stores whole under the well-known `rules` key.
pub fn encode_snapshot(rules: &Vec<crate::rules::MinimalRule>) -> (out: String)
    ensures
        out@ == spec_snapshot_json(rules_view(rules@)),
{
    let mut buf: Vec<char> = Vec::new();
    if rules.len() == 0 {
        push_lit(&mut buf, "{}");
        proof {
            assert(buf@ =~= spec_snapshot_json(rules_view(rules@)));
        }
        return crate::text::chars_to_string(&buf);
    }
    push_lit(&mut buf, "{");
    let ghost base = "{"@;
    push_json_string(&mut buf, rules[0].id.as_str());
    push_lit(&mut buf, ":");
    push_rule_json(&mut buf, &rules[0]);
    proof {
        assert(buf@ =~= base + spec_snapshot_entry(rules@[0]@));
        assert(spec_snapshot_entries(rules_view(rules@).take(1)) == spec_snapshot_entry(
            rules@[0]@,
        )) by {
            assert(rules_view(rules@).take(1) =~= seq![rules@[0]@]);
        }
    }
    let mut i: usize = 1;
    while i < rules.len()
        invariant
            1 <= i <= rules@.len(),
            buf@ == "{"@ + spec_snapshot_entries(rules_view(rules@).take(i as int)),
            rules_view(rules@).len() == rules@.len(),
        decreases rules@.len() - i,
    {
        let ghost before = spec_snapshot_entries(rules_view(rules@).take(i as int));
        push_lit(&mut buf, ",");
        push_json_string(&mut buf, rules[i].id.as_str());
        push_lit(&mut buf, ":");
        push_rule_json(&mut buf, &rules[i]);
        proof {
            assert(buf@ =~= "{"@ + (before + ","@ + spec_snapshot_entry(rules@[i as int]@)));
            assert(rules_view(rules@).take(i as int).push(rules@[i as int]@) =~= rules_view(
                rules@,
            ).take(i as int + 1));
            lemma_entries_snoc(rules_view(rules@).take(i as int), rules@[i as int]@);
        }
        i = i + 1;
    }
    push_lit(&mut buf, "}");
    proof {
        assert(rules_view(rules@).take(rules@.len() as int) =~= rules_view(rules@));
        assert(buf@ =~= ("{"@ + spec_snapshot_entries(rules_view(rules@))) + "}"@);
        assert(("{"@ + spec_snapshot_entries(rules_view(rules@))) + "}"@ =~= spec_snapshot_json(
            rules_view(rules@),
        ));
    }
    crate::text::chars_to_string(&buf)
}

/// Recognizes a literal at a cursor position.
fn eat_lit(chars: &Vec<char>, pos: usize, lit: &str) -> (r: Option<usize>)
    requires
        pos <= chars@.len(),
    ensures
        match r {
            Some(p) => pos <= p <= chars@.len() && p - pos == lit@.len() && spec_parse_lit(
                chars@.skip(pos as int),
                lit@,
            ) == Some(chars@.skip(p as int)),
            None => spec_parse_lit(chars@.skip(pos as int), lit@) is None,
        },
{
    let lcs = string_to_chars(lit);
    if chars.len() - pos < lcs.len() {
        return None;
    }
    let n = chars.len();
    let mut j: usize = 0;
    while j < lcs.len()
        invariant
            j <= lcs@.len(),
            n == chars@.len(),
            pos + lcs@.len() <= chars@.len(),
            lcs@ == lit@,
            forall|k: int| 0 <= k < j ==> chars@[pos + k] == lit@[k],
        decreases lcs@.len() - j,
    {
        proof {
            assert(pos + j < chars@.len());
        }
        if chars[pos + j] != lcs[j] {
            proof {
                let s = chars@.skip(pos as int);
                if lit@.len() <= s.len() && s.take(lit@.len() as int) == lit@ {
                    assert(s.take(lit@.len() as int)[j as int] == lit@[j as int]);
                    assert(s[j as int] == chars@[pos + j]);
                }
            }
            return None;
        }
        j = j + 1;
    }
    proof {
        let s = chars@.skip(pos as int);
        assert(s.take(lit@.len() as int) =~= lit@);
        assert(s.skip(lit@.len() as int) =~= chars@.skip(pos + lit@.len()));
    }
    Some(pos + lcs.len())
}

fn is_digit_exec(c: char) -> (r: bool)
    ensures
        r == crate::text::is_digit(c),
{
    c == '0' || c == '1' || c == '2' || c == '3' || c == '4' || c == '5' || c == '6' || c == '7'
        || c == '8' || c == '9'
}

fn digit_val_exec(c: char) -> (r: u64)
    requires
        crate::text::is_digit(c),
    ensures
        r == crate::text::digit_val(c),
{
    if c == '0' {
        0
    } else if c == '1' {
        1
    } else if c == '2' {
        2
    } else if c == '3' {
        3
    } else if c == '4' {
        4
    } else if c == '5' {
        5
    } else if c == '6' {
        6
    } else if c == '7' {
        7
    } else if c == '8' {
        8
    } else {
        9
    }
}

fn is_hex_lower_exec(c: char) -> (r: bool)
    ensures
        r == is_hex_lower(c),
{
    is_digit_exec(c) || c == 'a' || c == 'b' || c == 'c' || c == 'd' || c == 'e' || c == 'f'
}

fn hex_val_exec(c: char) -> (r: u64)
    requires
        is_hex_lower(c),
    ensures
        r == hex_val(c),
{
    if is_digit_exec(c) {
        digit_val_exec(c)
    } else if c == 'a' {
        10
    } else if c == 'b' {
        11
    } else if c == 'c' {
        12
    } else if c == 'd' {
        13
    } else if c == 'e' {
        14
    } else {
        15
    }
}

/// Reads a JSON string literal at a cursor position.
fn parse_string_at(chars: &Vec<char>, pos: usize) -> (r: Option<(Vec<char>, usize)>)
    requires
        pos <= chars@.len(),
    ensures
        match r {
            Some((v, p)) => pos < p <= chars@.len() && spec_parse_string(
                chars@.skip(pos as int),
            ) == Some((v@, chars@.skip(p as int))),
            None => spec_parse_string(chars@.skip(pos as int)) is None,
        },
{
    let n = chars.len();
    if pos >= n || chars[pos] != '"' {
        proof {
            if pos < chars@.len() {
                assert(chars@.skip(pos as int)[0] == chars@[pos as int]);
            }
        }
        return None;
    }
    proof {
        assert(chars@.skip(pos as int)[0] == '"');
        assert(chars@.skip(pos as int).drop_first() =~= chars@.skip(pos as int + 1));
    }
    let ghost s0 = chars@.skip(pos as int + 1);
    let mut out: Vec<char> = Vec::new();
    let mut cur: usize = pos + 1;
    proof {
        assert(out@ + Seq::<char>::empty() =~= out@);
    }
    while cur < n
        invariant
            pos < cur <= n,
            n == chars@.len(),
            chars@[pos as int] == '"',
            chars@.skip(pos as int)[0] == '"',
            chars@.skip(pos as int).drop_first() == s0,
            s0 == chars@.skip(pos as int + 1),
            spec_parse_string_body(s0) == match spec_parse_string_body(
                chars@.skip(cur as int),
            ) {
                Some((v, rest)) => Some((out@ + v, rest)),
                None => None::<(Seq<char>, Seq<char>)>,
            },
        decreases n - cur,
    {
        let ghost sc = chars@.skip(cur as int);
        proof {
            assert(sc[0] == chars@[cur as int]);
        }
        let c = chars[cur];
        if c == '"' {
            proof {
                assert(sc.drop_first() =~= chars@.skip(cur as int + 1));
                assert(spec_parse_string_body(sc) == Some(
                    (Seq::<char>::empty(), chars@.skip(cur as int + 1)),
                ));
                assert(out@ + Seq::<char>::empty() =~= out@);
            }
            return Some((out, cur + 1));
        } else if c == '\\' {
            if cur + 1 < n {
                let c1 = chars[cur + 1];
                proof {
                    assert(sc[1] == chars@[cur as int + 1]);
                }
                if c1 == '"' || c1 == '\\' {
                    proof {
                        assert(sc.skip(2) =~= chars@.skip(cur as int + 2));
                    }
                    let ghost old_out = out@;
                    out.push(c1);
                    proof {
                        assert forall|v: Seq<char>| true implies old_out + (seq![c1] + v) =~= out@
                            + v by {}
                    }
                    cur = cur + 2;
                } else if c1 == 'u' && n - cur > 5 && chars[cur + 2] == '0' && chars[cur + 3]
                    == '0' && is_hex_lower_exec(chars[cur + 4]) && is_hex_lower_exec(
                    chars[cur + 5],
                ) {
                    proof {
                        assert(sc[2] == chars@[cur as int + 2]);
                        assert(sc[3] == chars@[cur as int + 3]);
                        assert(sc[4] == chars@[cur as int + 4]);
                        assert(sc[5] == chars@[cur as int + 5]);
                        assert(sc.skip(6) =~= chars@.skip(cur as int + 6));
                    }
                    let v = hex_val_exec(chars[cur + 4]) * 16 + hex_val_exec(chars[cur + 5]);
                    let decoded = (v as u8) as char;
                    let ghost old_out = out@;
                    out.push(decoded);
                    proof {
                        assert(decoded == ((hex_val(sc[4]) * 16 + hex_val(sc[5])) as u32) as char);
                        assert forall|w: Seq<char>| true implies old_out + (seq![decoded] + w)
                            =~= out@ + w by {}
                    }
                    cur = cur + 6;
                } else {
                    proof {
                        if sc.len() >= 6 && sc[1] == 'u' && sc[2] == '0' && sc[3] == '0'
                            && is_hex_lower(sc[4]) && is_hex_lower(sc[5]) {
                            assert(n - cur > 5);
                        }
                        assert(spec_parse_string_body(sc) is None);
                    }
                    return None;
                }
            } else {
                proof {
                    assert(sc.len() == 1);
                    assert(spec_parse_string_body(sc) is None);
                }
                return None;
            }
        } else {
            proof {
                assert(sc.drop_first() =~= chars@.skip(cur as int + 1));
            }
            let ghost old_out = out@;
            out.push(c);
            proof {
                assert forall|v: Seq<char>| true implies old_out + (seq![c] + v) =~= out@
                    + v by {}
            }
            cur = cur + 1;
        }
    }
    proof {
        assert(chars@.skip(cur as int).len() == 0);
        assert(spec_parse_string_body(chars@.skip(cur as int)) is None);
    }
    None
}

/// Reads a decimal number at a cursor position.
fn parse_u64_at(chars: &Vec<char>, pos: usize) -> (r: Option<(u64, usize)>)
    requires
        pos <= chars@.len(),
    ensures
        match r {
            Some((v, p)) => pos <= p <= chars@.len() && spec_parse_u64(chars@.skip(pos as int))
                == Some((v as nat, chars@.skip(p as int))),
            None => spec_parse_u64(chars@.skip(pos as int)) is None,
        },
{
    let n = chars.len();
    if pos >= n || !is_digit_exec(chars[pos]) {
        proof {
            if pos < chars@.len() {
                assert(chars@.skip(pos as int)[0] == chars@[pos as int]);
            }
        }
        return None;
    }
    proof {
        assert(chars@.skip(pos as int)[0] == chars@[pos as int]);
    }
    let mut acc: u64 = 0;
    let mut cur: usize = pos;
    while cur < n && is_digit_exec(chars[cur])
        invariant
            pos <= cur <= n,
            n == chars@.len(),
            cur < n ==> chars@.skip(cur as int)[0] == chars@[cur as int],
            spec_parse_digits(chars@.skip(pos as int), 0) == spec_parse_digits(
                chars@.skip(cur as int),
                acc as nat,
            ),
        decreases n - cur,
    {
        let d = digit_val_exec(chars[cur]);
        if acc > (u64::MAX - d) / 10 {
            proof {
                assert(acc * 10 + d > u64::MAX) by (nonlinear_arith)
                    requires
                        acc > (u64::MAX - d) / 10,
                        0 <= d <= 9,
                        acc >= 0,
                ;
                assert(spec_parse_digits(chars@.skip(cur as int), acc as nat) is None);
            }
            return None;
        }
        proof {
            assert(acc * 10 + d <= u64::MAX) by (nonlinear_arith)
                requires
                    acc <= (u64::MAX - d) / 10,
                    0 <= d <= 9,
                    acc >= 0,
            ;
            assert(chars@.skip(cur as int).drop_first() =~= chars@.skip(cur as int + 1));
        }
        acc = acc * 10 + d;
        cur = cur + 1;
        proof {
            if cur < n {
                assert(chars@.skip(cur as int)[0] == chars@[cur as int]);
            }
        }
    }
    proof {
        if cur < n {
            assert(!crate::text::is_digit(chars@.skip(cur as int)[0]));
        } else {
            assert(chars@.skip(cur as int).len() == 0);
        }
        assert(spec_parse_digits(chars@.skip(cur as int), acc as nat) == Some(
            (acc as nat, chars@.skip(cur as int)),
        ));
    }
    Some((acc, cur))
}

fn parse_bool_at(chars: &Vec<char>, pos: usize) -> (r: Option<(bool, usize)>)
    requires
        pos <= chars@.len(),
    ensures
        match r {
            Some((v, p)) => pos <= p <= chars@.len() && spec_parse_bool(chars@.skip(pos as int))
                == Some((v, chars@.skip(p as int))),
            None => spec_parse_bool(chars@.skip(pos as int)) is None,
        },
{
    if let Some(p) = eat_lit(chars, pos, "true") {
        return Some((true, p));
    }
    if let Some(p) = eat_lit(chars, pos, "false") {
        return Some((false, p));
    }
    None
}

/// The algorithm named by a wire code, as `code_to_alg` reads it.
fn alg_from_code(s: &str) -> (r: Option<crate::rate_limiter::RateLimiterAlgorithms>)
    ensures
        match r {
            Some(a) => code_to_alg(s@) == Some(a),
            None => code_to_alg(s@) is None,
        },
{
    proof {
        lemma_codes_distinct();
    }
    match crate::rate_limiter::RateLimiterAlgorithms::from_string(s) {
        Ok(a) => Some(a),
        Err(_) => None,
    }
}

/// The tracking type named by a wire code, as `code_to_tracking` reads it.
fn tracking_from_code(s: &str) -> (r: Option<crate::rate_limiter::LimiterTrackingType>)
    ensures
        match r {
            Some(t) => code_to_tracking(s@) == Some(t),
            None => code_to_tracking(s@) is None,
        },
{
    proof {
        lemma_codes_distinct();
    }
    match crate::rate_limiter::LimiterTrackingType::from_string(s) {
        Ok(t) => Some(t),
        Err(_) => None,
    }
}

/// Reads a rule object's tail at a cursor position.
#[verifier::rlimit(100)]
fn parse_rule_tail_at(chars: &Vec<char>, pos: usize) -> (r: Option<
    ((u64, u64, Option<String>, bool, u64), usize),
>)
    requires
        pos <= chars@.len(),
    ensures
        match r {
            Some(((limit, expiration, custom, status, ttl), p)) => pos <= p <= chars@.len()
                && spec_parse_rule_tail(chars@.skip(pos as int)) == Some(
                (
                    (
                        limit as int,
                        expiration as int,
                        match custom {
                            Some(k) => Some(k@),
                            None => None,
                        },
                        status,
                        ttl as int,
                    ),
                    chars@.skip(p as int),
                ),
            ),
            None => spec_parse_rule_tail(chars@.skip(pos as int)) is None,
        },
{
    proof {
        reveal(spec_parse_rule_tail);
    }
    let p9 = match eat_lit(chars, pos, ",\"limit\":") {
        Some(p) => p,
        None => {
            return None;
        },
    };
    let (limit, p10) = match parse_u64_at(chars, p9) {
        Some(x) => x,
        None => {
            return None;
        },
    };
    let p11 = match eat_lit(chars, p10, ",\"expiration\":") {
        Some(p) => p,
        None => {
            return None;
        },
    };
    let (expiration, p12) = match parse_u64_at(chars, p11) {
        Some(x) => x,
        None => {
            return None;
        },
    };
    let p13 = match eat_lit(chars, p12, ",\"custom_tracking_key\":") {
        Some(p) => p,
        None => {
            return None;
        },
    };
    let (custom_chars, p14) = match parse_string_at(chars, p13) {
        Some(x) => x,
        None => {
            return None;
        },
    };
    let p15 = match eat_lit(chars, p14, ",\"status\":") {
        Some(p) => p,
        None => {
            return None;
        },
    };
    let (status, p16) = match parse_bool_at(chars, p15) {
        Some(x) => x,
        None => {
            return None;
        },
    };
    let p17 = match eat_lit(chars, p16, ",\"ttl\":") {
        Some(p) => p,
        None => {
            return None;
        },
    };
    let (ttl, p18) = match parse_u64_at(chars, p17) {
        Some(x) => x,
        None => {
            return None;
        },
    };
    let p19 = match eat_lit(chars, p18, "}") {
        Some(p) => p,
        None => {
            return None;
        },
    };
    let custom = if custom_chars.len() == 0 {
        None
    } else {
        Some(crate::text::chars_to_string(&custom_chars))
    };
    Some(((limit, expiration, custom, status, ttl), p19))
}

/// Reads one rule object at a cursor position.
#[verifier::rlimit(100)]
fn parse_rule_at(chars: &Vec<char>, pos: usize) -> (r: Option<(crate::rules::MinimalRule, usize)>)
    requires
        pos <= chars@.len(),
    ensures
        match r {
            Some((rule, p)) => pos <= p <= chars@.len() && spec_parse_rule(
                chars@.skip(pos as int),
            ) == Some((rule@, chars@.skip(p as int))),
            None => spec_parse_rule(chars@.skip(pos as int)) is None,
        },
{
    proof {
        reveal(spec_parse_rule);
    }
    let p1 = match eat_lit(chars, pos, "{\"id\":") {
        Some(p) => p,
        None => {
            return None;
        },
    };
    let (id_chars, p2) = match parse_string_at(chars, p1) {
        Some(x) => x,
        None => {
            return None;
        },
    };
    let p3 = match eat_lit(chars, p2, ",\"route\":") {
        Some(p) => p,
        None => {
            return None;
        },
    };
    let (route_chars, p4) = match parse_string_at(chars, p3) {
        Some(x) => x,
        None => {
            return None;
        },
    };
    let p5 = match eat_lit(chars, p4, ",\"algorithm\":") {
        Some(p) => p,
        None => {
            return None;
        },
    };
    let (alg_chars, p6) = match parse_string_at(chars, p5) {
        Some(x) => x,
        None => {
            return None;
        },
    };
    let alg_code = crate::text::chars_to_string(&alg_chars);
    let algorithm = match alg_from_code(alg_code.as_str()) {
        Some(a) => a,
        None => {
            return None;
        },
    };
    let p7 = match eat_lit(chars, p6, ",\"tracking_type\":") {
        Some(p) => p,
        None => {
            return None;
        },
    };
    let (tt_chars, p8) = match parse_string_at(chars, p7) {
        Some(x) => x,
        None => {
            return None;
        },
    };
    let tt_code = crate::text::chars_to_string(&tt_chars);
    let tracking_type = match tracking_from_code(tt_code.as_str()) {
        Some(t) => t,
        None => {
            return None;
        },
    };
    let ((limit, expiration, custom_tracking_key, status, ttl), p19) = match parse_rule_tail_at(
        chars,
        p8,
    ) {
        Some(x) => x,
        None => {
            return None;
        },
    };
    let rule = crate::rules::MinimalRule {
        id: crate::text::chars_to_string(&id_chars),
        route: crate::text::chars_to_string(&route_chars),
        algorithm,
        limit,
        expiration,
        tracking_type,
        custom_tracking_key,
        status,
        ttl,
    };
    Some((rule, p19))
}

/// Reads a whole snapshot document back into its rules, in snapshot order.
/// Exactly the canonical form of `encode_snapshot` is accepted.
#[verifier::rlimit(100)]
pub fn parse_snapshot(doc: &str) -> (r: Option<Vec<crate::rules::MinimalRule>>)
    ensures
        match r {
            Some(rules) => spec_parse_snapshot(doc@) == Some(rules_view(rules@)),
            None => spec_parse_snapshot(doc@) is None,
        },
{
    let chars = string_to_chars(doc);
    proof {
        assert(chars@.skip(0) =~= doc@);
    }
    if let Some(p) = eat_lit(&chars, 0, "{}") {
        if p == chars.len() {
            let empty: Vec<crate::rules::MinimalRule> = Vec::new();
            proof {
                assert(chars@.skip(p as int).len() == 0);
                assert(rules_view(empty@) =~= Seq::<crate::rules::MinimalRuleV>::empty());
            }
            return Some(empty);
        } else {
            proof {
                assert(chars@.skip(p as int).len() > 0);
            }
            return None;
        }
    }
    let mut cur = match eat_lit(&chars, 0, "{") {
        Some(p) => p,
        None => {
            return None;
        },
    };
    proof {
        reveal_strlit("{");
        assert(cur == 1);
    }
    let ghost s1 = chars@.skip(cur as int);
    let mut acc: Vec<crate::rules::MinimalRule> = Vec::new();
    loop
        invariant
            cur <= chars@.len(),
            chars@ == doc@,
            s1 == chars@.skip(1),
            cur >= 1,
            spec_parse_lit(doc@, "{}"@) is None,
            spec_parse_lit(doc@, "{"@) == Some(s1),
            match spec_parse_entries(chars@.skip(cur as int)) {
                Some((rs, rest)) => spec_parse_entries(s1) == Some(
                    (rules_view(acc@) + rs, rest),
                ),
                None => spec_parse_entries(s1) is None,
            },
        decreases chars@.len() - cur,
    {
        let ghost sc = chars@.skip(cur as int);
        let (_key, q1) = match parse_string_at(&chars, cur) {
            Some(x) => x,
            None => {
                return None;
            },
        };
        let q2 = match eat_lit(&chars, q1, ":") {
            Some(p) => p,
            None => {
                return None;
            },
        };
        let (rule, q3) = match parse_rule_at(&chars, q2) {
            Some(x) => x,
            None => {
                return None;
            },
        };
        let ghost old_acc = acc@;
        acc.push(rule);
        proof {
            assert(rules_view(acc@) =~= rules_view(old_acc).push(rule@));
        }
        if let Some(q4) = eat_lit(&chars, q3, ",") {
            proof {
                assert(chars@.skip(q4 as int).len() < sc.len());
                assert(rules_view(old_acc) + (seq![rule@] + spec_parse_entries(
                    chars@.skip(q4 as int),
                )->Some_0.0) =~= rules_view(acc@) + spec_parse_entries(
                    chars@.skip(q4 as int),
                )->Some_0.0);
            }
            cur = q4;
        } else {
            let q5 = match eat_lit(&chars, q3, "}") {
                Some(p) => p,
                None => {
                    return None;
                },
            };
            proof {
                assert(spec_parse_entries(sc) == Some((seq![rule@], chars@.skip(q5 as int))));
                assert(rules_view(old_acc) + seq![rule@] =~= rules_view(acc@));
            }
            if q5 == chars.len() {
                proof {
                    assert(chars@.skip(q5 as int).len() == 0);
                    assert(rules_view(acc@) + Seq::<crate::rules::MinimalRuleV>::empty()
                        =~= rules_view(acc@));
                }
                return Some(acc);
            } else {
                proof {
                    assert(chars@.skip(q5 as int).len() > 0);
                }
                return None;
            }
        }
    }
}

/// The minimal projections of a rule sequence.
pub open spec fn minimal_views(rules: Seq<crate::rules::Rule>) -> Seq<crate::rules::MinimalRuleV> {
    rules.map(|i: int, r: crate::rules::Rule| r.to_minimal_spec())
}

/// The script the watcher runs on the counter store for one publication: the
/// whole snapshot document is stored under the well-known `rules` key, then
/// the literal `update` is published on the `rl_update` channel.
pub open spec fn spec_config_script(rules: Seq<crate::rules::MinimalRuleV>) -> Seq<char> {
    "redis.call('JSON.SET', 'rules', '$', '"@ + spec_snapshot_json(rules)
        + "')\nredis.call('PUBLISH', 'rl_update', 'update')"@
}

/// Builds the watcher's publication script for a rule set.  The snapshot is
/// rebuilt wholesale on every publication, so removed rules disappear with
/// it.  The document is spliced into a single-quoted script string; rule
/// text is expected not to carry single quotes or backslashes of its own.
pub fn make_rules_configuration_script(rules: &Vec<crate::rules::Rule>) -> (out: String)
    ensures
        out@ == spec_config_script(minimal_views(rules@)),
{
    let mut minimal: Vec<crate::rules::MinimalRule> = Vec::new();
    let mut i: usize = 0;
    while i < rules.len()
        invariant
            i <= rules@.len(),
            minimal@.len() == i,
            forall|j: int| 0 <= j < i ==> (#[trigger] minimal@[j])@ == rules@[j].to_minimal_spec(),
        decreases rules@.len() - i,
    {
        minimal.push(rules[i].to_minimal());
        i = i + 1;
    }
    proof {
        assert(rules_view(minimal@) =~= minimal_views(rules@));
    }
    let doc = encode_snapshot(&minimal);
    let out = String::from_str("redis.call('JSON.SET', 'rules', '$', '").concat(
        doc.as_str(),
    ).concat("')\nredis.call('PUBLISH', 'rl_update', 'update')");
    proof {
        assert(out@ =~= spec_config_script(minimal_views(rules@)));
    }
    out
}

/// The (route, id) pairs of a rule sequence, in order.
pub open spec fn route_id_pairs(rules: Seq<crate::rules::MinimalRuleV>) -> Seq<
    (Seq<char>, Seq<char>),
> {
    rules.map(|i: int, r: crate::rules::MinimalRuleV| (r.route, r.id))
}

/// Reads the snapshot document into (route, id) pairs, in snapshot order:
/// what the watcher consults to reuse the id of a route it already published.
pub fn get_rules_route_and_id(doc: &str) -> (r: Option<Vec<(String, String)>>)
    ensures
        match r {
            Some(pairs) => spec_parse_snapshot(doc@) matches Some(rules) && pairs@.len()
                == rules.len() && forall|i: int|
                0 <= i < pairs@.len() ==> (#[trigger] pairs@[i].0@, pairs@[i].1@) == route_id_pairs(
                    spec_parse_snapshot(doc@)->Some_0,
                )[i],
            None => spec_parse_snapshot(doc@) is None,
        },
{
    let rules = match parse_snapshot(doc) {
        Some(rules) => rules,
        None => {
            return None;
        },
    };
    let mut pairs: Vec<(String, String)> = Vec::new();
    let mut i: usize = 0;
    while i < rules.len()
        invariant
            i <= rules@.len(),
            pairs@.len() == i,
            forall|j: int|
                0 <= j < i ==> (#[trigger] pairs@[j].0@, pairs@[j].1@) == (
                    rules@[j]@.route,
                    rules@[j]@.id,
                ),
        decreases rules@.len() - i,
    {
        pairs.push((rules[i].route.clone(), rules[i].id.clone()));
        i = i + 1;
    }
    Some(pairs)
}

/// The view of plain (route, id) pairs.
pub open spec fn pairs_view(pairs: Seq<(String, String)>) -> Seq<(Seq<char>, Seq<char>)> {
    pairs.map(|i: int, p: (String, String)| (p.0@, p.1@))
}

fn pairs_lookup<'a>(pairs: &'a Vec<(String, String)>, key: &str) -> (r: Option<&'a String>)
    ensures
        match r {
            Some(v) => crate::utils::spec_header_lookup(pairs_view(pairs@), key@) == Some(v@),
            None => crate::utils::spec_header_lookup(pairs_view(pairs@), key@) is None,
        },
{
    let ghost hs = pairs_view(pairs@);
    let mut i: usize = 0;
    let n = pairs.len();
    proof {
        assert(hs.skip(0) =~= hs);
    }
    while i < n
        invariant
            i <= n,
            n == pairs@.len(),
            hs == pairs_view(pairs@),
            hs.len() == pairs@.len(),
            crate::utils::spec_header_lookup(hs, key@) == crate::utils::spec_header_lookup(
                hs.skip(i as int),
                key@,
            ),
        decreases n - i,
    {
        proof {
            assert(hs.skip(i as int)[0] == hs[i as int]);
            assert(hs.skip(i as int).drop_first() =~= hs.skip(i as int + 1));
        }
        if crate::text::str_eq(pairs[i].0.as_str(), key) {
            return Some(&pairs[i].1);
        }
        i = i + 1;
    }
    proof {
        assert(hs.skip(n as int) =~= Seq::<(Seq<char>, Seq<char>)>::empty());
    }
    None
}

/// The watcher's id assignment: a configured rule whose route was already
/// published keeps the published id; a new route gets a fresh one.
pub fn assign_rule_ids(
    configs: &Vec<crate::rules::MinimalRule>,
    existing: &Vec<(String, String)>,
) -> (out: Vec<crate::rules::MinimalRule>)
    ensures
        out@.len() == configs@.len(),
        forall|i: int|
            0 <= i < out@.len() ==> {
                let c = #[trigger] configs@[i]@;
                let o = out@[i]@;
                &&& o.route == c.route
                &&& o.algorithm == c.algorithm
                &&& o.limit == c.limit
                &&& o.expiration == c.expiration
                &&& o.tracking_type == c.tracking_type
                &&& o.custom_tracking_key == c.custom_tracking_key
                &&& o.status == c.status
                &&& o.ttl == c.ttl
                &&& match crate::utils::spec_header_lookup(pairs_view(existing@), c.route) {
                    Some(id) => o.id == id,
                    None => o.id.len() == 36,
                }
            },
{
    let mut out: Vec<crate::rules::MinimalRule> = Vec::new();
    let mut i: usize = 0;
    while i < configs.len()
        invariant
            i <= configs@.len(),
            out@.len() == i,
            forall|j: int|
                0 <= j < i ==> {
                    let c = #[trigger] configs@[j]@;
                    let o = out@[j]@;
                    &&& o.route == c.route
                    &&& o.algorithm == c.algorithm
                    &&& o.limit == c.limit
                    &&& o.expiration == c.expiration
                    &&& o.tracking_type == c.tracking_type
                    &&& o.custom_tracking_key == c.custom_tracking_key
                    &&& o.status == c.status
                    &&& o.ttl == c.ttl
                    &&& match crate::utils::spec_header_lookup(pairs_view(existing@), c.route) {
                        Some(id) => o.id == id,
                        None => o.id.len() == 36,
                    }
                },
        decreases configs@.len() - i,
    {
        let c = &configs[i];
        let id = match pairs_lookup(existing, c.route.as_str()) {
            Some(v) => v.clone(),
            None => crate::rules::uuid_v4_string(),
        };
        out.push(
            crate::rules::MinimalRule {
                id,
                route: c.route.clone(),
                algorithm: c.algorithm,
                limit: c.limit,
                expiration: c.expiration,
                tracking_type: c.tracking_type,
                custom_tracking_key: match &c.custom_tracking_key {
                    Some(k) => Some(k.clone()),
                    None => None,
                },
                status: c.status,
                ttl: c.ttl,
            },
        );
        i = i + 1;
    }
    out
}

} // verus!
