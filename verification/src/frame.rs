//! The line-oriented frame codec: one line of text stands for one UDP
//! datagram. Multiplexed frames read `<id>:<base64>`; single-target lines
//! hold whitespace-separated base64 tokens.
use vstd::prelude::*;

use crate::b64::{
    b64_decode, b64_encode, b64_val_of, is_b64_symbol, lemma_b64_round_trip, lemma_encode_symbols,
    spec_b64_decode, spec_b64_encode,
};

verus! {

/// ASCII colon, the separator of a multiplexed frame.
pub const COLON: u8 = 58;

/// ASCII line feed, the frame terminator.
pub const NEWLINE: u8 = 10;

/// Why a frame line was rejected. Every decode error is fatal for the relay.
#[derive(Clone, Copy, Debug, PartialEq, Eq, Structural)]
pub enum FrameError {
    /// Not exactly one `:` separator after stripping.
    Format,
    /// The id field is not a decimal number that fits in 64 bits.
    BadId,
    /// The payload field is not canonical base64.
    BadBase64,
}

/// Bytes removed from a multiplexed line before parsing: space and newline.
pub open spec fn is_blank(c: u8) -> bool {
    c == 32 || c == 10
}

/// The line with every space and newline removed.
pub open spec fn spec_strip(s: Seq<u8>) -> Seq<u8>
    decreases s.len(),
{
    if s.len() == 0 {
        Seq::empty()
    } else if is_blank(s[0]) {
        spec_strip(s.drop_first())
    } else {
        seq![s[0]] + spec_strip(s.drop_first())
    }
}

pub proof fn lemma_strip_concat(a: Seq<u8>, b: Seq<u8>)
    ensures
        spec_strip(a + b) == spec_strip(a) + spec_strip(b),
    decreases a.len(),
{
    if a.len() == 0 {
        assert(a + b =~= b);
        assert(spec_strip(a) + spec_strip(b) =~= spec_strip(b));
    } else {
        assert((a + b).drop_first() =~= a.drop_first() + b);
        lemma_strip_concat(a.drop_first(), b);
        if !is_blank(a[0]) {
            assert(seq![a[0]] + (spec_strip(a.drop_first()) + spec_strip(b)) =~= (seq![a[0]]
                + spec_strip(a.drop_first())) + spec_strip(b));
        }
    }
}

/// A line without blanks strips to itself.
pub proof fn lemma_strip_clean(s: Seq<u8>)
    requires
        forall|i: int| 0 <= i < s.len() ==> !is_blank(#[trigger] s[i]),
    ensures
        spec_strip(s) == s,
    decreases s.len(),
{
    if s.len() > 0 {
        lemma_strip_clean(s.drop_first());
        assert(seq![s[0]] + s.drop_first() =~= s);
    }
}

/// How many colons the line holds.
pub open spec fn colon_count(s: Seq<u8>) -> nat
    decreases s.len(),
{
    if s.len() == 0 {
        0
    } else {
        (if s[0] == COLON {
            1nat
        } else {
            0nat
        }) + colon_count(s.drop_first())
    }
}

/// Index of the first colon, or -1 if there is none.
pub open spec fn first_colon(s: Seq<u8>) -> int
    decreases s.len(),
{
    if s.len() == 0 {
        -1
    } else if s[0] == COLON {
        0
    } else if first_colon(s.drop_first()) < 0 {
        -1
    } else {
        1 + first_colon(s.drop_first())
    }
}

pub proof fn lemma_colon_count_push(s: Seq<u8>, x: u8)
    ensures
        colon_count(s.push(x)) == colon_count(s) + (if x == COLON {
            1nat
        } else {
            0nat
        }),
    decreases s.len(),
{
    if s.len() == 0 {
        assert(s.push(x).drop_first() =~= Seq::<u8>::empty());
        assert(s.push(x)[0] == x);
        assert(colon_count(Seq::<u8>::empty()) == 0);
    } else {
        assert(s.push(x).drop_first() =~= s.drop_first().push(x));
        assert(s.push(x)[0] == s[0]);
        lemma_colon_count_push(s.drop_first(), x);
        assert(colon_count(s.push(x)) == (if s[0] == COLON {
            1nat
        } else {
            0nat
        }) + colon_count(s.drop_first().push(x)));
    }
}

pub proof fn lemma_first_colon_push(s: Seq<u8>, x: u8)
    ensures
        first_colon(s.push(x)) == (if first_colon(s) >= 0 {
            first_colon(s)
        } else if x == COLON {
            s.len() as int
        } else {
            -1
        }),
    decreases s.len(),
{
    if s.len() == 0 {
        assert(s.push(x).drop_first() =~= Seq::<u8>::empty());
        assert(s.push(x)[0] == x);
        assert(first_colon(Seq::<u8>::empty()) == -1);
    } else {
        assert(s.push(x).drop_first() =~= s.drop_first().push(x));
        assert(s.push(x)[0] == s[0]);
        lemma_first_colon_push(s.drop_first(), x);
        if s[0] != COLON {
            assert(first_colon(s.push(x)) == (if first_colon(s.drop_first().push(x)) < 0 {
                -1
            } else {
                1 + first_colon(s.drop_first().push(x))
            }));
        }
    }
}

/// The first colon exists exactly when the count is positive, lies inside
/// the line, is a colon, and nothing before it is one.
pub proof fn lemma_first_colon_props(s: Seq<u8>)
    ensures
        first_colon(s) >= 0 <==> colon_count(s) > 0,
        first_colon(s) >= 0 ==> first_colon(s) < s.len() && s[first_colon(s)] == COLON,
        forall|j: int| 0 <= j < first_colon(s) ==> s[j] != COLON,
    decreases s.len(),
{
    if s.len() > 0 && s[0] != COLON {
        lemma_first_colon_props(s.drop_first());
        if first_colon(s.drop_first()) >= 0 {
            assert forall|j: int| 0 <= j < first_colon(s) implies s[j] != COLON by {
                if j > 0 {
                    assert(s.drop_first()[j - 1] != COLON);
                }
            }
        }
    }
}

pub proof fn lemma_colon_count_concat(a: Seq<u8>, b: Seq<u8>)
    ensures
        colon_count(a + b) == colon_count(a) + colon_count(b),
    decreases a.len(),
{
    if a.len() == 0 {
        assert(a + b =~= b);
    } else {
        assert((a + b).drop_first() =~= a.drop_first() + b);
        lemma_colon_count_concat(a.drop_first(), b);
    }
}

pub proof fn lemma_first_colon_concat(a: Seq<u8>, b: Seq<u8>)
    requires
        colon_count(a) == 0,
    ensures
        first_colon(a + b) == (if first_colon(b) < 0 {
            -1
        } else {
            a.len() + first_colon(b)
        }),
    decreases a.len(),
{
    if a.len() == 0 {
        assert(a + b =~= b);
    } else {
        assert((a + b).drop_first() =~= a.drop_first() + b);
        lemma_first_colon_concat(a.drop_first(), b);
    }
}

/// A line of digits or base64 symbols holds no colon.
pub proof fn lemma_colon_count_zero(s: Seq<u8>)
    requires
        forall|i: int| 0 <= i < s.len() ==> s[i] != COLON,
    ensures
        colon_count(s) == 0,
    decreases s.len(),
{
    if s.len() > 0 {
        lemma_colon_count_zero(s.drop_first());
    }
}

/// ASCII decimal digit.
pub open spec fn is_digit(c: u8) -> bool {
    48 <= c && c <= 57
}

pub open spec fn all_digits(s: Seq<u8>) -> bool {
    forall|i: int| 0 <= i < s.len() ==> is_digit(#[trigger] s[i])
}

/// The number that a digit string denotes.
pub open spec fn dec_value(s: Seq<u8>) -> int
    decreases s.len(),
{
    if s.len() == 0 {
        0
    } else {
        dec_value(s.drop_last()) * 10 + (s.last() - 48)
    }
}

/// `Some(n)` exactly when `s` is a non-empty digit string whose value fits
/// in a `u64` — the id syntax of a multiplexed frame.
pub open spec fn spec_parse_u64(s: Seq<u8>) -> Option<u64> {
    if s.len() > 0 && all_digits(s) && dec_value(s) <= u64::MAX {
        Some(dec_value(s) as u64)
    } else {
        None
    }
}

pub proof fn lemma_dec_value_nonneg(s: Seq<u8>)
    requires
        all_digits(s),
    ensures
        dec_value(s) >= 0,
    decreases s.len(),
{
    if s.len() > 0 {
        assert(is_digit(s[s.len() - 1]));
        lemma_dec_value_nonneg(s.drop_last());
    }
}

/// Extending a digit string never shrinks its value.
pub proof fn lemma_dec_value_grows(s: Seq<u8>, j: int)
    requires
        all_digits(s),
        0 <= j <= s.len(),
    ensures
        dec_value(s) >= dec_value(s.take(j)),
    decreases s.len() - j,
{
    if j < s.len() {
        assert(s.take(j + 1).drop_last() =~= s.take(j));
        assert(is_digit(s[j]));
        lemma_dec_value_nonneg(s.take(j));
        lemma_dec_value_grows(s, j + 1);
    } else {
        assert(s.take(j) =~= s);
    }
}

/// The decimal digit string of a non-negative number.
pub open spec fn dec_digits(n: int) -> Seq<u8>
    decreases n,
{
    if n < 10 {
        seq![(48 + (if n >= 0 {
            n
        } else {
            0
        })) as u8]
    } else {
        dec_digits(n / 10) + seq![(48 + n % 10) as u8]
    }
}

pub proof fn lemma_dec_digits(n: int)
    requires
        n >= 0,
    ensures
        dec_digits(n).len() > 0,
        all_digits(dec_digits(n)),
        dec_value(dec_digits(n)) == n,
    decreases n,
{
    if n < 10 {
        assert(dec_digits(n) == seq![(48 + n) as u8]);
        assert(dec_digits(n).drop_last() =~= Seq::<u8>::empty());
        assert(dec_digits(n).last() == (48 + n) as u8);
        assert(dec_value(dec_digits(n)) == dec_value(Seq::<u8>::empty()) * 10 + ((48 + n) as u8
            - 48));
    } else {
        lemma_dec_digits(n / 10);
        let a = dec_digits(n / 10);
        let c = (48 + n % 10) as u8;
        assert(dec_digits(n) == a + seq![c]);
        assert((a + seq![c]).drop_last() =~= a);
        assert((a + seq![c]).last() == c);
        assert(dec_value(a + seq![c]) == dec_value(a) * 10 + (c - 48));
        assert(c - 48 == n % 10);
        assert((n / 10) * 10 + n % 10 == n);
        assert forall|i: int| 0 <= i < (a + seq![c]).len() implies is_digit(
            #[trigger] (a + seq![c])[i],
        ) by {
            if i < a.len() {
                assert(is_digit(a[i]));
            }
        }
    }
}

/// Strip every space and newline from the line, as the relay does before
/// splitting a multiplexed frame.
pub fn strip_bytes(line: &[u8]) -> (r: Vec<u8>)
    ensures
        r@ == spec_strip(line@),
{
    let mut out: Vec<u8> = Vec::new();
    let mut i: usize = 0;
    proof {
        assert(line@.skip(0) =~= line@);
        assert(Seq::<u8>::empty() + spec_strip(line@) =~= spec_strip(line@));
    }
    while i < line.len()
        invariant
            i <= line@.len(),
            spec_strip(line@) == out@ + spec_strip(line@.skip(i as int)),
        decreases line@.len() - i,
    {
        proof {
            let rest = line@.skip(i as int);
            assert(rest.len() > 0);
            assert(rest[0] == line@[i as int]);
            assert(rest.drop_first() =~= line@.skip(i as int + 1));
            if !is_blank(line@[i as int]) {
                assert(out@ + (seq![line@[i as int]] + spec_strip(line@.skip(i as int + 1)))
                    =~= out@.push(line@[i as int]) + spec_strip(line@.skip(i as int + 1)));
            }
        }
        let c = line[i];
        if c != 32 && c != 10 {
            out.push(c);
        }
        i += 1;
    }
    proof {
        assert(line@.skip(line@.len() as int) =~= Seq::<u8>::empty());
        assert(out@ + Seq::<u8>::empty() =~= out@);
    }
    out
}

/// Parse a non-empty decimal digit string into a `u64`.
pub fn parse_u64(s: &[u8]) -> (r: Option<u64>)
    ensures
        r == spec_parse_u64(s@),
{
    if s.len() == 0 {
        return None;
    }
    let mut acc: u64 = 0;
    let mut i: usize = 0;
    while i < s.len()
        invariant
            0 <= i <= s@.len(),
            all_digits(s@.take(i as int)),
            acc == dec_value(s@.take(i as int)),
        decreases s@.len() - i,
    {
        let c = s[i];
        if c < 48 || c > 57 {
            assert(!is_digit(s@[i as int]));
            return None;
        }
        let d: u64 = (c - 48) as u64;
        proof {
            assert(s@.take(i as int + 1).drop_last() =~= s@.take(i as int));
            assert(s@.take(i as int + 1).last() == s@[i as int]);
        }
        if acc > (u64::MAX - d) / 10 {
            proof {
                let m = u64::MAX as int;
                assert(acc * 10 + d > m);
                assert(dec_value(s@.take(i as int + 1)) > m);
                if all_digits(s@) {
                    lemma_dec_value_grows(s@, i as int + 1);
                }
            }
            return None;
        }
        acc = acc * 10 + d;
        i += 1;
    }
    proof {
        assert(s@.take(s@.len() as int) =~= s@);
    }
    Some(acc)
}

/// The digit string of `n`, matching `dec_digits`.
pub fn u64_to_dec(n: u64) -> (r: Vec<u8>)
    ensures
        r@ == dec_digits(n as int),
    decreases n,
{
    if n < 10 {
        let mut v: Vec<u8> = Vec::new();
        v.push(48 + (n as u8));
        proof {
            assert(v@ =~= dec_digits(n as int));
        }
        v
    } else {
        let mut v = u64_to_dec(n / 10);
        v.push(48 + ((n % 10) as u8));
        proof {
            assert(v@ =~= dec_digits((n / 10) as int) + seq![(48 + (n as int) % 10) as u8]);
        }
        v
    }
}

/// What parsing a multiplexed line `<id>:<base64>` yields: spaces and
/// newlines are stripped first; then the line must hold exactly one colon,
/// a decimal id on its left and canonical base64 on its right.
pub open spec fn spec_parse_frame(line: Seq<u8>) -> Result<(u64, Seq<u8>), FrameError> {
    let s = spec_strip(line);
    if colon_count(s) != 1 {
        Err(FrameError::Format)
    } else {
        let i = first_colon(s);
        match spec_parse_u64(s.take(i)) {
            None => Err(FrameError::BadId),
            Some(id) => match spec_b64_decode(s.skip(i + 1)) {
                None => Err(FrameError::BadBase64),
                Some(p) => Ok((id, p)),
            },
        }
    }
}

/// The line that reports datagram `payload` for session `id`:
/// `<id>:<base64>` followed by a newline.
pub open spec fn spec_encode_frame(id: u64, payload: Seq<u8>) -> Seq<u8> {
    dec_digits(id as int) + seq![COLON] + spec_b64_encode(payload) + seq![NEWLINE]
}

/// Parse one multiplexed input line into a session id and a raw payload.
pub fn parse_frame(line: &[u8]) -> (r: Result<(u64, Vec<u8>), FrameError>)
    ensures
        r matches Ok((id, p)) ==> spec_parse_frame(line@) == Ok::<(u64, Seq<u8>), FrameError>(
            (id, p@),
        ),
        r matches Err(e) ==> spec_parse_frame(line@) == Err::<(u64, Seq<u8>), FrameError>(e),
{
    let stripped = strip_bytes(line);
    let ghost s = stripped@;
    let mut cnt: usize = 0;
    let mut first: usize = 0;
    let mut j: usize = 0;
    proof {
        assert(s.take(0) =~= Seq::<u8>::empty());
        assert(colon_count(Seq::<u8>::empty()) == 0);
        assert(first_colon(Seq::<u8>::empty()) == -1);
    }
    while j < stripped.len()
        invariant
            j <= s.len(),
            s == stripped@,
            cnt == colon_count(s.take(j as int)),
            cnt <= j,
            cnt > 0 ==> first == first_colon(s.take(j as int)),
            cnt == 0 ==> first_colon(s.take(j as int)) == -1,
        decreases s.len() - j,
    {
        proof {
            assert(s.take(j as int + 1) =~= s.take(j as int).push(s[j as int]));
            lemma_colon_count_push(s.take(j as int), s[j as int]);
            lemma_first_colon_push(s.take(j as int), s[j as int]);
        }
        if stripped[j] == COLON {
            if cnt == 0 {
                first = j;
            }
            cnt = cnt + 1;
        }
        j = j + 1;
    }
    proof {
        assert(s.take(s.len() as int) =~= s);
    }
    if cnt != 1 {
        return Err(FrameError::Format);
    }
    proof {
        lemma_first_colon_props(s);
    }
    let id_part = vstd::slice::slice_subrange(stripped.as_slice(), 0, first);
    let data_part = vstd::slice::slice_subrange(stripped.as_slice(), first + 1, stripped.len());
    proof {
        assert(id_part@ =~= s.take(first as int));
        assert(data_part@ =~= s.skip(first as int + 1));
    }
    match parse_u64(id_part) {
        None => Err(FrameError::BadId),
        Some(id) => match b64_decode(data_part) {
            Err(_) => Err(FrameError::BadBase64),
            Ok(p) => Ok((id, p)),
        },
    }
}

/// Build the output line for session `id` carrying `payload`.
pub fn encode_frame(id: u64, payload: &[u8]) -> (r: Vec<u8>)
    ensures
        r@ == spec_encode_frame(id, payload@),
{
    let mut out = u64_to_dec(id);
    out.push(COLON);
    let mut enc = b64_encode(payload);
    out.append(&mut enc);
    out.push(NEWLINE);
    proof {
        assert(out@ =~= spec_encode_frame(id, payload@));
    }
    out
}

/// No base64 symbol is blank or a colon, and neither is padding.
proof fn lemma_symbols_clean(e: Seq<u8>)
    requires
        forall|i: int| 0 <= i < e.len() ==> is_b64_symbol(#[trigger] e[i]),
    ensures
        forall|i: int| 0 <= i < e.len() ==> !is_blank(#[trigger] e[i]),
        forall|i: int| 0 <= i < e.len() ==> e[i] != COLON,
{
    assert forall|i: int| 0 <= i < e.len() implies !is_blank(e[i]) && e[i] != COLON by {
        assert(b64_val_of(32) == -1 && b64_val_of(10) == -1 && b64_val_of(58) == -1);
    }
}

/// Round-trip identity of the multiplexed frame codec: a frame built by
/// `spec_encode_frame` parses back to exactly the same id and payload.
pub proof fn lemma_frame_round_trip(id: u64, payload: Seq<u8>)
    ensures
        spec_parse_frame(spec_encode_frame(id, payload)) == Ok::<(u64, Seq<u8>), FrameError>(
            (id, payload),
        ),
{
    let d = dec_digits(id as int);
    let e = spec_b64_encode(payload);
    let line = spec_encode_frame(id, payload);
    lemma_dec_digits(id as int);
    lemma_encode_symbols(payload);
    lemma_symbols_clean(e);

    // Stripping removes only the trailing newline.
    assert forall|i: int| 0 <= i < d.len() implies !is_blank(#[trigger] d[i]) && d[i] != COLON by {
        assert(is_digit(d[i]));
    }
    lemma_strip_concat(d + seq![COLON] + e, seq![NEWLINE]);
    lemma_strip_concat(d + seq![COLON], e);
    lemma_strip_concat(d, seq![COLON]);
    lemma_strip_clean(d);
    lemma_strip_clean(e);
    assert(spec_strip(Seq::<u8>::empty()) =~= Seq::<u8>::empty());
    assert(seq![NEWLINE].drop_first() =~= Seq::<u8>::empty());
    assert(spec_strip(seq![NEWLINE]) =~= Seq::<u8>::empty());
    assert(seq![COLON].drop_first() =~= Seq::<u8>::empty());
    assert(spec_strip(seq![COLON]) =~= seq![COLON]);
    let s = spec_strip(line);
    assert(s =~= d + seq![COLON] + e);

    // Exactly one colon, at index d.len().
    lemma_colon_count_zero(d);
    lemma_colon_count_zero(e);
    lemma_colon_count_concat(d + seq![COLON], e);
    lemma_colon_count_concat(d, seq![COLON]);
    assert(colon_count(seq![COLON]) == 1) by {
        assert(seq![COLON].drop_first() =~= Seq::<u8>::empty());
        assert(colon_count(Seq::<u8>::empty()) == 0);
    }
    assert(colon_count(s) == 1);
    lemma_first_colon_concat(d, seq![COLON] + e);
    assert((d + (seq![COLON] + e)) =~= s);
    assert((seq![COLON] + e)[0] == COLON);
    assert(first_colon(seq![COLON] + e) == 0);
    assert(first_colon(s) == d.len());

    // The id field parses back to `id`, the payload field decodes back.
    assert(s.take(d.len() as int) =~= d);
    assert(s.skip(d.len() as int + 1) =~= e);
    assert(spec_parse_u64(d) == Some(id));
    lemma_b64_round_trip(payload);
}

/// Whitespace that separates base64 tokens on a single-target line.
pub open spec fn is_token_ws(c: u8) -> bool {
    c == 32 || c == 9 || c == 10 || c == 13
}

/// The maximal non-whitespace runs of `s`, with `cur` the run already open
/// to the left of `s`.
pub open spec fn tokens_acc(s: Seq<u8>, cur: Seq<u8>) -> Seq<Seq<u8>>
    decreases s.len(),
{
    if s.len() == 0 {
        if cur.len() == 0 {
            Seq::empty()
        } else {
            seq![cur]
        }
    } else if is_token_ws(s[0]) {
        if cur.len() == 0 {
            tokens_acc(s.drop_first(), Seq::empty())
        } else {
            seq![cur] + tokens_acc(s.drop_first(), Seq::empty())
        }
    } else {
        tokens_acc(s.drop_first(), cur.push(s[0]))
    }
}

/// The whitespace-separated tokens of a single-target line.
pub open spec fn spec_tokens(s: Seq<u8>) -> Seq<Seq<u8>> {
    tokens_acc(s, Seq::empty())
}

/// Each token decoded from base64; `None` as soon as one token is invalid.
pub open spec fn spec_decode_tokens(ts: Seq<Seq<u8>>) -> Option<Seq<Seq<u8>>>
    decreases ts.len(),
{
    if ts.len() == 0 {
        Some(Seq::empty())
    } else {
        match spec_b64_decode(ts[0]) {
            None => None,
            Some(p) => match spec_decode_tokens(ts.drop_first()) {
                None => None,
                Some(r) => Some(seq![p] + r),
            },
        }
    }
}

/// What parsing a single-target line yields: one datagram payload per
/// whitespace-separated base64 token, or nothing if any token is invalid.
pub open spec fn spec_parse_payloads(line: Seq<u8>) -> Option<Seq<Seq<u8>>> {
    spec_decode_tokens(spec_tokens(line))
}

/// Split a single-target line into its whitespace-separated tokens.
pub fn split_tokens(line: &[u8]) -> (r: Vec<Vec<u8>>)
    ensures
        r.deep_view() == spec_tokens(line@),
{
    let mut toks: Vec<Vec<u8>> = Vec::new();
    let mut cur: Vec<u8> = Vec::new();
    let mut i: usize = 0;
    proof {
        assert(line@.skip(0) =~= line@);
        assert(toks.deep_view() =~~= Seq::<Seq<u8>>::empty());
        assert(Seq::<Seq<u8>>::empty() + tokens_acc(line@, Seq::<u8>::empty()) =~= tokens_acc(
            line@,
            Seq::<u8>::empty(),
        ));
    }
    while i < line.len()
        invariant
            i <= line@.len(),
            spec_tokens(line@) == toks.deep_view() + tokens_acc(line@.skip(i as int), cur@),
        decreases line@.len() - i,
    {
        proof {
            let rest = line@.skip(i as int);
            assert(rest.len() > 0);
            assert(rest[0] == line@[i as int]);
            assert(rest.drop_first() =~= line@.skip(i as int + 1));
        }
        let c = line[i];
        if c == 32 || c == 9 || c == 10 || c == 13 {
            proof {
                if cur@.len() == 0 {
                    assert(cur@ =~= Seq::<u8>::empty());
                }
            }
            if cur.len() > 0 {
                let ghost old_toks = toks.deep_view();
                let ghost cv = cur@;
                toks.push(cur);
                cur = Vec::new();
                proof {
                    assert(toks.deep_view() =~~= old_toks.push(cv));
                    assert(old_toks + (seq![cv] + tokens_acc(
                        line@.skip(i as int + 1),
                        Seq::<u8>::empty(),
                    )) =~= old_toks.push(cv) + tokens_acc(
                        line@.skip(i as int + 1),
                        Seq::<u8>::empty(),
                    ));
                }
            }
        } else {
            cur.push(c);
        }
        i += 1;
    }
    proof {
        assert(line@.skip(line@.len() as int) =~= Seq::<u8>::empty());
    }
    if cur.len() > 0 {
        let ghost old_toks = toks.deep_view();
        let ghost cv = cur@;
        toks.push(cur);
        proof {
            assert(toks.deep_view() =~~= old_toks.push(cv));
            assert(old_toks + seq![cv] =~= old_toks.push(cv));
        }
    } else {
        proof {
            assert(toks.deep_view() + Seq::<Seq<u8>>::empty() =~= toks.deep_view());
        }
    }
    toks
}

/// Parse a single-target input line into the datagram payloads it carries.
pub fn parse_payloads(line: &[u8]) -> (r: Result<Vec<Vec<u8>>, FrameError>)
    ensures
        r matches Ok(ps) ==> spec_parse_payloads(line@) == Some(ps.deep_view()),
        r is Err ==> spec_parse_payloads(line@) is None && r == Err::<Vec<Vec<u8>>, FrameError>(
            FrameError::BadBase64,
        ),
{
    let toks = split_tokens(line);
    let ghost ts = toks.deep_view();
    let mut out: Vec<Vec<u8>> = Vec::new();
    let mut k: usize = 0;
    proof {
        assert(ts.skip(0) =~= ts);
        assert(out.deep_view() =~~= Seq::<Seq<u8>>::empty());
    }
    while k < toks.len()
        invariant
            k <= toks@.len(),
            ts == toks.deep_view(),
            ts == spec_tokens(line@),
            ts.len() == toks@.len(),
            spec_decode_tokens(ts) == (match spec_decode_tokens(ts.skip(k as int)) {
                None => None::<Seq<Seq<u8>>>,
                Some(r) => Some(out.deep_view() + r),
            }),
        decreases toks@.len() - k,
    {
        proof {
            let rest = ts.skip(k as int);
            assert(rest.len() > 0);
            assert(rest[0] == ts[k as int]);
            assert(rest.drop_first() =~= ts.skip(k as int + 1));
            assert(toks@[k as int].deep_view() =~= toks@[k as int]@);
        }
        match b64_decode(toks[k].as_slice()) {
            Err(_) => {
                proof {
                    assert(spec_decode_tokens(ts.skip(k as int)) is None);
                }
                return Err(FrameError::BadBase64);
            },
            Ok(p) => {
                let ghost ov = out.deep_view();
                let ghost pv = p@;
                out.push(p);
                proof {
                    assert(out.deep_view() =~~= ov.push(pv));
                    match spec_decode_tokens(ts.skip(k as int + 1)) {
                        Some(r) => {
                            assert(ov + (seq![pv] + r) =~= ov.push(pv) + r);
                        },
                        None => {},
                    }
                }
            },
        }
        k = k + 1;
    }
    proof {
        assert(ts.skip(ts.len() as int) =~= Seq::<Seq<u8>>::empty());
        assert(out.deep_view() + Seq::<Seq<u8>>::empty() =~= out.deep_view());
    }
    Ok(out)
}

/// Build the output line for one datagram in single-target mode: its base64
/// encoding followed by a newline.
pub fn encode_plain(payload: &[u8]) -> (r: Vec<u8>)
    ensures
        r@ == spec_encode_plain(payload@),
{
    let mut out = b64_encode(payload);
    out.push(NEWLINE);
    proof {
        assert(out@ =~= spec_encode_plain(payload@));
    }
    out
}

/// The single-target output line for `payload`.
pub open spec fn spec_encode_plain(payload: Seq<u8>) -> Seq<u8> {
    spec_b64_encode(payload) + seq![NEWLINE]
}

/// A line holding one whitespace-free token and a final newline splits into
/// exactly that token.
proof fn lemma_tokens_single(t: Seq<u8>, cur: Seq<u8>)
    requires
        forall|i: int| 0 <= i < t.len() ==> !is_token_ws(#[trigger] t[i]),
        cur.len() + t.len() > 0,
    ensures
        tokens_acc(t + seq![NEWLINE], cur) == seq![cur + t],
    decreases t.len(),
{
    if t.len() == 0 {
        assert(t + seq![NEWLINE] =~= seq![NEWLINE]);
        assert(seq![NEWLINE].drop_first() =~= Seq::<u8>::empty());
        assert(tokens_acc(Seq::<u8>::empty(), Seq::<u8>::empty()) =~= Seq::<Seq<u8>>::empty());
        assert(seq![cur] + Seq::<Seq<u8>>::empty() =~= seq![cur]);
        assert(cur + t =~= cur);
    } else {
        assert((t + seq![NEWLINE]).drop_first() =~= t.drop_first() + seq![NEWLINE]);
        assert((t + seq![NEWLINE])[0] == t[0]);
        lemma_tokens_single(t.drop_first(), cur.push(t[0]));
        assert(cur.push(t[0]) + t.drop_first() =~= cur + t);
    }
}

/// Round-trip identity of the single-target codec: the line built for a
/// non-empty payload parses back to exactly that one payload. (An empty
/// payload encodes to an empty token, which the line format cannot carry.)
pub proof fn lemma_plain_round_trip(payload: Seq<u8>)
    requires
        payload.len() > 0,
    ensures
        spec_parse_payloads(spec_encode_plain(payload)) == Some(seq![payload]),
{
    let e = spec_b64_encode(payload);
    lemma_encode_symbols(payload);
    assert(e.len() >= 4);
    assert forall|i: int| 0 <= i < e.len() implies !is_token_ws(#[trigger] e[i]) by {
        assert(is_b64_symbol(e[i]));
        assert(b64_val_of(32) == -1 && b64_val_of(9) == -1 && b64_val_of(10) == -1 && b64_val_of(
            13,
        ) == -1);
    }
    lemma_tokens_single(e, Seq::<u8>::empty());
    assert(Seq::<u8>::empty() + e =~= e);
    assert(spec_tokens(e + seq![NEWLINE]) == seq![e]);
    lemma_b64_round_trip(payload);
    assert(seq![e].drop_first() =~= Seq::<Seq<u8>>::empty());
    assert(spec_decode_tokens(Seq::<Seq<u8>>::empty()) == Some(Seq::<Seq<u8>>::empty()));
    assert(seq![payload] + Seq::<Seq<u8>>::empty() =~= seq![payload]);
}

} // verus!
