//! The codec between a typed command and its compact textual token.
//!
//! The wire forms are `join`, `restart` and `place:<x>:<y>` with base-10
//! coordinates; any other token decodes to [`CallbackData::Unknown`], except
//! that a token opening with `place` whose coordinate fields are missing or
//! malformed fails the decode with [`GameError::UnknownCommand`].

use vstd::prelude::*;

use crate::game::GameError;

verus! {

/// A decoded, typed action a participant requests.
#[derive(Clone, Copy, PartialEq, Eq, Structural, Debug)]
pub enum CallbackData {
    /// Take a free seat while the session is waiting for players.
    Join,
    /// Start the next round from a finished one.
    Restart,
    /// Put the current turn's mark at the given column and row. The
    /// coordinates are not range-checked here; that is the board's job.
    Place { x: usize, y: usize },
    /// The catch-all for unrecognized tokens; a legitimate decode result,
    /// not an error.
    Unknown,
}

/// The delimiter between the fields of a token.
pub const COLON: u8 = 58;

/// The token for [`CallbackData::Join`].
pub open spec fn join_token() -> Seq<u8> {
    seq![106, 111, 105, 110]
}

/// The token for [`CallbackData::Restart`].
pub open spec fn restart_token() -> Seq<u8> {
    seq![114, 101, 115, 116, 97, 114, 116]
}

/// The token for [`CallbackData::Unknown`].
pub open spec fn unknown_token() -> Seq<u8> {
    seq![117, 110, 107, 110, 111, 119, 110]
}

/// The opening of a placement token.
pub open spec fn place_prefix() -> Seq<u8> {
    seq![112, 108, 97, 99, 101]
}

/// An ASCII decimal digit.
pub open spec fn is_digit(b: u8) -> bool {
    48 <= b <= 57
}

/// Every byte of `s` is a decimal digit.
pub open spec fn all_digits(s: Seq<u8>) -> bool {
    forall|i: int| 0 <= i < s.len() ==> is_digit(#[trigger] s[i])
}

/// The number the digit string `s` denotes in base 10.
pub open spec fn dec_val(s: Seq<u8>) -> int
    decreases s.len(),
{
    if s.len() == 0 {
        0
    } else {
        10 * dec_val(s.drop_last()) + (s.last() - 48)
    }
}

/// The canonical base-10 digit string of `n`: no sign, no leading zero
/// except for zero itself.
pub open spec fn dec_digits(n: int) -> Seq<u8>
    recommends
        n >= 0,
    decreases n,
{
    if n < 10 {
        seq![(48 + n) as u8]
    } else {
        dec_digits(n / 10).push((48 + n % 10) as u8)
    }
}

/// The token that encodes command `c`.
pub open spec fn encode_spec(c: CallbackData) -> Seq<u8> {
    match c {
        CallbackData::Join => join_token(),
        CallbackData::Restart => restart_token(),
        CallbackData::Unknown => unknown_token(),
        CallbackData::Place { x, y } => place_prefix() + seq![COLON] + dec_digits(x as int)
            + seq![COLON] + dec_digits(y as int),
    }
}

/// The first position at or after `i` holding the delimiter, or the length
/// of `s` when there is none.
pub open spec fn colon_from(s: Seq<u8>, i: int) -> int
    recommends
        0 <= i <= s.len(),
    decreases s.len() - i,
{
    if i >= s.len() {
        s.len() as int
    } else if s[i] == COLON {
        i
    } else {
        colon_from(s, i + 1)
    }
}

/// The coordinate a token field denotes: at least one byte, digits only,
/// and a value that fits the machine word.
pub open spec fn field_value(s: Seq<u8>) -> Option<usize> {
    if s.len() > 0 && all_digits(s) && dec_val(s) <= usize::MAX as int {
        Some(dec_val(s) as usize)
    } else {
        None
    }
}

/// The placement a token opening with `place` denotes: the two fields after
/// the first delimiter, both required, further fields ignored. `None` is
/// the malformed case, surfaced as [`GameError::UnknownCommand`].
pub open spec fn decode_place_spec(s: Seq<u8>) -> Option<CallbackData> {
    let i1 = colon_from(s, 0);
    if i1 == s.len() {
        None
    } else {
        let i2 = colon_from(s, i1 + 1);
        match field_value(s.subrange(i1 + 1, i2)) {
            None => None,
            Some(x) => {
                if i2 == s.len() {
                    None
                } else {
                    let i3 = colon_from(s, i2 + 1);
                    match field_value(s.subrange(i2 + 1, i3)) {
                        None => None,
                        Some(y) => Some(CallbackData::Place { x, y }),
                    }
                }
            },
        }
    }
}

/// The command the token `s` denotes, or `None` where the decode fails
/// with [`GameError::UnknownCommand`].
pub open spec fn decode_spec(s: Seq<u8>) -> Option<CallbackData> {
    if s == join_token() {
        Some(CallbackData::Join)
    } else if s.len() >= 5 && s.subrange(0, 5) == place_prefix() {
        decode_place_spec(s)
    } else if s == restart_token() {
        Some(CallbackData::Restart)
    } else {
        Some(CallbackData::Unknown)
    }
}

/// The first position at or after `from` holding the delimiter.
fn find_colon(t: &Vec<u8>, from: usize) -> (r: usize)
    requires
        from <= t@.len(),
    ensures
        r == colon_from(t@, from as int),
        from <= r <= t@.len(),
{
    let mut i: usize = from;
    while i < t.len()
        invariant
            from <= i <= t@.len(),
            colon_from(t@, from as int) == colon_from(t@, i as int),
        decreases t@.len() - i,
    {
        if t[i] == COLON {
            return i;
        }
        i = i + 1;
    }
    i
}

/// Reads the coordinate denoted by the bytes of `t` from `start` up to
/// `end`, refusing empty, non-digit and overflowing fields.
fn parse_field(t: &Vec<u8>, start: usize, end: usize) -> (r: Option<usize>)
    requires
        start <= end <= t@.len(),
    ensures
        r == field_value(t@.subrange(start as int, end as int)),
{
    let ghost seg = t@.subrange(start as int, end as int);
    if start == end {
        return None;
    }
    let mut acc: usize = 0;
    let mut i: usize = start;
    while i < end
        invariant
            start <= i <= end <= t@.len(),
            all_digits(t@.subrange(start as int, i as int)),
            acc as int == dec_val(t@.subrange(start as int, i as int)),
            seg == t@.subrange(start as int, end as int),
        decreases end - i,
    {
        let b = t[i];
        if b < 48 || b > 57 {
            proof {
                assert(seg[i - start] == t@[i as int]);
                assert(!all_digits(seg));
            }
            return None;
        }
        let wide: u128 = acc as u128 * 10 + (b - 48) as u128;
        proof {
            let prefix = t@.subrange(start as int, i as int);
            let longer = t@.subrange(start as int, i + 1);
            assert(longer.drop_last() =~= prefix);
            assert(longer.last() == t@[i as int]);
            assert(dec_val(longer) == wide as int);
            assert(all_digits(longer)) by {
                assert(forall|j: int|
                    0 <= j < longer.len() - 1 ==> #[trigger] longer[j] == prefix[j]);
            }
            if wide > usize::MAX as u128 {
                if all_digits(seg) {
                    lemma_dec_val_prefix_bound(seg, i + 1 - start);
                    assert(seg.subrange(0, i + 1 - start) =~= longer);
                }
            }
        }
        if wide > usize::MAX as u128 {
            return None;
        }
        acc = wide as usize;
        i = i + 1;
    }
    proof {
        assert(seg =~= t@.subrange(start as int, i as int));
    }
    Some(acc)
}

/// Digit strings denote non-negative numbers.
proof fn lemma_dec_val_nonneg(s: Seq<u8>)
    requires
        all_digits(s),
    ensures
        dec_val(s) >= 0,
    decreases s.len(),
{
    if s.len() > 0 {
        assert(all_digits(s.drop_last())) by {
            assert(forall|j: int|
                0 <= j < s.len() - 1 ==> #[trigger] s.drop_last()[j] == s[j]);
        }
        lemma_dec_val_nonneg(s.drop_last());
    }
}

/// A digit string denotes at least as much as any of its openings.
proof fn lemma_dec_val_prefix_bound(s: Seq<u8>, k: int)
    requires
        all_digits(s),
        0 <= k <= s.len(),
    ensures
        dec_val(s) >= dec_val(s.subrange(0, k)),
    decreases s.len(),
{
    if k == s.len() {
        assert(s.subrange(0, k) =~= s);
    } else {
        assert(all_digits(s.drop_last())) by {
            assert(forall|j: int|
                0 <= j < s.len() - 1 ==> #[trigger] s.drop_last()[j] == s[j]);
        }
        lemma_dec_val_prefix_bound(s.drop_last(), k);
        lemma_dec_val_nonneg(s.drop_last());
        assert(s.drop_last().subrange(0, k) =~= s.subrange(0, k));
        assert(dec_val(s) >= dec_val(s.drop_last()));
    }
}

/// The canonical digit string consists of digits alone.
proof fn lemma_dec_digits_are_digits(n: int)
    requires
        n >= 0,
    ensures
        all_digits(dec_digits(n)),
        dec_digits(n).len() >= 1,
    decreases n,
{
    if n < 10 {
        assert(is_digit(dec_digits(n)[0]));
    } else {
        lemma_dec_digits_are_digits(n / 10);
        let d = dec_digits(n);
        assert forall|i: int| 0 <= i < d.len() implies is_digit(#[trigger] d[i]) by {
            if i < d.len() - 1 {
                assert(d[i] == dec_digits(n / 10)[i]);
            } else {
                assert(d[i] == (48 + n % 10) as u8);
            }
        }
    }
}

/// Reading back the canonical digit string of `n` yields `n`.
proof fn lemma_dec_val_round(n: int)
    requires
        n >= 0,
    ensures
        dec_val(dec_digits(n)) == n,
    decreases n,
{
    if n < 10 {
        let d = dec_digits(n);
        assert(d.drop_last() =~= Seq::<u8>::empty());
        assert(dec_val(d) == 10 * dec_val(d.drop_last()) + (d.last() - 48));
    } else {
        lemma_dec_val_round(n / 10);
        let d = dec_digits(n);
        assert(d.drop_last() =~= dec_digits(n / 10));
        assert(d.last() == (48 + n % 10) as u8);
    }
}

/// Where no delimiter stands in `[from, k)` and `k` is the length of `s`
/// or holds one, the delimiter scan lands on `k`.
proof fn lemma_colon_at(s: Seq<u8>, from: int, k: int)
    requires
        0 <= from <= k <= s.len(),
        forall|j: int| from <= j < k ==> s[j] != COLON,
        k == s.len() || s[k] == COLON,
    ensures
        colon_from(s, from) == k,
    decreases k - from,
{
    if from < k {
        lemma_colon_at(s, from + 1, k);
    }
}

/// Decoding the encoding of any constructible command reproduces it; in
/// particular `Unknown` is a fixed point of the round trip.
pub proof fn lemma_codec_round_trip(c: CallbackData)
    ensures
        decode_spec(encode_spec(c)) == Some(c),
{
    match c {
        CallbackData::Join => {
        },
        CallbackData::Restart => {
            let s = restart_token();
            assert(s != join_token());
            assert(s.subrange(0, 5)[0] != place_prefix()[0]);
        },
        CallbackData::Unknown => {
            let s = unknown_token();
            assert(s != join_token());
            assert(s.subrange(0, 5)[0] != place_prefix()[0]);
            assert(s != restart_token());
        },
        CallbackData::Place { x, y } => {
            lemma_round_trip_place(x, y);
        },
    }
}

/// The encoding is injective: distinct commands never share a token.
pub proof fn lemma_encode_injective(a: CallbackData, b: CallbackData)
    requires
        encode_spec(a) == encode_spec(b),
    ensures
        a == b,
{
    lemma_codec_round_trip(a);
    lemma_codec_round_trip(b);
}

/// The placement round trip: the encoded token opens with the prefix, its
/// two fields are the canonical digit strings, and both read back.
proof fn lemma_round_trip_place(x: usize, y: usize)
    ensures
        decode_spec(encode_spec(CallbackData::Place { x, y })) == Some(
            CallbackData::Place { x, y },
        ),
{
    let dx = dec_digits(x as int);
    let dy = dec_digits(y as int);
    lemma_dec_digits_are_digits(x as int);
    lemma_dec_digits_are_digits(y as int);
    lemma_dec_val_round(x as int);
    lemma_dec_val_round(y as int);
    let s = encode_spec(CallbackData::Place { x, y });
    assert(s == place_prefix() + seq![COLON] + dx + seq![COLON] + dy);
    assert(s.len() == 7 + dx.len() + dy.len());
    assert(s != join_token());
    assert(s.subrange(0, 5) =~= place_prefix());

    // The first delimiter stands right after the prefix.
    assert forall|j: int| 0 <= j < 5 implies s[j] != COLON by {
        assert(s[j] == place_prefix()[j]);
    }
    assert(s[5] == COLON);
    lemma_colon_at(s, 0, 5);

    // The second one follows the first coordinate field.
    let i2 = 6 + dx.len() as int;
    assert forall|j: int| 6 <= j < i2 implies s[j] != COLON by {
        assert(s[j] == dx[j - 6]);
        assert(is_digit(dx[j - 6]));
    }
    assert(s[i2] == COLON);
    lemma_colon_at(s, 6, i2);
    assert(s.subrange(6, i2) =~= dx);

    // No further delimiter: the rest is the second coordinate field.
    assert forall|j: int| i2 + 1 <= j < s.len() implies s[j] != COLON by {
        assert(s[j] == dy[j - (i2 + 1)]);
        assert(is_digit(dy[j - (i2 + 1)]));
    }
    lemma_colon_at(s, i2 + 1, s.len() as int);
    assert(s.subrange(i2 + 1, s.len() as int) =~= dy);

    lemma_dec_val_nonneg(dx);
    lemma_dec_val_nonneg(dy);
    assert(field_value(s.subrange(6, i2)) == Some(x));
    assert(field_value(s.subrange(i2 + 1, s.len() as int)) == Some(y));
}

impl CallbackData {
    /// The compact textual token for this command.
    pub fn encode(&self) -> (r: Vec<u8>)
        ensures
            r@ == encode_spec(*self),
    {
        match self {
            CallbackData::Join => {
                let mut v: Vec<u8> = Vec::new();
                v.push(106);
                v.push(111);
                v.push(105);
                v.push(110);
                proof {
                    assert(v@ =~= join_token());
                }
                v
            },
            CallbackData::Restart => {
                let mut v: Vec<u8> = Vec::new();
                v.push(114);
                v.push(101);
                v.push(115);
                v.push(116);
                v.push(97);
                v.push(114);
                v.push(116);
                proof {
                    assert(v@ =~= restart_token());
                }
                v
            },
            CallbackData::Unknown => {
                let mut v: Vec<u8> = Vec::new();
                v.push(117);
                v.push(110);
                v.push(107);
                v.push(110);
                v.push(111);
                v.push(119);
                v.push(110);
                proof {
                    assert(v@ =~= unknown_token());
                }
                v
            },
            CallbackData::Place { x, y } => {
                let mut v: Vec<u8> = Vec::new();
                v.push(112);
                v.push(108);
                v.push(97);
                v.push(99);
                v.push(101);
                v.push(COLON);
                proof {
                    assert(v@ =~= place_prefix() + seq![COLON]);
                }
                push_digits(*x, &mut v);
                let ghost with_x = v@;
                v.push(COLON);
                proof {
                    assert(v@ =~= with_x + seq![COLON]);
                }
                push_digits(*y, &mut v);
                v
            },
        }
    }

    /// The command the token denotes; `Err` only for a malformed
    /// placement, as the contract's `decode_spec` lays down.
    pub fn decode(t: &Vec<u8>) -> (r: Result<CallbackData, GameError>)
        ensures
            match decode_spec(t@) {
                Some(c) => r == Ok::<CallbackData, GameError>(c),
                None => r == Err::<CallbackData, GameError>(GameError::UnknownCommand),
            },
    {
        if t.len() == 4 && t[0] == 106 && t[1] == 111 && t[2] == 105 && t[3] == 110 {
            proof {
                assert(t@ =~= join_token());
            }
            return Ok(CallbackData::Join);
        }
        if t.len() >= 5 && t[0] == 112 && t[1] == 108 && t[2] == 97 && t[3] == 99 && t[4]
            == 101 {
            proof {
                assert(t@ != join_token());
                assert(t@.subrange(0, 5) =~= place_prefix());
            }
            let i1 = find_colon(t, 0);
            if i1 == t.len() {
                return Err(GameError::UnknownCommand);
            }
            let i2 = find_colon(t, i1 + 1);
            let x = match parse_field(t, i1 + 1, i2) {
                Some(x) => x,
                None => {
                    return Err(GameError::UnknownCommand);
                },
            };
            if i2 == t.len() {
                return Err(GameError::UnknownCommand);
            }
            let i3 = find_colon(t, i2 + 1);
            let y = match parse_field(t, i2 + 1, i3) {
                Some(y) => y,
                None => {
                    return Err(GameError::UnknownCommand);
                },
            };
            return Ok(CallbackData::Place { x, y });
        }
        proof {
            assert(t@ != join_token());
            if t@.len() >= 5 && t@.subrange(0, 5) == place_prefix() {
                assert(t@[0] == place_prefix()[0]);
                assert(t@[1] == place_prefix()[1]);
                assert(t@[2] == place_prefix()[2]);
                assert(t@[3] == place_prefix()[3]);
                assert(t@[4] == place_prefix()[4]);
            }
        }
        if t.len() == 7 && t[0] == 114 && t[1] == 101 && t[2] == 115 && t[3] == 116 && t[4]
            == 97 && t[5] == 114 && t[6] == 116 {
            proof {
                assert(t@ =~= restart_token());
            }
            return Ok(CallbackData::Restart);
        }
        proof {
            assert(t@ != restart_token());
        }
        Ok(CallbackData::Unknown)
    }
}

/// Appends the canonical digit string of `n`.
fn push_digits(n: usize, out: &mut Vec<u8>)
    ensures
        final(out)@ == old(out)@ + dec_digits(n as int),
    decreases n,
{
    if n < 10 {
        out.push(48 + n as u8);
        proof {
            assert(out@ =~= old(out)@ + dec_digits(n as int));
        }
    } else {
        push_digits(n / 10, out);
        out.push(48 + (n % 10) as u8);
        proof {
            assert(out@ =~= old(out)@ + dec_digits(n as int));
        }
    }
}

} // verus!
