use base64::Engine;
use vstd::prelude::*;

verus! {

/// The largest serialized transaction, in bytes, that the checked encoders
/// accept (the size of a network packet's payload).
pub const MAX_TRANSACTION_SIZE: usize = 1232;

/// The base64 symbol of a 6-bit value.
pub open spec fn base64_symbol(v: int) -> char {
    if v < 26 {
        ('A' as int + v) as char
    } else if v < 52 {
        ('a' as int + (v - 26)) as char
    } else if v < 62 {
        ('0' as int + (v - 52)) as char
    } else if v == 62 {
        '+'
    } else {
        '/'
    }
}

/// Standard base64 (RFC 4648, section 4) with `=` padding: each group of
/// three bytes becomes four symbols; a last group of one or two bytes becomes
/// two or three symbols followed by padding.
pub open spec fn base64_encoding(b: Seq<u8>) -> Seq<char>
    decreases b.len(),
{
    if b.len() == 0 {
        seq![]
    } else {
        let x = b[0] as int;
        if b.len() == 1 {
            seq![base64_symbol(x / 4), base64_symbol((x % 4) * 16), '=', '=']
        } else {
            let y = b[1] as int;
            if b.len() == 2 {
                seq![
                    base64_symbol(x / 4),
                    base64_symbol((x % 4) * 16 + y / 16),
                    base64_symbol((y % 16) * 4),
                    '=',
                ]
            } else {
                let z = b[2] as int;
                seq![
                    base64_symbol(x / 4),
                    base64_symbol((x % 4) * 16 + y / 16),
                    base64_symbol((y % 16) * 4 + z / 64),
                    base64_symbol(z % 64),
                ] + base64_encoding(b.skip(3))
            }
        }
    }
}

/// `base64::Engine::encode` with the `STANDARD` engine (the standard
/// alphabet, with padding): the result is the base64 text of `data`.
#[verifier::external_body]
fn base64_encode(data: &[u8]) -> (r: String)
    ensures
        r@ == base64_encoding(data@),
{
    base64::engine::general_purpose::STANDARD.encode(data)
}

/// Why a transaction could not be encoded.
#[derive(Debug)]
pub enum TxError<E> {
    /// The serializer failed.
    Serialize(E),
    /// The serialized transaction has this many bytes, more than
    /// `MAX_TRANSACTION_SIZE`.
    TooLarge(usize),
}

/// What the unchecked encoder gives for the serializer's outcome `item`.
pub open spec fn encoded<E>(item: Result<Vec<u8>, E>) -> Result<Seq<char>, E> {
    match item {
        Ok(b) => Ok(base64_encoding(b@)),
        Err(e) => Err(e),
    }
}

/// What the checked encoder gives for the serializer's outcome `item`.
pub open spec fn encoded_checked<E>(item: Result<Vec<u8>, E>) -> Result<Seq<char>, TxError<E>> {
    match item {
        Ok(b) => if b@.len() <= MAX_TRANSACTION_SIZE {
            Ok(base64_encoding(b@))
        } else {
            Err(TxError::TooLarge(b@.len() as usize))
        },
        Err(e) => Err(TxError::Serialize(e)),
    }
}

/// The unchecked encoding of a list of serializer outcomes: the first failure,
/// or every encoding in order.
pub open spec fn encoded_all<E>(items: Seq<Result<Vec<u8>, E>>) -> Result<Seq<Seq<char>>, E>
    decreases items.len(),
{
    if items.len() == 0 {
        Ok(seq![])
    } else {
        match encoded_all(items.drop_last()) {
            Err(e) => Err(e),
            Ok(prev) => match encoded(items.last()) {
                Err(e) => Err(e),
                Ok(s) => Ok(prev.push(s)),
            },
        }
    }
}

/// The checked encoding of a list of serializer outcomes: the first failure or
/// oversized transaction, or every encoding in order.
pub open spec fn encoded_all_checked<E>(items: Seq<Result<Vec<u8>, E>>) -> Result<
    Seq<Seq<char>>,
    TxError<E>,
>
    decreases items.len(),
{
    if items.len() == 0 {
        Ok(seq![])
    } else {
        match encoded_all_checked(items.drop_last()) {
            Err(e) => Err(e),
            Ok(prev) => match encoded_checked(items.last()) {
                Err(e) => Err(e),
                Ok(s) => Ok(prev.push(s)),
            },
        }
    }
}

/// The strings of `v`, as character sequences.
pub open spec fn strings_view(v: Seq<String>) -> Seq<Seq<char>> {
    v.map_values(|s: String| s@)
}

/// Once a prefix of the outcomes fails to encode, the whole list fails the
/// same way.
proof fn lemma_encoded_all_failure_persists<E>(items: Seq<Result<Vec<u8>, E>>, n: int)
    requires
        0 <= n <= items.len(),
        encoded_all(items.take(n)) is Err,
    ensures
        encoded_all(items) == encoded_all(items.take(n)),
    decreases items.len() - n,
{
    if n < items.len() {
        assert(items.take(n + 1).drop_last() == items.take(n));
        lemma_encoded_all_failure_persists(items, n + 1);
    } else {
        assert(items.take(n) == items);
    }
}

/// Once a prefix of the outcomes fails the checked encoding, the whole list
/// fails the same way.
proof fn lemma_encoded_all_checked_failure_persists<E>(items: Seq<Result<Vec<u8>, E>>, n: int)
    requires
        0 <= n <= items.len(),
        encoded_all_checked(items.take(n)) is Err,
    ensures
        encoded_all_checked(items) == encoded_all_checked(items.take(n)),
    decreases items.len() - n,
{
    if n < items.len() {
        assert(items.take(n + 1).drop_last() == items.take(n));
        lemma_encoded_all_checked_failure_persists(items, n + 1);
    } else {
        assert(items.take(n) == items);
    }
}

/// Encodes a serialized transaction as base64; `data` is the serializer's
/// outcome, whose failure is passed on.
pub fn serialize_tx<E>(data: Result<Vec<u8>, E>) -> (r: Result<String, E>)
    ensures
        match (r, encoded(data)) {
            (Ok(s), Ok(t)) => s@ == t,
            (Err(e), Err(f)) => e == f,
            _ => false,
        },
{
    match data {
        Ok(b) => Ok(base64_encode(b.as_slice())),
        Err(e) => Err(e),
    }
}

/// Encodes a serialized transaction as base64 if it has at most
/// `MAX_TRANSACTION_SIZE` bytes; `data` is the serializer's outcome.
pub fn serialize_tx_checked<E>(data: Result<Vec<u8>, E>) -> (r: Result<String, TxError<E>>)
    ensures
        match (r, encoded_checked(data)) {
            (Ok(s), Ok(t)) => s@ == t,
            (Err(e), Err(f)) => e == f,
            _ => false,
        },
{
    match data {
        Ok(b) => {
            if b.len() <= MAX_TRANSACTION_SIZE {
                Ok(base64_encode(b.as_slice()))
            } else {
                Err(TxError::TooLarge(b.len()))
            }
        },
        Err(e) => Err(TxError::Serialize(e)),
    }
}

/// Encodes serialized transactions as base64, in order; `items` are the
/// serializer's outcomes, and the first failure is passed on.
pub fn serialize_tx_vec<E>(items: Vec<Result<Vec<u8>, E>>) -> (r: Result<Vec<String>, E>)
    ensures
        match (r, encoded_all(items@)) {
            (Ok(v), Ok(t)) => strings_view(v@) == t,
            (Err(e), Err(f)) => e == f,
            _ => false,
        },
{
    let ghost all = items@;
    let mut out: Vec<String> = Vec::new();
    assert(all.take(0) =~= Seq::<Result<Vec<u8>, E>>::empty());
    assert(strings_view(out@) =~= Seq::<Seq<char>>::empty());
    for item in it: items.into_iter()
        invariant
            it.seq() == all,
            encoded_all(all.take(it.index())) == Ok::<Seq<Seq<char>>, E>(strings_view(out@)),
    {
        let ghost before = out@;
        let ghost k = it.index();
        proof {
            assert(all.take(k + 1).drop_last() == all.take(k));
            assert(all.take(k + 1).last() == item);
        }
        match item {
            Ok(b) => {
                let s = base64_encode(b.as_slice());
                out.push(s);
                assert(strings_view(out@) =~= strings_view(before).push(s@));
            },
            Err(e) => {
                proof {
                    lemma_encoded_all_failure_persists(all, k + 1);
                }
                return Err(e);
            },
        }
    }
    assert(all.take(all.len() as int) == all);
    Ok(out)
}

/// Encodes serialized transactions as base64, in order, each of at most
/// `MAX_TRANSACTION_SIZE` bytes; the first failure or oversized transaction
/// is reported.
pub fn serialize_tx_vec_checked<E>(items: Vec<Result<Vec<u8>, E>>) -> (r: Result<
    Vec<String>,
    TxError<E>,
>)
    ensures
        match (r, encoded_all_checked(items@)) {
            (Ok(v), Ok(t)) => strings_view(v@) == t,
            (Err(e), Err(f)) => e == f,
            _ => false,
        },
{
    let ghost all = items@;
    let mut out: Vec<String> = Vec::new();
    assert(all.take(0) =~= Seq::<Result<Vec<u8>, E>>::empty());
    assert(strings_view(out@) =~= Seq::<Seq<char>>::empty());
    for item in it: items.into_iter()
        invariant
            it.seq() == all,
            encoded_all_checked(all.take(it.index())) == Ok::<Seq<Seq<char>>, TxError<E>>(
                strings_view(out@),
            ),
    {
        let ghost before = out@;
        let ghost k = it.index();
        proof {
            assert(all.take(k + 1).drop_last() == all.take(k));
            assert(all.take(k + 1).last() == item);
        }
        match item {
            Ok(b) => {
                if b.len() > MAX_TRANSACTION_SIZE {
                    proof {
                        lemma_encoded_all_checked_failure_persists(all, k + 1);
                    }
                    return Err(TxError::TooLarge(b.len()));
                }
                let s = base64_encode(b.as_slice());
                out.push(s);
                assert(strings_view(out@) =~= strings_view(before).push(s@));
            },
            Err(e) => {
                proof {
                    lemma_encoded_all_checked_failure_persists(all, k + 1);
                }
                return Err(TxError::Serialize(e));
            },
        }
    }
    assert(all.take(all.len() as int) == all);
    Ok(out)
}

/// Law: the base64 text of `n` bytes has `4 * ceil(n / 3)` symbols.
pub proof fn lemma_base64_length(b: Seq<u8>)
    ensures
        base64_encoding(b).len() == 4 * ((b.len() + 2) / 3),
    decreases b.len(),
{
    if b.len() >= 3 {
        lemma_base64_length(b.skip(3));
    }
}

/// Law: the checked encoder accepts exactly the serialized transactions of
/// at most `MAX_TRANSACTION_SIZE` bytes, and where it accepts one it gives
/// the unchecked encoder's text, at most 1644 symbols long.
pub proof fn lemma_checked_agrees_with_unchecked<E>(item: Result<Vec<u8>, E>)
    ensures
        encoded_checked(item) is Ok <==> (item matches Ok(b) && b@.len() <= MAX_TRANSACTION_SIZE),
        encoded_checked(item) matches Ok(s) ==> encoded(item) == Ok::<Seq<char>, E>(s)
            && s.len() <= 1644,
{
    if let Ok(b) = item {
        lemma_base64_length(b@);
    }
}

/// Law: encoding a list either fails at the first failing outcome, or gives,
/// position by position, the encoding of each outcome.
pub proof fn lemma_encoded_all_elementwise<E>(items: Seq<Result<Vec<u8>, E>>)
    ensures
        encoded_all(items) is Ok <==> forall|i: int| 0 <= i < items.len() ==> #[trigger] items[i] is Ok,
        encoded_all(items) matches Ok(v) ==> v.len() == items.len() && forall|i: int|
            0 <= i < items.len() ==> encoded(#[trigger] items[i]) == Ok::<Seq<char>, E>(v[i]),
    decreases items.len(),
{
    if items.len() > 0 {
        let p = items.drop_last();
        lemma_encoded_all_elementwise(p);
        assert forall|i: int| 0 <= i < p.len() implies #[trigger] p[i] == items[i] by {}
        if let Ok(v) = encoded_all(items) {
            let prev = encoded_all(p)->Ok_0;
            assert forall|i: int| 0 <= i < items.len() implies #[trigger] items[i] is Ok
                && encoded(items[i]) == Ok::<Seq<char>, E>(v[i]) by {
                if i < p.len() {
                    assert(p[i] == items[i]);
                    assert(v[i] == prev[i]);
                }
            }
        }
    }
}

/// Law: the checked list encoder succeeds exactly where every outcome is a
/// serialized transaction of at most `MAX_TRANSACTION_SIZE` bytes, and then
/// it gives the unchecked list encoder's texts.
pub proof fn lemma_checked_list_agrees_with_unchecked<E>(items: Seq<Result<Vec<u8>, E>>)
    ensures
        encoded_all_checked(items) is Ok <==> forall|i: int|
            0 <= i < items.len() ==> (#[trigger] items[i] matches Ok(b) && b@.len()
                <= MAX_TRANSACTION_SIZE),
        encoded_all_checked(items) matches Ok(v) ==> encoded_all(items) == Ok::<
            Seq<Seq<char>>,
            E,
        >(v),
    decreases items.len(),
{
    if items.len() > 0 {
        let p = items.drop_last();
        lemma_checked_list_agrees_with_unchecked(p);
        assert forall|i: int| 0 <= i < p.len() implies #[trigger] p[i] == items[i] by {}
        if encoded_all_checked(items) is Ok {
            assert forall|i: int| 0 <= i < items.len() implies (#[trigger] items[i] matches Ok(
                b,
            ) && b@.len() <= MAX_TRANSACTION_SIZE) by {
                if i < p.len() {
                    assert(p[i] == items[i]);
                }
            }
        } else {
            if forall|i: int|
                0 <= i < items.len() ==> (#[trigger] items[i] matches Ok(b) && b@.len()
                    <= MAX_TRANSACTION_SIZE) {
                assert(items[items.len() - 1] == items.last());
                assert forall|i: int| 0 <= i < p.len() implies (#[trigger] p[i] matches Ok(b)
                    && b@.len() <= MAX_TRANSACTION_SIZE) by {
                    assert(p[i] == items[i]);
                }
            }
        }
    }
}

/// The 6-bit value of a base64 symbol.
pub open spec fn base64_value(c: char) -> int {
    let n = c as int;
    if 'A' as int <= n <= 'Z' as int {
        n - 'A' as int
    } else if 'a' as int <= n <= 'z' as int {
        n - 'a' as int + 26
    } else if '0' as int <= n <= '9' as int {
        n - '0' as int + 52
    } else if c == '+' {
        62
    } else {
        63
    }
}

/// Standard base64 decoding of padded text: each group of four symbols gives
/// three bytes, or one or two where the group ends in padding.
pub open spec fn base64_decoding(s: Seq<char>) -> Seq<u8>
    decreases s.len(),
{
    if s.len() < 4 {
        seq![]
    } else {
        let a = base64_value(s[0]);
        let b = base64_value(s[1]);
        let c = base64_value(s[2]);
        let d = base64_value(s[3]);
        let first = (a * 4 + b / 16) as u8;
        if s[2] == '=' {
            seq![first]
        } else if s[3] == '=' {
            seq![first, ((b % 16) * 16 + c / 4) as u8]
        } else {
            seq![first, ((b % 16) * 16 + c / 4) as u8, ((c % 4) * 64 + d) as u8]
                + base64_decoding(s.skip(4))
        }
    }
}

proof fn lemma_base64_symbol_value(v: int)
    requires
        0 <= v < 64,
    ensures
        base64_value(base64_symbol(v)) == v,
        base64_symbol(v) != '=',
{
}

/// Law: decoding the base64 text of bytes gives the bytes back, so a
/// transaction's encoding loses nothing of its serialized form.
pub proof fn lemma_base64_round_trip(b: Seq<u8>)
    ensures
        base64_decoding(base64_encoding(b)) == b,
    decreases b.len(),
{
    if b.len() > 0 {
        let x = b[0] as int;
        lemma_base64_symbol_value(x / 4);
        if b.len() == 1 {
            lemma_base64_symbol_value((x % 4) * 16);
            assert(base64_decoding(base64_encoding(b)) =~= b);
        } else {
            let y = b[1] as int;
            lemma_base64_symbol_value((x % 4) * 16 + y / 16);
            if b.len() == 2 {
                lemma_base64_symbol_value((y % 16) * 4);
                assert(base64_decoding(base64_encoding(b)) =~= b);
            } else {
                let z = b[2] as int;
                lemma_base64_symbol_value((y % 16) * 4 + z / 64);
                lemma_base64_symbol_value(z % 64);
                lemma_base64_round_trip(b.skip(3));
                let e = base64_encoding(b);
                assert(e.skip(4) =~= base64_encoding(b.skip(3)));
                assert(b =~= seq![b[0], b[1], b[2]] + b.skip(3));
                assert(base64_decoding(e) =~= b);
            }
        }
    }
}

} // verus!
