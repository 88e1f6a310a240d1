//! Primitive encodings of the wire format.
//!
//! Everything on the wire is built from big-endian integers, booleans,
//! length-prefixed UTF-8 strings and counted lists of such strings. Writers
//! append to a byte vector; readers take a byte slice and a position and
//! report either the value with the position after it, how many bytes are
//! still missing, or that the bytes cannot be an encoding at all.

use vstd::prelude::*;
use vstd::slice::*;
use vstd::string::*;
use vstd::utf8::*;

verus! {

/// What reading one value from the front of a byte sequence gives.
pub enum Parsed<T> {
    /// A value, and the number of bytes that encode it.
    Done { value: T, used: nat },
    /// The bytes are the beginning of an encoding; at least `missing` more
    /// are needed before a value can be told.
    Short { missing: nat },
    /// No continuation of these bytes is an encoding.
    Bad,
}

/// Why a read gave no value.
#[derive(Clone, Copy, Debug, PartialEq, Eq, Structural)]
pub enum DecodeError {
    /// The input ends too early: at least this many more bytes are needed.
    Incomplete(usize),
    /// The input is not an encoding of the expected value.
    Invalid,
}

/// How the result of an executable read at `pos` corresponds to the parse
/// of the bytes from `pos` on.
pub open spec fn read_matches<T, V>(
    res: Result<(T, usize), DecodeError>,
    pos: usize,
    parsed: Parsed<V>,
    same: spec_fn(T, V) -> bool,
) -> bool {
    match res {
        Ok((value, next)) => parsed matches Parsed::Done { value: v, used } && same(value, v)
            && next == pos + used,
        Err(DecodeError::Incomplete(n)) => parsed == (Parsed::<V>::Short { missing: n as nat })
            && n > 0,
        Err(DecodeError::Invalid) => parsed == Parsed::<V>::Bad,
    }
}

/// The four bytes of `v`, most significant first.
pub open spec fn be32(v: u32) -> Seq<u8> {
    seq![
        (v / 0x100_0000) as u8,
        (v / 0x1_0000 % 0x100) as u8,
        (v / 0x100 % 0x100) as u8,
        (v % 0x100) as u8,
    ]
}

/// The number whose big-endian encoding is the first four bytes of `b`.
pub open spec fn from_be32(b: Seq<u8>) -> u32
    recommends
        b.len() >= 4,
{
    (b[0] as int * 0x100_0000 + b[1] as int * 0x1_0000 + b[2] as int * 0x100 + b[3] as int) as u32
}

/// The eight bytes of `v`, most significant first.
pub open spec fn be64(v: u64) -> Seq<u8> {
    be32((v / 0x1_0000_0000) as u32) + be32((v % 0x1_0000_0000) as u32)
}

/// The number whose big-endian encoding is the first eight bytes of `b`.
pub open spec fn from_be64(b: Seq<u8>) -> u64
    recommends
        b.len() >= 8,
{
    (from_be32(b) as int * 0x1_0000_0000 + from_be32(b.skip(4)) as int) as u64
}

proof fn lemma_join32(v: u32)
    by (bit_vector)
    ensures
        v / 0x100_0000 < 0x100,
        (v / 0x100_0000) * 0x100_0000 + (v / 0x1_0000 % 0x100) * 0x1_0000 + (v / 0x100 % 0x100)
            * 0x100 + v % 0x100 == v,
{
}

proof fn lemma_split32(b0: u8, b1: u8, b2: u8, b3: u8, v: u32)
    by (bit_vector)
    requires
        v == (b0 as u32) * 0x100_0000 + (b1 as u32) * 0x1_0000 + (b2 as u32) * 0x100 + (b3 as u32),
    ensures
        v / 0x100_0000 == b0,
        v / 0x1_0000 % 0x100 == b1,
        v / 0x100 % 0x100 == b2,
        v % 0x100 == b3,
{
}

proof fn lemma_join64(v: u64)
    by (bit_vector)
    ensures
        v / 0x1_0000_0000 < 0x1_0000_0000,
        (v / 0x1_0000_0000) * 0x1_0000_0000 + v % 0x1_0000_0000 == v,
{
}

proof fn lemma_split64(hi: u32, lo: u32, v: u64)
    by (bit_vector)
    requires
        v == (hi as u64) * 0x1_0000_0000 + (lo as u64),
    ensures
        v / 0x1_0000_0000 == hi,
        v % 0x1_0000_0000 == lo,
{
}

/// Decoding undoes encoding of a `u32`, and the other way round.
pub proof fn lemma_be32_inverse(v: u32, b: Seq<u8>)
    ensures
        be32(v).len() == 4,
        from_be32(be32(v)) == v,
        b.len() == 4 ==> be32(from_be32(b)) == b,
{
    lemma_join32(v);
    if b.len() == 4 {
        let w = (b[0] as int * 0x100_0000 + b[1] as int * 0x1_0000 + b[2] as int * 0x100
            + b[3] as int) as u32;
        lemma_split32(b[0], b[1], b[2], b[3], w);
        assert(be32(from_be32(b)) =~= b);
    }
}

/// Decoding undoes encoding of a `u64`, and the other way round.
pub proof fn lemma_be64_inverse(v: u64, b: Seq<u8>)
    ensures
        be64(v).len() == 8,
        from_be64(be64(v)) == v,
        b.len() == 8 ==> be64(from_be64(b)) == b,
{
    let hi = (v / 0x1_0000_0000) as u32;
    let lo = (v % 0x1_0000_0000) as u32;
    lemma_join64(v);
    lemma_be32_inverse(hi, b.take(4));
    lemma_be32_inverse(lo, b.skip(4));
    assert(be64(v).skip(4) =~= be32(lo));
    assert(be64(v).take(4) =~= be32(hi));
    lemma_from_be32_prefix(be64(v));
    if b.len() == 8 {
        lemma_from_be32_prefix(b);
        let w = from_be64(b);
        lemma_split64(from_be32(b), from_be32(b.skip(4)), w);
        assert(be64(w) =~= b.take(4) + b.skip(4));
        assert(b.take(4) + b.skip(4) =~= b);
    }
}

/// Only the first four bytes matter to `from_be32`.
pub proof fn lemma_from_be32_prefix(b: Seq<u8>)
    requires
        b.len() >= 4,
    ensures
        from_be32(b.take(4)) == from_be32(b),
{
}

/// Reading a single byte.
pub open spec fn parse_u8(b: Seq<u8>) -> Parsed<u8> {
    if b.len() < 1 {
        Parsed::Short { missing: 1 }
    } else {
        Parsed::Done { value: b[0], used: 1 }
    }
}

/// Reading a big-endian `u32`.
pub open spec fn parse_u32(b: Seq<u8>) -> Parsed<u32> {
    if b.len() < 4 {
        Parsed::Short { missing: (4 - b.len()) as nat }
    } else {
        Parsed::Done { value: from_be32(b), used: 4 }
    }
}

/// Reading a big-endian `u64`.
pub open spec fn parse_u64(b: Seq<u8>) -> Parsed<u64> {
    if b.len() < 8 {
        Parsed::Short { missing: (8 - b.len()) as nat }
    } else {
        Parsed::Done { value: from_be64(b), used: 8 }
    }
}

/// The one byte that encodes a boolean.
pub open spec fn bool_wire(v: bool) -> Seq<u8> {
    seq![if v { 1u8 } else { 0u8 }]
}

/// Reading a boolean: any non-zero byte is true.
pub open spec fn parse_bool(b: Seq<u8>) -> Parsed<bool> {
    if b.len() < 1 {
        Parsed::Short { missing: 1 }
    } else {
        Parsed::Done { value: b[0] != 0, used: 1 }
    }
}

/// Whether a string can be sent: its UTF-8 form must have a length that a
/// `u32` can hold.
pub open spec fn string_fits(s: Seq<char>) -> bool {
    encode_utf8(s).len() <= u32::MAX
}

/// The encoding of a string: the length of its UTF-8 form as a `u32`, then
/// that form.
pub open spec fn string_wire(s: Seq<char>) -> Seq<u8> {
    be32(encode_utf8(s).len() as u32) + encode_utf8(s)
}

/// Reading a string.
pub open spec fn parse_string(b: Seq<u8>) -> Parsed<Seq<char>> {
    if b.len() < 4 {
        Parsed::Short { missing: (4 - b.len()) as nat }
    } else {
        let n = from_be32(b) as int;
        if b.len() < 4 + n {
            Parsed::Short { missing: (4 + n - b.len()) as nat }
        } else if !valid_utf8(b.subrange(4, 4 + n)) {
            Parsed::Bad
        } else {
            Parsed::Done { value: decode_utf8(b.subrange(4, 4 + n)), used: (4 + n) as nat }
        }
    }
}

/// A string that fits is read back from its encoding, whatever follows it.
pub proof fn lemma_parse_string_wire(s: Seq<char>, rest: Seq<u8>)
    requires
        string_fits(s),
    ensures
        parse_string(string_wire(s) + rest) == (Parsed::Done {
            value: s,
            used: string_wire(s).len(),
        }),
        string_wire(s).len() == 4 + encode_utf8(s).len(),
{
    let body = encode_utf8(s);
    let n = body.len() as u32;
    let b = string_wire(s) + rest;
    lemma_be32_inverse(n, seq![]);
    lemma_from_be32_prefix(b);
    assert(b.take(4) =~= be32(n));
    assert(b.subrange(4, 4 + n) =~= body);
    encode_utf8_valid_utf8(s);
    encode_utf8_decode_utf8(s);
}

/// Whatever is read as a string was encoded from it: the bytes that were
/// used are its encoding.
pub proof fn lemma_parse_string_exact(b: Seq<u8>)
    ensures
        parse_string(b) matches Parsed::Done { value, used } ==> string_fits(value) && used
            <= b.len() && b.take(used as int) == string_wire(value),
{
    if let Parsed::Done { value, used } = parse_string(b) {
        let n = from_be32(b) as int;
        let body = b.subrange(4, 4 + n);
        decode_utf8_encode_utf8(body);
        lemma_be32_inverse(0, b.take(4));
        lemma_from_be32_prefix(b);
        assert(b.take(used as int) =~= b.take(4) + body);
    }
}

/// The encodings of the strings of `l`, one after the other.
pub open spec fn strings_wire(l: Seq<Seq<char>>) -> Seq<u8>
    decreases l.len(),
{
    if l.len() == 0 {
        seq![]
    } else {
        string_wire(l[0]) + strings_wire(l.drop_first())
    }
}

/// Whether every string of `l` can be sent.
pub open spec fn all_fit(l: Seq<Seq<char>>) -> bool {
    forall|i: int| 0 <= i < l.len() ==> string_fits(#[trigger] l[i])
}

/// Puts `before` in front of what a later read gave.
pub open spec fn after<T>(before: Seq<T>, used: nat, then: Parsed<Seq<T>>) -> Parsed<Seq<T>> {
    match then {
        Parsed::Done { value, used: more } => Parsed::Done {
            value: before + value,
            used: used + more,
        },
        Parsed::Short { missing } => Parsed::Short { missing },
        Parsed::Bad => Parsed::Bad,
    }
}

/// Reading `count` strings that follow each other.
pub open spec fn parse_strings(b: Seq<u8>, count: nat) -> Parsed<Seq<Seq<char>>>
    decreases count,
{
    if count == 0 {
        Parsed::Done { value: seq![], used: 0 }
    } else {
        match parse_string(b) {
            Parsed::Done { value, used } => after(
                seq![value],
                used,
                parse_strings(b.skip(used as int), (count - 1) as nat),
            ),
            Parsed::Short { missing } => Parsed::Short { missing },
            Parsed::Bad => Parsed::Bad,
        }
    }
}

/// Strings that fit are read back from their encodings, whatever follows.
pub proof fn lemma_parse_strings_wire(l: Seq<Seq<char>>, rest: Seq<u8>)
    requires
        all_fit(l),
    ensures
        parse_strings(strings_wire(l) + rest, l.len()) == (Parsed::Done {
            value: l,
            used: strings_wire(l).len(),
        }),
    decreases l.len(),
{
    if l.len() > 0 {
        let tail = l.drop_first();
        let b = strings_wire(l) + rest;
        assert(b =~= string_wire(l[0]) + (strings_wire(tail) + rest));
        lemma_parse_string_wire(l[0], strings_wire(tail) + rest);
        assert(b.skip(string_wire(l[0]).len() as int) =~= strings_wire(tail) + rest);
        assert forall|i: int| 0 <= i < tail.len() implies string_fits(#[trigger] tail[i]) by {
            assert(tail[i] == l[i + 1]);
        }
        lemma_parse_strings_wire(tail, rest);
        assert(seq![l[0]] + tail =~= l);
    } else {
        assert(l =~= seq![]);
    }
}

/// Whatever is read as `count` strings was encoded from them: the bytes
/// that were used are their encodings.
pub proof fn lemma_parse_strings_exact(b: Seq<u8>, count: nat)
    ensures
        parse_strings(b, count) matches Parsed::Done { value, used } ==> value.len() == count
            && all_fit(value) && used <= b.len() && b.take(used as int) == strings_wire(value),
    decreases count,
{
    if let Parsed::Done { value, used } = parse_strings(b, count) {
        if count == 0 {
            assert(b.take(0) =~= strings_wire(value));
        } else {
            let first = parse_string(b)->value;
            let u1 = parse_string(b)->used;
            lemma_parse_string_exact(b);
            lemma_parse_strings_exact(b.skip(u1 as int), (count - 1) as nat);
            let others = parse_strings(b.skip(u1 as int), (count - 1) as nat)->value;
            let u2 = parse_strings(b.skip(u1 as int), (count - 1) as nat)->used;
            assert(value.drop_first() =~= others);
            assert(b.take(used as int) =~= b.take(u1 as int) + b.skip(u1 as int).take(u2 as int));
        }
    }
}

/// Reading `n + m` strings is reading `n` and then `m`.
pub proof fn lemma_parse_strings_split(b: Seq<u8>, n: nat, m: nat)
    ensures
        parse_strings(b, n + m) == match parse_strings(b, n) {
            Parsed::Done { value, used } => after(value, used, parse_strings(b.skip(used as int), m)),
            Parsed::Short { missing } => Parsed::Short { missing },
            Parsed::Bad => Parsed::Bad,
        },
    decreases n,
{
    if n == 0 {
        assert(b.skip(0) =~= b);
        match parse_strings(b, m) {
            Parsed::Done { value, used } => {
                assert(Seq::<Seq<char>>::empty() + value =~= value);
            },
            _ => {},
        }
    } else {
        match parse_string(b) {
            Parsed::Done { value: first, used: u1 } => {
                let b1 = b.skip(u1 as int);
                lemma_parse_strings_split(b1, (n - 1) as nat, m);
                match parse_strings(b1, (n - 1) as nat) {
                    Parsed::Done { value: mid, used: u2 } => {
                        lemma_parse_string_exact(b);
                        lemma_parse_strings_exact(b1, (n - 1) as nat);
                        assert(b1.skip(u2 as int) =~= b.skip((u1 + u2) as int));
                        match parse_strings(b1.skip(u2 as int), m) {
                            Parsed::Done { value: last, used: u3 } => {
                                assert(seq![first] + (mid + last) =~= (seq![first] + mid) + last);
                            },
                            _ => {},
                        }
                    },
                    _ => {},
                }
            },
            _ => {},
        }
    }
}

/// Whether a list of strings can be sent: each string must fit, and so
/// must their number.
pub open spec fn string_list_fits(l: Seq<Seq<char>>) -> bool {
    l.len() <= u32::MAX && all_fit(l)
}

/// The encoding of a list of strings: their number as a `u32`, then each
/// string.
pub open spec fn string_list_wire(l: Seq<Seq<char>>) -> Seq<u8> {
    be32(l.len() as u32) + strings_wire(l)
}

/// Reading a list of strings.
pub open spec fn parse_string_list(b: Seq<u8>) -> Parsed<Seq<Seq<char>>> {
    if b.len() < 4 {
        Parsed::Short { missing: (4 - b.len()) as nat }
    } else {
        after(seq![], 4, parse_strings(b.skip(4), from_be32(b) as nat))
    }
}

/// A list that fits is read back from its encoding, whatever follows it.
pub proof fn lemma_parse_string_list_wire(l: Seq<Seq<char>>, rest: Seq<u8>)
    requires
        string_list_fits(l),
    ensures
        parse_string_list(string_list_wire(l) + rest) == (Parsed::Done {
            value: l,
            used: string_list_wire(l).len(),
        }),
{
    let b = string_list_wire(l) + rest;
    lemma_be32_inverse(l.len() as u32, seq![]);
    lemma_from_be32_prefix(b);
    assert(b.take(4) =~= be32(l.len() as u32));
    assert(b.skip(4) =~= strings_wire(l) + rest);
    lemma_parse_strings_wire(l, rest);
    assert(Seq::<Seq<char>>::empty() + l =~= l);
}

/// Whatever is read as a list of strings was encoded from it.
pub proof fn lemma_parse_string_list_exact(b: Seq<u8>)
    ensures
        parse_string_list(b) matches Parsed::Done { value, used } ==> string_list_fits(value)
            && used <= b.len() && b.take(used as int) == string_list_wire(value),
{
    if let Parsed::Done { value, used } = parse_string_list(b) {
        let count = from_be32(b) as nat;
        lemma_parse_strings_exact(b.skip(4), count);
        let items = parse_strings(b.skip(4), count)->value;
        let u = parse_strings(b.skip(4), count)->used;
        assert(Seq::<Seq<char>>::empty() + items =~= items);
        lemma_be32_inverse(0, b.take(4));
        lemma_from_be32_prefix(b);
        assert(b.take(used as int) =~= b.take(4) + b.skip(4).take(u as int));
    }
}

/// The texts of a sequence of strings.
pub open spec fn texts(v: Seq<String>) -> Seq<Seq<char>> {
    Seq::new(v.len(), |i: int| v[i]@)
}

/// The encodings of a sequence with one more string at its end.
pub proof fn lemma_strings_wire_push(l: Seq<Seq<char>>, s: Seq<char>)
    ensures
        strings_wire(l.push(s)) == strings_wire(l) + string_wire(s),
    decreases l.len(),
{
    if l.len() == 0 {
        assert(l.push(s).drop_first() =~= l);
        assert(strings_wire(l.push(s)) =~= string_wire(s) + strings_wire(l));
        assert(strings_wire(l) + string_wire(s) =~= string_wire(s));
    } else {
        assert(l.push(s).drop_first() =~= l.drop_first().push(s));
        lemma_strings_wire_push(l.drop_first(), s);
        assert(strings_wire(l.push(s)) =~= string_wire(l[0]) + (strings_wire(l.drop_first())
            + string_wire(s)));
        assert(strings_wire(l) + string_wire(s) =~= string_wire(l[0]) + (strings_wire(
            l.drop_first(),
        ) + string_wire(s)));
    }
}

/// Appends one byte.
pub fn write_u8(out: &mut Vec<u8>, v: u8)
    ensures
        final(out)@ == old(out)@.push(v),
{
    out.push(v);
}

/// Appends `v` as four bytes, most significant first.
pub fn write_u32(out: &mut Vec<u8>, v: u32)
    ensures
        final(out)@ == old(out)@ + be32(v),
{
    out.push((v / 0x100_0000) as u8);
    out.push((v / 0x1_0000 % 0x100) as u8);
    out.push((v / 0x100 % 0x100) as u8);
    out.push((v % 0x100) as u8);
    assert(out@ =~= old(out)@ + be32(v));
}

/// Appends `v` as eight bytes, most significant first.
pub fn write_u64(out: &mut Vec<u8>, v: u64)
    ensures
        final(out)@ == old(out)@ + be64(v),
{
    write_u32(out, (v / 0x1_0000_0000) as u32);
    write_u32(out, (v % 0x1_0000_0000) as u32);
    assert(out@ =~= old(out)@ + be64(v));
}

/// Appends a boolean as one byte, 1 for true and 0 for false.
pub fn write_bool(out: &mut Vec<u8>, v: bool)
    ensures
        final(out)@ == old(out)@ + bool_wire(v),
{
    out.push(if v { 1u8 } else { 0u8 });
    assert(out@ =~= old(out)@ + bool_wire(v));
}

/// Whether `s` can be sent as a string.
pub fn fits(s: &str) -> (res: bool)
    ensures
        res == string_fits(s@),
{
    s.as_bytes().len() <= u32::MAX as usize
}

/// Appends the encoding of `s`.
pub fn write_string(out: &mut Vec<u8>, s: &str)
    requires
        string_fits(s@),
    ensures
        final(out)@ == old(out)@ + string_wire(s@),
{
    let mut body = s.as_bytes_vec();
    write_u32(out, body.len() as u32);
    out.append(&mut body);
    assert(out@ =~= old(out)@ + string_wire(s@));
}

/// Reads the byte at `pos`.
pub fn read_u8(bytes: &[u8], pos: usize) -> (res: Result<(u8, usize), DecodeError>)
    requires
        pos <= bytes@.len(),
    ensures
        read_matches(res, pos, parse_u8(bytes@.skip(pos as int)), |a: u8, b: u8| a == b),
        !(res is Err && res->Err_0 is Invalid),
{
    if bytes.len() - pos < 1 {
        Err(DecodeError::Incomplete(1))
    } else {
        Ok((bytes[pos], pos + 1))
    }
}

/// Reads the big-endian `u32` at `pos`.
pub fn read_u32(bytes: &[u8], pos: usize) -> (res: Result<(u32, usize), DecodeError>)
    requires
        pos <= bytes@.len(),
    ensures
        read_matches(res, pos, parse_u32(bytes@.skip(pos as int)), |a: u32, b: u32| a == b),
        !(res is Err && res->Err_0 is Invalid),
{
    let have = bytes.len() - pos;
    if have < 4 {
        Err(DecodeError::Incomplete(4 - have))
    } else {
        let v = (bytes[pos] as u32) * 0x100_0000 + (bytes[pos + 1] as u32) * 0x1_0000 + (bytes[pos
            + 2] as u32) * 0x100 + (bytes[pos + 3] as u32);
        Ok((v, pos + 4))
    }
}

/// Reads the big-endian `u64` at `pos`.
pub fn read_u64(bytes: &[u8], pos: usize) -> (res: Result<(u64, usize), DecodeError>)
    requires
        pos <= bytes@.len(),
    ensures
        read_matches(res, pos, parse_u64(bytes@.skip(pos as int)), |a: u64, b: u64| a == b),
        !(res is Err && res->Err_0 is Invalid),
{
    let have = bytes.len() - pos;
    if have < 8 {
        Err(DecodeError::Incomplete(8 - have))
    } else {
        let hi = match read_u32(bytes, pos) {
            Ok((v, _)) => v,
            Err(e) => { return Err(e); },
        };
        let lo = match read_u32(bytes, pos + 4) {
            Ok((v, _)) => v,
            Err(e) => { return Err(e); },
        };
        assert(bytes@.skip(pos as int).skip(4) =~= bytes@.skip(pos + 4));
        Ok(((hi as u64) * 0x1_0000_0000 + (lo as u64), pos + 8))
    }
}

/// Reads the boolean at `pos`.
pub fn read_bool(bytes: &[u8], pos: usize) -> (res: Result<(bool, usize), DecodeError>)
    requires
        pos <= bytes@.len(),
    ensures
        read_matches(res, pos, parse_bool(bytes@.skip(pos as int)), |a: bool, b: bool| a == b),
        !(res is Err && res->Err_0 is Invalid),
{
    if bytes.len() - pos < 1 {
        Err(DecodeError::Incomplete(1))
    } else {
        Ok((bytes[pos] != 0, pos + 1))
    }
}

/// `String::from_utf8` of the standard library, which gives the string that
/// the bytes encode exactly when they are valid UTF-8, and an error
/// otherwise.
#[verifier::external_body]
pub(crate) fn string_from_utf8(bytes: Vec<u8>) -> (res: Option<String>)
    ensures
        res is Some <==> valid_utf8(bytes@),
        res matches Some(s) ==> s@ == decode_utf8(bytes@),
{
    String::from_utf8(bytes).ok()
}

/// Reads the string at `pos`.
pub fn read_string(bytes: &[u8], pos: usize) -> (res: Result<(String, usize), DecodeError>)
    requires
        pos <= bytes@.len(),
    ensures
        read_matches(
            res,
            pos,
            parse_string(bytes@.skip(pos as int)),
            |a: String, b: Seq<char>| a@ == b,
        ),
{
    let have = bytes.len() - pos;
    if have < 4 {
        return Err(DecodeError::Incomplete(4 - have));
    }
    let n = match read_u32(bytes, pos) {
        Ok((v, _)) => v as usize,
        Err(e) => { return Err(e); },
    };
    if have - 4 < n {
        return Err(DecodeError::Incomplete(n - (have - 4)));
    }
    let body = slice_to_vec(slice_subrange(bytes, pos + 4, pos + 4 + n));
    assert(body@ =~= bytes@.skip(pos as int).subrange(4, 4 + n));
    match string_from_utf8(body) {
        Some(s) => Ok((s, pos + 4 + n)),
        None => Err(DecodeError::Invalid),
    }
}

/// Whether `list` can be sent as a list of strings.
pub fn list_fits(list: &Vec<String>) -> (res: bool)
    ensures
        res == string_list_fits(texts(list@)),
{
    if list.len() > u32::MAX as usize {
        return false;
    }
    let mut i: usize = 0;
    while i < list.len()
        invariant
            i <= list.len(),
            forall|j: int| 0 <= j < i ==> string_fits(#[trigger] texts(list@)[j]),
        decreases list.len() - i,
    {
        if !fits(list[i].as_str()) {
            assert(!string_fits(texts(list@)[i as int]));
            return false;
        }
        i += 1;
    }
    true
}

/// Appends the encoding of `list`.
pub fn write_string_list(out: &mut Vec<u8>, list: &Vec<String>)
    requires
        string_list_fits(texts(list@)),
    ensures
        final(out)@ == old(out)@ + string_list_wire(texts(list@)),
{
    let ghost all = texts(list@);
    write_u32(out, list.len() as u32);
    let mut i: usize = 0;
    assert(all.take(0) =~= seq![]);
    while i < list.len()
        invariant
            i <= list.len(),
            all == texts(list@),
            all_fit(all),
            out@ == old(out)@ + be32(list.len() as u32) + strings_wire(all.take(i as int)),
        decreases list.len() - i,
    {
        proof {
            lemma_strings_wire_push(all.take(i as int), all[i as int]);
            assert(all.take(i as int).push(all[i as int]) =~= all.take(i + 1));
        }
        write_string(out, list[i].as_str());
        assert(out@ =~= old(out)@ + be32(list.len() as u32) + strings_wire(all.take(i + 1)));
        i += 1;
    }
    assert(all.take(i as int) =~= all);
    assert(out@ =~= old(out)@ + string_list_wire(all));
}

/// Reads `count` strings that follow each other from `pos` on.
pub fn read_strings(bytes: &[u8], pos: usize, count: usize) -> (res: Result<
    (Vec<String>, usize),
    DecodeError,
>)
    requires
        pos <= bytes@.len(),
    ensures
        read_matches(
            res,
            pos,
            parse_strings(bytes@.skip(pos as int), count as nat),
            |a: Vec<String>, b: Seq<Seq<char>>| texts(a@) == b,
        ),
        res matches Ok((list, _)) ==> list@.len() == count,
{
    let ghost start = bytes@.skip(pos as int);
    let mut out: Vec<String> = Vec::new();
    let mut at: usize = pos;
    let mut i: usize = 0;
    assert(texts(out@) =~= seq![]);
    while i < count
        invariant
            i <= count,
            out@.len() == i,
            pos <= at <= bytes@.len(),
            start == bytes@.skip(pos as int),
            parse_strings(start, i as nat) == (Parsed::Done {
                value: texts(out@),
                used: (at - pos) as nat,
            }),
        decreases count - i,
    {
        proof {
            lemma_parse_strings_split(start, i as nat, (count - i) as nat);
            lemma_parse_strings_split(start, i as nat, 1);
            assert(start.skip(at - pos) =~= bytes@.skip(at as int));
            reveal_with_fuel(parse_strings, 2);
        }
        match read_string(bytes, at) {
            Ok((s, next)) => {
                let ghost before = texts(out@);
                out.push(s);
                assert(texts(out@) =~= before + (seq![s@] + Seq::<Seq<char>>::empty()));
                at = next;
            },
            Err(e) => {
                return Err(e);
            },
        }
        i += 1;
    }
    Ok((out, at))
}

/// Reads the list of strings at `pos`.
pub fn read_string_list(bytes: &[u8], pos: usize) -> (res: Result<(Vec<String>, usize), DecodeError>)
    requires
        pos <= bytes@.len(),
    ensures
        read_matches(
            res,
            pos,
            parse_string_list(bytes@.skip(pos as int)),
            |a: Vec<String>, b: Seq<Seq<char>>| texts(a@) == b,
        ),
{
    let count = match read_u32(bytes, pos) {
        Ok((v, _)) => v as usize,
        Err(e) => { return Err(e); },
    };
    assert(bytes@.skip(pos as int).skip(4) =~= bytes@.skip(pos + 4));
    match read_strings(bytes, pos + 4, count) {
        Ok((list, next)) => {
            assert(Seq::<Seq<char>>::empty() + texts(list@) =~= texts(list@));
            Ok((list, next))
        },
        Err(e) => Err(e),
    }
}

} // verus!
