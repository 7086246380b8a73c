//! The framing of DAG-CBOR items: heads, lengths, text, booleans and unsigned integers.
//!
//! Writers append to a byte vector. Readers take the whole input and the position to read
//! at, and hand back what they read with the position after it.
use vstd::prelude::*;
use vstd::slice::slice_subrange;
use vstd::utf8::*;
use vstd::string::*;
use crate::error::{TypeError, TypeErrorType, TypeErrorTypeView, TypeErrorView};
use crate::order::{compare_keys, KeyOrder};

verus! {

/// Why decoding failed.
#[derive(Clone, Debug, PartialEq, Eq)]
pub enum DecodeError {
    /// The input ended inside an item.
    UnexpectedEof,
    /// The item starts with a byte that nothing expected at its place starts with.
    UnexpectedCode(u8),
    /// A header of fixed arity announces another length, or a length does not fit.
    LengthOutOfRange,
    /// A text item does not hold UTF-8.
    InvalidUtf8,
    /// The item has another shape than the one declared: a wrong key, an unknown
    /// discriminant, a union none of whose variants matches.
    Type(TypeError),
}

/// What a `DecodeError` stands for.
pub ghost enum DecodeErrorView {
    UnexpectedEof,
    UnexpectedCode(u8),
    LengthOutOfRange,
    InvalidUtf8,
    Type(TypeErrorView),
}

impl View for DecodeError {
    type V = DecodeErrorView;

    open spec fn view(&self) -> DecodeErrorView {
        match self {
            DecodeError::UnexpectedEof => DecodeErrorView::UnexpectedEof,
            DecodeError::UnexpectedCode(code) => DecodeErrorView::UnexpectedCode(*code),
            DecodeError::LengthOutOfRange => DecodeErrorView::LengthOutOfRange,
            DecodeError::InvalidUtf8 => DecodeErrorView::InvalidUtf8,
            DecodeError::Type(e) => DecodeErrorView::Type(e@),
        }
    }
}

/// The outcome of reading an item whose leading byte is already known: the value with
/// the position after it, or that the item is of another shape, with nothing read, or
/// that the input is malformed.
pub ghost enum Probe<T> {
    Matched(T, int),
    NotThisShape,
    Malformed(DecodeErrorView),
}

/// The major type of unsigned integers. A major type is what the top three bits of a
/// leading byte hold.
pub const MAJOR_UNSIGNED: u8 = 0;

/// The major type of text.
pub const MAJOR_TEXT: u8 = 3;

/// The major type of lists.
pub const MAJOR_LIST: u8 = 4;

/// The major type of maps.
pub const MAJOR_MAP: u8 = 5;

/// The byte of the null item.
pub const NULL: u8 = 0xf6;

/// The byte of the undefined item, read as null.
pub const UNDEFINED: u8 = 0xf7;

/// The byte of the boolean `false`.
pub const FALSE: u8 = 0xf4;

/// The byte of the boolean `true`.
pub const TRUE: u8 = 0xf5;

/// The `width` low bytes of `n`, the most significant first.
pub open spec fn be_bytes(n: nat, width: nat) -> Seq<u8>
    decreases width,
{
    if width == 0 {
        Seq::empty()
    } else {
        be_bytes(n / 256, (width - 1) as nat).push((n % 256) as u8)
    }
}

/// The number that `bytes` denote, the most significant first.
pub open spec fn be_value(bytes: Seq<u8>) -> nat
    decreases bytes.len(),
{
    if bytes.len() == 0 {
        0
    } else {
        be_value(bytes.drop_last()) * 256 + bytes.last() as nat
    }
}

/// The number of values that `width` bytes can denote.
pub open spec fn capacity(width: nat) -> nat
    decreases width,
{
    if width == 0 {
        1
    } else {
        256 * capacity((width - 1) as nat)
    }
}

/// How many bytes follow a leading byte whose low five bits are `low`.
pub open spec fn argument_width(low: u8) -> nat {
    if low == 0x18 {
        1
    } else if low == 0x19 {
        2
    } else if low == 0x1a {
        4
    } else if low == 0x1b {
        8
    } else {
        0
    }
}

/// The head of an item: the leading byte, which holds the major type and either the
/// argument `n` itself or the width of the bytes that hold it, and those bytes. The
/// shortest form that holds `n` is taken.
pub open spec fn head(major: u8, n: u64) -> Seq<u8> {
    if n <= 0x17 {
        seq![(major * 32 + n) as u8]
    } else if n <= 0xff {
        seq![(major * 32 + 0x18) as u8] + be_bytes(n as nat, 1)
    } else if n <= 0xffff {
        seq![(major * 32 + 0x19) as u8] + be_bytes(n as nat, 2)
    } else if n <= 0xffff_ffff {
        seq![(major * 32 + 0x1a) as u8] + be_bytes(n as nat, 4)
    } else {
        seq![(major * 32 + 0x1b) as u8] + be_bytes(n as nat, 8)
    }
}

/// Whether `item` stands in `input` at position `at`.
pub open spec fn stands_at(input: Seq<u8>, at: int, item: Seq<u8>) -> bool {
    &&& 0 <= at
    &&& at + item.len() <= input.len()
    &&& input.subrange(at, at + item.len()) == item
}

/// The byte at `at`, with the position after it.
pub open spec fn byte_at(input: Seq<u8>, at: int) -> Result<(u8, int), DecodeErrorView> {
    if 0 <= at < input.len() {
        Ok((input[at], at + 1))
    } else {
        Err(DecodeErrorView::UnexpectedEof)
    }
}

/// The argument of a head whose leading byte has the low bits `low` and whose further
/// bytes start at `at`, with the position after them.
pub open spec fn argument_at(input: Seq<u8>, at: int, low: u8) -> Result<
    (u64, int),
    DecodeErrorView,
> {
    if low <= 0x17 {
        Ok((low as u64, at))
    } else if low <= 0x1b {
        let width = argument_width(low) as int;
        if 0 <= at && at + width <= input.len() {
            Ok((be_value(input.subrange(at, at + width)) as u64, at + width))
        } else {
            Err(DecodeErrorView::UnexpectedEof)
        }
    } else {
        Err(DecodeErrorView::UnexpectedCode(low))
    }
}

/// The length that a head announces: its argument, where that fits a `usize`.
pub open spec fn len_at(input: Seq<u8>, at: int, low: u8) -> Result<(usize, int), DecodeErrorView> {
    match argument_at(input, at, low) {
        Ok((n, next)) => if n <= usize::MAX {
            Ok((n as usize, next))
        } else {
            Err(DecodeErrorView::LengthOutOfRange)
        },
        Err(e) => Err(e),
    }
}

/// Bytes denote a number below the capacity of their width.
pub proof fn lemma_be_value_bound(bytes: Seq<u8>)
    ensures
        be_value(bytes) < capacity(bytes.len()),
    decreases bytes.len(),
{
    if bytes.len() > 0 {
        lemma_be_value_bound(bytes.drop_last());
    }
}

/// Eight bytes denote a number that a `u64` holds, and fewer bytes do too.
pub proof fn lemma_capacity(width: nat)
    requires
        width <= 8,
    ensures
        capacity(width) <= 0x1_0000_0000_0000_0000,
        width == 1 ==> capacity(width) == 0x100,
        width == 2 ==> capacity(width) == 0x1_0000,
        width == 4 ==> capacity(width) == 0x1_0000_0000,
        width == 8 ==> capacity(width) == 0x1_0000_0000_0000_0000,
{
    reveal_with_fuel(capacity, 10);
}

/// The bytes of a number denote the number, where the width holds it.
pub proof fn lemma_be_roundtrip(n: nat, width: nat)
    requires
        n < capacity(width),
    ensures
        be_bytes(n, width).len() == width,
        be_value(be_bytes(n, width)) == n,
    decreases width,
{
    if width > 0 {
        lemma_be_roundtrip(n / 256, (width - 1) as nat);
        assert(be_bytes(n, width).drop_last() =~= be_bytes(n / 256, (width - 1) as nat));
    }
}

/// The width of the bytes of a number, whatever the number.
pub proof fn lemma_be_bytes_len(n: nat, width: nat)
    ensures
        be_bytes(n, width).len() == width,
    decreases width,
{
    if width > 0 {
        lemma_be_bytes_len(n / 256, (width - 1) as nat);
    }
}

/// Appends the `width` low bytes of `n`, the most significant first.
fn write_be(w: &mut Vec<u8>, n: u64, width: u8)
    ensures
        final(w)@ == old(w)@ + be_bytes(n as nat, width as nat),
    decreases width,
{
    if width > 0 {
        write_be(w, n / 256, width - 1);
        w.push((n % 256) as u8);
        assert(w@ =~= old(w)@ + be_bytes(n as nat, width as nat));
    } else {
        assert(w@ =~= old(w)@ + be_bytes(n as nat, width as nat));
    }
}

/// Writes the head of an item of the major type `major` with the argument `value`.
pub fn write_u64(w: &mut Vec<u8>, major: u8, value: u64)
    requires
        major <= 7,
    ensures
        final(w)@ == old(w)@ + head(major, value),
{
    if value <= 0x17 {
        w.push(major * 32 + value as u8);
    } else if value <= 0xff {
        w.push(major * 32 + 0x18);
        write_be(w, value, 1);
    } else if value <= 0xffff {
        w.push(major * 32 + 0x19);
        write_be(w, value, 2);
    } else if value <= 0xffff_ffff {
        w.push(major * 32 + 0x1a);
        write_be(w, value, 4);
    } else {
        w.push(major * 32 + 0x1b);
        write_be(w, value, 8);
    }
    assert(w@ =~= old(w)@ + head(major, value));
}

/// Writes the null item.
pub fn write_null(w: &mut Vec<u8>)
    ensures
        final(w)@ == old(w)@ + seq![NULL],
{
    w.push(NULL);
    assert(w@ =~= old(w)@ + seq![NULL]);
}

/// Reads the byte at `at`.
pub fn read_u8(r: &[u8], at: usize) -> (res: Result<(u8, usize), DecodeError>)
    ensures
        match res {
            Ok((byte, next)) => byte_at(r@, at as int) == Ok::<(u8, int), DecodeErrorView>(
                (byte, next as int),
            ),
            Err(e) => byte_at(r@, at as int) == Err::<(u8, int), DecodeErrorView>(e@),
        },
{
    if at < r.len() {
        Ok((r[at], at + 1))
    } else {
        Err(DecodeError::UnexpectedEof)
    }
}

/// Reads `width` bytes at `at` as a number, the most significant byte first.
fn read_be(r: &[u8], at: usize, width: usize) -> (res: Option<(u64, usize)>)
    requires
        width <= 8,
    ensures
        match res {
            Some((n, next)) => {
                &&& next == at + width
                &&& next <= r@.len()
                &&& n == be_value(r@.subrange(at as int, at + width))
            },
            None => at + width > r@.len(),
        },
{
    if width > r.len() || at > r.len() - width {
        return None;
    }
    let mut n: u64 = 0;
    let mut k: usize = 0;
    assert(r@.subrange(at as int, at as int) =~= Seq::<u8>::empty());
    while k < width
        invariant
            k <= width <= 8,
            at + width <= r@.len() <= usize::MAX,
            n == be_value(r@.subrange(at as int, at + k)),
        decreases width - k,
    {
        let ghost done = r@.subrange(at as int, at + k);
        let ghost more = r@.subrange(at as int, at + k + 1);
        proof {
            lemma_be_value_bound(done);
            lemma_be_value_bound(more);
            lemma_capacity((k + 1) as nat);
            assert(more.drop_last() =~= done);
            assert(more.last() == r@[at + k]);
        }
        n = n * 256 + r[at + k] as u64;
        k += 1;
    }
    Some((n, at + width))
}

/// Reads the argument of a head whose leading byte has the low bits `low`, from the
/// bytes after that byte.
pub fn read_argument(r: &[u8], at: usize, low: u8) -> (res: Result<(u64, usize), DecodeError>)
    ensures
        match res {
            Ok((n, next)) => argument_at(r@, at as int, low) == Ok::<(u64, int), DecodeErrorView>(
                (n, next as int),
            ),
            Err(e) => argument_at(r@, at as int, low) == Err::<(u64, int), DecodeErrorView>(e@),
        },
{
    if low <= 0x17 {
        Ok((low as u64, at))
    } else if low <= 0x1b {
        let width: usize = if low == 0x18 {
            1
        } else if low == 0x19 {
            2
        } else if low == 0x1a {
            4
        } else {
            8
        };
        match read_be(r, at, width) {
            Some((n, next)) => Ok((n, next)),
            None => Err(DecodeError::UnexpectedEof),
        }
    } else {
        Err(DecodeError::UnexpectedCode(low))
    }
}

/// Reads the length that a head announces, from the bytes after its leading byte.
pub fn read_len(r: &[u8], at: usize, low: u8) -> (res: Result<(usize, usize), DecodeError>)
    ensures
        match res {
            Ok((n, next)) => len_at(r@, at as int, low) == Ok::<(usize, int), DecodeErrorView>(
                (n, next as int),
            ),
            Err(e) => len_at(r@, at as int, low) == Err::<(usize, int), DecodeErrorView>(e@),
        },
{
    match read_argument(r, at, low) {
        Ok((n, next)) => {
            if n > usize::MAX as u64 {
                Err(DecodeError::LengthOutOfRange)
            } else {
                Ok((n as usize, next))
            }
        },
        Err(e) => Err(e),
    }
}

/// The text item that holds `s`: a head with the length of its UTF-8 encoding, then the
/// encoding.
pub open spec fn text_item(s: Seq<char>) -> Seq<u8> {
    head(MAJOR_TEXT, encode_utf8(s).len() as u64) + encode_utf8(s)
}

/// The item that holds the boolean `b`.
pub open spec fn bool_item(b: bool) -> Seq<u8> {
    seq![if b { TRUE } else { FALSE }]
}

/// The item that holds the unsigned integer `n`.
pub open spec fn unsigned_item(n: u64) -> Seq<u8> {
    head(MAJOR_UNSIGNED, n)
}

/// Reading a boolean whose leading byte is `major`: nothing follows that byte.
pub open spec fn probe_bool(major: u8, at: int) -> Probe<bool> {
    if major == FALSE {
        Probe::Matched(false, at)
    } else if major == TRUE {
        Probe::Matched(true, at)
    } else {
        Probe::NotThisShape
    }
}

/// Reading an unsigned integer whose leading byte is `major` and whose further bytes
/// start at `at`.
pub open spec fn probe_unsigned(input: Seq<u8>, at: int, major: u8) -> Probe<u64> {
    if major <= 0x1b {
        match argument_at(input, at, major) {
            Ok((n, next)) => Probe::Matched(n, next),
            Err(e) => Probe::Malformed(e),
        }
    } else {
        Probe::NotThisShape
    }
}

/// Reading a text item whose leading byte is `major` and whose further bytes start at
/// `at`.
pub open spec fn probe_text(input: Seq<u8>, at: int, major: u8) -> Probe<Seq<char>> {
    if 0x60 <= major <= 0x7b {
        match len_at(input, at, (major - 0x60) as u8) {
            Ok((len, start)) => if start + len > input.len() {
                Probe::Malformed(DecodeErrorView::UnexpectedEof)
            } else if !valid_utf8(input.subrange(start, start + len)) {
                Probe::Malformed(DecodeErrorView::InvalidUtf8)
            } else {
                Probe::Matched(decode_utf8(input.subrange(start, start + len)), start + len)
            },
            Err(e) => Probe::Malformed(e),
        }
    } else {
        Probe::NotThisShape
    }
}

/// Reading the text item at `at`, leading byte included. Another item there is
/// malformed input.
pub open spec fn text_at(input: Seq<u8>, at: int) -> Result<(Seq<char>, int), DecodeErrorView> {
    match byte_at(input, at) {
        Ok((major, next)) => match probe_text(input, next, major) {
            Probe::Matched(s, end) => Ok((s, end)),
            Probe::NotThisShape => Err(DecodeErrorView::UnexpectedCode(major)),
            Probe::Malformed(e) => Err(e),
        },
        Err(e) => Err(e),
    }
}

/// The type error for a key that is not the expected one.
pub open spec fn wrong_key(expected: Seq<char>, found: Seq<char>) -> DecodeErrorView {
    DecodeErrorView::Type(
        TypeErrorView {
            expected: TypeErrorTypeView::Key(expected),
            found: TypeErrorTypeView::Key(found),
        },
    )
}

/// Reading the key `expected` at `at`: the position after it. Any other key, and any
/// item that is no text, is malformed input.
pub open spec fn key_at(input: Seq<u8>, at: int, expected: Seq<char>) -> Result<
    int,
    DecodeErrorView,
> {
    match text_at(input, at) {
        Ok((s, end)) => if s == expected {
            Ok(end)
        } else {
            Err(wrong_key(expected, s))
        },
        Err(e) => Err(e),
    }
}

/// Appends `bytes`.
fn write_bytes(w: &mut Vec<u8>, bytes: &[u8])
    ensures
        final(w)@ == old(w)@ + bytes@,
{
    let mut i: usize = 0;
    assert(bytes@.subrange(0, 0) =~= Seq::<u8>::empty());
    assert(w@ =~= old(w)@ + bytes@.subrange(0, 0));
    while i < bytes.len()
        invariant
            i <= bytes@.len(),
            w@ == old(w)@ + bytes@.subrange(0, i as int),
        decreases bytes@.len() - i,
    {
        w.push(bytes[i]);
        assert(bytes@.subrange(0, i + 1) =~= bytes@.subrange(0, i as int).push(bytes@[i as int]));
        assert(w@ =~= old(w)@ + bytes@.subrange(0, i + 1));
        i += 1;
    }
    assert(bytes@.subrange(0, i as int) =~= bytes@);
}

/// Writes a text item.
pub fn write_text(w: &mut Vec<u8>, s: &str)
    ensures
        final(w)@ == old(w)@ + text_item(s@),
{
    let bytes = s.as_bytes();
    write_u64(w, MAJOR_TEXT, bytes.len() as u64);
    write_bytes(w, bytes);
    assert(w@ =~= old(w)@ + text_item(s@));
}

/// Writes a boolean.
pub fn write_bool(w: &mut Vec<u8>, b: bool)
    ensures
        final(w)@ == old(w)@ + bool_item(b),
{
    if b {
        w.push(TRUE);
    } else {
        w.push(FALSE);
    }
    assert(w@ =~= old(w)@ + bool_item(b));
}

/// Reads a boolean whose leading byte is `major`, if that byte starts one.
pub fn try_read_bool(major: u8, at: usize) -> (res: Option<bool>)
    ensures
        match res {
            Some(b) => probe_bool(major, at as int) == Probe::Matched(b, at as int),
            None => probe_bool(major, at as int) == Probe::<bool>::NotThisShape,
        },
{
    if major == FALSE {
        Some(false)
    } else if major == TRUE {
        Some(true)
    } else {
        None
    }
}

/// Reads an unsigned integer whose leading byte is `major`, if that byte starts one.
pub fn try_read_unsigned(r: &[u8], at: usize, major: u8) -> (res: Result<
    Option<(u64, usize)>,
    DecodeError,
>)
    ensures
        match res {
            Ok(Some((n, next))) => probe_unsigned(r@, at as int, major) == Probe::Matched(
                n,
                next as int,
            ),
            Ok(None) => probe_unsigned(r@, at as int, major) == Probe::<u64>::NotThisShape,
            Err(e) => probe_unsigned(r@, at as int, major) == Probe::<u64>::Malformed(e@),
        },
{
    if major <= 0x1b {
        match read_argument(r, at, major) {
            Ok((n, next)) => Ok(Some((n, next))),
            Err(e) => Err(e),
        }
    } else {
        Ok(None)
    }
}

/// `core::str::from_utf8` of std: the string that `bytes` hold, if and only if they are
/// valid UTF-8.
#[verifier::external_body]
fn utf8_text(bytes: &[u8]) -> (r: Option<&str>)
    ensures
        match r {
            Some(s) => valid_utf8(bytes@) && s@ == decode_utf8(bytes@),
            None => !valid_utf8(bytes@),
        },
{
    match core::str::from_utf8(bytes) {
        Ok(s) => Some(s),
        Err(_) => None,
    }
}

/// Reads a text item whose leading byte is `major`, if that byte starts one.
pub fn try_read_text(r: &[u8], at: usize, major: u8) -> (res: Result<
    Option<(String, usize)>,
    DecodeError,
>)
    ensures
        match res {
            Ok(Some((s, next))) => probe_text(r@, at as int, major) == Probe::Matched(
                s@,
                next as int,
            ),
            Ok(None) => probe_text(r@, at as int, major) == Probe::<Seq<char>>::NotThisShape,
            Err(e) => probe_text(r@, at as int, major) == Probe::<Seq<char>>::Malformed(e@),
        },
{
    if 0x60 <= major && major <= 0x7b {
        match read_len(r, at, major - 0x60) {
            Ok((len, start)) => {
                if start > r.len() || len > r.len() - start {
                    return Err(DecodeError::UnexpectedEof);
                }
                let bytes = slice_subrange(r, start, start + len);
                match utf8_text(bytes) {
                    Some(s) => Ok(Some((s.to_owned(), start + len))),
                    None => Err(DecodeError::InvalidUtf8),
                }
            },
            Err(e) => Err(e),
        }
    } else {
        Ok(None)
    }
}

/// Reads the text item at `at`.
pub fn read_text(r: &[u8], at: usize) -> (res: Result<(String, usize), DecodeError>)
    ensures
        match res {
            Ok((s, next)) => text_at(r@, at as int) == Ok::<(Seq<char>, int), DecodeErrorView>(
                (s@, next as int),
            ),
            Err(e) => text_at(r@, at as int) == Err::<(Seq<char>, int), DecodeErrorView>(e@),
        },
{
    match read_u8(r, at) {
        Ok((major, next)) => match try_read_text(r, next, major) {
            Ok(Some(found)) => Ok(found),
            Ok(None) => Err(DecodeError::UnexpectedCode(major)),
            Err(e) => Err(e),
        },
        Err(e) => Err(e),
    }
}

/// Reads the key `expected` at `at`.
pub fn read_key(r: &[u8], at: usize, expected: &str) -> (res: Result<usize, DecodeError>)
    ensures
        match res {
            Ok(next) => key_at(r@, at as int, expected@) == Ok::<int, DecodeErrorView>(next as int),
            Err(e) => key_at(r@, at as int, expected@) == Err::<int, DecodeErrorView>(e@),
        },
{
    match read_text(r, at) {
        Ok((s, next)) => {
            match compare_keys(s.as_str(), expected) {
                KeyOrder::Same => Ok(next),
                _ => Err(
                    DecodeError::Type(
                        TypeError {
                            expected: TypeErrorType::Key(expected.to_owned()),
                            found: TypeErrorType::Key(s),
                        },
                    ),
                ),
            }
        },
        Err(e) => Err(e),
    }
}

/// Two runs of bytes stand one after the other where the two together stand.
pub proof fn lemma_stands_at_parts(input: Seq<u8>, at: int, a: Seq<u8>, b: Seq<u8>)
    ensures
        stands_at(input, at, a + b) <==> stands_at(input, at, a) && stands_at(
            input,
            at + a.len(),
            b,
        ),
{
    if stands_at(input, at, a + b) {
        assert(input.subrange(at, at + a.len()) =~= (a + b).subrange(0, a.len() as int));
        assert((a + b).subrange(0, a.len() as int) =~= a);
        assert(input.subrange(at + a.len(), at + a.len() + b.len()) =~= (a + b).subrange(
            a.len() as int,
            (a + b).len() as int,
        ));
        assert((a + b).subrange(a.len() as int, (a + b).len() as int) =~= b);
    }
    if stands_at(input, at, a) && stands_at(input, at + a.len(), b) {
        assert(input.subrange(at, at + (a + b).len()) =~= input.subrange(at, at + a.len())
            + input.subrange(at + a.len(), at + a.len() + b.len()));
    }
}

/// The low five bits of the leading byte of the head that holds `n`.
pub open spec fn head_low(n: u64) -> u8 {
    if n <= 0x17 {
        n as u8
    } else if n <= 0xff {
        0x18
    } else if n <= 0xffff {
        0x19
    } else if n <= 0xffff_ffff {
        0x1a
    } else {
        0x1b
    }
}

/// A head reads back: where the head of `n` stands, the leading byte holds the major
/// type and the low bits of that head, and the argument read after it is `n`.
pub proof fn lemma_head_reads_back(major: u8, n: u64, input: Seq<u8>, at: int)
    requires
        major <= 7,
        stands_at(input, at, head(major, n)),
    ensures
        head(major, n).len() == 1 + argument_width(head_low(n)),
        input[at] == major * 32 + head_low(n),
        head_low(n) <= 0x1b,
        argument_at(input, at + 1, head_low(n)) == Ok::<(u64, int), DecodeErrorView>(
            (n, at + head(major, n).len()),
        ),
{
    let h = head(major, n);
    let low = head_low(n);
    let width = argument_width(low);
    lemma_be_bytes_len(n as nat, width);
    assert(input.subrange(at, at + h.len())[0] == h[0]);
    if n > 0x17 {
        lemma_capacity(width);
        lemma_be_roundtrip(n as nat, width);
        lemma_stands_at_parts(input, at, seq![(major * 32 + low) as u8], be_bytes(n as nat, width));
    }
}

/// A text item reads back, where its length fits a `usize`.
pub proof fn lemma_text_reads_back(s: Seq<char>, input: Seq<u8>, at: int)
    requires
        encode_utf8(s).len() <= usize::MAX,
        stands_at(input, at, text_item(s)),
    ensures
        text_item(s).len() > 0,
        0x60 <= input[at] <= 0x7b,
        input[at] == text_item(s)[0],
        probe_text(input, at + 1, input[at]) == Probe::Matched(s, at + text_item(s).len()),
        text_at(input, at) == Ok::<(Seq<char>, int), DecodeErrorView>((s, at + text_item(s).len())),
{
    let bytes = encode_utf8(s);
    let n = bytes.len() as u64;
    let h = head(MAJOR_TEXT, n);
    lemma_stands_at_parts(input, at, h, bytes);
    lemma_head_reads_back(MAJOR_TEXT, n, input, at);
    encode_utf8_valid_utf8(s);
    encode_utf8_decode_utf8(s);
    assert(text_item(s)[0] == h[0]);
    assert(input.subrange(at, at + h.len())[0] == h[0]);
}

/// A key reads back as itself, and as no other key.
pub proof fn lemma_key_reads_back(key: Seq<char>, input: Seq<u8>, at: int)
    requires
        encode_utf8(key).len() <= usize::MAX,
        stands_at(input, at, text_item(key)),
    ensures
        key_at(input, at, key) == Ok::<int, DecodeErrorView>(at + text_item(key).len()),
{
    lemma_text_reads_back(key, input, at);
}

/// A boolean reads back.
pub proof fn lemma_bool_reads_back(b: bool, input: Seq<u8>, at: int)
    requires
        stands_at(input, at, bool_item(b)),
    ensures
        input[at] == bool_item(b)[0],
        input[at] == FALSE || input[at] == TRUE,
        probe_bool(input[at], at + 1) == Probe::Matched(b, at + 1),
{
    assert(input.subrange(at, at + 1)[0] == bool_item(b)[0]);
}

/// An unsigned integer reads back.
pub proof fn lemma_unsigned_reads_back(n: u64, input: Seq<u8>, at: int)
    requires
        stands_at(input, at, unsigned_item(n)),
    ensures
        unsigned_item(n).len() > 0,
        input[at] == unsigned_item(n)[0],
        input[at] <= 0x1b,
        probe_unsigned(input, at + 1, input[at]) == Probe::Matched(n, at + unsigned_item(n).len()),
{
    lemma_head_reads_back(MAJOR_UNSIGNED, n, input, at);
    assert(input.subrange(at, at + unsigned_item(n).len())[0] == unsigned_item(n)[0]);
}

} // verus!
