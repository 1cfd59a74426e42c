//! Error values and byte helpers shared by the rest of the library.
use vstd::prelude::*;

verus! {

/// A transport-level failure: either an OS error code, or a described
/// failure of another kind.
#[derive(Debug, Clone, PartialEq, Eq)]
pub enum IoError {
    Os(i32),
    Other(String),
}

/// A value that may carry a negative (failure) return code.
pub trait Signed {
    spec fn spec_is_negative(&self) -> bool;

    fn is_negative(&self) -> (r: bool)
        ensures
            r == self.spec_is_negative(),
    ;
}

impl Signed for i32 {
    open spec fn spec_is_negative(&self) -> bool {
        *self < 0
    }

    fn is_negative(&self) -> (r: bool) {
        *self < 0i32
    }
}

impl Signed for usize {
    /// A `usize` return code is negative when its bits, read as an
    /// `isize`, are: that is, when the top bit is set.
    open spec fn spec_is_negative(&self) -> bool {
        *self > isize::MAX as usize
    }

    fn is_negative(&self) -> (r: bool) {
        *self > isize::MAX as usize
    }
}

/// Turns a C-style return value into a `Result`: a negative value is the
/// OS error `errno`, any other value is passed through.
pub fn from_unix_result<T: Signed>(rv: T, errno: i32) -> (r: Result<T, IoError>)
    ensures
        rv.spec_is_negative() ==> r == Err::<T, IoError>(IoError::Os(errno)),
        !rv.spec_is_negative() ==> r == Ok::<T, IoError>(rv),
{
    if rv.is_negative() {
        Err(IoError::Os(errno))
    } else {
        Ok(rv)
    }
}

/// A failure of no particular OS kind, described by `msg`.
pub fn io_err(msg: &str) -> (r: IoError)
    ensures
        r is Other && r->Other_0@ == msg@,
{
    IoError::Other(msg.to_owned())
}

/// Number of bytes that `set_data` copies.
pub open spec fn take_amount(remaining: int, max: int) -> int {
    if max < remaining { max } else { remaining }
}

/// Copies up to `max` bytes from `src`, starting at `*pos`, into the front of
/// `data`, and advances `*pos` past them. Fewer bytes are copied when `src`
/// has fewer left.
pub fn set_data(data: &mut [u8], src: &[u8], pos: &mut usize, max: usize)
    requires
        *old(pos) <= src@.len(),
        take_amount(src@.len() - *old(pos), max as int) <= old(data)@.len(),
    ensures
        ({
            let n = take_amount(src@.len() - *old(pos), max as int);
            &&& *final(pos) == *old(pos) + n
            &&& final(data)@.len() == old(data)@.len()
            &&& final(data)@.subrange(0, n) == src@.subrange(*old(pos) as int, *old(pos) + n)
            &&& final(data)@.subrange(n, final(data)@.len() as int) == old(data)@.subrange(
                n,
                old(data)@.len() as int,
            )
        }),
{
    let count: usize = src.len() - *pos;
    let take: usize = if max < count {
        max
    } else {
        count
    };
    let start: usize = *pos;
    let mut i: usize = 0;
    while i < take
        invariant
            i <= take,
            take == take_amount(src@.len() - start, max as int),
            start == *old(pos),
            start + take <= src@.len(),
            take <= data@.len(),
            data@.len() == old(data)@.len(),
            *pos == start + i,
            forall|j: int| 0 <= j < i ==> data@[j] == src@[start + j],
            forall|j: int| i <= j < data@.len() ==> data@[j] == old(data)@[j],
        decreases take - i,
    {
        data[i] = src[*pos];
        *pos = *pos + 1;
        i = i + 1;
    }
    assert(data@.subrange(0, take as int) =~= src@.subrange(start as int, start + take));
    assert(data@.subrange(take as int, data@.len() as int) =~= old(data)@.subrange(
        take as int,
        old(data)@.len() as int,
    ));
}

/// The lowercase hexadecimal digit for a value below 16.
pub open spec fn hex_digit(v: u8) -> char {
    if v < 10 {
        ((v + 48) as char)
    } else {
        ((v + 87) as char)
    }
}

/// Two lowercase hexadecimal digits per byte, most significant first.
pub open spec fn hex_of(bytes: Seq<u8>) -> Seq<char>
    decreases bytes.len(),
{
    if bytes.len() == 0 {
        Seq::empty()
    } else {
        hex_of(bytes.drop_last()).push(hex_digit(bytes.last() / 16)).push(
            hex_digit(bytes.last() % 16),
        )
    }
}

fn hex_char(v: u8) -> (c: char)
    requires
        v < 16,
    ensures
        c == hex_digit(v),
{
    if v < 10 {
        (v + 48) as char
    } else {
        (v + 87) as char
    }
}

/// Relies on `String::push`: appends one character at the end.
#[verifier::external_body]
fn push_char(s: &mut String, c: char)
    ensures
        final(s)@ == old(s)@.push(c),
{
    s.push(c)
}

/// The bytes as a string of lowercase hexadecimal digit pairs.
pub fn to_hex_string(bytes: &Vec<u8>) -> (r: String)
    ensures
        r@ == hex_of(bytes@),
{
    let mut s = String::new();
    let mut i: usize = 0;
    while i < bytes.len()
        invariant
            i <= bytes@.len(),
            s@ == hex_of(bytes@.subrange(0, i as int)),
        decreases bytes@.len() - i,
    {
        let b = bytes[i];
        push_char(&mut s, hex_char(b / 16));
        push_char(&mut s, hex_char(b % 16));
        assert(bytes@.subrange(0, i + 1).drop_last() =~= bytes@.subrange(0, i as int));
        i = i + 1;
    }
    assert(bytes@.subrange(0, bytes@.len() as int) =~= bytes@);
    s
}

} // verus!
