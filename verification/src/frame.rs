//! The shape of a record: fixed text around one or two JSON strings.
//!
//! A record is written on one line. Its strings are JSON string literals, so
//! a line feed inside a key or a value is escaped and never ends the line.
use vstd::prelude::*;
use vstd::slice::slice_subrange;
use crate::error::{KvsError, Repr};
use crate::json::{json_literal, json_reading, quote, unquote};

verus! {

/// The byte that ends a record.
pub const LINE_FEED: u8 = 10;

/// The byte that opens and closes a string literal.
pub const QUOTE: u8 = 34;

/// The byte that escapes the next one inside a string literal.
pub const BACKSLASH: u8 = 92;

/// No line feed occurs in `s`.
pub open spec fn unbroken(s: Seq<u8>) -> bool {
    forall|i: int| 0 <= i < s.len() ==> s[i] != LINE_FEED
}

/// The bytes `p` stand in `s` at position `at`.
pub open spec fn has_at(s: Seq<u8>, at: int, p: Seq<u8>) -> bool {
    0 <= at && at + p.len() <= s.len() && s.subrange(at, at + p.len()) == p
}

/// The string that is read from the JSON string literal `bytes`, if it is
/// one.
pub open spec fn json_text(bytes: Seq<u8>) -> Option<Seq<char>> {
    match json_reading(bytes) {
        Ok(text) => Some(text),
        Err(_) => None,
    }
}

/// The position just past the first unescaped quote at or after `at`.
pub open spec fn scan_literal(s: Seq<u8>, at: int) -> Option<int>
    decreases s.len() - at,
{
    if at < 0 || at >= s.len() {
        None
    } else if s[at] == QUOTE {
        Some(at + 1)
    } else if s[at] == BACKSLASH {
        if at + 1 < s.len() {
            scan_literal(s, at + 2)
        } else {
            None
        }
    } else {
        scan_literal(s, at + 1)
    }
}

/// The position just past the string literal that opens at `from`.
pub open spec fn literal_end(s: Seq<u8>, from: int) -> Option<int> {
    if 0 <= from < s.len() && s[from] == QUOTE {
        scan_literal(s, from + 1)
    } else {
        None
    }
}

/// The string whose literal opens at `from`, and the position just past it.
pub open spec fn field_at(s: Seq<u8>, from: int) -> Option<(Seq<char>, int)> {
    match literal_end(s, from) {
        Some(end) => match json_text(s.subrange(from, end)) {
            Some(text) => Some((text, end)),
            None => None,
        },
        None => None,
    }
}

/// The string of a record `head`, literal, `tail`.
pub open spec fn single_of(s: Seq<u8>, head: Seq<u8>, tail: Seq<u8>) -> Option<Seq<char>> {
    if !has_at(s, 0, head) {
        None
    } else {
        match field_at(s, head.len() as int) {
            Some((text, end)) => if s.skip(end) == tail {
                Some(text)
            } else {
                None
            },
            None => None,
        }
    }
}

/// The strings of a record `head`, literal, `sep`, literal, `tail`.
pub open spec fn pair_of(s: Seq<u8>, head: Seq<u8>, sep: Seq<u8>, tail: Seq<u8>) -> Option<
    (Seq<char>, Seq<char>),
> {
    if !has_at(s, 0, head) {
        None
    } else {
        match field_at(s, head.len() as int) {
            Some((first, mid)) => if !has_at(s, mid, sep) {
                None
            } else {
                match field_at(s, mid + sep.len()) {
                    Some((second, end)) => if s.skip(end) == tail {
                        Some((first, second))
                    } else {
                        None
                    },
                    None => None,
                }
            },
            None => None,
        }
    }
}

/// Whether `s` breaks off inside the fixed text `p` that is due at `at`: what
/// is left of `s` is a beginning of `p`, but not all of it.
pub open spec fn breaks_in(s: Seq<u8>, at: int, p: Seq<u8>) -> bool {
    0 <= at <= s.len() && s.len() - at < p.len() && s.skip(at) == p.take(s.len() - at)
}

/// Whether `s` breaks off inside the string literal that is due at `at`:
/// nothing is left of `s`, or a literal opens that does not close and that
/// reads as one that ended too early.
pub open spec fn breaks_in_literal(s: Seq<u8>, at: int) -> bool {
    0 <= at <= s.len() && (at == s.len() || (s[at] == QUOTE && literal_end(s, at) is None
        && json_reading(s.skip(at)) == Err::<Seq<char>, bool>(true)))
}

/// Whether `s` is a beginning of the line of a record `head`, literal,
/// `tail` that breaks off before the line feed.
pub open spec fn cut_single(s: Seq<u8>, head: Seq<u8>, tail: Seq<u8>) -> bool {
    if breaks_in(s, 0, head) {
        true
    } else if !has_at(s, 0, head) {
        false
    } else if breaks_in_literal(s, head.len() as int) {
        true
    } else {
        match field_at(s, head.len() as int) {
            Some((text, end)) => breaks_in(s, end, tail + seq![LINE_FEED]),
            None => false,
        }
    }
}

/// Whether `s` is a beginning of the line of a record `head`, literal, `sep`,
/// literal, `tail` that breaks off before the line feed.
pub open spec fn cut_pair(s: Seq<u8>, head: Seq<u8>, sep: Seq<u8>, tail: Seq<u8>) -> bool {
    if breaks_in(s, 0, head) {
        true
    } else if !has_at(s, 0, head) {
        false
    } else if breaks_in_literal(s, head.len() as int) {
        true
    } else {
        match field_at(s, head.len() as int) {
            Some((first, mid)) => if breaks_in(s, mid, sep) {
                true
            } else if !has_at(s, mid, sep) {
                false
            } else if breaks_in_literal(s, mid + sep.len()) {
                true
            } else {
                match field_at(s, mid + sep.len()) {
                    Some((second, end)) => breaks_in(s, end, tail + seq![LINE_FEED]),
                    None => false,
                }
            },
            None => false,
        }
    }
}

/// The bytes of the record `head`, literal of `text`, `tail`, where the
/// string can be written.
pub open spec fn single_bytes(head: Seq<u8>, text: Seq<char>, tail: Seq<u8>) -> Option<Seq<u8>> {
    match json_literal(text) {
        Some(literal) => Some(head + literal + tail),
        None => None,
    }
}

/// The bytes of the record `head`, literal of `first`, `sep`, literal of
/// `second`, `tail`, where the strings can be written.
pub open spec fn pair_bytes(
    head: Seq<u8>,
    first: Seq<char>,
    sep: Seq<u8>,
    second: Seq<char>,
    tail: Seq<u8>,
) -> Option<Seq<u8>> {
    match (json_literal(first), json_literal(second)) {
        (Some(one), Some(two)) => Some(head + one + sep + two + tail),
        _ => None,
    }
}

/// A failure to write or read a record, with the given text.
pub fn codec_error(text: &str) -> (e: KvsError)
    ensures
        e.repr() matches Repr::Codec(m) && m@ == text@,
{
    KvsError::new(Repr::Codec(text.to_owned()))
}

/// Appends the bytes of `part` to `out`.
pub fn append_bytes(out: &mut Vec<u8>, part: &[u8])
    ensures
        final(out)@ == old(out)@ + part@,
{
    let mut i: usize = 0;
    while i < part.len()
        invariant
            i <= part.len(),
            out@ == old(out)@ + part@.subrange(0, i as int),
        decreases part.len() - i,
    {
        out.push(part[i]);
        i += 1;
        assert(part@.subrange(0, i as int) == part@.subrange(0, i - 1).push(part@[i - 1]));
    }
    assert(part@.subrange(0, part@.len() as int) == part@);
}

/// Whether no line feed occurs in `s`.
pub fn is_unbroken(s: &[u8]) -> (r: bool)
    ensures
        r == unbroken(s@),
{
    let mut i: usize = 0;
    while i < s.len()
        invariant
            i <= s.len(),
            forall|j: int| 0 <= j < i ==> s@[j] != LINE_FEED,
        decreases s.len() - i,
    {
        if s[i] == LINE_FEED {
            return false;
        }
        i += 1;
    }
    true
}

/// Whether the bytes `p` stand in `s` at position `at`.
pub fn stands_at(s: &[u8], at: usize, p: &[u8]) -> (r: bool)
    ensures
        r == has_at(s@, at as int, p@),
{
    if at > s.len() || p.len() > s.len() - at {
        return false;
    }
    let mut i: usize = 0;
    while i < p.len()
        invariant
            i <= p.len(),
            at + p.len() <= s.len(),
            forall|j: int| 0 <= j < i ==> s@[at + j] == p@[j],
        decreases p.len() - i,
    {
        if s[at + i] != p[i] {
            assert(s@.subrange(at as int, at + p.len())[i as int] != p@[i as int]);
            return false;
        }
        i += 1;
    }
    assert(s@.subrange(at as int, at + p.len()) =~= p@);
    true
}

/// Whether `s` holds, from `at` on, exactly the bytes `p`.
pub fn ends_with(s: &[u8], at: usize, p: &[u8]) -> (r: bool)
    ensures
        r == (at <= s.len() && s@.skip(at as int) == p@),
{
    if at > s.len() || s.len() - at != p.len() {
        return false;
    }
    let r = stands_at(s, at, p);
    assert(s@.skip(at as int) =~= s@.subrange(at as int, at + p.len()));
    r
}

/// Finds the end of the string literal that opens at `from`.
pub fn find_literal_end(s: &[u8], from: usize) -> (r: Option<usize>)
    ensures
        match r {
            Some(end) => literal_end(s@, from as int) == Some(end as int) && from < end <= s.len(),
            None => literal_end(s@, from as int) is None,
        },
{
    if from >= s.len() || s[from] != QUOTE {
        return None;
    }
    let mut at: usize = from + 1;
    while at < s.len()
        invariant
            from < at <= s.len(),
            scan_literal(s@, at as int) == literal_end(s@, from as int),
        decreases s.len() - at,
    {
        let c = s[at];
        if c == QUOTE {
            return Some(at + 1);
        }
        at += 1;
        if c == BACKSLASH {
            if at < s.len() {
                at += 1;
            } else {
                return None;
            }
        }
    }
    None
}

/// Reads the string whose literal opens at `from`.
pub fn read_field(s: &[u8], from: usize) -> (r: Result<(String, usize), KvsError>)
    ensures
        match r {
            Ok((text, end)) => field_at(s@, from as int) == Some((text@, end as int)) && end
                <= s.len(),
            Err(e) => field_at(s@, from as int) is None && e.repr() is Codec,
        },
{
    match find_literal_end(s, from) {
        None => Err(codec_error("a string is expected")),
        Some(end) => {
            let literal = slice_subrange(s, from, end);
            match unquote(literal) {
                Ok(text) => Ok((text, end)),
                Err(_) => Err(codec_error("a string is not a JSON string")),
            }
        },
    }
}

/// Reads a record `head`, literal, `tail`.
pub fn read_single(s: &[u8], head: &[u8], tail: &[u8]) -> (r: Result<String, KvsError>)
    ensures
        match r {
            Ok(text) => single_of(s@, head@, tail@) == Some(text@),
            Err(e) => single_of(s@, head@, tail@) is None && e.repr() is Codec,
        },
{
    if !stands_at(s, 0, head) {
        return Err(codec_error("the record does not open as expected"));
    }
    let (text, end) = read_field(s, head.len())?;
    if !ends_with(s, end, tail) {
        return Err(codec_error("the record does not close as expected"));
    }
    Ok(text)
}

/// Reads a record `head`, literal, `sep`, literal, `tail`.
pub fn read_pair(s: &[u8], head: &[u8], sep: &[u8], tail: &[u8]) -> (r: Result<
    (String, String),
    KvsError,
>)
    ensures
        match r {
            Ok((first, second)) => pair_of(s@, head@, sep@, tail@) == Some((first@, second@)),
            Err(e) => pair_of(s@, head@, sep@, tail@) is None && e.repr() is Codec,
        },
{
    if !stands_at(s, 0, head) {
        return Err(codec_error("the record does not open as expected"));
    }
    let (first, mid) = read_field(s, head.len())?;
    if !stands_at(s, mid, sep) {
        return Err(codec_error("a second field is expected"));
    }
    let (second, end) = read_field(s, mid + sep.len())?;
    if !ends_with(s, end, tail) {
        return Err(codec_error("the record does not close as expected"));
    }
    Ok((first, second))
}

/// Whether `s` breaks off inside the fixed text `p` that is due at `at`.
pub fn is_broken_in(s: &[u8], at: usize, p: &[u8]) -> (r: bool)
    ensures
        r == breaks_in(s@, at as int, p@),
{
    if at > s.len() || s.len() - at >= p.len() {
        return false;
    }
    let left = s.len() - at;
    let mut i: usize = 0;
    while i < left
        invariant
            i <= left,
            left == s.len() - at,
            left < p.len(),
            forall|j: int| 0 <= j < i ==> s@[at + j] == p@[j],
        decreases left - i,
    {
        if s[at + i] != p[i] {
            assert(s@.skip(at as int)[i as int] != p@.take(left as int)[i as int]);
            return false;
        }
        i += 1;
    }
    assert(s@.skip(at as int) =~= p@.take(left as int));
    true
}

/// Whether `s` breaks off inside the string literal that is due at `at`.
pub fn is_broken_in_literal(s: &[u8], at: usize) -> (r: bool)
    ensures
        r == breaks_in_literal(s@, at as int),
{
    if at > s.len() {
        return false;
    }
    if at == s.len() {
        return true;
    }
    if s[at] != QUOTE {
        return false;
    }
    match find_literal_end(s, at) {
        Some(_) => false,
        None => {
            let rest = slice_subrange(s, at, s.len());
            assert(rest@ =~= s@.skip(at as int));
            match unquote(rest) {
                Ok(_) => false,
                Err(cut) => cut,
            }
        },
    }
}

/// Whether `s` is a beginning of the line of a record `head`, literal,
/// `tail` that breaks off before the line feed.
pub fn is_cut_single(s: &[u8], head: &[u8], tail: &[u8]) -> (r: bool)
    ensures
        r == cut_single(s@, head@, tail@),
{
    if is_broken_in(s, 0, head) {
        return true;
    }
    if !stands_at(s, 0, head) {
        return false;
    }
    if is_broken_in_literal(s, head.len()) {
        return true;
    }
    match read_field(s, head.len()) {
        Err(_) => false,
        Ok((_, end)) => {
            let mut close: Vec<u8> = Vec::new();
            append_bytes(&mut close, tail);
            close.push(LINE_FEED);
            assert(close@ =~= tail@ + seq![LINE_FEED]);
            is_broken_in(s, end, close.as_slice())
        },
    }
}

/// Whether `s` is a beginning of the line of a record `head`, literal, `sep`,
/// literal, `tail` that breaks off before the line feed.
pub fn is_cut_pair(s: &[u8], head: &[u8], sep: &[u8], tail: &[u8]) -> (r: bool)
    ensures
        r == cut_pair(s@, head@, sep@, tail@),
{
    if is_broken_in(s, 0, head) {
        return true;
    }
    if !stands_at(s, 0, head) {
        return false;
    }
    if is_broken_in_literal(s, head.len()) {
        return true;
    }
    match read_field(s, head.len()) {
        Err(_) => false,
        Ok((_, mid)) => {
            if is_broken_in(s, mid, sep) {
                return true;
            }
            if !stands_at(s, mid, sep) {
                return false;
            }
            if is_broken_in_literal(s, mid + sep.len()) {
                return true;
            }
            match read_field(s, mid + sep.len()) {
                Err(_) => false,
                Ok((_, end)) => {
                    let mut close: Vec<u8> = Vec::new();
                    append_bytes(&mut close, tail);
                    close.push(LINE_FEED);
                    assert(close@ =~= tail@ + seq![LINE_FEED]);
                    is_broken_in(s, end, close.as_slice())
                },
            }
        },
    }
}

/// Puts a record together from its fixed text and one string literal.
pub fn assemble_single(head: &[u8], literal: &[u8], tail: &[u8]) -> (line: Vec<u8>)
    ensures
        line@ == head@ + literal@ + tail@,
{
    let mut line: Vec<u8> = Vec::new();
    append_bytes(&mut line, head);
    append_bytes(&mut line, literal);
    append_bytes(&mut line, tail);
    assert(line@ =~= head@ + literal@ + tail@);
    line
}

/// Puts a record together from its fixed text and two string literals.
pub fn assemble_pair(head: &[u8], first: &[u8], sep: &[u8], second: &[u8], tail: &[u8]) -> (line:
    Vec<u8>)
    ensures
        line@ == head@ + first@ + sep@ + second@ + tail@,
{
    let mut line: Vec<u8> = Vec::new();
    append_bytes(&mut line, head);
    append_bytes(&mut line, first);
    append_bytes(&mut line, sep);
    append_bytes(&mut line, second);
    append_bytes(&mut line, tail);
    assert(line@ =~= head@ + first@ + sep@ + second@ + tail@);
    line
}

/// Writes the record `head`, literal of `text`, `tail`. Fails where the
/// string cannot be written.
pub fn write_single(head: &[u8], text: &String, tail: &[u8]) -> (r: Result<Vec<u8>, KvsError>)
    ensures
        match r {
            Ok(line) => single_bytes(head@, text@, tail@) == Some(line@),
            Err(e) => single_bytes(head@, text@, tail@) is None && e.repr() is Codec,
        },
{
    match quote(text.as_str()) {
        Err(_) => Err(codec_error("a string cannot be written as JSON")),
        Ok(literal) => Ok(assemble_single(head, literal.as_slice(), tail)),
    }
}

/// Writes the record `head`, literal of `first`, `sep`, literal of `second`,
/// `tail`. Fails where a string cannot be written.
pub fn write_pair(head: &[u8], first: &String, sep: &[u8], second: &String, tail: &[u8]) -> (r:
    Result<Vec<u8>, KvsError>)
    ensures
        match r {
            Ok(line) => pair_bytes(head@, first@, sep@, second@, tail@) == Some(line@),
            Err(e) => pair_bytes(head@, first@, sep@, second@, tail@) is None && e.repr() is Codec,
        },
{
    match quote(first.as_str()) {
        Err(_) => Err(codec_error("a string cannot be written as JSON")),
        Ok(one) => match quote(second.as_str()) {
            Err(_) => Err(codec_error("a string cannot be written as JSON")),
            Ok(two) => Ok(assemble_pair(head, one.as_slice(), sep, two.as_slice(), tail)),
        },
    }
}

} // verus!
