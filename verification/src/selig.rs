use vstd::prelude::*;
use vstd::string::*;
use crate::ascii::{is_digit, is_sign, is_space};
use crate::error::GeometryError;

verus! {

/// A run of bytes of the text: from `start` up to, not including, `end`.
#[derive(Debug, Clone, Copy, PartialEq, Eq, Structural)]
pub struct Span {
    pub start: usize,
    pub end: usize,
}

/// The two number tokens of one coordinate line.
#[derive(Debug, Clone, Copy, PartialEq, Eq, Structural)]
pub struct CoordinateLine {
    pub x: Span,
    pub y: Span,
}

/// Where the parts of a coordinate text in the Selig layout stand.
#[derive(Debug)]
pub struct SeligLayout {
    /// The airfoil's name: the first two tokens of the first line, joined
    /// with nothing between them.
    pub name: Vec<u8>,
    /// One entry for each line after the first, in the order of the text.
    pub rows: Vec<CoordinateLine>,
}

/// The first position in `[p, hi)` whose byte is a separator (`space`) or is
/// none (`!space`); `hi` if there is no such position.
pub open spec fn seek(b: Seq<u8>, p: int, hi: int, space: bool) -> int
    decreases hi - p,
{
    if p >= hi {
        hi
    } else if is_space(b[p]) == space {
        p
    } else {
        seek(b, p + 1, hi, space)
    }
}

/// The position of the first line feed at or after `p`; the text's length if
/// there is none.
pub open spec fn line_end(b: Seq<u8>, p: int) -> int
    decreases b.len() - p,
{
    if p >= b.len() {
        b.len() as int
    } else if b[p] == 0x0a {
        p
    } else {
        line_end(b, p + 1)
    }
}

/// Where line `k` starts, lines counted from 0: one past the line feed that
/// ends the line before.
pub open spec fn line_start(b: Seq<u8>, k: int) -> int
    decreases k,
{
    if k <= 0 {
        0
    } else {
        line_end(b, line_start(b, k - 1)) + 1
    }
}

/// The text has a line `k`. Line 0 is the name line, which is looked for even
/// in an empty text; a later line exists when it starts inside the text.
pub open spec fn has_line(b: Seq<u8>, k: int) -> bool {
    k == 0 || (k > 0 && line_start(b, k) < b.len())
}

/// Start of the first token at or after `p` on the line that ends at `hi`
/// (`hi` when there is none).
pub open spec fn token_start(b: Seq<u8>, p: int, hi: int) -> int {
    seek(b, p, hi, false)
}

/// End of that token.
pub open spec fn token_end(b: Seq<u8>, p: int, hi: int) -> int {
    seek(b, token_start(b, p, hi), hi, true)
}

/// The line from `p` to `hi` holds at least two tokens.
pub open spec fn two_tokens(b: Seq<u8>, p: int, hi: int) -> bool {
    token_start(b, token_end(b, p, hi), hi) < hi
}

/// The line from `p` to `hi` holds two tokens and nothing after them.
pub open spec fn just_two_tokens(b: Seq<u8>, p: int, hi: int) -> bool {
    two_tokens(b, p, hi) && token_start(b, token_end(b, token_end(b, p, hi), hi), hi) == hi
}

/// The first position in `[p, hi)` whose byte is no digit; `hi` if all are.
pub open spec fn digits_end(b: Seq<u8>, p: int, hi: int) -> int
    decreases hi - p,
{
    if p >= hi {
        hi
    } else if !is_digit(b[p]) {
        p
    } else {
        digits_end(b, p + 1, hi)
    }
}

/// One past an optional sign at `p`.
pub open spec fn after_sign(b: Seq<u8>, p: int, hi: int) -> int {
    if p < hi && is_sign(b[p]) {
        p + 1
    } else {
        p
    }
}

/// One past the fraction that may follow the integer digits ending at `p`: a
/// point and the digits behind it.
pub open spec fn after_fraction(b: Seq<u8>, p: int, hi: int) -> int {
    if p < hi && b[p] == 0x2e {
        digits_end(b, p + 1, hi)
    } else {
        p
    }
}

/// The bytes from `s` to `e` spell a decimal number: an optional sign;
/// digits, with a point before, among or after them, at least one digit in
/// all; and optionally an exponent: `e` or `E`, an optional sign, and at
/// least one digit.
pub open spec fn is_number(b: Seq<u8>, s: int, e: int) -> bool {
    let int_start = after_sign(b, s, e);
    let int_end = digits_end(b, int_start, e);
    let mantissa_end = after_fraction(b, int_end, e);
    let has_point = mantissa_end > int_end;
    let n_digits = if has_point {
        mantissa_end - int_start - 1
    } else {
        int_end - int_start
    };
    let exp_start = after_sign(b, mantissa_end + 1, e);
    &&& n_digits > 0
    &&& mantissa_end < e ==> {
        &&& b[mantissa_end] == 0x65 || b[mantissa_end] == 0x45
        &&& exp_start < e
        &&& digits_end(b, exp_start, e) == e
    }
}

/// The line from `p` to `hi` is a coordinate line: two tokens, both numbers,
/// and nothing after them.
pub open spec fn coordinate_line(b: Seq<u8>, p: int, hi: int) -> bool {
    let x_end = token_end(b, p, hi);
    &&& just_two_tokens(b, p, hi)
    &&& is_number(b, token_start(b, p, hi), x_end)
    &&& is_number(b, token_start(b, x_end, hi), token_end(b, x_end, hi))
}

/// Line `k` is as the layout asks: a name line with two tokens or more, a
/// coordinate line with exactly two, both of them numbers.
pub open spec fn line_good(b: Seq<u8>, k: int) -> bool {
    let p = line_start(b, k);
    let hi = line_end(b, p);
    if k <= 0 {
        two_tokens(b, 0, hi)
    } else {
        coordinate_line(b, p, hi)
    }
}

/// Every line of the text is as the layout asks.
pub open spec fn well_laid_out(b: Seq<u8>) -> bool {
    forall|k: int| 0 <= k && has_line(b, k) ==> #[trigger] line_good(b, k)
}

/// The first token at or after `p` on the line that ends at `hi`.
pub open spec fn token_at(b: Seq<u8>, p: int, hi: int) -> Span {
    Span { start: token_start(b, p, hi) as usize, end: token_end(b, p, hi) as usize }
}

/// The two tokens of the coordinate line `k`.
pub open spec fn row_of(b: Seq<u8>, k: int) -> CoordinateLine {
    let p = line_start(b, k);
    let hi = line_end(b, p);
    CoordinateLine { x: token_at(b, p, hi), y: token_at(b, token_end(b, p, hi), hi) }
}

/// The name that the first line spells: its first two tokens, joined.
pub open spec fn name_of(b: Seq<u8>) -> Seq<u8> {
    let hi = line_end(b, 0);
    let head = token_at(b, 0, hi);
    let tail = token_at(b, head.end as int, hi);
    b.subrange(head.start as int, head.end as int) + b.subrange(
        tail.start as int,
        tail.end as int,
    )
}

/// The two tokens of a row stand in the text one after the other, neither of
/// them empty.
pub open spec fn row_in_order(row: CoordinateLine, len: int) -> bool {
    row.x.start < row.x.end <= row.y.start < row.y.end <= len
}

/// `seek` finds the first position of the wanted kind: it stays within
/// `[p, hi]`, everything it passes is of the other kind, and where it stops
/// short of `hi` the byte is of the wanted kind.
pub proof fn seek_is_first(b: Seq<u8>, p: int, hi: int, space: bool)
    requires
        0 <= p <= hi <= b.len(),
    ensures
        p <= seek(b, p, hi, space) <= hi,
        seek(b, p, hi, space) < hi ==> is_space(b[seek(b, p, hi, space)]) == space,
        forall|q: int| p <= q < seek(b, p, hi, space) ==> is_space(#[trigger] b[q]) != space,
    decreases hi - p,
{
    if p < hi && is_space(b[p]) != space {
        seek_is_first(b, p + 1, hi, space);
    }
}

/// A token is a whole run of bytes that are no separators: where there is one
/// at or after `p`, it is not empty, holds no separator, and is followed by
/// one or by the end of the line; and nothing but separators lies before it.
pub proof fn token_is_a_whole_run(b: Seq<u8>, p: int, hi: int)
    requires
        0 <= p <= hi <= b.len(),
    ensures
        p <= token_start(b, p, hi) <= token_end(b, p, hi) <= hi,
        token_start(b, p, hi) < hi ==> token_start(b, p, hi) < token_end(b, p, hi),
        token_end(b, p, hi) < hi ==> is_space(b[token_end(b, p, hi)]),
        forall|q: int| p <= q < token_start(b, p, hi) ==> is_space(#[trigger] b[q]),
        forall|q: int|
            token_start(b, p, hi) <= q < token_end(b, p, hi) ==> !is_space(#[trigger] b[q]),
{
    seek_is_first(b, p, hi, false);
    seek_is_first(b, token_start(b, p, hi), hi, true);
}

/// A line ends at the first line feed: `line_end` stays within the text, no
/// byte of the line is a line feed, and a line that ends inside the text ends
/// on one.
pub proof fn line_end_is_first(b: Seq<u8>, p: int)
    requires
        0 <= p <= b.len(),
    ensures
        p <= line_end(b, p) <= b.len(),
        line_end(b, p) < b.len() ==> b[line_end(b, p)] == 0x0a,
        forall|q: int| p <= q < line_end(b, p) ==> #[trigger] b[q] != 0x0a,
    decreases b.len() - p,
{
    if p < b.len() && b[p] != 0x0a {
        line_end_is_first(b, p + 1);
    }
}

/// Once a line starts beyond the text, so does every later one.
pub proof fn lines_run_out(b: Seq<u8>, k: int, later: int)
    requires
        1 <= k <= later,
        !has_line(b, k),
    ensures
        !has_line(b, later),
    decreases later - k,
{
    if k < later {
        assert(line_start(b, k + 1) == line_end(b, line_start(b, k)) + 1);
        lines_run_out(b, k + 1, later);
    }
}

fn seek_from(bytes: &[u8], p: usize, hi: usize, space: bool) -> (r: usize)
    requires
        p <= hi <= bytes@.len(),
    ensures
        r == seek(bytes@, p as int, hi as int, space),
        p <= r <= hi,
{
    let mut r: usize = p;
    while r < hi
        invariant
            p <= r <= hi <= bytes@.len(),
            seek(bytes@, p as int, hi as int, space) == seek(bytes@, r as int, hi as int, space),
        decreases hi - r,
    {
        let c: u8 = bytes[r];
        let sp: bool = c == 0x20 || (0x09 <= c && c <= 0x0d);
        if sp == space {
            return r;
        }
        r += 1;
    }
    r
}

fn find_line_end(bytes: &[u8], p: usize) -> (r: usize)
    requires
        p <= bytes@.len(),
    ensures
        r == line_end(bytes@, p as int),
        p <= r <= bytes@.len(),
{
    let len: usize = bytes.len();
    let mut r: usize = p;
    while r < len
        invariant
            len == bytes@.len(),
            p <= r <= len,
            line_end(bytes@, p as int) == line_end(bytes@, r as int),
        decreases len - r,
    {
        if bytes[r] == 0x0a {
            return r;
        }
        r += 1;
    }
    r
}

fn next_token(bytes: &[u8], p: usize, hi: usize) -> (t: Span)
    requires
        p <= hi <= bytes@.len(),
    ensures
        t == token_at(bytes@, p as int, hi as int),
        t.start == token_start(bytes@, p as int, hi as int),
        t.end == token_end(bytes@, p as int, hi as int),
        p <= t.start <= t.end <= hi,
{
    let start: usize = seek_from(bytes, p, hi, false);
    let end: usize = seek_from(bytes, start, hi, true);
    Span { start, end }
}

fn skip_digits(bytes: &[u8], p: usize, hi: usize) -> (r: usize)
    requires
        p <= hi <= bytes@.len(),
    ensures
        r == digits_end(bytes@, p as int, hi as int),
        p <= r <= hi,
{
    let mut r: usize = p;
    while r < hi
        invariant
            p <= r <= hi <= bytes@.len(),
            digits_end(bytes@, p as int, hi as int) == digits_end(bytes@, r as int, hi as int),
        decreases hi - r,
    {
        let c: u8 = bytes[r];
        if c < 0x30 || c > 0x39 {
            return r;
        }
        r += 1;
    }
    r
}

fn skip_sign(bytes: &[u8], p: usize, hi: usize) -> (r: usize)
    requires
        p <= hi <= bytes@.len(),
    ensures
        r == after_sign(bytes@, p as int, hi as int),
        p <= r <= hi,
{
    if p < hi && (bytes[p] == 0x2b || bytes[p] == 0x2d) {
        p + 1
    } else {
        p
    }
}

/// Whether the token spells a decimal number.
fn spells_number(bytes: &[u8], t: Span) -> (ok: bool)
    requires
        t.start <= t.end <= bytes@.len(),
    ensures
        ok == is_number(bytes@, t.start as int, t.end as int),
{
    let e: usize = t.end;
    let int_start: usize = skip_sign(bytes, t.start, e);
    let int_end: usize = skip_digits(bytes, int_start, e);
    let mut mantissa_end: usize = int_end;
    let mut n_digits: usize = int_end - int_start;
    if int_end < e && bytes[int_end] == 0x2e {
        mantissa_end = skip_digits(bytes, int_end + 1, e);
        n_digits = mantissa_end - int_start - 1;
    }
    if n_digits == 0 {
        return false;
    }
    if mantissa_end == e {
        return true;
    }
    if bytes[mantissa_end] != 0x65 && bytes[mantissa_end] != 0x45 {
        return false;
    }
    let exp_start: usize = skip_sign(bytes, mantissa_end + 1, e);
    if exp_start >= e {
        return false;
    }
    skip_digits(bytes, exp_start, e) == e
}

fn append_span(out: &mut Vec<u8>, bytes: &[u8], t: Span)
    requires
        t.start <= t.end <= bytes@.len(),
    ensures
        final(out)@ == old(out)@ + bytes@.subrange(t.start as int, t.end as int),
{
    let mut i: usize = t.start;
    while i < t.end
        invariant
            t.start <= i <= t.end <= bytes@.len(),
            out@ == old(out)@ + bytes@.subrange(t.start as int, i as int),
        decreases t.end - i,
    {
        out.push(bytes[i]);
        assert(bytes@.subrange(t.start as int, i + 1) == bytes@.subrange(
            t.start as int,
            i as int,
        ).push(bytes@[i as int]));
        i += 1;
    }
}

/// Lays out a coordinate text. The first line names the airfoil by its first
/// two tokens; each later line holds exactly two tokens, an abscissa and an
/// ordinate, both decimal numbers. The numbers are checked and located, not
/// evaluated. The first line that breaks the layout is reported, counted
/// from 1.
pub fn from_coordinates(raw_text: &str) -> (res: Result<SeligLayout, GeometryError>)
    ensures
        res.is_ok() <==> well_laid_out(raw_text.spec_bytes()),
        match res {
            Ok(layout) => {
                &&& layout.name@ == name_of(raw_text.spec_bytes())
                &&& has_line(raw_text.spec_bytes(), layout.rows@.len() as int)
                &&& !has_line(raw_text.spec_bytes(), layout.rows@.len() as int + 1)
                &&& forall|k: int|
                    0 <= k < layout.rows@.len() ==> #[trigger] layout.rows@[k] == row_of(
                        raw_text.spec_bytes(),
                        k + 1,
                    )
                &&& forall|k: int|
                    0 <= k < layout.rows@.len() ==> row_in_order(
                        #[trigger] layout.rows@[k],
                        raw_text.spec_bytes().len() as int,
                    )
            },
            Err(e) => {
                &&& e == (GeometryError::ParseError { line: e.line_of() })
                &&& e.line_of() >= 1
                &&& has_line(raw_text.spec_bytes(), e.line_of() - 1)
                &&& !line_good(raw_text.spec_bytes(), e.line_of() - 1)
                &&& forall|k: int|
                    0 <= k < e.line_of() - 1 ==> #[trigger] line_good(raw_text.spec_bytes(), k)
            },
        },
{
    let bytes = raw_text.as_bytes();
    let ghost b = bytes@;
    let len: usize = bytes.len();
    let mut hi: usize = find_line_end(bytes, 0);
    let head = next_token(bytes, 0, hi);
    let tail = next_token(bytes, head.end, hi);
    if tail.start >= hi {
        assert(line_start(b, 0) == 0);
        assert(has_line(b, 0) && !line_good(b, 0));
        return Err(GeometryError::ParseError { line: 1 });
    }
    let mut name: Vec<u8> = Vec::new();
    append_span(&mut name, bytes, head);
    append_span(&mut name, bytes, tail);
    let mut rows: Vec<CoordinateLine> = Vec::new();
    let mut k: usize = 0;
    while hi < len && hi + 1 < len
        invariant
            b == bytes@,
            b == raw_text.spec_bytes(),
            len == b.len(),
            k <= hi <= len,
            hi == line_end(b, line_start(b, k as int)),
            has_line(b, k as int),
            rows@.len() == k,
            forall|q: int| 0 <= q <= k ==> #[trigger] line_good(b, q),
            forall|q: int| 0 <= q < k ==> #[trigger] rows@[q] == row_of(b, q + 1),
            forall|q: int| 0 <= q < k ==> row_in_order(#[trigger] rows@[q], len as int),
        decreases len - hi,
    {
        let p: usize = hi + 1;
        assert(p == line_start(b, k + 1));
        hi = find_line_end(bytes, p);
        let x = next_token(bytes, p, hi);
        let y = next_token(bytes, x.end, hi);
        let rest: usize = seek_from(bytes, y.end, hi, false);
        if y.start >= hi || rest < hi || !spells_number(bytes, x) || !spells_number(bytes, y) {
            assert(has_line(b, k + 1) && !line_good(b, k + 1));
            return Err(GeometryError::ParseError { line: k + 2 });
        }
        proof {
            token_is_a_whole_run(b, p as int, hi as int);
            token_is_a_whole_run(b, x.end as int, hi as int);
        }
        rows.push(CoordinateLine { x, y });
        k += 1;
    }
    proof {
        assert(line_start(b, k + 1) == hi + 1);
        assert(!has_line(b, k + 1));
        assert forall|q: int| 0 <= q && has_line(b, q) implies #[trigger] line_good(b, q) by {
            if q > k {
                lines_run_out(b, k + 1, q);
            }
        }
    }
    Ok(SeligLayout { name, rows })
}

} // verus!
