//! The text forms of a program: the tab-separated assembly lines that the
//! assembler reads, and the listing lines that the converter turns into them.
//!
//! An assembly line holds up to five fields separated by tabs: an optional
//! hexadecimal offset (ending in `:`), the condition flags' name, the sign
//! (`+` or `-`), the operation, and an optional hexadecimal literal word.
//! Lines whose first non-blank character is `#` are comments.
use crate::isa::{flags_from_name, str_equal, CmpFlags, InstVariant, Instruction};
use vstd::prelude::*;

verus! {

/// Whether `c` is white space, as Unicode's White_Space property has it.
pub open spec fn is_white(c: char) -> bool {
    let v = c as u32;
    ||| 9 <= v <= 13
    ||| v == 32
    ||| v == 0x85
    ||| v == 0xA0
    ||| v == 0x1680
    ||| 0x2000 <= v <= 0x200A
    ||| v == 0x2028
    ||| v == 0x2029
    ||| v == 0x202F
    ||| v == 0x205F
    ||| v == 0x3000
}

/// `s` without its leading white space.
pub open spec fn trim_start(s: Seq<char>) -> Seq<char>
    decreases s.len(),
{
    if s.len() > 0 && is_white(s[0]) {
        trim_start(s.drop_first())
    } else {
        s
    }
}

/// `s` without its trailing white space.
pub open spec fn trim_end(s: Seq<char>) -> Seq<char>
    decreases s.len(),
{
    if s.len() > 0 && is_white(s.last()) {
        trim_end(s.drop_last())
    } else {
        s
    }
}

/// `s` without white space at either end.
pub open spec fn trim(s: Seq<char>) -> Seq<char> {
    trim_end(trim_start(s))
}

/// `s` without the copies of `c` at its end.
pub open spec fn trim_end_char(s: Seq<char>, c: char) -> Seq<char>
    decreases s.len(),
{
    if s.len() > 0 && s.last() == c {
        trim_end_char(s.drop_last(), c)
    } else {
        s
    }
}

/// Trimming the start drops exactly the leading white space: the result is
/// a suffix of `s`, whatever was dropped is white, and the result does not
/// start with white space.
pub proof fn lemma_trim_start(s: Seq<char>)
    ensures
        trim_start(s).len() <= s.len(),
        trim_start(s) == s.skip(s.len() - trim_start(s).len()),
        forall|j: int| 0 <= j < s.len() - trim_start(s).len() ==> #[trigger] is_white(s[j]),
        trim_start(s).len() > 0 ==> !is_white(trim_start(s)[0]),
    decreases s.len(),
{
    if s.len() > 0 && is_white(s[0]) {
        lemma_trim_start(s.drop_first());
        let t = trim_start(s.drop_first());
        assert(s.drop_first().skip(s.len() - 1 - t.len()) =~= s.skip(s.len() - t.len()));
        assert forall|j: int| 0 <= j < s.len() - t.len() implies #[trigger] is_white(s[j]) by {
            if j > 0 {
                assert(s[j] == s.drop_first()[j - 1]);
            }
        }
    } else {
        assert(s.skip(0) =~= s);
    }
}

/// Trimming the end drops exactly the trailing white space: the result is
/// a prefix of `s`, whatever was dropped is white, and the result does not
/// end with white space.
pub proof fn lemma_trim_end(s: Seq<char>)
    ensures
        trim_end(s).len() <= s.len(),
        trim_end(s) == s.take(trim_end(s).len() as int),
        forall|j: int| trim_end(s).len() <= j < s.len() ==> #[trigger] is_white(s[j]),
        trim_end(s).len() > 0 ==> !is_white(trim_end(s).last()),
    decreases s.len(),
{
    if s.len() > 0 && is_white(s.last()) {
        lemma_trim_end(s.drop_last());
        let t = trim_end(s.drop_last());
        assert(s.drop_last().take(t.len() as int) =~= s.take(t.len() as int));
        assert forall|j: int| t.len() <= j < s.len() implies #[trigger] is_white(s[j]) by {
            if j < s.len() - 1 {
                assert(s[j] == s.drop_last()[j]);
            }
        }
    } else {
        assert(s.take(s.len() as int) =~= s);
    }
}

/// Whether `s` begins with `p`.
pub open spec fn begins_with(s: Seq<char>, p: Seq<char>) -> bool {
    p.len() <= s.len() && s.take(p.len() as int) == p
}

/// `s` without the copies of `p` at its start.
pub open spec fn strip_prefixes(s: Seq<char>, p: Seq<char>) -> Seq<char>
    decreases s.len(),
{
    if p.len() > 0 && begins_with(s, p) {
        strip_prefixes(s.skip(p.len() as int), p)
    } else {
        s
    }
}

/// Why a hexadecimal number could not be read.
#[derive(Clone, Copy, Debug, PartialEq, Eq, Structural)]
pub enum HexError {
    /// there was no text
    Empty,
    /// a character is no hexadecimal digit
    InvalidDigit,
    /// the number does not fit in 32 bits
    Overflow,
}

/// The value of a hexadecimal digit.
pub open spec fn hex_digit(c: char) -> Option<u32> {
    let v = c as u32;
    if 48 <= v <= 57 {
        Some((v - 48) as u32)
    } else if 97 <= v <= 102 {
        Some((v - 87) as u32)
    } else if 65 <= v <= 70 {
        Some((v - 55) as u32)
    } else {
        None
    }
}

/// Reads the digits of `s` from `i` on, with `acc` the value read so far;
/// fails at the first character that is no digit or that makes the value
/// pass 32 bits.
pub open spec fn hex_digits_from(s: Seq<char>, i: int, acc: u32) -> Result<u32, HexError>
    decreases s.len() - i,
{
    if i < 0 || i >= s.len() {
        Ok(acc)
    } else {
        match hex_digit(s[i]) {
            None => Err(HexError::InvalidDigit),
            Some(d) => if acc * 16 + d > u32::MAX {
                Err(HexError::Overflow)
            } else {
                hex_digits_from(s, i + 1, (acc * 16 + d) as u32)
            },
        }
    }
}

/// The 32-bit number that `s` writes in hexadecimal: an optional `+`, then
/// at least one digit, in either case.
pub open spec fn spec_parse_hex(s: Seq<char>) -> Result<u32, HexError> {
    if s.len() == 0 {
        Err(HexError::Empty)
    } else if s[0] == '+' {
        if s.len() == 1 {
            Err(HexError::InvalidDigit)
        } else {
            hex_digits_from(s, 1, 0)
        }
    } else {
        hex_digits_from(s, 0, 0)
    }
}

/// Whether `c` is white space.
fn white(c: char) -> (r: bool)
    ensures
        r == is_white(c),
{
    let v = c as u32;
    (9 <= v && v <= 13) || v == 32 || v == 0x85 || v == 0xA0 || v == 0x1680 || (0x2000 <= v && v
        <= 0x200A) || v == 0x2028 || v == 0x2029 || v == 0x202F || v == 0x205F || v == 0x3000
}

/// The value of a hexadecimal digit.
fn digit_value(c: char) -> (r: Option<u32>)
    ensures
        r == hex_digit(c),
{
    let v = c as u32;
    if 48 <= v && v <= 57 {
        Some(v - 48)
    } else if 97 <= v && v <= 102 {
        Some(v - 87)
    } else if 65 <= v && v <= 70 {
        Some(v - 55)
    } else {
        None
    }
}

/// Reads a 32-bit hexadecimal number: an optional `+`, then at least one
/// digit; fails on an empty text, on a character that is no digit, and on a
/// number that does not fit in 32 bits, whichever comes first.
pub fn parse_hex(text: &str) -> (r: Result<u32, HexError>)
    ensures
        r == spec_parse_hex(text@),
{
    let ghost s = text@;
    let n: usize = text.unicode_len();
    if n == 0 {
        return Err(HexError::Empty);
    }
    let mut i: usize = 0;
    if text.get_char(0) == '+' {
        if n == 1 {
            return Err(HexError::InvalidDigit);
        }
        i = 1;
    }
    let mut acc: u32 = 0;
    while i < n
        invariant
            n == s.len(),
            s == text@,
            1 <= n,
            i <= n,
            spec_parse_hex(s) == hex_digits_from(s, i as int, acc),
        decreases n - i,
    {
        let c = text.get_char(i);
        match digit_value(c) {
            None => {
                return Err(HexError::InvalidDigit);
            },
            Some(d) => {
                if acc > 0x0FFF_FFFF {
                    return Err(HexError::Overflow);
                }
                acc = acc * 16 + d;
            },
        }
        i = i + 1;
    }
    Ok(acc)
}

/// `text` without white space at either end.
pub fn trim_white<'a>(text: &'a str) -> (r: &'a str)
    ensures
        r@ == trim(text@),
{
    let ghost s = text@;
    let n: usize = text.unicode_len();
    let mut a: usize = 0;
    assert(s.subrange(0, n as int) =~= s);
    while a < n
        invariant
            n == s.len(),
            s == text@,
            a <= n,
            trim_start(s) == trim_start(s.subrange(a as int, n as int)),
        ensures
            a == n || !is_white(s[a as int]),
        decreases n - a,
    {
        if !white(text.get_char(a)) {
            break;
        }
        proof {
            assert(s.subrange(a as int, n as int).drop_first() =~= s.subrange(a + 1, n as int));
        }
        a = a + 1;
    }
    assert(trim_start(s.subrange(a as int, n as int)) == s.subrange(a as int, n as int));
    let mut b: usize = n;
    while b > a
        invariant
            n == s.len(),
            s == text@,
            a <= b <= n,
            trim(s) == trim_end(s.subrange(a as int, b as int)),
        ensures
            b == a || !is_white(s[b - 1]),
        decreases b - a,
    {
        if !white(text.get_char(b - 1)) {
            break;
        }
        proof {
            assert(s.subrange(a as int, b as int).drop_last() =~= s.subrange(a as int, b - 1));
        }
        b = b - 1;
    }
    assert(trim_end(s.subrange(a as int, b as int)) == s.subrange(a as int, b as int));
    text.substring_char(a, b)
}

/// `text` without the copies of `c` at its end.
pub fn trim_end_copies<'a>(text: &'a str, c: char) -> (r: &'a str)
    ensures
        r@ == trim_end_char(text@, c),
{
    let ghost s = text@;
    let n: usize = text.unicode_len();
    let mut b: usize = n;
    assert(s.subrange(0, n as int) =~= s);
    while b > 0
        invariant
            n == s.len(),
            s == text@,
            b <= n,
            trim_end_char(s, c) == trim_end_char(s.subrange(0, b as int), c),
        ensures
            b == 0 || s[b - 1] != c,
        decreases b,
    {
        if text.get_char(b - 1) != c {
            break;
        }
        proof {
            assert(s.subrange(0, b as int).drop_last() =~= s.subrange(0, b - 1));
        }
        b = b - 1;
    }
    assert(s.subrange(0, n as int) =~= s);
    assert(trim_end_char(s.subrange(0, b as int), c) == s.subrange(0, b as int));
    text.substring_char(0, b)
}

/// Whether the characters of `text` from `at` on begin with `p`.
fn begins_at(text: &str, at: usize, p: &str) -> (r: bool)
    requires
        at <= text@.len(),
    ensures
        r == begins_with(text@.subrange(at as int, text@.len() as int), p@),
{
    let ghost t = text@.subrange(at as int, text@.len() as int);
    let n: usize = text.unicode_len();
    let m: usize = p.unicode_len();
    if m > n - at {
        return false;
    }
    let mut j: usize = 0;
    while j < m
        invariant
            n == text@.len(),
            m == p@.len(),
            at + m <= n,
            j <= m,
            t == text@.subrange(at as int, n as int),
            forall|k: int| 0 <= k < j ==> t[k] == p@[k],
        decreases m - j,
    {
        if text.get_char(at + j) != p.get_char(j) {
            assert(t.take(m as int)[j as int] != p@[j as int]);
            return false;
        }
        j = j + 1;
    }
    assert(t.take(m as int) =~= p@);
    true
}

/// `text` without the copies of the non-empty `p` at its start.
pub fn strip_leading<'a>(text: &'a str, p: &str) -> (r: &'a str)
    requires
        p@.len() > 0,
    ensures
        r@ == strip_prefixes(text@, p@),
{
    let ghost s = text@;
    let n: usize = text.unicode_len();
    let m: usize = p.unicode_len();
    let mut a: usize = 0;
    assert(s.subrange(0, n as int) =~= s);
    while a < n
        invariant
            n == s.len(),
            s == text@,
            m == p@.len(),
            m > 0,
            a <= n,
            strip_prefixes(s, p@) == strip_prefixes(s.subrange(a as int, n as int), p@),
        ensures
            a <= n,
            strip_prefixes(s, p@) == strip_prefixes(s.subrange(a as int, n as int), p@),
            !begins_with(s.subrange(a as int, n as int), p@),
        decreases n - a,
    {
        if !begins_at(text, a, p) {
            break;
        }
        proof {
            assert(s.subrange(a as int, n as int).skip(m as int) =~= s.subrange(a + m, n as int));
        }
        a = a + m;
    }
    assert(strip_prefixes(s.subrange(a as int, n as int), p@) == s.subrange(a as int, n as int));
    text.substring_char(a, n)
}

/// The tab-separated fields of `s`, in order; there is always at least one.
pub open spec fn split_tabs(s: Seq<char>) -> Seq<Seq<char>>
    decreases s.len(),
{
    if s.len() == 0 {
        seq![Seq::<char>::empty()]
    } else {
        let rest = split_tabs(s.drop_last());
        if s.last() == '\t' {
            rest.push(Seq::<char>::empty())
        } else {
            rest.update(rest.len() - 1, rest.last().push(s.last()))
        }
    }
}

/// There is always at least one field.
pub proof fn lemma_split_tabs_len(s: Seq<char>)
    ensures
        split_tabs(s).len() >= 1,
    decreases s.len(),
{
    if s.len() > 0 {
        lemma_split_tabs_len(s.drop_last());
    }
}

/// The fields `fs` joined with a tab between each two.
pub open spec fn join_tabs(fs: Seq<Seq<char>>) -> Seq<char>
    decreases fs.len(),
{
    if fs.len() <= 1 {
        if fs.len() == 1 {
            fs[0]
        } else {
            Seq::empty()
        }
    } else {
        join_tabs(fs.drop_last()) + seq!['\t'] + fs.last()
    }
}

/// Splitting at tabs gives fields without a tab that, joined with tabs,
/// give the text back.
pub proof fn lemma_split_tabs_joins(s: Seq<char>)
    ensures
        join_tabs(split_tabs(s)) == s,
        forall|k: int, j: int|
            0 <= k < split_tabs(s).len() && 0 <= j < split_tabs(s)[k].len() ==> #[trigger] split_tabs(
                s,
            )[k][j] != '\t',
    decreases s.len(),
{
    lemma_split_tabs_len(s);
    if s.len() > 0 {
        let front = s.drop_last();
        let rest = split_tabs(front);
        lemma_split_tabs_joins(front);
        lemma_split_tabs_len(front);
        let c = s.last();
        if c == '\t' {
            let f = rest.push(Seq::<char>::empty());
            assert(f.drop_last() =~= rest);
            assert(join_tabs(f) =~= front + seq!['\t']);
            assert(front + seq!['\t'] =~= s);
        } else {
            let n = rest.len();
            let f = rest.update(n - 1, rest.last().push(c));
            if n == 1 {
                assert(join_tabs(f) == f[0]);
                assert(rest.last().push(c) =~= s);
            } else {
                assert(f.drop_last() =~= rest.drop_last());
                assert(join_tabs(rest) == join_tabs(rest.drop_last()) + seq!['\t'] + rest.last());
                assert(join_tabs(f) =~= join_tabs(rest) + seq![c]);
                assert(front + seq![c] =~= s);
            }
            assert forall|k: int, j: int|
                0 <= k < f.len() && 0 <= j < f[k].len() implies #[trigger] f[k][j] != '\t' by {
                if k == n - 1 && j == f[k].len() - 1 {
                } else if k == n - 1 {
                    assert(f[k][j] == rest[k][j]);
                } else {
                    assert(f[k] == rest[k]);
                }
            }
        }
    }
}

/// The tab-separated fields of `line`.
pub fn split_fields<'a>(line: &'a str) -> (r: Vec<&'a str>)
    ensures
        r@.len() == split_tabs(line@).len(),
        forall|k: int| 0 <= k < r@.len() ==> #[trigger] r@[k]@ == split_tabs(line@)[k],
{
    let ghost s = line@;
    let n: usize = line.unicode_len();
    let mut fields: Vec<&'a str> = Vec::new();
    let mut start: usize = 0;
    let mut i: usize = 0;
    assert(s.subrange(0, 0) =~= Seq::<char>::empty());
    while i < n
        invariant
            n == s.len(),
            s == line@,
            start <= i <= n,
            split_tabs(s.subrange(0, i as int)).len() == fields@.len() + 1,
            forall|k: int|
                0 <= k < fields@.len() ==> #[trigger] fields@[k]@ == split_tabs(
                    s.subrange(0, i as int),
                )[k],
            split_tabs(s.subrange(0, i as int))[fields@.len() as int] == s.subrange(
                start as int,
                i as int,
            ),
        decreases n - i,
    {
        let c = line.get_char(i);
        let ghost before = split_tabs(s.subrange(0, i as int));
        proof {
            let t = s.subrange(0, i + 1);
            assert(t.drop_last() =~= s.subrange(0, i as int));
            assert(t.last() == c);
            lemma_split_tabs_len(s.subrange(0, i as int));
        }
        if c == '\t' {
            let f = line.substring_char(start, i);
            fields.push(f);
            start = i + 1;
            proof {
                assert(s.subrange(start as int, start as int) =~= Seq::<char>::empty());
            }
        } else {
            proof {
                assert(s.subrange(start as int, i as int).push(c) =~= s.subrange(
                    start as int,
                    i + 1,
                ));
            }
        }
        i = i + 1;
    }
    let f = line.substring_char(start, n);
    fields.push(f);
    assert(s.subrange(0, n as int) =~= s);
    fields
}

/// Whether line `s` is a comment: its first non-blank character is `#`.
pub open spec fn is_comment(s: Seq<char>) -> bool {
    trim(s).len() > 0 && trim(s)[0] == '#'
}

/// Why a line cannot be assembled.
#[derive(Clone, Copy, Debug, PartialEq, Eq, Structural)]
pub enum LineError {
    /// the offset field is no hexadecimal number
    Offset(HexError),
    /// the offset lies before the write position: the position, then the offset
    OffsetBehind(u32, u32),
    /// the flags, sign and operation fields are neither all filled nor all empty
    InvalidLine,
    /// the flags field names no flag combination
    Flags,
    /// the sign field is neither `+` nor `-`
    Sign,
    /// the literal field is no hexadecimal number
    Literal(HexError),
}

/// The number of zero bytes that take the write position `index` to the
/// offset in field `f`; none when the field is empty.
pub open spec fn offset_pad(f: Seq<char>, index: u32) -> Result<u32, LineError> {
    if f.len() == 0 {
        Ok(0)
    } else {
        match spec_parse_hex(trim_end_char(trim(f), ':')) {
            Err(e) => Err(LineError::Offset(e)),
            Ok(v) => if index > v {
                Err(LineError::OffsetBehind(index, v))
            } else {
                Ok((v - index) as u32)
            },
        }
    }
}

/// The flags, sign and operation fields, when all three are filled; nothing
/// when all three are empty or the line has a single field.
pub open spec fn operation_fields(f: Seq<Seq<char>>) -> Result<
    Option<(Seq<char>, Seq<char>, Seq<char>)>,
    LineError,
> {
    if f.len() >= 4 {
        if f[1].len() > 0 && f[2].len() > 0 && f[3].len() > 0 {
            Ok(Some((f[1], f[2], f[3])))
        } else if f[1].len() == 0 && f[2].len() == 0 && f[3].len() == 0 {
            Ok(None)
        } else {
            Err(LineError::InvalidLine)
        }
    } else if f.len() == 1 {
        Ok(None)
    } else {
        Err(LineError::InvalidLine)
    }
}

/// The literal field, when it is there and filled.
pub open spec fn literal_field(f: Seq<Seq<char>>) -> Option<Seq<char>> {
    if f.len() >= 5 && f[4].len() > 0 {
        Some(f[4])
    } else {
        None
    }
}

/// What line `s` asks for when written at position `index`: nothing for a
/// comment; else the padding, then the operation fields or why they are
/// malformed, and the literal field. A bad offset fails the whole line.
pub open spec fn spec_plan(s: Seq<char>, index: u32) -> Result<
    Option<(u32, Result<Option<(Seq<char>, Seq<char>, Seq<char>)>, LineError>, Option<Seq<char>>)>,
    LineError,
> {
    if is_comment(s) {
        Ok(None)
    } else {
        let f = split_tabs(s);
        match offset_pad(f[0], index) {
            Err(e) => Err(e),
            Ok(pad) => Ok(Some((pad, operation_fields(f), literal_field(f)))),
        }
    }
}

/// The flags, sign and operation fields of a line.
pub struct OperationFields<'a> {
    pub flags: &'a str,
    pub sign: &'a str,
    pub operation: &'a str,
}

/// What a line asks the assembler to write.
pub enum LinePlan<'a> {
    /// a comment: nothing
    Comment,
    /// `pad` zero bytes, then the instruction of the operation fields, if
    /// any, then the literal word, if any; when the operation fields are
    /// malformed, the line fails after its padding
    Emit {
        pad: u32,
        operation: Result<Option<OperationFields<'a>>, LineError>,
        literal: Option<&'a str>,
    },
}

/// The characters of a plan.
pub open spec fn plan_view(p: LinePlan) -> Option<
    (u32, Result<Option<(Seq<char>, Seq<char>, Seq<char>)>, LineError>, Option<Seq<char>>),
> {
    match p {
        LinePlan::Comment => None,
        LinePlan::Emit { pad, operation, literal } => Some(
            (
                pad,
                match operation {
                    Ok(Some(o)) => Ok(Some((o.flags@, o.sign@, o.operation@))),
                    Ok(None) => Ok(None),
                    Err(e) => Err(e),
                },
                match literal {
                    Some(l) => Some(l@),
                    None => None,
                },
            ),
        ),
    }
}

/// Reads a line of assembly that is to be written at position `index`.
pub fn plan_line<'a>(line: &'a str, index: u32) -> (r: Result<LinePlan<'a>, LineError>)
    ensures
        match r {
            Ok(p) => spec_plan(line@, index) == Ok::<_, LineError>(plan_view(p)),
            Err(e) => spec_plan(line@, index) == Err::<
                Option<
                    (
                        u32,
                        Result<Option<(Seq<char>, Seq<char>, Seq<char>)>, LineError>,
                        Option<Seq<char>>,
                    ),
                >,
                LineError,
            >(e),
        },
{
    let t = trim_white(line);
    if t.unicode_len() > 0 && t.get_char(0) == '#' {
        return Ok(LinePlan::Comment);
    }
    let f = split_fields(line);
    proof {
        lemma_split_tabs_len(line@);
    }
    let first = f[0];
    let mut pad: u32 = 0;
    if first.unicode_len() > 0 {
        let digits = trim_end_copies(trim_white(first), ':');
        match parse_hex(digits) {
            Err(e) => {
                return Err(LineError::Offset(e));
            },
            Ok(v) => {
                if index > v {
                    return Err(LineError::OffsetBehind(index, v));
                }
                pad = v - index;
            },
        }
    }
    let k: usize = f.len();
    let operation = if k >= 4 {
        let a = f[1];
        let b = f[2];
        let c = f[3];
        let na: usize = a.unicode_len();
        let nb: usize = b.unicode_len();
        let nc: usize = c.unicode_len();
        if na > 0 && nb > 0 && nc > 0 {
            Ok(Some(OperationFields { flags: a, sign: b, operation: c }))
        } else if na == 0 && nb == 0 && nc == 0 {
            Ok(None)
        } else {
            Err(LineError::InvalidLine)
        }
    } else if k == 1 {
        Ok(None)
    } else {
        Err(LineError::InvalidLine)
    };
    let literal = if k >= 5 && f[4].unicode_len() > 0 {
        Some(f[4])
    } else {
        None
    };
    Ok(LinePlan::Emit { pad, operation, literal })
}

/// The sign that a sign field stands for: `-` for a set sign bit.
pub open spec fn sign_of_text(s: Seq<char>) -> Option<bool> {
    if s == "+"@ {
        Some(false)
    } else if s == "-"@ {
        Some(true)
    } else {
        None
    }
}

/// The instruction that a line's flags, sign and operation give.
pub open spec fn spec_line_instruction(flags: Seq<char>, sign: Seq<char>, op: InstVariant) -> Result<
    Instruction,
    LineError,
> {
    match flags_from_name(flags) {
        Err(_) => Err(LineError::Flags),
        Ok(f) => match sign_of_text(sign) {
            None => Err(LineError::Sign),
            Some(b) => Ok(Instruction { cmp: f, sign: b, var: op }),
        },
    }
}

/// The instruction of a line's fields, once its operation has been read;
/// fails when the flags name no combination or the sign is neither `+` nor
/// `-`, in this order.
pub fn line_instruction(flags: &str, sign: &str, op: InstVariant) -> (r: Result<Instruction, LineError>)
    ensures
        r == spec_line_instruction(flags@, sign@, op),
{
    let f = match CmpFlags::try_from(flags) {
        Ok(f) => f,
        Err(_) => {
            return Err(LineError::Flags);
        },
    };
    let b = if str_equal(sign, "+") {
        false
    } else if str_equal(sign, "-") {
        true
    } else {
        return Err(LineError::Sign);
    };
    Ok(Instruction { cmp: f, sign: b, var: op })
}

/// The value of a literal field: hexadecimal, after any `0x` prefixes.
pub open spec fn spec_literal_value(s: Seq<char>) -> Result<u32, LineError> {
    match spec_parse_hex(strip_prefixes(s, "0x"@)) {
        Ok(v) => Ok(v),
        Err(e) => Err(LineError::Literal(e)),
    }
}

/// Reads a literal field.
pub fn literal_value(text: &str) -> (r: Result<u32, LineError>)
    ensures
        r == spec_literal_value(text@),
{
    proof {
        reveal_strlit("0x");
    }
    match parse_hex(strip_leading(text, "0x")) {
        Ok(v) => Ok(v),
        Err(e) => Err(LineError::Literal(e)),
    }
}

/// The sign field that the converter writes for a sign bit.
pub open spec fn spec_sign_text(sign: bool) -> Seq<char> {
    if sign {
        "-"@
    } else {
        "+"@
    }
}

/// The sign field for a sign bit: `-` when it is set, else `+`.
pub fn sign_text(sign: bool) -> (r: &'static str)
    ensures
        r@ == spec_sign_text(sign),
{
    if sign {
        "-"
    } else {
        "+"
    }
}

/// The flags and sign fields that the converter writes for an instruction,
/// with its operation, read back as that instruction.
pub proof fn lemma_converted_fields_read_back(i: Instruction)
    ensures
        spec_line_instruction(crate::isa::flags_name(i.cmp), spec_sign_text(i.sign), i.var)
            == Ok::<Instruction, LineError>(i),
{
    reveal_strlit("+");
    reveal_strlit("-");
    crate::roundtrip::lemma_flags_name_roundtrip(i.cmp, Seq::<char>::empty());
    assert("-"@ != "+"@) by {
        assert("-"@[0] != "+"@[0]);
    }
}

/// The kinds of line in a listing that the converter reads.
pub enum ListingKind<'a> {
    /// a literal word, written `0x...`
    Literal,
    /// an origin, written `.org ` and the address: here the address
    Origin(&'a str),
    /// an instruction, written as a JSON object
    Instruction,
    /// anything else, copied as it is
    Other,
}

/// The kind of a listing line, by its start.
pub fn listing_kind<'a>(line: &'a str) -> (r: ListingKind<'a>)
    ensures
        match r {
            ListingKind::Literal => begins_with(line@, "0x"@),
            ListingKind::Origin(a) => !begins_with(line@, "0x"@) && begins_with(line@, ".org "@)
                && a@ == strip_prefixes(line@, ".org "@),
            ListingKind::Instruction => !begins_with(line@, "0x"@) && !begins_with(
                line@,
                ".org "@,
            ) && begins_with(line@, "{"@),
            ListingKind::Other => !begins_with(line@, "0x"@) && !begins_with(line@, ".org "@)
                && !begins_with(line@, "{"@),
        },
{
    proof {
        reveal_strlit(".org ");
        assert(line@.subrange(0, line@.len() as int) =~= line@);
    }
    if begins_at(line, 0, "0x") {
        ListingKind::Literal
    } else if begins_at(line, 0, ".org ") {
        ListingKind::Origin(strip_leading(line, ".org "))
    } else if begins_at(line, 0, "{") {
        ListingKind::Instruction
    } else {
        ListingKind::Other
    }
}

} // verus!
