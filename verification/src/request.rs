//! Reading an HTTP request as its bytes arrive: the head is found at the
//! first blank line, its request line and `Content-Length` are parsed, and the
//! body is taken once enough bytes have come. The socket stays with the
//! caller, which feeds each chunk it reads.
use vstd::prelude::*;
use vstd::utf8::{decode_utf8, valid_utf8};
use crate::file_diff::{ascii_lower, ascii_lowercase};
use crate::session::{is_white, white};
use crate::text::{string_from_chars, utf8_text};
use crate::web::{find_bytes, first_occurrence, none_before, occurs_at};

verus! {

/// The most bytes a request head may take before its blank line.
pub const MAX_HEADERS: usize = 65536;

/// The largest request body accepted.
pub const MAX_SUBMISSION: usize = 8388608;

/// Why a request could not be read.
#[derive(Debug, Clone, Copy, PartialEq, Eq)]
pub enum RequestError {
    /// The request line or `Content-Length` is missing or unreadable, or the
    /// connection ended early.
    Malformed,
    /// The head or the body is larger than allowed.
    TooLarge,
    /// The head is not UTF-8.
    NotUtf8,
}

/// Splits `s` at every `\r\n`, keeping empty pieces.
pub open spec fn split_crlf(s: Seq<char>) -> Seq<Seq<char>>
    decreases s.len(),
{
    if s.len() == 0 {
        seq![Seq::<char>::empty()]
    } else if s.len() >= 2 && s[s.len() - 2] == '\r' && s[s.len() - 1] == '\n' {
        split_crlf(s.take(s.len() - 2)).push(Seq::empty())
    } else {
        let prev = split_crlf(s.drop_last());
        prev.update(prev.len() - 1, prev.last().push(s.last()))
    }
}

pub proof fn lemma_split_crlf_nonempty(s: Seq<char>)
    ensures
        split_crlf(s).len() >= 1,
    decreases s.len(),
{
    if s.len() >= 2 && s[s.len() - 2] == '\r' && s[s.len() - 1] == '\n' {
        lemma_split_crlf_nonempty(s.take(s.len() - 2));
    } else if s.len() > 0 {
        lemma_split_crlf_nonempty(s.drop_last());
    }
}

/// `s` without its leading white space.
pub open spec fn skip_white(s: Seq<char>) -> Seq<char>
    decreases s.len(),
{
    if s.len() > 0 && is_white(s[0]) {
        skip_white(s.drop_first())
    } else {
        s
    }
}

/// The run of non-white characters that `s` begins with.
pub open spec fn take_word(s: Seq<char>) -> Seq<char>
    decreases s.len(),
{
    if s.len() > 0 && !is_white(s[0]) {
        seq![s[0]] + take_word(s.drop_first())
    } else {
        Seq::empty()
    }
}

/// `s` without its trailing white space.
pub open spec fn trim_end_white(s: Seq<char>) -> Seq<char>
    decreases s.len(),
{
    if s.len() > 0 && is_white(s.last()) {
        trim_end_white(s.drop_last())
    } else {
        s
    }
}

/// The index of the first `c` in `s`, or `s.len()`.
pub open spec fn first_index(s: Seq<char>, c: char) -> int
    decreases s.len(),
{
    if s.len() == 0 {
        0
    } else if s[0] == c {
        0
    } else {
        1 + first_index(s.drop_first(), c)
    }
}

/// Whether the field name of a header line is `Content-Length`, in any ASCII
/// case.
pub open spec fn names_length(name: Seq<char>) -> bool {
    name.map_values(|c: char| ascii_lower(c)) == "content-length"@
}

/// The value of the first header line, among `lines`, that has a colon and
/// whose name is `Content-Length`.
pub open spec fn length_field(lines: Seq<Seq<char>>) -> Option<Seq<char>>
    decreases lines.len(),
{
    if lines.len() == 0 {
        None
    } else {
        let line = lines[0];
        let colon = first_index(line, ':');
        if colon < line.len() && names_length(line.take(colon)) {
            Some(line.skip(colon + 1))
        } else {
            length_field(lines.drop_first())
        }
    }
}

/// The value of decimal digits.
pub open spec fn digits_value(d: Seq<char>) -> nat
    decreases d.len(),
{
    if d.len() == 0 {
        0
    } else {
        digits_value(d.drop_last()) * 10 + ((d.last() as nat) - ('0' as nat)) as nat
    }
}

pub open spec fn all_digits(d: Seq<char>) -> bool {
    forall|i: int| 0 <= i < d.len() ==> '0' <= #[trigger] d[i] <= '9'
}

/// An unsigned size written in decimal, with an optional leading `+`; `None`
/// where the text is no such number or the number does not fit in `usize`.
pub open spec fn parse_size(s: Seq<char>) -> Option<nat> {
    let d = if s.len() > 0 && s[0] == '+' {
        s.drop_first()
    } else {
        s
    };
    if d.len() > 0 && all_digits(d) && digits_value(d) <= usize::MAX {
        Some(digits_value(d))
    } else {
        None
    }
}

/// What a request head says: its method, its path and its body's length.
pub struct HeadView {
    pub method: Seq<char>,
    pub path: Seq<char>,
    pub length: nat,
}

/// The head of a request, read from its text up to and including the blank
/// line: the first two words of the request line, and the `Content-Length`
/// (zero where there is none).
pub open spec fn parse_head(text: Seq<char>) -> Result<HeadView, RequestError> {
    let lines = split_crlf(text);
    let line = skip_white(lines[0]);
    let method = take_word(line);
    let rest = skip_white(line.skip(method.len() as int));
    let path = take_word(rest);
    if method.len() == 0 || path.len() == 0 {
        Err(RequestError::Malformed)
    } else {
        match length_field(lines.drop_first()) {
            None => Ok(HeadView { method, path, length: 0 }),
            Some(value) => match parse_size(trim_end_white(skip_white(value))) {
                Some(n) => Ok(HeadView { method, path, length: n }),
                None => Err(RequestError::Malformed),
            },
        }
    }
}

/// The head of a request from its bytes up to and including the blank line.
pub open spec fn parse_head_bytes(bytes: Seq<u8>) -> Result<HeadView, RequestError> {
    if valid_utf8(bytes) {
        parse_head(decode_utf8(bytes))
    } else {
        Err(RequestError::NotUtf8)
    }
}

fn split_lines(s: &Vec<char>) -> (res: Vec<Vec<char>>)
    ensures
        res@.len() == split_crlf(s@).len(),
        forall|i: int| 0 <= i < res@.len() ==> #[trigger] res@[i]@ == split_crlf(s@)[i],
{
    let mut pieces: Vec<Vec<char>> = Vec::new();
    let mut current: Vec<char> = Vec::new();
    let mut i: usize = 0;
    while i < s.len()
        invariant
            i <= s@.len(),
            split_crlf(s@.take(i as int)).len() == pieces@.len() + 1,
            forall|k: int|
                0 <= k < pieces@.len() ==> #[trigger] pieces@[k]@ == split_crlf(s@.take(i as int))[k],
            current@ == split_crlf(s@.take(i as int)).last(),
        decreases s@.len() - i,
    {
        let ghost t = s@.take(i + 1);
        proof {
            assert(t.drop_last() =~= s@.take(i as int));
            assert(t.last() == s@[i as int]);
            lemma_split_crlf_nonempty(s@.take(i as int));
        }
        if i > 0 && s[i - 1] == '\r' && s[i] == '\n' {
            proof {
                let u = s@.take(i as int);
                assert(t.take(t.len() - 2) =~= u.drop_last());
                assert(u.last() == '\r');
                lemma_split_crlf_nonempty(u.drop_last());
                assert(!(u.len() >= 2 && u[u.len() - 2] == '\r' && u[u.len() - 1] == '\n'));
                assert(split_crlf(u) == split_crlf(u.drop_last()).update(
                    split_crlf(u.drop_last()).len() - 1,
                    split_crlf(u.drop_last()).last().push('\r'),
                ));
            }
            current.pop();
            let done = current;
            pieces.push(done);
            current = Vec::new();
            proof {
                let u = s@.take(i as int);
                let prev = split_crlf(u.drop_last());
                assert(split_crlf(t) == prev.push(Seq::<char>::empty()));
                assert(pieces@.len() == prev.len());
                assert forall|k: int| 0 <= k < pieces@.len() implies #[trigger] pieces@[k]@
                    == split_crlf(t)[k] by {
                    if k < pieces@.len() - 1 {
                        assert(split_crlf(u)[k] == prev[k]);
                    } else {
                        assert(prev.last().push('\r').drop_last() =~= prev.last());
                    }
                }
            }
        } else {
            current.push(s[i]);
            proof {
                assert(!(t.len() >= 2 && t[t.len() - 2] == '\r' && t[t.len() - 1] == '\n'));
                let prev = split_crlf(s@.take(i as int));
                assert(split_crlf(t) == prev.update(prev.len() - 1, prev.last().push(s@[i as int])));
                assert forall|k: int| 0 <= k < pieces@.len() implies #[trigger] pieces@[k]@
                    == split_crlf(t)[k] by {
                    assert(split_crlf(t)[k] == prev[k]);
                }
            }
        }
        i = i + 1;
    }
    proof {
        assert(s@.take(s@.len() as int) =~= s@);
    }
    pieces.push(current);
    proof {
        assert forall|k: int| 0 <= k < pieces@.len() implies #[trigger] pieces@[k]@ == split_crlf(s@)[k] by {
        }
    }
    pieces
}

/// The index of the first non-white character of `s` at or after `from`.
pub(crate) fn skip_white_from(s: &Vec<char>, from: usize) -> (res: usize)
    requires
        from <= s@.len(),
    ensures
        from <= res <= s@.len(),
        skip_white(s@.skip(from as int)) == s@.skip(res as int),
{
    let mut i = from;
    while i < s.len() && white(s[i])
        invariant
            from <= i <= s@.len(),
            skip_white(s@.skip(from as int)) == skip_white(s@.skip(i as int)),
        decreases s@.len() - i,
    {
        proof {
            assert(s@.skip(i as int).drop_first() =~= s@.skip(i + 1));
        }
        i = i + 1;
    }
    i
}

/// The end of the word of `s` that starts at `from`.
fn word_end(s: &Vec<char>, from: usize) -> (res: usize)
    requires
        from <= s@.len(),
    ensures
        from <= res <= s@.len(),
        take_word(s@.skip(from as int)) == s@.subrange(from as int, res as int),
{
    let mut i = from;
    while i < s.len() && !white(s[i])
        invariant
            from <= i <= s@.len(),
            take_word(s@.skip(from as int)) == s@.subrange(from as int, i as int) + take_word(
                s@.skip(i as int),
            ),
        decreases s@.len() - i,
    {
        proof {
            assert(s@.skip(i as int).drop_first() =~= s@.skip(i + 1));
            assert(s@.subrange(from as int, i + 1) =~= s@.subrange(from as int, i as int) + seq![
                s@[i as int],
            ]);
        }
        i = i + 1;
    }
    proof {
        assert(take_word(s@.skip(i as int)) =~= Seq::<char>::empty());
    }
    i
}

/// The index of the first `c` in `s`, or its length.
pub(crate) fn first_index_of(s: &Vec<char>, c: char) -> (res: usize)
    ensures
        res == first_index(s@, c),
        res <= s@.len(),
{
    let mut i: usize = 0;
    proof {
        assert(s@.skip(0) =~= s@);
    }
    while i < s.len() && s[i] != c
        invariant
            i <= s@.len(),
            first_index(s@, c) == i + first_index(s@.skip(i as int), c),
        decreases s@.len() - i,
    {
        proof {
            assert(s@.skip(i as int).drop_first() =~= s@.skip(i + 1));
        }
        i = i + 1;
    }
    i
}

pub(crate) proof fn lemma_first_index_bounds(s: Seq<char>, c: char)
    ensures
        0 <= first_index(s, c) <= s.len(),
        first_index(s, c) < s.len() ==> s[first_index(s, c)] == c,
    decreases s.len(),
{
    if s.len() > 0 && s[0] != c {
        lemma_first_index_bounds(s.drop_first(), c);
    }
}

/// Whether `s[from..to]` names `Content-Length`, in any ASCII case.
fn is_length_name(s: &Vec<char>, to: usize) -> (res: bool)
    requires
        to <= s@.len(),
    ensures
        res == names_length(s@.take(to as int)),
{
    let expected: Vec<char> = vec!['c', 'o', 'n', 't', 'e', 'n', 't', '-', 'l', 'e', 'n', 'g', 't', 'h'];
    proof {
        reveal_strlit("content-length");
        assert(expected@ =~= "content-length"@);
    }
    let ghost name = s@.take(to as int);
    if to != expected.len() {
        proof {
            assert(name.map_values(|c: char| ascii_lower(c)).len() != expected@.len());
        }
        return false;
    }
    let mut i: usize = 0;
    while i < to
        invariant
            to == expected@.len(),
            to <= s@.len(),
            name == s@.take(to as int),
            expected@ == "content-length"@,
            i <= to,
            forall|k: int| 0 <= k < i ==> ascii_lower(name[k]) == expected@[k],
        decreases to - i,
    {
        if ascii_lowercase(s[i]) != expected[i] {
            proof {
                assert(name.map_values(|c: char| ascii_lower(c))[i as int] != expected@[i as int]);
            }
            return false;
        }
        i = i + 1;
    }
    proof {
        assert(name.map_values(|c: char| ascii_lower(c)) =~= expected@);
    }
    true
}

proof fn lemma_digits_value_prefix(d: Seq<char>, k: int)
    requires
        0 <= k <= d.len(),
        all_digits(d),
    ensures
        digits_value(d.take(k)) <= digits_value(d),
    decreases d.len(),
{
    if k < d.len() {
        assert(d.drop_last().take(k) =~= d.take(k));
        assert(all_digits(d.drop_last()));
        lemma_digits_value_prefix(d.drop_last(), k);
    } else {
        assert(d.take(k) =~= d);
    }
}

/// The size written in `s[from..to]`: decimal digits with an optional leading
/// `+`, fitting in `usize`.
fn parse_size_at(s: &Vec<char>, from: usize, to: usize) -> (res: Option<usize>)
    requires
        from <= to <= s@.len(),
    ensures
        res matches Some(n) ==> parse_size(s@.subrange(from as int, to as int)) == Some(n as nat),
        res is None ==> parse_size(s@.subrange(from as int, to as int)) is None,
{
    let ghost text = s@.subrange(from as int, to as int);
    let mut start = from;
    if from < to && s[from] == '+' {
        start = from + 1;
    }
    let ghost d = s@.subrange(start as int, to as int);
    proof {
        if from < to && s@[from as int] == '+' {
            assert(text.drop_first() =~= d);
        } else {
            assert(text =~= d);
        }
        assert(parse_size(text) == (if d.len() > 0 && all_digits(d) && digits_value(d) <= usize::MAX {
            Some(digits_value(d))
        } else {
            None
        }));
    }
    if start == to {
        return None;
    }
    let mut value: usize = 0;
    let mut i = start;
    while i < to
        invariant
            start <= i <= to <= s@.len(),
            d == s@.subrange(start as int, to as int),
            text == s@.subrange(from as int, to as int),
            parse_size(text) == (if d.len() > 0 && all_digits(d) && digits_value(d) <= usize::MAX {
                Some(digits_value(d))
            } else {
                None
            }),
            forall|k: int| start <= k < i ==> '0' <= #[trigger] s@[k] <= '9',
            value as nat == digits_value(s@.subrange(start as int, i as int)),
        decreases to - i,
    {
        let c = s[i];
        if c < '0' || c > '9' {
            proof {
                assert(d[i - start] == c);
            }
            return None;
        }
        let digit = (c as u32 - '0' as u32) as usize;
        proof {
            let p = s@.subrange(start as int, i + 1);
            assert(p.drop_last() =~= s@.subrange(start as int, i as int));
            assert(p.last() == c);
        }
        match value.checked_mul(10) {
            None => {
                return digits_overflow(s, start, i, to, value);
            },
            Some(tens) => match tens.checked_add(digit) {
                None => {
                    return digits_overflow(s, start, i, to, value);
                },
                Some(next) => {
                    value = next;
                },
            },
        }
        i = i + 1;
    }
    proof {
        assert(all_digits(d));
    }
    Some(value)
}

/// The rest of `s[start..to]` after an overflow at `i`: `None` whether or not
/// the remaining characters are digits, since the value is already too large
/// or the text is not a number.
fn digits_overflow(s: &Vec<char>, start: usize, i: usize, to: usize, value: usize) -> (res: Option<usize>)
    requires
        start <= i < to <= s@.len(),
        forall|k: int| start <= k < i ==> '0' <= #[trigger] s@[k] <= '9',
        '0' <= s@[i as int] <= '9',
        value as nat == digits_value(s@.subrange(start as int, i as int)),
        value * 10 + ((s@[i as int] as nat) - ('0' as nat)) > usize::MAX,
    ensures
        res is None,
        !(all_digits(s@.subrange(start as int, to as int)) && digits_value(
            s@.subrange(start as int, to as int),
        ) <= usize::MAX),
{
    let ghost d = s@.subrange(start as int, to as int);
    let ghost p = s@.subrange(start as int, i + 1);
    proof {
        assert(p.drop_last() =~= s@.subrange(start as int, i as int));
        assert(digits_value(p) > usize::MAX);
        assert(p =~= d.take(i + 1 - start));
        if all_digits(d) {
            lemma_digits_value_prefix(d, i + 1 - start);
        }
    }
    None
}

/// The index after the last non-white character of `s[from..]`, but not
/// before `from`.
pub(crate) fn trim_end_from(s: &Vec<char>, from: usize) -> (res: usize)
    requires
        from <= s@.len(),
    ensures
        from <= res <= s@.len(),
        trim_end_white(s@.skip(from as int)) == s@.subrange(from as int, res as int),
{
    let mut end = s.len();
    proof {
        assert(s@.subrange(from as int, end as int) =~= s@.skip(from as int));
    }
    while end > from && white(s[end - 1])
        invariant
            from <= end <= s@.len(),
            trim_end_white(s@.skip(from as int)) == trim_end_white(s@.subrange(from as int, end as int)),
        decreases end,
    {
        proof {
            assert(s@.subrange(from as int, end as int).drop_last() =~= s@.subrange(from as int, end - 1));
        }
        end = end - 1;
    }
    end
}

pub(crate) fn copy_range(s: &Vec<char>, from: usize, to: usize) -> (res: Vec<char>)
    requires
        from <= to <= s@.len(),
    ensures
        res@ == s@.subrange(from as int, to as int),
{
    let mut out: Vec<char> = Vec::new();
    let mut i = from;
    while i < to
        invariant
            from <= i <= to <= s@.len(),
            out@ == s@.subrange(from as int, i as int),
        decreases to - i,
    {
        out.push(s[i]);
        proof {
            assert(s@.subrange(from as int, i + 1) =~= s@.subrange(from as int, i as int).push(s@[i as int]));
        }
        i = i + 1;
    }
    out
}

/// A request head: its method, path and body length.
#[derive(Debug, PartialEq, Eq)]
pub struct RequestHead {
    pub method: String,
    pub path: String,
    pub length: usize,
}

impl View for RequestHead {
    type V = HeadView;

    open spec fn view(&self) -> HeadView {
        HeadView { method: self.method@, path: self.path@, length: self.length as nat }
    }
}

pub open spec fn head_result_view(r: Result<RequestHead, RequestError>) -> Result<HeadView, RequestError> {
    match r {
        Ok(h) => Ok(h@),
        Err(e) => Err(e),
    }
}

/// The value of the `Content-Length` line among `lines[1..]`, trimmed and
/// parsed; zero where there is no such line.
fn body_length(lines: &Vec<Vec<char>>, Ghost(all): Ghost<Seq<Seq<char>>>) -> (res: Result<usize, RequestError>)
    requires
        lines@.len() == all.len(),
        all.len() >= 1,
        forall|i: int| 0 <= i < lines@.len() ==> #[trigger] lines@[i]@ == all[i],
    ensures
        match length_field(all.drop_first()) {
            None => res == Ok::<usize, RequestError>(0),
            Some(value) => match parse_size(trim_end_white(skip_white(value))) {
                Some(n) => res matches Ok(m) && m == n,
                None => res == Err::<usize, RequestError>(RequestError::Malformed),
            },
        },
{
    let mut k: usize = 1;
    proof {
        assert(all.skip(1) =~= all.drop_first());
    }
    while k < lines.len()
        invariant
            1 <= k <= lines@.len(),
            lines@.len() == all.len(),
            forall|i: int| 0 <= i < lines@.len() ==> #[trigger] lines@[i]@ == all[i],
            length_field(all.drop_first()) == length_field(all.skip(k as int)),
        decreases lines@.len() - k,
    {
        let line = &lines[k];
        let colon = first_index_of(line, ':');
        proof {
            assert(all.skip(k as int)[0] == all[k as int]);
            assert(all.skip(k as int).drop_first() =~= all.skip(k + 1));
            assert(line@ == all[k as int]);
        }
        if colon < line.len() && is_length_name(line, colon) {
            let a = skip_white_from(line, colon + 1);
            let e = trim_end_from(line, a);
            proof {
                assert(line@.skip(colon + 1) == all[k as int].skip(colon + 1));
                assert(line@.skip(a as int) == skip_white(line@.skip(colon + 1)));
            }
            return match parse_size_at(line, a, e) {
                Some(n) => Ok(n),
                None => Err(RequestError::Malformed),
            };
        }
        k = k + 1;
    }
    proof {
        assert(all.skip(k as int).len() == 0);
    }
    Ok(0)
}

/// Parses a request head from its text, up to and including the blank line.
pub fn head_from_text(text: &Vec<char>) -> (res: Result<RequestHead, RequestError>)
    ensures
        head_result_view(res) == parse_head(text@),
{
    let lines = split_lines(text);
    let ghost all = split_crlf(text@);
    proof {
        lemma_split_crlf_nonempty(text@);
    }
    let first = &lines[0];
    let a = skip_white_from(first, 0);
    let b = word_end(first, a);
    let c = skip_white_from(first, b);
    let d = word_end(first, c);
    proof {
        assert(first@.skip(0) =~= first@);
        assert(first@ == all[0]);
        assert(first@.skip(a as int).skip(b - a) =~= first@.skip(b as int));
        assert(first@.subrange(a as int, b as int).len() == b - a);
    }
    if a == b || c == d {
        return Err(RequestError::Malformed);
    }
    let method = copy_range(first, a, b);
    let path = copy_range(first, c, d);
    match body_length(&lines, Ghost(all)) {
        Ok(length) => Ok(RequestHead {
            method: string_from_chars(&method),
            path: string_from_chars(&path),
            length,
        }),
        Err(e) => Err(e),
    }
}

/// A whole request: method, path and body.
#[derive(Debug, PartialEq, Eq)]
pub struct Request {
    pub method: String,
    pub path: String,
    pub body: Vec<u8>,
}

/// What feeding a chunk of bytes gives.
#[derive(Debug, PartialEq, Eq)]
pub enum ReadStep {
    /// More bytes are needed.
    NeedMore,
    /// The request is complete.
    Done(Request),
    /// The request cannot be read.
    Failed(RequestError),
}

pub enum StepView {
    NeedMore,
    Done(Seq<char>, Seq<char>, Seq<u8>),
    Failed(RequestError),
}

impl View for ReadStep {
    type V = StepView;

    open spec fn view(&self) -> StepView {
        match self {
            ReadStep::NeedMore => StepView::NeedMore,
            ReadStep::Done(r) => StepView::Done(r.method@, r.path@, r.body@),
            ReadStep::Failed(e) => StepView::Failed(*e),
        }
    }
}

/// The bytes received so far, and the head once it has been read, with the
/// index at which the body starts.
pub struct ReaderView {
    pub received: Seq<u8>,
    pub head: Option<(nat, HeadView)>,
}

/// The blank line that ends a request head.
pub open spec fn blank_line() -> Seq<u8> {
    seq![13u8, 10u8, 13u8, 10u8]
}

/// Where the body begins and what the head says, for bytes whose head is
/// complete: `None` while the blank line has not come.
pub open spec fn head_in(received: Seq<u8>) -> Option<(int, Result<HeadView, RequestError>)> {
    match first_occurrence(received, blank_line()) {
        Some(p) => Some((p + 4, parse_head_bytes(received.take(p + 4)))),
        None => None,
    }
}

/// Whether the body is complete, and what it is then.
pub open spec fn completed(received: Seq<u8>, start: nat, head: HeadView) -> StepView {
    if received.len() >= start + head.length {
        StepView::Done(head.method, head.path, received.subrange(start as int, (start + head.length) as int))
    } else {
        StepView::NeedMore
    }
}

/// The reader after a chunk: the chunk is appended, and the head is kept once
/// it has been read and accepted.
pub open spec fn next_reader(r: ReaderView, chunk: Seq<u8>) -> ReaderView {
    if chunk.len() == 0 {
        r
    } else {
        let received = r.received + chunk;
        match r.head {
            Some(h) => ReaderView { received, head: Some(h) },
            None => match head_in(received) {
                Some((start, Ok(head))) => if head.length <= MAX_SUBMISSION {
                    ReaderView { received, head: Some((start as nat, head)) }
                } else {
                    ReaderView { received, head: None }
                },
                _ => ReaderView { received, head: None },
            },
        }
    }
}

/// What a chunk gives: an empty chunk (the connection closed) fails the
/// request; a head without its blank line after more than `MAX_HEADERS` bytes,
/// or announcing a body over `MAX_SUBMISSION`, is too large; a head that does
/// not parse fails as it does; otherwise the request is done once its body
/// has come.
pub open spec fn next_step(r: ReaderView, chunk: Seq<u8>) -> StepView {
    if chunk.len() == 0 {
        StepView::Failed(RequestError::Malformed)
    } else {
        let received = r.received + chunk;
        match r.head {
            Some((start, head)) => completed(received, start, head),
            None => match head_in(received) {
                None => if received.len() > MAX_HEADERS {
                    StepView::Failed(RequestError::TooLarge)
                } else {
                    StepView::NeedMore
                },
                Some((start, Err(e))) => StepView::Failed(e),
                Some((start, Ok(head))) => if head.length > MAX_SUBMISSION {
                    StepView::Failed(RequestError::TooLarge)
                } else {
                    completed(received, start as nat, head)
                },
            },
        }
    }
}

/// Reads a request from the chunks of bytes that a connection delivers.
pub struct RequestReader {
    received: Vec<u8>,
    head: Option<(usize, RequestHead)>,
}

impl View for RequestReader {
    type V = ReaderView;

    closed spec fn view(&self) -> ReaderView {
        ReaderView {
            received: self.received@,
            head: match self.head {
                Some((start, h)) => Some((start as nat, h@)),
                None => None,
            },
        }
    }
}

impl RequestReader {
    /// Whether the stored head lies within the bytes received and announces
    /// an accepted body.
    pub closed spec fn wf(&self) -> bool {
        self.head matches Some((start, h)) ==> start <= self.received@.len() && h.length
            <= MAX_SUBMISSION
    }

    /// A reader that has received nothing.
    pub fn new() -> (res: RequestReader)
        ensures
            res.wf(),
            res@ == (ReaderView { received: Seq::empty(), head: None }),
    {
        RequestReader { received: Vec::new(), head: None }
    }

    fn finish(&self) -> (res: ReadStep)
        requires
            self.head is Some,
            self.wf(),
        ensures
            ({
                let (start, h) = self.head->0;
                res@ == completed(self.received@, start as nat, h@)
            }),
    {
        match &self.head {
            Some((start, head)) => {
                let start = *start;
                if self.received.len() - start >= head.length {
                    let mut body: Vec<u8> = Vec::new();
                    let end = start + head.length;
                    let mut i = start;
                    while i < end
                        invariant
                            start <= i <= end <= self.received@.len(),
                            body@ == self.received@.subrange(start as int, i as int),
                        decreases end - i,
                    {
                        body.push(self.received[i]);
                        proof {
                            assert(self.received@.subrange(start as int, i + 1)
                                =~= self.received@.subrange(start as int, i as int).push(self.received@[i as int]));
                        }
                        i = i + 1;
                    }
                    ReadStep::Done(Request { method: head.method.clone(), path: head.path.clone(), body })
                } else {
                    ReadStep::NeedMore
                }
            },
            None => ReadStep::NeedMore,
        }
    }

    /// Takes the next chunk that the connection delivered; an empty chunk
    /// means that the connection closed.
    pub fn feed(&mut self, chunk: &[u8]) -> (res: ReadStep)
        requires
            old(self).wf(),
        ensures
            final(self).wf(),
            final(self)@ == next_reader(old(self)@, chunk@),
            res@ == next_step(old(self)@, chunk@),
    {
        if chunk.len() == 0 {
            return ReadStep::Failed(RequestError::Malformed);
        }
        let mut i: usize = 0;
        let ghost before = self.received@;
        while i < chunk.len()
            invariant
                i <= chunk@.len(),
                self.received@ == before + chunk@.take(i as int),
                self.head == old(self).head,
                before == old(self).received@,
            decreases chunk@.len() - i,
        {
            self.received.push(chunk[i]);
            proof {
                assert(chunk@.take(i + 1) =~= chunk@.take(i as int).push(chunk@[i as int]));
            }
            i = i + 1;
        }
        proof {
            assert(chunk@.take(i as int) =~= chunk@);
        }
        if self.head.is_some() {
            return self.finish();
        }
        let blank: [u8; 4] = [13u8, 10u8, 13u8, 10u8];
        proof {
            assert(blank@ =~= blank_line());
        }
        let total = self.received.len();
        match find_bytes(self.received.as_slice(), &blank) {
            None => {
                if self.received.len() > MAX_HEADERS {
                    ReadStep::Failed(RequestError::TooLarge)
                } else {
                    ReadStep::NeedMore
                }
            },
            Some(p) => {
                let start = p + 4;
                let mut head_bytes: Vec<u8> = Vec::new();
                let mut k: usize = 0;
                while k < start
                    invariant
                        start <= self.received@.len(),
                        k <= start,
                        head_bytes@ == self.received@.take(k as int),
                    decreases start - k,
                {
                    head_bytes.push(self.received[k]);
                    proof {
                        assert(self.received@.take(k + 1) =~= self.received@.take(k as int).push(self.received@[k as int]));
                    }
                    k = k + 1;
                }
                match utf8_text(head_bytes.as_slice()) {
                    Err(_) => ReadStep::Failed(RequestError::NotUtf8),
                    Ok(text) => match head_from_text(&text) {
                        Err(e) => ReadStep::Failed(e),
                        Ok(head) => {
                            if head.length > MAX_SUBMISSION {
                                ReadStep::Failed(RequestError::TooLarge)
                            } else {
                                self.head = Some((start, head));
                                self.finish()
                            }
                        },
                    },
                }
            },
        }
    }
}

/// Where a pattern first occurs in `s`, it first occurs in every extension of
/// `s` too.
proof fn lemma_first_occurrence_extends(s: Seq<u8>, t: Seq<u8>, pat: Seq<u8>)
    requires
        first_occurrence(s, pat) is Some,
    ensures
        first_occurrence(s + t, pat) == first_occurrence(s, pat),
        occurs_at(s, pat, first_occurrence(s, pat)->0),
{
    let p = first_occurrence(s, pat)->0;
    assert(occurs_at(s, pat, p) && none_before(s, pat, p));
    let u = s + t;
    assert(u.subrange(p, p + pat.len()) =~= s.subrange(p, p + pat.len()));
    assert forall|j: int| 0 <= j < p implies !occurs_at(u, pat, j) by {
        if occurs_at(u, pat, j) {
            assert(u.subrange(j, j + pat.len()) =~= s.subrange(j, j + pat.len()));
            assert(occurs_at(s, pat, j));
        }
    }
    assert(occurs_at(u, pat, p) && none_before(u, pat, p));
    let q = first_occurrence(u, pat)->0;
    assert(occurs_at(u, pat, q) && none_before(u, pat, q));
    if q < p {
        assert(!occurs_at(u, pat, q));
    }
    if p < q {
        assert(!occurs_at(u, pat, p));
    }
}

/// A request read in pieces is read as it is read whole: while a first chunk
/// leaves the reader waiting for more, feeding a second chunk after it gives
/// the same step and the same reader as feeding both chunks at once.
pub proof fn lemma_chunked_reading(r: ReaderView, c1: Seq<u8>, c2: Seq<u8>)
    requires
        c1.len() > 0,
        c2.len() > 0,
        next_step(r, c1) == StepView::NeedMore,
    ensures
        next_step(next_reader(r, c1), c2) == next_step(r, c1 + c2),
        next_reader(next_reader(r, c1), c2) == next_reader(r, c1 + c2),
{
    let a = r.received + c1;
    assert(r.received + (c1 + c2) =~= a + c2);
    if r.head is None && head_in(a) is Some {
        lemma_first_occurrence_extends(a, c2, blank_line());
        let p = first_occurrence(a, blank_line())->0;
        assert((a + c2).take(p + 4) =~= a.take(p + 4));
    }
}

} // verus!
