//! Which chunks of a file a request asks for: `<file id>[:<selector>]`.

use vstd::prelude::*;
use vstd::string::*;

use crate::scan::{find_char, lemma_position, lemma_position_is, position, trim_bounds};
use crate::text::{append_decimal, chars_of, parse_number, string_of};
#[allow(unused_imports)]
use crate::scan::{is_white, trimmed, trimmed_end, trimmed_start};
#[allow(unused_imports)]
use crate::text::{
    all_digits, decimal, is_digit, law_decimal_reads_back, number_of, texts, unsigned_part,
};

verus! {

/// The part of a file that a request asks for. Chunks are numbered from one.
#[derive(Debug, Clone, Copy, PartialEq, Eq, Structural)]
pub enum ChunkSelector {
    /// All chunks in the file
    All,
    /// The chunk at this position
    Single(usize),
    /// The chunks from the first position to the second, both among them
    Range(usize, usize),
    /// The chunks from this position to the end of the file
    ToEnd(usize),
}

/// Whether a character is a hexadecimal digit.
pub open spec fn is_hex(c: char) -> bool {
    ||| '0' <= c <= '9'
    ||| 'a' <= c <= 'f'
    ||| 'A' <= c <= 'F'
}

/// Whether a text is a file ID: sixteen hexadecimal digits.
pub open spec fn is_file_id(s: Seq<char>) -> bool {
    &&& s.len() == 16
    &&& forall|i: int| 0 <= i < s.len() ==> is_hex(#[trigger] s[i])
}

/// Whether a selector can come out of a request: positions start at one, and a
/// range does not run backwards.
pub open spec fn is_valid_selector(selector: ChunkSelector) -> bool {
    match selector {
        ChunkSelector::All => true,
        ChunkSelector::Single(n) => n >= 1,
        ChunkSelector::Range(start, end) => 1 <= start <= end,
        ChunkSelector::ToEnd(start) => start >= 1,
    }
}

/// Whether a selector asks for the chunk at a position.
pub open spec fn selects(selector: ChunkSelector, chunk_number: usize) -> bool {
    match selector {
        ChunkSelector::All => true,
        ChunkSelector::Single(n) => chunk_number == n,
        ChunkSelector::Range(start, end) => start <= chunk_number <= end,
        ChunkSelector::ToEnd(start) => start <= chunk_number,
    }
}

/// A selector as it is written behind a file ID.
pub open spec fn selector_suffix(selector: ChunkSelector) -> Seq<char> {
    match selector {
        ChunkSelector::All => Seq::empty(),
        ChunkSelector::Single(n) => ":"@ + decimal(n as nat),
        ChunkSelector::Range(start, end) => ":"@ + decimal(start as nat) + "-"@ + decimal(
            end as nat,
        ),
        ChunkSelector::ToEnd(start) => ":"@ + decimal(start as nat) + "-end"@,
    }
}

// ---------------------------------------------------------------------------
// What a request means
// ---------------------------------------------------------------------------

/// The complaint about a file ID.
pub open spec fn bad_file_id(id: Seq<char>) -> Seq<char> {
    "Invalid file ID '"@ + id + "'. Expected 16 hex characters."@
}

/// The complaint about a selector in which no number could be read.
pub open spec fn bad_number(selector: Seq<char>) -> Seq<char> {
    "Invalid chunk number in selector '"@ + selector + "'"@
}

/// The complaint about a position zero.
pub open spec fn zero_position(n: usize) -> Seq<char> {
    "Chunk numbers are 1-indexed, got "@ + decimal(n as nat)
}

/// What the text behind the colon means, or the complaint about it.
pub open spec fn selector_of(s: Seq<char>) -> Result<ChunkSelector, Seq<char>> {
    if s == "end"@ {
        Err("Invalid selector ':end'. Use ':N-end' format."@)
    } else if "-end"@.is_suffix_of(s) {
        match number_of(s.take(s.len() - 4)) {
            None => Err(bad_number(s)),
            Some(start) => if start < 1 {
                Err(zero_position(start))
            } else {
                Ok(ChunkSelector::ToEnd(start))
            },
        }
    } else if s.contains('-') {
        range_of(s)
    } else {
        match number_of(s) {
            None => Err(bad_number(s)),
            Some(n) => if n < 1 {
                Err(zero_position(n))
            } else {
                Ok(ChunkSelector::Single(n))
            },
        }
    }
}

/// What a text with a dash in it means as a range, or the complaint about it.
pub open spec fn range_of(s: Seq<char>) -> Result<ChunkSelector, Seq<char>> {
    let dash = position(s, '-');
    let first = s.take(dash);
    let second = s.skip(dash + 1);
    if second.contains('-') {
        Err("Invalid selector '"@ + s + "'. Expected ':N-M' format."@)
    } else {
        match number_of(first) {
            None => Err("Invalid start chunk in selector '"@ + s + "'"@),
            Some(start) => match number_of(second) {
                None => Err("Invalid end chunk in selector '"@ + s + "'"@),
                Some(end) => if start < 1 || end < 1 {
                    Err(zero_position(start) + ":"@ + decimal(end as nat))
                } else if start > end {
                    Err("Start chunk "@ + decimal(start as nat) + " > end chunk "@ + decimal(
                        end as nat,
                    ))
                } else {
                    Ok(ChunkSelector::Range(start, end))
                },
            },
        }
    }
}

/// What a request means once the white space around it is gone.
pub open spec fn bare_request_of(t: Seq<char>) -> Result<(Seq<char>, ChunkSelector), Seq<char>> {
    if t.contains(':') {
        let colon = position(t, ':');
        let id = t.take(colon);
        if !is_file_id(id) {
            Err(bad_file_id(id))
        } else {
            match selector_of(t.skip(colon + 1)) {
                Ok(selector) => Ok((id, selector)),
                Err(message) => Err(message),
            }
        }
    } else if !is_file_id(t) {
        Err(bad_file_id(t))
    } else {
        Ok((t, ChunkSelector::All))
    }
}

/// What a request means: the file ID and the selector, or the complaint about it.
pub open spec fn request_of(s: Seq<char>) -> Result<(Seq<char>, ChunkSelector), Seq<char>> {
    bare_request_of(trimmed(s))
}

/// A parsed request over its text.
pub open spec fn request_view(r: Result<(String, ChunkSelector), String>) -> Result<
    (Seq<char>, ChunkSelector),
    Seq<char>,
> {
    match r {
        Ok((id, selector)) => Ok((id@, selector)),
        Err(message) => Err(message@),
    }
}

// ---------------------------------------------------------------------------
// Reading and writing requests
// ---------------------------------------------------------------------------

/// Whether a character is a hexadecimal digit.
pub fn hex_digit(c: char) -> (r: bool)
    ensures
        r == is_hex(c),
{
    ('0' <= c && c <= '9') || ('a' <= c && c <= 'f') || ('A' <= c && c <= 'F')
}

fn file_id_at(v: &Vec<char>, from: usize, to: usize) -> (r: bool)
    requires
        from <= to <= v@.len(),
    ensures
        r == is_file_id(v@.subrange(from as int, to as int)),
{
    let ghost id = v@.subrange(from as int, to as int);
    if to - from != 16 {
        return false;
    }
    let mut i: usize = from;
    while i < to
        invariant
            from <= i <= to <= v@.len(),
            id == v@.subrange(from as int, to as int),
            forall|k: int| 0 <= k < i - from ==> is_hex(#[trigger] id[k]),
        decreases to - i,
    {
        assert(v@[i as int] == id[i - from]);
        if !hex_digit(v[i]) {
            return false;
        }
        i = i + 1;
    }
    true
}

fn quoted(before: &str, middle: &str, after: &str) -> (r: String)
    ensures
        r@ == before@ + middle@ + after@,
{
    let mut out = before.to_owned();
    out.append(middle);
    out.append(after);
    out
}

fn zero_message(n: usize) -> (r: String)
    ensures
        r@ == zero_position(n),
{
    let mut out = "Chunk numbers are 1-indexed, got ".to_owned();
    append_decimal(&mut out, n as u64);
    out
}

fn parse_range(v: &Vec<char>, from: usize, to: usize) -> (r: Result<ChunkSelector, String>)
    requires
        from <= to <= v@.len(),
        v@.subrange(from as int, to as int).contains('-'),
    ensures
        match r {
            Ok(selector) => range_of(v@.subrange(from as int, to as int)) == Ok::<_, Seq<char>>(
                selector,
            ),
            Err(message) => range_of(v@.subrange(from as int, to as int)) == Err::<
                ChunkSelector,
                _,
            >(message@),
        },
{
    let ghost s = v@.subrange(from as int, to as int);
    let dash = find_char(v, from, to, '-');
    proof {
        lemma_position(s, '-');
        assert(s.take(dash - from) =~= v@.subrange(from as int, dash as int));
        assert(s.skip(dash - from + 1) =~= v@.subrange(dash + 1, to as int));
        lemma_position(s.skip(dash - from + 1), '-');
    }
    let text = string_of(v, from, to);
    let other = find_char(v, dash + 1, to, '-');
    if other < to {
        return Err(quoted("Invalid selector '", text.as_str(), "'. Expected ':N-M' format."));
    }
    match parse_number(v, from, dash) {
        None => Err(quoted("Invalid start chunk in selector '", text.as_str(), "'")),
        Some(start) => match parse_number(v, dash + 1, to) {
            None => Err(quoted("Invalid end chunk in selector '", text.as_str(), "'")),
            Some(end) => {
                if start < 1 || end < 1 {
                    let mut message = zero_message(start);
                    message.append(":");
                    append_decimal(&mut message, end as u64);
                    Err(message)
                } else if start > end {
                    let mut message = "Start chunk ".to_owned();
                    append_decimal(&mut message, start as u64);
                    message.append(" > end chunk ");
                    append_decimal(&mut message, end as u64);
                    Err(message)
                } else {
                    Ok(ChunkSelector::Range(start, end))
                }
            },
        },
    }
}

fn matches_at(v: &Vec<char>, from: usize, to: usize, part: &str) -> (r: bool)
    requires
        from <= to <= v@.len(),
    ensures
        r == (v@.subrange(from as int, to as int) == part@),
{
    let p = chars_of(part);
    if p.len() != to - from {
        return false;
    }
    let ghost s = v@.subrange(from as int, to as int);
    let mut i: usize = from;
    while i < to
        invariant
            from <= i <= to <= v@.len(),
            p@ == part@,
            p@.len() == to - from,
            s == v@.subrange(from as int, to as int),
            forall|k: int| 0 <= k < i - from ==> #[trigger] s[k] == p@[k],
        decreases to - i,
    {
        assert(v@[i as int] == s[i - from]);
        if v[i] != p[i - from] {
            return false;
        }
        i = i + 1;
    }
    assert(s =~= part@);
    true
}

fn parse_selector(v: &Vec<char>, from: usize, to: usize) -> (r: Result<ChunkSelector, String>)
    requires
        from <= to <= v@.len(),
    ensures
        match r {
            Ok(selector) => selector_of(v@.subrange(from as int, to as int)) == Ok::<_, Seq<char>>(
                selector,
            ),
            Err(message) => selector_of(v@.subrange(from as int, to as int)) == Err::<
                ChunkSelector,
                _,
            >(message@),
        },
{
    let ghost s = v@.subrange(from as int, to as int);
    proof {
        reveal_strlit("-end");
        lemma_position(s, '-');
    }
    if matches_at(v, from, to, "end") {
        return Err("Invalid selector ':end'. Use ':N-end' format.".to_owned());
    }
    let long = to - from >= 4;
    if long && matches_at(v, to - 4, to, "-end") {
        proof {
            assert(s.subrange(s.len() - 4, s.len() as int) =~= v@.subrange(to - 4, to as int));
            assert(s.take(s.len() - 4) =~= v@.subrange(from as int, to - 4));
        }
        let text = string_of(v, from, to);
        return match parse_number(v, from, to - 4) {
            None => Err(quoted("Invalid chunk number in selector '", text.as_str(), "'")),
            Some(start) => {
                if start < 1 {
                    Err(zero_message(start))
                } else {
                    Ok(ChunkSelector::ToEnd(start))
                }
            },
        };
    }
    proof {
        if s.len() >= 4 {
            assert(s.subrange(s.len() - 4, s.len() as int) =~= v@.subrange(to - 4, to as int));
        }
    }
    let dash = find_char(v, from, to, '-');
    if dash < to {
        parse_range(v, from, to)
    } else {
        let text = string_of(v, from, to);
        match parse_number(v, from, to) {
            None => Err(quoted("Invalid chunk number in selector '", text.as_str(), "'")),
            Some(n) => {
                if n < 1 {
                    Err(zero_message(n))
                } else {
                    Ok(ChunkSelector::Single(n))
                }
            },
        }
    }
}

/// Parses a file ID with an optional selector.
///
/// - `700a4ba232fe9ddc`: all chunks in the file
/// - `700a4ba232fe9ddc:3`: chunk 3
/// - `700a4ba232fe9ddc:2-3`: chunks 2 through 3
/// - `700a4ba232fe9ddc:3-end`: chunk 3 through the last chunk
pub fn parse_file_id_with_selector(s: &str) -> (r: Result<(String, ChunkSelector), String>)
    ensures
        request_view(r) == request_of(s@),
{
    let v = chars_of(s);
    let (from, to) = trim_bounds(&v);
    let ghost t = v@.subrange(from as int, to as int);
    let colon = find_char(&v, from, to, ':');
    proof {
        lemma_position(t, ':');
    }
    if colon < to {
        let id = string_of(&v, from, colon);
        proof {
            assert(t.take(colon - from) =~= v@.subrange(from as int, colon as int));
            assert(t.skip(colon - from + 1) =~= v@.subrange(colon + 1, to as int));
        }
        if !file_id_at(&v, from, colon) {
            return Err(
                quoted("Invalid file ID '", id.as_str(), "'. Expected 16 hex characters."),
            );
        }
        match parse_selector(&v, colon + 1, to) {
            Ok(selector) => Ok((id, selector)),
            Err(message) => Err(message),
        }
    } else {
        let id = string_of(&v, from, to);
        if !file_id_at(&v, from, to) {
            return Err(
                quoted("Invalid file ID '", id.as_str(), "'. Expected 16 hex characters."),
            );
        }
        Ok((id, ChunkSelector::All))
    }
}

/// Whether a selector asks for the chunk at a position.
pub fn selects_chunk(selector: &ChunkSelector, chunk_number: usize) -> (r: bool)
    ensures
        r == selects(*selector, chunk_number),
        match *selector {
            ChunkSelector::All => r,
            ChunkSelector::Single(n) => r == (chunk_number == n),
            ChunkSelector::Range(start, end) => r == (start <= chunk_number && chunk_number <= end),
            ChunkSelector::ToEnd(start) => r == (start <= chunk_number),
        },
{
    match selector {
        ChunkSelector::All => true,
        ChunkSelector::Single(n) => chunk_number == *n,
        ChunkSelector::Range(start, end) => chunk_number >= *start && chunk_number <= *end,
        ChunkSelector::ToEnd(start) => chunk_number >= *start,
    }
}

/// A selector as it is written behind a file ID.
pub fn selector_text(selector: &ChunkSelector) -> (r: String)
    ensures
        r@ == selector_suffix(*selector),
{
    match selector {
        ChunkSelector::All => String::new(),
        ChunkSelector::Single(n) => {
            let mut out = ":".to_owned();
            append_decimal(&mut out, *n as u64);
            out
        },
        ChunkSelector::Range(start, end) => {
            let mut out = ":".to_owned();
            append_decimal(&mut out, *start as u64);
            out.append("-");
            append_decimal(&mut out, *end as u64);
            out
        },
        ChunkSelector::ToEnd(start) => {
            let mut out = ":".to_owned();
            append_decimal(&mut out, *start as u64);
            out.append("-end");
            out
        },
    }
}

/// What the first request of a list that is refused is refused with, if one is.
pub open spec fn first_complaint(specs: Seq<Seq<char>>) -> Option<Seq<char>>
    decreases specs.len(),
{
    if specs.len() == 0 {
        None
    } else {
        match request_of(specs[0]) {
            Err(message) => Some(message),
            Ok(_) => first_complaint(specs.skip(1)),
        }
    }
}

/// Reads all requests of a list, of which there is to be at least one. Where one of them
/// is refused, the complaint about the first such comes back.
pub fn parse_requests(specs: &Vec<String>) -> (r: Result<Vec<(String, ChunkSelector)>, String>)
    ensures
        match r {
            Ok(requests) => {
                &&& specs@.len() > 0
                &&& requests@.len() == specs@.len()
                &&& forall|i: int|
                    0 <= i < specs@.len() ==> request_of(specs@[i]@) == Ok::<_, Seq<char>>(
                        ((#[trigger] requests@[i]).0@, requests@[i].1),
                    )
            },
            Err(message) => if specs@.len() == 0 {
                message@ == "No IDs provided. Use --id <file_id>[:<selector>]"@
            } else {
                first_complaint(texts(specs@)) == Some(message@)
            },
        },
{
    if specs.len() == 0 {
        return Err("No IDs provided. Use --id <file_id>[:<selector>]".to_owned());
    }
    let n: usize = specs.len();
    let ghost all = texts(specs@);
    let mut requests: Vec<(String, ChunkSelector)> = Vec::new();
    let mut i: usize = 0;
    assert(all.skip(0) =~= all);
    while i < n
        invariant
            n == specs@.len(),
            n > 0,
            i <= n,
            all == texts(specs@),
            requests@.len() == i,
            forall|k: int|
                0 <= k < i ==> request_of(specs@[k]@) == Ok::<_, Seq<char>>(
                    ((#[trigger] requests@[k]).0@, requests@[k].1),
                ),
            first_complaint(all.skip(i as int)) == first_complaint(all),
        decreases n - i,
    {
        assert(all.skip(i as int)[0] == specs@[i as int]@);
        assert(all.skip(i as int).skip(1) =~= all.skip(i + 1));
        match parse_file_id_with_selector(specs[i].as_str()) {
            Ok(request) => {
                requests.push(request);
            },
            Err(message) => {
                return Err(message);
            },
        }
        i = i + 1;
    }
    Ok(requests)
}

// ---------------------------------------------------------------------------
// Laws
// ---------------------------------------------------------------------------

proof fn lemma_nothing_to_trim(s: Seq<char>)
    requires
        s.len() > 0,
        !is_white(s[0]),
        !is_white(s.last()),
    ensures
        trimmed(s) == s,
{
}

proof fn lemma_number_reads_back(n: usize)
    ensures
        number_of(decimal(n as nat)) == Some(n),
        all_digits(decimal(n as nat)),
        !decimal(n as nat).contains('-'),
{
    law_decimal_reads_back(n as nat);
    let d = decimal(n as nat);
    assert(is_digit(d[0]));
    assert(unsigned_part(d) == d);
    if d.contains('-') {
        let i = choose|i: int| 0 <= i < d.len() && d[i] == '-';
        assert(is_digit(d[i]));
    }
}

proof fn lemma_selector_reads_back(selector: ChunkSelector, s: Seq<char>)
    requires
        is_valid_selector(selector),
        selector != ChunkSelector::All,
        selector_suffix(selector) == ":"@ + s,
    ensures
        selector_of(s) == Ok::<ChunkSelector, Seq<char>>(selector),
        s.len() > 0,
        !is_white(s.last()),
{
    reveal_strlit("end");
    reveal_strlit("-end");
    reveal_strlit(":");
    reveal_strlit("-");
    assert((":"@ + s).skip(1) =~= s);
    match selector {
        ChunkSelector::All => {},
        ChunkSelector::Single(n) => {
            let d = decimal(n as nat);
            lemma_number_reads_back(n);
            assert((":"@ + d).skip(1) =~= d);
            assert(s == d);
            assert(is_digit(s.last()));
            assert(is_digit(s[0]));
            if "-end"@.is_suffix_of(s) {
                assert("-end"@[3] == s[s.len() - 1]);
            }
        },
        ChunkSelector::Range(start, end) => {
            let a = decimal(start as nat);
            let b = decimal(end as nat);
            lemma_number_reads_back(start);
            lemma_number_reads_back(end);
            assert((":"@ + a + "-"@ + b).skip(1) =~= a + "-"@ + b);
            assert(s == a + "-"@ + b);
            assert(is_digit(a[0]));
            assert(s[0] == a[0]);
            assert(s.last() == b.last());
            assert(is_digit(b.last()));
            if "-end"@.is_suffix_of(s) {
                assert("-end"@[3] == s[s.len() - 1]);
            }
            assert(s[a.len() as int] == '-');
            assert forall|i: int| 0 <= i < a.len() implies s[i] != '-' by {
                assert(s[i] == a[i]);
                assert(is_digit(a[i]));
            }
            lemma_position_is(s, '-', a.len() as int);
            assert(s.take(a.len() as int) =~= a);
            assert(s.skip(a.len() as int + 1) =~= b);
        },
        ChunkSelector::ToEnd(start) => {
            let d = decimal(start as nat);
            lemma_number_reads_back(start);
            assert((":"@ + d + "-end"@).skip(1) =~= d + "-end"@);
            assert(s == d + "-end"@);
            assert(is_digit(d[0]));
            assert(s[0] == d[0]);
            assert(s.subrange(s.len() - 4, s.len() as int) =~= "-end"@);
            assert(s.take(s.len() - 4) =~= d);
        },
    }
}

/// A file ID with a selector behind it, as it is written, reads back as that ID and that
/// selector.
pub proof fn law_written_request_reads_back(id: Seq<char>, selector: ChunkSelector)
    requires
        is_file_id(id),
        is_valid_selector(selector),
    ensures
        request_of(id + selector_suffix(selector)) == Ok::<(Seq<char>, ChunkSelector), Seq<char>>(
            (id, selector),
        ),
{
    let t = id + selector_suffix(selector);
    assert(is_hex(id[0]));
    assert forall|i: int| 0 <= i < 16 implies id[i] != ':' by {
        assert(is_hex(id[i]));
    }
    if selector == ChunkSelector::All {
        assert(t =~= id);
        assert(is_hex(id[15]));
        lemma_nothing_to_trim(t);
    } else {
        reveal_strlit(":");
        let s = selector_suffix(selector).skip(1);
        assert(selector_suffix(selector) =~= ":"@ + s);
        lemma_selector_reads_back(selector, s);
        assert(t[0] == id[0]);
        assert(t.last() == s.last());
        lemma_nothing_to_trim(t);
        assert(t[16] == ':');
        assert forall|i: int| 0 <= i < 16 implies t[i] != ':' by {
            assert(t[i] == id[i]);
        }
        lemma_position_is(t, ':', 16);
        assert(t.take(16) =~= id);
        assert(t.skip(17) =~= s);
    }
}

/// What a request is taken for is always a file ID and a selector that makes sense.
pub proof fn law_accepted_requests_are_valid(s: Seq<char>)
    ensures
        request_of(s) matches Ok((id, selector)) ==> is_file_id(id) && is_valid_selector(selector),
{
}

proof fn lemma_trim_start(white: Seq<char>, s: Seq<char>)
    requires
        forall|i: int| 0 <= i < white.len() ==> is_white(#[trigger] white[i]),
    ensures
        trimmed_start(white + s) == trimmed_start(s),
    decreases white.len(),
{
    if white.len() == 0 {
        assert(white + s =~= s);
    } else {
        assert((white + s)[0] == white[0]);
        assert((white + s).skip(1) =~= white.skip(1) + s);
        lemma_trim_start(white.skip(1), s);
    }
}

proof fn lemma_trim_end(s: Seq<char>, white: Seq<char>)
    requires
        forall|i: int| 0 <= i < white.len() ==> is_white(#[trigger] white[i]),
    ensures
        trimmed_end(s + white) == trimmed_end(s),
    decreases white.len(),
{
    if white.len() == 0 {
        assert(s + white =~= s);
    } else {
        assert((s + white).last() == white.last());
        assert((s + white).drop_last() =~= s + white.drop_last());
        lemma_trim_end(s, white.drop_last());
    }
}

proof fn lemma_trim_behind(s: Seq<char>, white: Seq<char>)
    requires
        forall|i: int| 0 <= i < white.len() ==> is_white(#[trigger] white[i]),
    ensures
        trimmed(s + white) == trimmed(s),
    decreases s.len(),
{
    if s.len() == 0 {
        let none = Seq::<char>::empty();
        assert(s + white =~= white + none);
        lemma_trim_start(white, none);
        assert(s =~= none);
    } else if is_white(s[0]) {
        assert((s + white)[0] == s[0]);
        assert((s + white).skip(1) =~= s.skip(1) + white);
        lemma_trim_behind(s.skip(1), white);
    } else {
        assert((s + white)[0] == s[0]);
        lemma_trim_end(s, white);
    }
}

/// White space around a request does not change what it means.
pub proof fn law_outer_white_space_is_ignored(
    before: Seq<char>,
    s: Seq<char>,
    behind: Seq<char>,
)
    requires
        forall|i: int| 0 <= i < before.len() ==> is_white(#[trigger] before[i]),
        forall|i: int| 0 <= i < behind.len() ==> is_white(#[trigger] behind[i]),
    ensures
        request_of(before + s + behind) == request_of(s),
{
    assert(before + s + behind =~= before + (s + behind));
    lemma_trim_start(before, s + behind);
    lemma_trim_behind(s, behind);
}

/// One chunk is the same as a range that starts and ends with it, and the chunks from the
/// first one on are all chunks.
pub proof fn law_selectors_agree(n: usize, chunk_number: usize)
    ensures
        selects(ChunkSelector::Single(n), chunk_number) == selects(
            ChunkSelector::Range(n, n),
            chunk_number,
        ),
        chunk_number >= 1 ==> selects(ChunkSelector::ToEnd(1), chunk_number) == selects(
            ChunkSelector::All,
            chunk_number,
        ),
{
}

/// A range selects each chunk from its start to its end, both among them, and no other;
/// without an end it selects all from its start on, and all chunks are selected where
/// nothing is said.
pub proof fn law_range_selects_all_between(start: usize, end: usize, chunk_number: usize)
    ensures
        selects(ChunkSelector::Range(start, end), chunk_number) <==> start <= chunk_number
            && chunk_number <= end,
        selects(ChunkSelector::Range(start, end), chunk_number) <==> selects(
            ChunkSelector::ToEnd(start),
            chunk_number,
        ) && chunk_number <= end,
        selects(ChunkSelector::ToEnd(start), chunk_number) <==> start <= chunk_number,
        selects(ChunkSelector::Single(start), chunk_number) <==> chunk_number == start,
        selects(ChunkSelector::All, chunk_number),
{
}

/// Two ranges of which one follows on the other select what the range over both selects.
pub proof fn law_ranges_add_up(start: usize, mid: usize, end: usize, chunk_number: usize)
    requires
        start <= mid < end,
    ensures
        selects(ChunkSelector::Range(start, end), chunk_number) <==> selects(
            ChunkSelector::Range(start, mid),
            chunk_number,
        ) || selects(ChunkSelector::Range((mid + 1) as usize, end), chunk_number),
{
}

/// What each form of a request means, for every file ID and all positions that make
/// sense: the ID alone, `:N`, `:N-M` and `:N-end`.
#[verifier::spinoff_prover]
#[verifier::rlimit(30)]
pub proof fn law_forms_of_requests(id: Seq<char>, n: usize, m: usize)
    requires
        is_file_id(id),
        1 <= n <= m,
    ensures
        request_of(id) == Ok::<(Seq<char>, ChunkSelector), Seq<char>>((id, ChunkSelector::All)),
        request_of(id + ":"@ + decimal(n as nat)) == Ok::<(Seq<char>, ChunkSelector), Seq<char>>(
            (id, ChunkSelector::Single(n)),
        ),
        request_of(id + ":"@ + decimal(n as nat) + "-"@ + decimal(m as nat)) == Ok::<
            (Seq<char>, ChunkSelector),
            Seq<char>,
        >((id, ChunkSelector::Range(n, m))),
        request_of(id + ":"@ + decimal(n as nat) + "-end"@) == Ok::<
            (Seq<char>, ChunkSelector),
            Seq<char>,
        >((id, ChunkSelector::ToEnd(n))),
{
    law_written_request_reads_back(id, ChunkSelector::All);
    law_written_request_reads_back(id, ChunkSelector::Single(n));
    law_written_request_reads_back(id, ChunkSelector::Range(n, m));
    law_written_request_reads_back(id, ChunkSelector::ToEnd(n));
    let a = decimal(n as nat);
    let b = decimal(m as nat);
    assert(id + selector_suffix(ChunkSelector::All) =~= id);
    assert(id + selector_suffix(ChunkSelector::Single(n)) =~= id + ":"@ + a);
    assert(id + selector_suffix(ChunkSelector::Range(n, m)) =~= id + ":"@ + a + "-"@ + b);
    assert(id + selector_suffix(ChunkSelector::ToEnd(n)) =~= id + ":"@ + a + "-end"@);
}

/// A file ID is sixteen hexadecimal digits of either case, and nothing else is one.
pub proof fn law_file_ids(s: Seq<char>)
    ensures
        is_file_id(s) ==> s.len() == 16,
        is_file_id(s) ==> forall|i: int|
            0 <= i < 16 ==> ('0' <= #[trigger] s[i] && s[i] <= '9') || ('a' <= s[i] && s[i] <= 'f')
                || ('A' <= s[i] && s[i] <= 'F'),
        s.len() == 16 && (forall|i: int|
            0 <= i < 16 ==> ('0' <= #[trigger] s[i] && s[i] <= '9') || ('a' <= s[i] && s[i] <= 'f')
                || ('A' <= s[i] && s[i] <= 'F')) ==> is_file_id(s),
{
}

proof fn lemma_bare(id: Seq<char>, s: Seq<char>)
    requires
        is_file_id(id),
        s.len() > 0,
        !is_white(s.last()),
    ensures
        request_of(id + ":"@ + s) == match selector_of(s) {
            Ok(selector) => Ok((id, selector)),
            Err(message) => Err(message),
        },
{
    reveal_strlit(":");
    let t = id + ":"@ + s;
    assert(is_hex(id[0]));
    assert(t[0] == id[0]);
    assert(t.last() == s.last());
    lemma_nothing_to_trim(t);
    assert(t[16] == ':');
    assert forall|i: int| 0 <= i < 16 implies t[i] != ':' by {
        assert(t[i] == id[i]);
        assert(is_hex(id[i]));
    }
    lemma_position_is(t, ':', 16);
    assert(t.take(16) =~= id);
    assert(t.skip(17) =~= s);
}

/// Positions start at one and ranges do not run backwards: a position zero and a range
/// whose start lies behind its end are refused, with both numbers in the complaint.
#[verifier::spinoff_prover]
#[verifier::rlimit(30)]
pub proof fn law_senseless_positions_are_refused(id: Seq<char>, n: usize, m: usize)
    requires
        is_file_id(id),
    ensures
        request_of(id + ":"@ + decimal(0)) == Err::<(Seq<char>, ChunkSelector), Seq<char>>(
            "Chunk numbers are 1-indexed, got "@ + decimal(0),
        ),
        request_of(id + ":"@ + decimal(0) + "-end"@) == Err::<
            (Seq<char>, ChunkSelector),
            Seq<char>,
        >("Chunk numbers are 1-indexed, got "@ + decimal(0)),
        n == 0 || m == 0 ==> request_of(
            id + ":"@ + decimal(n as nat) + "-"@ + decimal(m as nat),
        ) == Err::<(Seq<char>, ChunkSelector), Seq<char>>(
            "Chunk numbers are 1-indexed, got "@ + decimal(n as nat) + ":"@ + decimal(m as nat),
        ),
        n > m > 0 ==> request_of(id + ":"@ + decimal(n as nat) + "-"@ + decimal(m as nat))
            == Err::<(Seq<char>, ChunkSelector), Seq<char>>(
            "Start chunk "@ + decimal(n as nat) + " > end chunk "@ + decimal(m as nat),
        ),
{
    reveal_strlit("end");
    reveal_strlit("-end");
    reveal_strlit(":");
    reveal_strlit("-");
    let z = decimal(0);
    let a = decimal(n as nat);
    let b = decimal(m as nat);
    lemma_number_reads_back(0);
    lemma_number_reads_back(n);
    lemma_number_reads_back(m);
    assert(is_digit(z[0]) && is_digit(z.last()));
    assert(is_digit(a[0]) && is_digit(a.last()));
    assert(is_digit(b[0]) && is_digit(b.last()));
    if "-end"@.is_suffix_of(z) {
        assert("-end"@[3] == z[z.len() - 1]);
    }
    lemma_bare(id, z);
    let open = z + "-end"@;
    assert(open.last() == 'd');
    assert(open[0] == z[0]);
    assert(open.subrange(open.len() - 4, open.len() as int) =~= "-end"@);
    assert(open.take(open.len() - 4) =~= z);
    lemma_bare(id, open);
    assert(id + ":"@ + z + "-end"@ =~= id + ":"@ + open);
    let s = a + "-"@ + b;
    assert(s[0] == a[0]);
    assert(s.last() == b.last());
    if "-end"@.is_suffix_of(s) {
        assert("-end"@[3] == s[s.len() - 1]);
    }
    assert(s[a.len() as int] == '-');
    assert forall|i: int| 0 <= i < a.len() implies s[i] != '-' by {
        assert(s[i] == a[i]);
        assert(is_digit(a[i]));
    }
    lemma_position_is(s, '-', a.len() as int);
    assert(s.take(a.len() as int) =~= a);
    assert(s.skip(a.len() as int + 1) =~= b);
    lemma_bare(id, s);
    assert(id + ":"@ + a + "-"@ + b =~= id + ":"@ + s);
}

/// A request whose ID, up to the first colon or to the end, is no file ID is refused with
/// that ID in the complaint, whatever follows.
#[verifier::spinoff_prover]
#[verifier::rlimit(30)]
pub proof fn law_bad_file_ids_are_refused(id: Seq<char>, behind: Seq<char>)
    requires
        id.len() > 0,
        !is_white(id[0]),
        !is_white(id.last()),
        !id.contains(':'),
        !is_file_id(id),
        behind.len() > 0 ==> !is_white(behind.last()),
    ensures
        request_of(id) == Err::<(Seq<char>, ChunkSelector), Seq<char>>(
            "Invalid file ID '"@ + id + "'. Expected 16 hex characters."@,
        ),
        request_of(id + ":"@ + behind) == Err::<(Seq<char>, ChunkSelector), Seq<char>>(
            "Invalid file ID '"@ + id + "'. Expected 16 hex characters."@,
        ),
{
    reveal_strlit(":");
    lemma_nothing_to_trim(id);
    let t = id + ":"@ + behind;
    assert(t[0] == id[0]);
    assert(t.last() == if behind.len() > 0 {
        behind.last()
    } else {
        ':'
    });
    lemma_nothing_to_trim(t);
    assert(t[id.len() as int] == ':');
    assert forall|i: int| 0 <= i < id.len() implies t[i] != ':' by {
        assert(t[i] == id[i]);
        if id[i] == ':' {
            assert(id.contains(':'));
        }
    }
    lemma_position_is(t, ':', id.len() as int);
    assert(t.take(id.len() as int) =~= id);
}

/// What follows the colon is refused where it names no number: `end` alone, a text without
/// a dash that is no number, and one before `-end` that is none. The complaint names the
/// text as it was written.
#[verifier::spinoff_prover]
#[verifier::rlimit(30)]
pub proof fn law_unreadable_selectors_are_refused(id: Seq<char>, a: Seq<char>)
    requires
        is_file_id(id),
        a.len() > 0,
        !is_white(a.last()),
        !a.contains('-'),
        number_of(a) is None,
    ensures
        request_of(id + ":"@ + "end"@) == Err::<(Seq<char>, ChunkSelector), Seq<char>>(
            "Invalid selector ':end'. Use ':N-end' format."@,
        ),
        a != "end"@ ==> request_of(id + ":"@ + a) == Err::<(Seq<char>, ChunkSelector), Seq<char>>(
            "Invalid chunk number in selector '"@ + a + "'"@,
        ),
        request_of(id + ":"@ + (a + "-end"@)) == Err::<(Seq<char>, ChunkSelector), Seq<char>>(
            "Invalid chunk number in selector '"@ + (a + "-end"@) + "'"@,
        ),
{
    reveal_strlit("end");
    reveal_strlit("-end");
    lemma_bare(id, "end"@);
    lemma_bare(id, a);
    if "-end"@.is_suffix_of(a) {
        assert(a[a.len() - 4] == "-end"@[0]);
    }
    let open = a + "-end"@;
    assert(open.last() == 'd');
    assert(open.subrange(open.len() - 4, open.len() as int) =~= "-end"@);
    assert(open.take(open.len() - 4) =~= a);
    assert(open[a.len() as int] == '-');
    assert("end"@.len() == 3);
    assert(open.len() > 3);
    lemma_bare(id, open);
}

/// A range is refused where it holds a second dash, or where its start or its end is no
/// number. The complaint names the range as it was written.
#[verifier::spinoff_prover]
#[verifier::rlimit(30)]
pub proof fn law_unreadable_ranges_are_refused(id: Seq<char>, a: Seq<char>, b: Seq<char>)
    requires
        is_file_id(id),
        !a.contains('-'),
        b.len() > 0,
        !is_white(b.last()),
        !"-end"@.is_suffix_of(a + "-"@ + b),
    ensures
        ({
            let s = a + "-"@ + b;
            let r = request_of(id + ":"@ + s);
            &&& b.contains('-') ==> r == Err::<(Seq<char>, ChunkSelector), Seq<char>>(
                "Invalid selector '"@ + s + "'. Expected ':N-M' format."@,
            )
            &&& !b.contains('-') && number_of(a) is None ==> r == Err::<
                (Seq<char>, ChunkSelector),
                Seq<char>,
            >("Invalid start chunk in selector '"@ + s + "'"@)
            &&& !b.contains('-') && number_of(a) is Some && number_of(b) is None ==> r == Err::<
                (Seq<char>, ChunkSelector),
                Seq<char>,
            >("Invalid end chunk in selector '"@ + s + "'"@)
        }),
{
    let s = a + "-"@ + b;
    assert(selector_of(s) == range_of(s) && range_of(s) == range_parts(s, a, b)) by {
        reveal_strlit("end");
        reveal_strlit("-");
        assert(s[a.len() as int] == '-');
        assert forall|i: int| 0 <= i < a.len() implies s[i] != '-' by {
            assert(s[i] == a[i]);
            if a[i] == '-' {
                assert(a.contains('-'));
            }
        }
        assert(s.contains('-'));
        lemma_position_is(s, '-', a.len() as int);
        assert(s.take(a.len() as int) =~= a);
        assert(s.skip(a.len() as int + 1) =~= b);
        if s == "end"@ {
            assert("end"@[a.len() as int] == '-');
        }
    }
    assert(s.last() == b.last());
    lemma_bare(id, s);
}

spec fn range_parts(s: Seq<char>, a: Seq<char>, b: Seq<char>) -> Result<ChunkSelector, Seq<char>> {
    if b.contains('-') {
        Err("Invalid selector '"@ + s + "'. Expected ':N-M' format."@)
    } else if number_of(a) is None {
        Err("Invalid start chunk in selector '"@ + s + "'"@)
    } else if number_of(b) is None {
        Err("Invalid end chunk in selector '"@ + s + "'"@)
    } else {
        range_of(s)
    }
}

/// Of several requests the complaint about the first one that is refused comes back, and
/// none where all are accepted.
pub proof fn law_first_complaint_counts(specs: Seq<Seq<char>>, i: int)
    requires
        0 <= i <= specs.len(),
        forall|k: int| 0 <= k < i ==> request_of(#[trigger] specs[k]) is Ok,
    ensures
        i == specs.len() ==> first_complaint(specs) is None,
        i < specs.len() && request_of(specs[i]) is Err ==> first_complaint(specs) == Some(
            request_of(specs[i])->Err_0,
        ),
    decreases specs.len(),
{
    if i > 0 {
        assert(request_of(specs[0]) is Ok);
        assert forall|k: int| 0 <= k < i - 1 implies request_of(
            #[trigger] specs.skip(1)[k],
        ) is Ok by {
            assert(specs.skip(1)[k] == specs[k + 1]);
        }
        law_first_complaint_counts(specs.skip(1), i - 1);
    }
}

} // verus!
