//! Finding, cutting and dropping parts of a text.

use vstd::prelude::*;
use vstd::string::*;

use crate::text::{chars_of, string_of, texts};

verus! {

// ---------------------------------------------------------------------------
// White space
// ---------------------------------------------------------------------------

/// The characters with the Unicode property `White_Space`.
pub open spec fn is_white(c: char) -> bool {
    ||| '\u{9}' <= c <= '\u{d}'
    ||| c == ' '
    ||| c == '\u{85}'
    ||| c == '\u{a0}'
    ||| c == '\u{1680}'
    ||| '\u{2000}' <= c <= '\u{200a}'
    ||| c == '\u{2028}'
    ||| c == '\u{2029}'
    ||| c == '\u{202f}'
    ||| c == '\u{205f}'
    ||| c == '\u{3000}'
}

/// Whether a character has the Unicode property `White_Space`.
pub fn white(c: char) -> (r: bool)
    ensures
        r == is_white(c),
{
    ('\u{9}' <= c && c <= '\u{d}') || c == ' ' || c == '\u{85}' || c == '\u{a0}' || c == '\u{1680}'
        || ('\u{2000}' <= c && c <= '\u{200a}') || c == '\u{2028}' || c == '\u{2029}' || c
        == '\u{202f}' || c == '\u{205f}' || c == '\u{3000}'
}

/// A text from its first character that is not white space.
pub open spec fn trimmed_start(s: Seq<char>) -> Seq<char>
    decreases s.len(),
{
    if s.len() > 0 && is_white(s[0]) {
        trimmed_start(s.skip(1))
    } else {
        s
    }
}

/// A text up to its last character that is not white space.
pub open spec fn trimmed_end(s: Seq<char>) -> Seq<char>
    decreases s.len(),
{
    if s.len() > 0 && is_white(s.last()) {
        trimmed_end(s.drop_last())
    } else {
        s
    }
}

/// A text without the white space around it.
pub open spec fn trimmed(s: Seq<char>) -> Seq<char> {
    trimmed_end(trimmed_start(s))
}

/// The bounds of the text within `v` that is left when the white space around it
/// is dropped.
pub fn trim_bounds(v: &Vec<char>) -> (r: (usize, usize))
    ensures
        r.0 <= r.1 <= v@.len(),
        v@.subrange(r.0 as int, r.1 as int) == trimmed(v@),
{
    let mut from: usize = 0;
    assert(v@.skip(0) =~= v@);
    while from < v.len() && white(v[from])
        invariant
            from <= v@.len(),
            trimmed_start(v@.skip(from as int)) == trimmed_start(v@),
        decreases v@.len() - from,
    {
        assert(v@.skip(from as int).skip(1) =~= v@.skip(from + 1));
        from = from + 1;
    }
    assert(trimmed_start(v@) == v@.skip(from as int));
    let mut to: usize = v.len();
    assert(v@.subrange(from as int, to as int) =~= v@.skip(from as int));
    while to > from && white(v[to - 1])
        invariant
            from <= to <= v@.len(),
            trimmed_end(v@.subrange(from as int, to as int)) == trimmed(v@),
        decreases to,
    {
        assert(v@.subrange(from as int, to as int).drop_last() =~= v@.subrange(
            from as int,
            to - 1,
        ));
        assert(v@.subrange(from as int, to as int).last() == v@[to - 1]);
        to = to - 1;
    }
    (from, to)
}

// ---------------------------------------------------------------------------
// Positions
// ---------------------------------------------------------------------------

/// The position of the first `c` in a text, or the text's length when it has none.
pub open spec fn position(s: Seq<char>, c: char) -> int
    decreases s.len(),
{
    if s.len() == 0 || s[0] == c {
        0
    } else {
        1 + position(s.skip(1), c)
    }
}

/// What the first position of a character is.
pub proof fn lemma_position(s: Seq<char>, c: char)
    ensures
        0 <= position(s, c) <= s.len(),
        forall|i: int| 0 <= i < position(s, c) ==> s[i] != c,
        position(s, c) < s.len() ==> s[position(s, c)] == c,
        position(s, c) < s.len() <==> s.contains(c),
    decreases s.len(),
{
    if s.len() > 0 && s[0] != c {
        lemma_position(s.skip(1), c);
        let p = position(s.skip(1), c);
        assert forall|i: int| 0 <= i < 1 + p implies s[i] != c by {
            if i > 0 {
                assert(s[i] == s.skip(1)[i - 1]);
            }
        }
        if s.contains(c) {
            let k = choose|k: int| 0 <= k < s.len() && s[k] == c;
            assert(s.skip(1)[k - 1] == c);
        }
    }
}

/// A position that holds `c`, with no `c` before it, is the first one.
pub proof fn lemma_position_is(s: Seq<char>, c: char, p: int)
    requires
        0 <= p <= s.len(),
        forall|i: int| 0 <= i < p ==> s[i] != c,
        p < s.len() ==> s[p] == c,
    ensures
        position(s, c) == p,
{
    lemma_position(s, c);
}

/// The first position at or after `from` that holds `c`, or `to` when none before
/// `to` does.
pub fn find_char(v: &Vec<char>, from: usize, to: usize, c: char) -> (r: usize)
    requires
        from <= to <= v@.len(),
    ensures
        from <= r <= to,
        r - from == position(v@.subrange(from as int, to as int), c),
        forall|i: int| from <= i < r ==> v@[i] != c,
        r < to ==> v@[r as int] == c,
{
    let mut i: usize = from;
    while i < to && v[i] != c
        invariant
            from <= i <= to <= v@.len(),
            forall|k: int| from <= k < i ==> v@[k] != c,
        decreases to - i,
    {
        i = i + 1;
    }
    proof {
        lemma_position_is(v@.subrange(from as int, to as int), c, i - from);
    }
    i
}

/// Whether the characters of `v` from `at` on start with `part`.
pub fn starts_at(v: &Vec<char>, at: usize, part: &Vec<char>) -> (r: bool)
    requires
        at <= v@.len(),
    ensures
        r == part@.is_prefix_of(v@.skip(at as int)),
{
    if part.len() > v.len() - at {
        return false;
    }
    let n: usize = v.len();
    let mut i: usize = 0;
    while i < part.len()
        invariant
            n == v@.len(),
            at <= n,
            part@.len() <= n - at,
            i <= part@.len(),
            forall|k: int| 0 <= k < i ==> part@[k] == v@[at + k],
        decreases part@.len() - i,
    {
        if part[i] != v[at + i] {
            assert(v@.skip(at as int)[i as int] != part@[i as int]);
            return false;
        }
        i = i + 1;
    }
    assert(part@ =~= v@.skip(at as int).subrange(0, part@.len() as int));
    true
}

/// Whether a text ends with another.
pub fn ends_with(s: &str, end: &str) -> (r: bool)
    ensures
        r == end@.is_suffix_of(s@),
{
    let v = chars_of(s);
    let part = chars_of(end);
    if part.len() > v.len() {
        return false;
    }
    let at: usize = v.len() - part.len();
    let r = starts_at(&v, at, &part);
    proof {
        let tail = s@.skip(at as int);
        assert(tail.subrange(0, tail.len() as int) =~= tail);
        assert(tail =~= s@.subrange(at as int, s@.len() as int));
    }
    r
}

// ---------------------------------------------------------------------------
// Occurrences
// ---------------------------------------------------------------------------

/// Whether a text holds another somewhere.
pub open spec fn occurs(part: Seq<char>, s: Seq<char>) -> bool {
    exists|i: int| 0 <= i <= s.len() && #[trigger] part.is_prefix_of(s.skip(i))
}

/// A text without the occurrences of `part`, taken from left to right and without
/// overlap.
pub open spec fn without(s: Seq<char>, part: Seq<char>) -> Seq<char>
    decreases s.len(),
{
    if s.len() == 0 {
        Seq::empty()
    } else if part.len() > 0 && part.is_prefix_of(s) {
        without(s.skip(part.len() as int), part)
    } else {
        seq![s[0]] + without(s.skip(1), part)
    }
}

/// Whether a text holds another somewhere.
pub fn holds(s: &str, part: &str) -> (r: bool)
    ensures
        r == occurs(part@, s@),
{
    let v = chars_of(s);
    let p = chars_of(part);
    let mut i: usize = 0;
    loop
        invariant
            i <= v@.len(),
            v@ == s@,
            p@ == part@,
            forall|k: int| 0 <= k < i ==> !#[trigger] part@.is_prefix_of(s@.skip(k)),
        decreases v@.len() - i,
    {
        if starts_at(&v, i, &p) {
            return true;
        }
        if i == v.len() {
            return false;
        }
        i = i + 1;
    }
}

/// A text without the occurrences of `part`.
pub fn remove_all(s: &str, part: &str) -> (r: String)
    ensures
        r@ == without(s@, part@),
{
    let v = chars_of(s);
    let p = chars_of(part);
    let mut out = String::new();
    let mut i: usize = 0;
    assert(v@.skip(0) =~= v@);
    assert(out@ + without(s@, part@) =~= without(s@, part@));
    while i < v.len()
        invariant
            i <= v@.len(),
            v@ == s@,
            p@ == part@,
            out@ + without(s@.skip(i as int), part@) == without(s@, part@),
        decreases v@.len() - i,
    {
        let ghost rest = s@.skip(i as int);
        if p.len() > 0 && starts_at(&v, i, &p) {
            assert(rest.skip(part@.len() as int) =~= s@.skip(i + part@.len()));
            i = i + p.len();
        } else {
            assert(rest.skip(1) =~= s@.skip(i + 1));
            assert(out@.push(rest[0]) + without(rest.skip(1), part@) =~= out@ + (seq![rest[0]]
                + without(rest.skip(1), part@)));
            out.push(v[i]);
            i = i + 1;
        }
    }
    assert(out@ + Seq::<char>::empty() =~= out@);
    out
}

/// A text that does not hold `part` is left as it is.
pub proof fn lemma_nothing_to_remove(s: Seq<char>, part: Seq<char>)
    requires
        !occurs(part, s),
    ensures
        without(s, part) == s,
    decreases s.len(),
{
    if s.len() > 0 {
        assert(s.skip(0) =~= s);
        assert forall|i: int| 0 <= i <= s.skip(1).len() implies !#[trigger] part.is_prefix_of(
            s.skip(1).skip(i),
        ) by {
            assert(s.skip(1).skip(i) =~= s.skip(i + 1));
        }
        lemma_nothing_to_remove(s.skip(1), part);
        assert(seq![s[0]] + s.skip(1) =~= s);
    } else {
        assert(s =~= Seq::<char>::empty());
    }
}

// ---------------------------------------------------------------------------
// Lines
// ---------------------------------------------------------------------------

/// A line without the carriage return that a line feed followed.
pub open spec fn without_return(s: Seq<char>) -> Seq<char> {
    if s.len() > 0 && s.last() == '\r' {
        s.drop_last()
    } else {
        s
    }
}

/// The lines of a text. A line ends at a line feed, or at a carriage return and a
/// line feed; a last line need not end, and what follows the last ending, if it is
/// empty, is no line.
pub open spec fn lines(s: Seq<char>) -> Seq<Seq<char>>
    decreases s.len(),
{
    let p = position(s, '\n');
    if s.len() == 0 {
        Seq::empty()
    } else if p < 0 || p >= s.len() {
        seq![s]
    } else {
        seq![without_return(s.take(p))] + lines(s.skip(p + 1))
    }
}

/// The first `n` items of a list, or all of them when there are fewer.
pub open spec fn at_most<A>(list: Seq<A>, n: int) -> Seq<A> {
    if list.len() <= n {
        list
    } else {
        list.take(n)
    }
}

/// The lines of a text.
pub fn split_lines(s: &str) -> (r: Vec<String>)
    ensures
        texts(r@) == lines(s@),
{
    let v = chars_of(s);
    let mut out: Vec<String> = Vec::new();
    let mut i: usize = 0;
    assert(v@.skip(0) =~= v@);
    assert(texts(out@) + lines(s@) =~= lines(s@));
    while i < v.len()
        invariant
            i <= v@.len(),
            v@ == s@,
            texts(out@) + lines(s@.skip(i as int)) == lines(s@),
        decreases v@.len() - i,
    {
        let ghost rest = s@.skip(i as int);
        assert(v@.subrange(i as int, v@.len() as int) =~= rest);
        let p = find_char(&v, i, v.len(), '\n');
        if p == v.len() {
            let line = string_of(&v, i, v.len());
            proof {
                assert(lines(rest) =~= seq![rest]);
                assert(texts(out@.push(line)) =~= texts(out@).push(rest));
                assert(texts(out@) + seq![rest] =~= texts(out@).push(rest));
                assert(s@.skip(v@.len() as int) =~= Seq::<char>::empty());
                assert(texts(out@.push(line)) + Seq::<Seq<char>>::empty() =~= texts(
                    out@.push(line),
                ));
            }
            out.push(line);
            i = v.len();
        } else {
            let end: usize = if p > i && v[p - 1] == '\r' {
                p - 1
            } else {
                p
            };
            let line = string_of(&v, i, end);
            proof {
                let head = rest.take(p - i);
                assert(head =~= v@.subrange(i as int, p as int));
                assert(line@ =~= without_return(head));
                assert(rest.skip(p - i + 1) =~= s@.skip(p + 1));
                assert(texts(out@.push(line)) =~= texts(out@).push(line@));
                assert(texts(out@).push(line@) + lines(s@.skip(p + 1)) =~= texts(out@) + (
                seq![line@] + lines(s@.skip(p + 1))));
            }
            out.push(line);
            i = p + 1;
        }
    }
    assert(s@.skip(v@.len() as int) =~= Seq::<char>::empty());
    assert(texts(out@) + Seq::<Seq<char>>::empty() =~= texts(out@));
    out
}

// ---------------------------------------------------------------------------
// Laws
// ---------------------------------------------------------------------------

/// Text up to a line feed, without a carriage return right before it, is the first line,
/// and what follows has its lines as before. Text without a line feed is one line as it
/// stands, and no text is no line.
pub proof fn law_a_line_feed_ends_a_line(line: Seq<char>, rest: Seq<char>)
    requires
        !line.contains('\n'),
    ensures
        lines(Seq::empty()) == Seq::<Seq<char>>::empty(),
        line.len() > 0 ==> lines(line) == seq![line],
        lines(line + seq!['\n'] + rest) == seq![
            if line.len() > 0 && line.last() == '\r' {
                line.drop_last()
            } else {
                line
            },
        ] + lines(rest),
{
    lemma_position(line, '\n');
    let s = line + seq!['\n'] + rest;
    assert(s[line.len() as int] == '\n');
    assert forall|i: int| 0 <= i < line.len() implies s[i] != '\n' by {
        assert(s[i] == line[i]);
        if line[i] == '\n' {
            assert(line.contains('\n'));
        }
    }
    lemma_position_is(s, '\n', line.len() as int);
    assert(s.take(line.len() as int) =~= line);
    assert(s.skip(line.len() as int + 1) =~= rest);
}

/// The first lines of a text do not depend on what follows them.
pub proof fn law_lines_come_in_order(head: Seq<char>, rest: Seq<char>)
    requires
        head.len() > 0,
        head.last() == '\n',
    ensures
        lines(head + rest) == lines(head) + lines(rest),
    decreases head.len(),
{
    let p = position(head, '\n');
    lemma_position(head, '\n');
    assert(head[head.len() - 1] == '\n');
    assert(head.contains('\n'));
    let line = head.take(p);
    let more = head.skip(p + 1);
    assert(!line.contains('\n'));
    assert(head =~= line + seq!['\n'] + more);
    assert(head + rest =~= line + seq!['\n'] + (more + rest));
    law_a_line_feed_ends_a_line(line, more);
    law_a_line_feed_ends_a_line(line, more + rest);
    if more.len() == 0 {
        assert(more + rest =~= rest);
        assert(more =~= Seq::<char>::empty());
        assert(lines(head + rest) =~= lines(head) + lines(rest));
    } else {
        assert(more.last() == head.last());
        law_lines_come_in_order(more, rest);
        assert(lines(head + rest) =~= lines(head) + lines(rest));
    }
}

/// What is left between the white space around a text: the text is white space, what is
/// left, and white space, and what is left neither starts nor ends with any.
pub proof fn law_trimming_takes_white_space_alone(s: Seq<char>) -> (around: (Seq<char>, Seq<char>))
    ensures
        s == around.0 + trimmed(s) + around.1,
        forall|i: int| 0 <= i < around.0.len() ==> is_white(#[trigger] around.0[i]),
        forall|i: int| 0 <= i < around.1.len() ==> is_white(#[trigger] around.1[i]),
        trimmed(s).len() > 0 ==> !is_white(trimmed(s)[0]) && !is_white(trimmed(s).last()),
    decreases s.len(),
{
    if s.len() > 0 && is_white(s[0]) {
        let rest = law_trimming_takes_white_space_alone(s.skip(1));
        assert(trimmed(s) == trimmed(s.skip(1)));
        let before = seq![s[0]] + rest.0;
        assert(s =~= before + trimmed(s) + rest.1) by {
            assert(s =~= seq![s[0]] + s.skip(1));
            assert(s.skip(1) == rest.0 + trimmed(s) + rest.1);
        }
        assert forall|i: int| 0 <= i < before.len() implies is_white(#[trigger] before[i]) by {
            if i > 0 {
                assert(before[i] == rest.0[i - 1]);
            }
        }
        (before, rest.1)
    } else {
        let behind = lemma_trimmed_end(s);
        assert(trimmed(s) == trimmed_end(s));
        assert(Seq::<char>::empty() + trimmed(s) + behind =~= s);
        if trimmed(s).len() > 0 {
            assert(trimmed(s)[0] == s[0]);
        }
        (Seq::empty(), behind)
    }
}

proof fn lemma_trimmed_end(s: Seq<char>) -> (behind: Seq<char>)
    ensures
        s == trimmed_end(s) + behind,
        forall|i: int| 0 <= i < behind.len() ==> is_white(#[trigger] behind[i]),
        trimmed_end(s).len() > 0 ==> !is_white(trimmed_end(s).last()),
    decreases s.len(),
{
    if s.len() > 0 && is_white(s.last()) {
        let rest = lemma_trimmed_end(s.drop_last());
        let behind = rest.push(s.last());
        assert(s =~= trimmed_end(s) + behind) by {
            assert(s =~= s.drop_last().push(s.last()));
            assert(s.drop_last() == trimmed_end(s.drop_last()) + rest);
        }
        assert forall|i: int| 0 <= i < behind.len() implies is_white(#[trigger] behind[i]) by {
            if i < rest.len() {
                assert(behind[i] == rest[i]);
            }
        }
        behind
    } else {
        assert(s + Seq::<char>::empty() =~= s);
        Seq::empty()
    }
}

/// White space is the twenty-five characters that Unicode calls so: blanks, tabs and ends
/// of lines of all kinds; letters, digits and signs are none.
pub proof fn law_what_is_white_space(c: char)
    ensures
        c == ' ' || c == '\t' || c == '\n' || c == '\r' ==> is_white(c),
        '!' <= c <= '~' ==> !is_white(c),
        is_white(c) <==> ({
            let n = c as u32;
            9 <= n <= 13 || n == 32 || n == 133 || n == 160 || n == 5760 || 8192 <= n <= 8202 || n
                == 8232 || n == 8233 || n == 8239 || n == 8287 || n == 12288
        }),
{
}

/// A text holds another exactly where it can be cut into something, the other text and
/// something more.
pub proof fn law_what_a_text_holds(before: Seq<char>, part: Seq<char>, behind: Seq<char>, s: Seq<char>)
    ensures
        occurs(part, before + part + behind),
        occurs(part, s) ==> exists|i: int|
            0 <= i <= s.len() - part.len() && #[trigger] s.subrange(i, i + part.len()) == part,
{
    let whole = before + part + behind;
    let at = whole.skip(before.len() as int);
    assert(at.subrange(0, part.len() as int) =~= part);
    assert(part.is_prefix_of(at));
    if occurs(part, s) {
        let i = choose|i: int| 0 <= i <= s.len() && #[trigger] part.is_prefix_of(s.skip(i));
        assert(s.skip(i).subrange(0, part.len() as int) =~= part);
        assert(s.subrange(i, i + part.len()) =~= part);
    }
}

/// What is removed is each occurrence, from the left: text before the first one is kept,
/// and what follows it is treated alike.
pub proof fn law_removing_goes_from_left_to_right(
    before: Seq<char>,
    part: Seq<char>,
    behind: Seq<char>,
)
    requires
        part.len() > 0,
        forall|i: int|
            0 <= i < before.len() ==> !#[trigger] part.is_prefix_of(
                (before + part + behind).skip(i),
            ),
    ensures
        without(before + part + behind, part) == before + without(behind, part),
    decreases before.len(),
{
    let s = before + part + behind;
    if before.len() == 0 {
        assert(s =~= part + behind);
        assert(s.subrange(0, part.len() as int) =~= part);
        assert(s.skip(part.len() as int) =~= behind);
        assert(before + without(behind, part) =~= without(behind, part));
    } else {
        assert(s.skip(0) =~= s);
        let fewer = before.skip(1);
        assert(s.skip(1) =~= fewer + part + behind);
        assert forall|i: int| 0 <= i < fewer.len() implies !#[trigger] part.is_prefix_of(
            (fewer + part + behind).skip(i),
        ) by {
            assert((fewer + part + behind).skip(i) =~= s.skip(i + 1));
        }
        law_removing_goes_from_left_to_right(fewer, part, behind);
        assert(without(s, part) =~= before + without(behind, part));
    }
}

/// A text that does not hold another is left as it is when the other is removed.
pub proof fn law_nothing_else_is_removed(s: Seq<char>, part: Seq<char>)
    requires
        !occurs(part, s),
    ensures
        without(s, part) == s,
{
    lemma_nothing_to_remove(s, part);
}

} // verus!
