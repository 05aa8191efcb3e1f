//! Questions about paths that need no file system.

use vstd::prelude::*;
use vstd::string::*;

use crate::scan::{ends_with, find_char, holds, starts_at};
#[allow(unused_imports)]
use crate::scan::{lemma_position, occurs, position};
#[allow(unused_imports)]
use crate::text::texts;
use crate::text::{chars_of, same_text, string_of};

verus! {

// ---------------------------------------------------------------------------
// Text files
// ---------------------------------------------------------------------------

/// The file endings that are indexed: TypeScript and JavaScript, Markdown, JSON,
/// YAML, text documents and configuration files.
pub open spec fn text_endings() -> Seq<Seq<char>> {
    seq![
        ".ts"@,
        ".tsx"@,
        ".js"@,
        ".jsx"@,
        ".md"@,
        ".mdx"@,
        ".json"@,
        ".yaml"@,
        ".yml"@,
        ".txt"@,
        ".rst"@,
        ".mdn"@,
        ".toml"@,
        ".ini"@,
        ".conf"@,
    ]
}

/// A character with the letters `A` to `Z` in lower case.
pub open spec fn lower(c: char) -> char {
    if 'A' <= c <= 'Z' {
        ((c as u32) + 32) as char
    } else {
        c
    }
}

/// Whether a path ends with a lower-case ending, whatever the case of its letters.
pub open spec fn ends_like(path: Seq<char>, end: Seq<char>) -> bool {
    &&& end.len() <= path.len()
    &&& forall|i: int|
        0 <= i < end.len() ==> lower(#[trigger] path[path.len() - end.len() + i]) == end[i]
}

/// Whether a path is that of a text file to be indexed.
pub open spec fn is_text_path(path: Seq<char>) -> bool {
    exists|k: int| 0 <= k < text_endings().len() && ends_like(path, #[trigger] text_endings()[k])
}

fn to_lower(c: char) -> (r: char)
    ensures
        r == lower(c),
{
    if 'A' <= c && c <= 'Z' {
        let code: u8 = (c as u32 + 32) as u8;
        code as char
    } else {
        c
    }
}

fn ends_like_exec(path: &Vec<char>, end: &str) -> (r: bool)
    ensures
        r == ends_like(path@, end@),
{
    let e = chars_of(end);
    if e.len() > path.len() {
        return false;
    }
    let at: usize = path.len() - e.len();
    let mut i: usize = 0;
    while i < e.len()
        invariant
            e@ == end@,
            at + e@.len() == path@.len(),
            at + e@.len() <= usize::MAX,
            i <= e@.len(),
            forall|k: int|
                0 <= k < i ==> lower(#[trigger] path@[path@.len() - e@.len() + k]) == e@[k],
        decreases e@.len() - i,
    {
        if to_lower(path[at + i]) != e[i] {
            assert(lower(path@[path@.len() - e@.len() + i]) != e@[i as int]);
            return false;
        }
        i = i + 1;
    }
    true
}

/// Checks whether a file is a text file that is to be indexed. No character outside
/// ASCII becomes one of the endings' letters in lower case, so only `A` to `Z` need
/// folding.
pub fn is_text_file(path: &str) -> (r: bool)
    ensures
        r == is_text_path(path@),
{
    let v = chars_of(path);
    let r = ends_like_exec(&v, ".ts") || ends_like_exec(&v, ".tsx") || ends_like_exec(&v, ".js")
        || ends_like_exec(&v, ".jsx") || ends_like_exec(&v, ".md") || ends_like_exec(&v, ".mdx")
        || ends_like_exec(&v, ".json") || ends_like_exec(&v, ".yaml") || ends_like_exec(&v, ".yml")
        || ends_like_exec(&v, ".txt") || ends_like_exec(&v, ".rst") || ends_like_exec(&v, ".mdn")
        || ends_like_exec(&v, ".toml") || ends_like_exec(&v, ".ini") || ends_like_exec(&v, ".conf");
    proof {
        let e = text_endings();
        assert(e[0] == ".ts"@ && e[1] == ".tsx"@ && e[2] == ".js"@ && e[3] == ".jsx"@ && e[4]
            == ".md"@ && e[5] == ".mdx"@ && e[6] == ".json"@ && e[7] == ".yaml"@ && e[8] == ".yml"@
            && e[9] == ".txt"@ && e[10] == ".rst"@ && e[11] == ".mdn"@ && e[12] == ".toml"@ && e[13]
            == ".ini"@ && e[14] == ".conf"@);
    }
    r
}

/// Whether a changed path concerns the index: a text file that is not to be skipped.
pub fn is_relevant(path: &str, skipped: bool) -> (r: bool)
    ensures
        r == (!skipped && is_text_path(path@)),
{
    !skipped && is_text_file(path)
}

// ---------------------------------------------------------------------------
// Paths within a catalog
// ---------------------------------------------------------------------------

/// A text without the leading occurrences of a character.
pub open spec fn without_leading(s: Seq<char>, c: char) -> Seq<char>
    decreases s.len(),
{
    if s.len() > 0 && s[0] == c {
        without_leading(s.skip(1), c)
    } else {
        s
    }
}

/// A path relative to a directory: without the directory's path, where it starts with
/// it, and without the separators that are left in front.
pub open spec fn relative_to(path: Seq<char>, directory: Seq<char>) -> Seq<char> {
    let rest = if directory.is_prefix_of(path) {
        path.skip(directory.len() as int)
    } else {
        path
    };
    without_leading(without_leading(rest, '/'), '\\')
}

fn skip_leading(v: &Vec<char>, from: usize, c: char) -> (r: usize)
    requires
        from <= v@.len(),
    ensures
        from <= r <= v@.len(),
        v@.skip(r as int) == without_leading(v@.skip(from as int), c),
{
    let mut i: usize = from;
    while i < v.len() && v[i] == c
        invariant
            from <= i <= v@.len(),
            without_leading(v@.skip(i as int), c) == without_leading(v@.skip(from as int), c),
        decreases v@.len() - i,
    {
        assert(v@.skip(i as int).skip(1) =~= v@.skip(i + 1));
        i = i + 1;
    }
    i
}

/// A path relative to a directory
pub fn relative_path(path: &str, directory: &str) -> (r: String)
    ensures
        r@ == relative_to(path@, directory@),
{
    let v = chars_of(path);
    let d = chars_of(directory);
    assert(v@.skip(0) =~= v@);
    let at: usize = if starts_at(&v, 0, &d) {
        d.len()
    } else {
        0
    };
    let from = skip_leading(&v, at, '/');
    let from = skip_leading(&v, from, '\\');
    assert(v@.skip(from as int) =~= v@.subrange(from as int, v@.len() as int));
    string_of(&v, from, v.len())
}

/// A file has the same relative path wherever the catalog lies: the path of the catalog
/// does not show in it.
pub proof fn law_relative_path_is_portable(directory: Seq<char>, rest: Seq<char>)
    ensures
        relative_to(directory + "/"@ + rest, directory) == without_leading(
            without_leading(rest, '/'),
            '\\',
        ),
{
    reveal_strlit("/");
    let path = directory + "/"@ + rest;
    assert(path.subrange(0, directory.len() as int) =~= directory);
    let tail = path.skip(directory.len() as int);
    assert(tail =~= "/"@ + rest);
    assert(tail[0] == '/');
    assert(tail.skip(1) =~= rest);
}

// ---------------------------------------------------------------------------
// The parts of a path
// ---------------------------------------------------------------------------

/// How the paths of a system are written
#[derive(Debug, Clone, Copy, PartialEq, Eq, Structural)]
pub enum PathStyle {
    /// `/` separates the parts.
    Unix,
    /// `/` and `\` separate the parts, and a drive (`C:`), a share (`\\server\share`) or a
    /// device (`\\.\COM1`) may stand in front of them. A path that starts with `\\?\` is
    /// taken as it is written: only `\` separates its parts, and a single dot is a part.
    Windows,
}

/// What separates the parts of a path
#[derive(Debug, Clone, Copy, PartialEq, Eq, Structural)]
pub enum Separators {
    Slash,
    Backslash,
    Either,
}

/// Whether a character separates the parts of a path.
pub open spec fn is_separator(c: char, by: Separators) -> bool {
    match by {
        Separators::Slash => c == '/',
        Separators::Backslash => c == '\\',
        Separators::Either => c == '/' || c == '\\',
    }
}

/// Where the first separator of a path is, or the end where there is none.
pub open spec fn first_separator(path: Seq<char>, by: Separators) -> int {
    let slash = position(path, '/');
    let backslash = position(path, '\\');
    match by {
        Separators::Slash => slash,
        Separators::Backslash => backslash,
        Separators::Either => if backslash < slash {
            backslash
        } else {
            slash
        },
    }
}

/// Where a name ends that starts at a place.
pub open spec fn name_end(path: Seq<char>, from: int, by: Separators) -> int {
    from + first_separator(path.skip(from), by)
}

/// Where the second of two names ends, of which the first starts at a place, or where the
/// first ends if nothing follows it.
pub open spec fn second_name_end(path: Seq<char>, from: int, by: Separators) -> int {
    let first = name_end(path, from, by);
    if first < path.len() {
        name_end(path, first + 1, by)
    } else {
        first
    }
}

/// Whether at a place of a path stands a drive: a letter and a colon.
pub open spec fn has_drive_at(path: Seq<char>, at: int) -> bool {
    &&& at + 2 <= path.len()
    &&& 'a' <= path[at] <= 'z' || 'A' <= path[at] <= 'Z'
    &&& path[at + 1] == ':'
}

/// Whether a path starts with a share: two separators, the name of a server, a separator
/// and the name of the share.
pub open spec fn starts_with_share(path: Seq<char>) -> bool {
    let server_end = name_end(path, 2, Separators::Either);
    &&& path.len() >= 2
    &&& is_separator(path[0], Separators::Either)
    &&& is_separator(path[1], Separators::Either)
    &&& 2 < server_end < path.len()
    &&& server_end + 1 < name_end(path, server_end + 1, Separators::Either)
}

/// Whether a path starts with `\\?\`, and so is taken as it is written.
pub open spec fn is_verbatim(path: Seq<char>, style: PathStyle) -> bool {
    &&& style is Windows
    &&& path.len() >= 4
    &&& path[0] == '\\' && path[1] == '\\' && path[2] == '?' && path[3] == '\\'
}

/// Whether `UNC` and a separator stand behind the start of a verbatim path, so that a
/// server and a share follow.
pub open spec fn has_verbatim_share(path: Seq<char>) -> bool {
    &&& path.len() >= 8
    &&& path[4] == 'U' && path[5] == 'N' && path[6] == 'C'
    &&& is_separator(path[7], Separators::Either)
}

/// Whether a drive stands behind the start of a verbatim path, and nothing or a separator
/// behind the drive.
pub open spec fn has_verbatim_drive(path: Seq<char>) -> bool {
    &&& has_drive_at(path, 4)
    &&& path.len() == 6 || is_separator(path[6], Separators::Either)
}

/// The length of what stands in front of the parts of a path.
pub open spec fn prefix_len(path: Seq<char>, style: PathStyle) -> int {
    if style is Unix {
        0
    } else if is_verbatim(path, style) {
        if has_verbatim_share(path) {
            second_name_end(path, 8, Separators::Backslash)
        } else if has_verbatim_drive(path) {
            if path.len() == 6 {
                6
            } else {
                7
            }
        } else {
            name_end(path, 4, Separators::Backslash)
        }
    } else if has_drive_at(path, 0) {
        2
    } else if starts_with_share(path) {
        second_name_end(path, 2, Separators::Either)
    } else {
        0
    }
}

/// What separates the parts of a path.
pub open spec fn separators_of(path: Seq<char>, style: PathStyle) -> Separators {
    if style is Unix {
        Separators::Slash
    } else if is_verbatim(path, style) {
        Separators::Backslash
    } else {
        Separators::Either
    }
}

/// The part of a path that ends at the first separator.
pub open spec fn first_part(path: Seq<char>, by: Separators) -> Seq<char> {
    path.take(first_separator(path, by))
}

/// The parts between the separators of a path that has nothing in front of them. Those
/// that are empty say nothing and are left out, and so are single dots, unless they are
/// to be kept.
pub open spec fn parts_between(path: Seq<char>, by: Separators, keep_dots: bool) -> Seq<Seq<char>>
    decreases path.len(),
{
    let p = first_separator(path, by);
    let part = first_part(path, by);
    let rest = if 0 <= p < path.len() {
        parts_between(path.skip(p + 1), by, keep_dots)
    } else {
        Seq::empty()
    };
    if part.len() == 0 || (part == "."@ && !keep_dots) {
        rest
    } else {
        seq![part] + rest
    }
}

/// The parts of a path.
pub open spec fn parts_of(path: Seq<char>, style: PathStyle) -> Seq<Seq<char>> {
    parts_between(
        path.skip(prefix_len(path, style)),
        separators_of(path, style),
        is_verbatim(path, style),
    )
}

/// Whether a part of a path is a name, and not a dot or two.
pub open spec fn is_name(part: Seq<char>) -> bool {
    part != "."@ && part != ".."@
}

/// The name of the file at a path, if the path ends in a name.
pub open spec fn file_name_of(path: Seq<char>, style: PathStyle) -> Option<Seq<char>> {
    let parts = parts_of(path, style);
    if parts.len() > 0 && is_name(parts.last()) {
        Some(parts.last())
    } else {
        None
    }
}

/// The name of the folder that a path lies in, if the path names it.
pub open spec fn folder_name_of(path: Seq<char>, style: PathStyle) -> Option<Seq<char>> {
    let parts = parts_of(path, style);
    if parts.len() > 1 && is_name(parts[parts.len() - 2]) {
        Some(parts[parts.len() - 2])
    } else {
        None
    }
}

fn separates(c: char, by: Separators) -> (r: bool)
    ensures
        r == is_separator(c, by),
{
    match by {
        Separators::Slash => c == '/',
        Separators::Backslash => c == '\\',
        Separators::Either => c == '/' || c == '\\',
    }
}

fn find_separator(v: &Vec<char>, from: usize, by: Separators) -> (r: usize)
    requires
        from <= v@.len(),
    ensures
        from <= r <= v@.len(),
        r == name_end(v@, from as int, by),
{
    let n: usize = v.len();
    assert(v@.subrange(from as int, n as int) =~= v@.skip(from as int));
    let slash = find_char(v, from, n, '/');
    let backslash = find_char(v, from, n, '\\');
    match by {
        Separators::Slash => slash,
        Separators::Backslash => backslash,
        Separators::Either => if backslash < slash {
            backslash
        } else {
            slash
        },
    }
}

fn find_second_end(v: &Vec<char>, from: usize, by: Separators) -> (r: usize)
    requires
        from <= v@.len(),
    ensures
        from <= r <= v@.len(),
        r == second_name_end(v@, from as int, by),
{
    let first = find_separator(v, from, by);
    if first < v.len() {
        find_separator(v, first + 1, by)
    } else {
        first
    }
}

fn drive_at(v: &Vec<char>, at: usize) -> (r: bool)
    requires
        at + 2 <= usize::MAX,
    ensures
        r == has_drive_at(v@, at as int),
{
    if v.len() < at + 2 {
        return false;
    }
    let letter = v[at];
    (('a' <= letter && letter <= 'z') || ('A' <= letter && letter <= 'Z')) && v[at + 1] == ':'
}

fn share_first(v: &Vec<char>) -> (r: bool)
    ensures
        r == starts_with_share(v@),
{
    let by = Separators::Either;
    let n: usize = v.len();
    if n < 2 || !separates(v[0], by) || !separates(v[1], by) {
        return false;
    }
    let server_end = find_separator(v, 2, by);
    2 < server_end && server_end < n && server_end + 1 < find_separator(v, server_end + 1, by)
}

fn verbatim(v: &Vec<char>, style: PathStyle) -> (r: bool)
    ensures
        r == is_verbatim(v@, style),
{
    match style {
        PathStyle::Unix => false,
        PathStyle::Windows => v.len() >= 4 && v[0] == '\\' && v[1] == '\\' && v[2] == '?' && v[3]
            == '\\',
    }
}

fn prefix_end(v: &Vec<char>, style: PathStyle) -> (r: usize)
    ensures
        r <= v@.len(),
        r == prefix_len(v@, style),
{
    let n: usize = v.len();
    match style {
        PathStyle::Unix => 0,
        PathStyle::Windows => if verbatim(v, style) {
            if n >= 8 && v[4] == 'U' && v[5] == 'N' && v[6] == 'C' && separates(
                v[7],
                Separators::Either,
            ) {
                find_second_end(v, 8, Separators::Backslash)
            } else if drive_at(v, 4) && n == 6 {
                6
            } else if drive_at(v, 4) && separates(v[6], Separators::Either) {
                7
            } else {
                find_separator(v, 4, Separators::Backslash)
            }
        } else if drive_at(v, 0) {
            2
        } else if share_first(v) {
            find_second_end(v, 2, Separators::Either)
        } else {
            0
        },
    }
}

fn path_parts(path: &str, style: PathStyle) -> (r: Vec<String>)
    ensures
        texts(r@) == parts_of(path@, style),
{
    let v = chars_of(path);
    let n: usize = v.len();
    let keep_dots = verbatim(&v, style);
    let by = match style {
        PathStyle::Unix => Separators::Slash,
        PathStyle::Windows => if keep_dots {
            Separators::Backslash
        } else {
            Separators::Either
        },
    };
    let mut out: Vec<String> = Vec::new();
    let mut from: usize = prefix_end(&v, style);
    let mut more = true;
    assert(texts(out@) + parts_of(path@, style) =~= parts_of(path@, style));
    while more
        invariant
            v@ == path@,
            n == v@.len(),
            from <= n,
            more ==> texts(out@) + parts_between(path@.skip(from as int), by, keep_dots)
                == parts_of(path@, style),
            !more ==> texts(out@) == parts_of(path@, style),
        decreases n - from + if more {
            1int
        } else {
            0int
        },
    {
        let ghost s = path@.skip(from as int);
        let ghost before = texts(out@);
        let at = find_separator(&v, from, by);
        let part = string_of(&v, from, at);
        proof {
            assert(part@ =~= first_part(s, by));
            if at < n {
                assert(s.skip(first_separator(s, by) + 1) =~= path@.skip(at + 1));
            }
        }
        let silent = at == from || (same_text(part.as_str(), ".") && !keep_dots);
        if !silent {
            out.push(part);
            assert(texts(out@) =~= before + seq![first_part(s, by)]);
        }
        if at < n {
            from = at + 1;
            assert(texts(out@) + parts_between(path@.skip(from as int), by, keep_dots) =~= before
                + parts_between(s, by, keep_dots));
        } else {
            more = false;
            assert(texts(out@) =~= before + parts_between(s, by, keep_dots));
        }
    }
    out
}

fn names_something(part: &str) -> (r: bool)
    ensures
        r == is_name(part@),
{
    !same_text(part, ".") && !same_text(part, "..")
}

/// The name of the folder that a file lies in, or the name of the catalog where the path
/// names none
pub fn containing_folder(path: &str, catalog_name: &str, style: PathStyle) -> (r: String)
    ensures
        r@ == match folder_name_of(path@, style) {
            Some(name) => name,
            None => catalog_name@,
        },
{
    let parts = path_parts(path, style);
    let n: usize = parts.len();
    if n > 1 {
        assert(texts(parts@)[n - 2] == parts@[n - 2]@);
        if names_something(parts[n - 2].as_str()) {
            return parts[n - 2].clone();
        }
    }
    catalog_name.to_owned()
}

/// The name of the file at a path, if the path ends in a name
pub fn file_name(path: &str, style: PathStyle) -> (r: Option<String>)
    ensures
        match r {
            Some(name) => file_name_of(path@, style) == Some(name@),
            None => file_name_of(path@, style) is None,
        },
{
    let parts = path_parts(path, style);
    let n: usize = parts.len();
    if n > 0 {
        assert(texts(parts@)[n - 1] == parts@[n - 1]@);
        if names_something(parts[n - 1].as_str()) {
            return Some(parts[n - 1].clone());
        }
    }
    None
}

/// Whether a path is that of a TypeScript file outside of installed packages: its name
/// ends with `.ts`, with something in front, and nothing in it is called
/// `node_modules`.
pub open spec fn is_audited_path(path: Seq<char>, style: PathStyle) -> bool {
    &&& match file_name_of(path, style) {
        Some(name) => name.len() > 3 && ".ts"@.is_suffix_of(name),
        None => false,
    }
    &&& !occurs("node_modules"@, path)
}

/// Whether a file is among those that an audit draws from
pub fn is_audited(path: &str, style: PathStyle) -> (r: bool)
    ensures
        r == is_audited_path(path@, style),
{
    match file_name(path, style) {
        Some(name) => {
            let chars = chars_of(name.as_str());
            chars.len() > 3 && ends_with(name.as_str(), ".ts") && !holds(path, "node_modules")
        },
        None => false,
    }
}

// ---------------------------------------------------------------------------
// Laws
// ---------------------------------------------------------------------------

/// A path is that of a text file exactly where it ends, in letters of either case, with one
/// of the endings of TypeScript and JavaScript, Markdown, JSON, YAML, text documents and
/// configuration files.
pub proof fn law_which_files_are_indexed(path: Seq<char>)
    ensures
        is_text_path(path) <==> {
            ||| ends_like(path, ".ts"@)
            ||| ends_like(path, ".tsx"@)
            ||| ends_like(path, ".js"@)
            ||| ends_like(path, ".jsx"@)
            ||| ends_like(path, ".md"@)
            ||| ends_like(path, ".mdx"@)
            ||| ends_like(path, ".json"@)
            ||| ends_like(path, ".yaml"@)
            ||| ends_like(path, ".yml"@)
            ||| ends_like(path, ".txt"@)
            ||| ends_like(path, ".rst"@)
            ||| ends_like(path, ".mdn"@)
            ||| ends_like(path, ".toml"@)
            ||| ends_like(path, ".ini"@)
            ||| ends_like(path, ".conf"@)
        },
{
    let e = text_endings();
    assert(e.len() == 15);
    assert(e[0] == ".ts"@ && e[1] == ".tsx"@ && e[2] == ".js"@ && e[3] == ".jsx"@ && e[4] == ".md"@
        && e[5] == ".mdx"@ && e[6] == ".json"@ && e[7] == ".yaml"@ && e[8] == ".yml"@ && e[9]
        == ".txt"@ && e[10] == ".rst"@ && e[11] == ".mdn"@ && e[12] == ".toml"@ && e[13]
        == ".ini"@ && e[14] == ".conf"@);
}

/// An ending is found behind anything, and whatever the case of its letters: only the end
/// of the path counts, and `A` to `Z` count as `a` to `z`.
pub proof fn law_endings_are_found_at_the_end(front: Seq<char>, tail: Seq<char>, end: Seq<char>)
    requires
        tail.len() == end.len(),
    ensures
        ends_like(front + tail, end) <==> forall|i: int|
            0 <= i < end.len() ==> #[trigger] end[i] == (if 'A' <= tail[i] && tail[i] <= 'Z' {
                ((tail[i] as u32) + 32) as char
            } else {
                tail[i]
            }),
{
    let path = front + tail;
    assert forall|i: int| 0 <= i < end.len() implies path[path.len() - end.len() + i]
        == tail[i] by {}
    if ends_like(path, end) {
        assert forall|i: int| 0 <= i < end.len() implies #[trigger] end[i] == lower(tail[i]) by {
            assert(lower(path[path.len() - end.len() + i]) == end[i]);
        }
    }
    if forall|i: int| 0 <= i < end.len() ==> #[trigger] end[i] == lower(tail[i]) {
        assert forall|i: int| 0 <= i < end.len() implies lower(
            #[trigger] path[path.len() - end.len() + i],
        ) == end[i] by {
            assert(end[i] == lower(tail[i]));
        }
    }
}

/// Whether the first characters of a text are all separators of one kind.
pub open spec fn is_run_of(s: Seq<char>, c: char) -> bool {
    forall|i: int| 0 <= i < s.len() ==> #[trigger] s[i] == c
}

/// A path below a directory becomes what stands behind the directory and the separators
/// after it, slashes and then backslashes; one that does not start with the directory only
/// loses such separators in front.
pub proof fn law_relative_paths(
    directory: Seq<char>,
    slashes: Seq<char>,
    backslashes: Seq<char>,
    rest: Seq<char>,
)
    requires
        is_run_of(slashes, '/'),
        is_run_of(backslashes, '\\'),
        rest.len() > 0,
        rest[0] != '\\',
        backslashes.len() == 0 ==> rest[0] != '/',
    ensures
        relative_to(directory + (slashes + (backslashes + rest)), directory) == rest,
        !directory.is_prefix_of(slashes + (backslashes + rest)) ==> relative_to(
            slashes + (backslashes + rest),
            directory,
        ) == rest,
{
    let behind = backslashes + rest;
    let whole = directory + (slashes + behind);
    assert(whole.subrange(0, directory.len() as int) =~= directory);
    assert(whole.skip(directory.len() as int) =~= slashes + behind);
    lemma_leading(slashes, behind, '/');
    if backslashes.len() > 0 {
        assert(backslashes[0] == '\\');
        assert(behind[0] == '\\');
    } else {
        assert(behind =~= rest);
    }
    assert(without_leading(slashes + behind, '/') == behind);
    lemma_leading(backslashes, rest, '\\');
}

proof fn lemma_leading(run: Seq<char>, rest: Seq<char>, c: char)
    requires
        is_run_of(run, c),
    ensures
        without_leading(run + rest, c) == without_leading(rest, c),
    decreases run.len(),
{
    if run.len() == 0 {
        assert(run + rest =~= rest);
    } else {
        assert(run[0] == c);
        assert((run + rest)[0] == c);
        assert((run + rest).skip(1) =~= run.skip(1) + rest);
        assert forall|i: int| 0 <= i < run.skip(1).len() implies #[trigger] run.skip(1)[i] == c by {
            assert(run.skip(1)[i] == run[i + 1]);
        }
        lemma_leading(run.skip(1), rest, c);
    }
}

/// A separator that stands behind a text ends its parts: what follows adds its own.
#[verifier::spinoff_prover]
#[verifier::rlimit(30)]
pub proof fn law_parts_follow_on_each_other(
    front: Seq<char>,
    c: char,
    rest: Seq<char>,
    by: Separators,
    keep_dots: bool,
)
    requires
        is_separator(c, by),
    ensures
        parts_between(front + seq![c] + rest, by, keep_dots) == parts_between(front, by, keep_dots)
            + parts_between(rest, by, keep_dots),
    decreases front.len(),
{
    let s = front + seq![c] + rest;
    lemma_first_separator(front, by);
    lemma_first_separator(s, by);
    let p = first_separator(front, by);
    if p < front.len() {
        assert(s[p] == front[p]);
        assert forall|i: int| 0 <= i < p implies !is_separator(s[i], by) by {
            assert(s[i] == front[i]);
        }
        assert(first_separator(s, by) == p);
        assert(first_part(s, by) =~= first_part(front, by));
        let fewer = front.skip(p + 1);
        assert(s.skip(p + 1) =~= fewer + seq![c] + rest);
        law_parts_follow_on_each_other(fewer, c, rest, by, keep_dots);
        assert(parts_between(s, by, keep_dots) =~= parts_between(front, by, keep_dots)
            + parts_between(rest, by, keep_dots));
    } else {
        assert forall|i: int| 0 <= i < front.len() implies !is_separator(s[i], by) by {
            assert(s[i] == front[i]);
        }
        assert(s[front.len() as int] == c);
        assert(first_separator(s, by) == front.len());
        assert(first_part(s, by) =~= front);
        assert(first_part(front, by) =~= front);
        assert(s.skip(front.len() as int + 1) =~= rest);
        assert(parts_between(s, by, keep_dots) =~= parts_between(front, by, keep_dots)
            + parts_between(rest, by, keep_dots));
    }
}

proof fn lemma_first_separator(s: Seq<char>, by: Separators)
    ensures
        0 <= first_separator(s, by) <= s.len(),
        forall|i: int|
            0 <= i < first_separator(s, by) ==> !is_separator(#[trigger] s[i], by),
        first_separator(s, by) < s.len() ==> is_separator(s[first_separator(s, by)], by),
{
    lemma_position(s, '/');
    lemma_position(s, '\\');
}

/// Whether a text holds no separator and names something.
pub open spec fn is_plain_name(name: Seq<char>, by: Separators) -> bool {
    &&& name.len() > 0
    &&& name != "."@
    &&& name != ".."@
    &&& forall|i: int| 0 <= i < name.len() ==> !is_separator(#[trigger] name[i], by)
}

proof fn lemma_plain_name(name: Seq<char>, by: Separators, keep_dots: bool)
    requires
        is_plain_name(name, by),
    ensures
        parts_between(name, by, keep_dots) == seq![name],
{
    lemma_first_separator(name, by);
    assert(first_separator(name, by) == name.len());
    assert(first_part(name, by) =~= name);
    assert(seq![name] + Seq::<Seq<char>>::empty() =~= seq![name]);
}

/// A name behind a slash is the name of the file, the name before it is that of the folder,
/// and what comes before these plays no part.
#[verifier::spinoff_prover]
#[verifier::rlimit(30)]
pub proof fn law_names_are_read_from_the_end(front: Seq<char>, folder: Seq<char>, name: Seq<char>)
    requires
        is_plain_name(folder, Separators::Slash),
        is_plain_name(name, Separators::Slash),
    ensures
        file_name_of(name, PathStyle::Unix) == Some(name),
        folder_name_of(name, PathStyle::Unix) is None,
        file_name_of(front + seq!['/'] + name, PathStyle::Unix) == Some(name),
        folder_name_of(front + seq!['/'] + (folder + seq!['/'] + name), PathStyle::Unix) == Some(
            folder,
        ),
        folder_name_of(folder + seq!['/'] + name, PathStyle::Unix) == Some(folder),
{
    let by = Separators::Slash;
    lemma_plain_name(name, by, false);
    lemma_plain_name(folder, by, false);
    law_parts_follow_on_each_other(front, '/', name, by, false);
    law_parts_follow_on_each_other(folder, '/', name, by, false);
    law_parts_follow_on_each_other(front, '/', folder + seq!['/'] + name, by, false);
    let a = front + seq!['/'] + name;
    let b = folder + seq!['/'] + name;
    let c = front + seq!['/'] + b;
    assert(name.skip(0) =~= name && a.skip(0) =~= a && b.skip(0) =~= b && c.skip(0) =~= c);
    let before = parts_between(front, by, false);
    assert((before + seq![name]).last() == name);
    assert(seq![folder] + seq![name] =~= seq![folder, name]);
    let all = before + seq![folder, name];
    assert(all[all.len() - 2] == folder);
}

/// The same on Windows for paths on a drive, with either separator.
#[verifier::spinoff_prover]
#[verifier::rlimit(30)]
pub proof fn law_names_are_read_from_the_end_on_windows(
    drive: char,
    c: char,
    folder: Seq<char>,
    d: char,
    name: Seq<char>,
)
    requires
        'a' <= drive <= 'z' || 'A' <= drive <= 'Z',
        c == '/' || c == '\\',
        d == '/' || d == '\\',
        is_plain_name(folder, Separators::Either),
        is_plain_name(name, Separators::Either),
    ensures
        file_name_of(seq![drive, ':', c] + name, PathStyle::Windows) == Some(name),
        folder_name_of(seq![drive, ':', c] + name, PathStyle::Windows) is None,
        folder_name_of(
            seq![drive, ':', c] + (folder + seq![d] + name),
            PathStyle::Windows,
        ) == Some(folder),
{
    let by = Separators::Either;
    let none = Seq::<char>::empty();
    lemma_plain_name(name, by, false);
    lemma_plain_name(folder, by, false);
    law_parts_follow_on_each_other(folder, d, name, by, false);
    let inner = folder + seq![d] + name;
    law_parts_follow_on_each_other(none, c, name, by, false);
    law_parts_follow_on_each_other(none, c, inner, by, false);
    let a = seq![drive, ':', c] + name;
    let b = seq![drive, ':', c] + inner;
    assert(a.skip(2) =~= none + seq![c] + name);
    assert(b.skip(2) =~= none + seq![c] + inner);
    assert(parts_between(none, by, false) =~= Seq::<Seq<char>>::empty()) by {
        lemma_first_separator(none, by);
    }
    assert(Seq::<Seq<char>>::empty() + seq![name] =~= seq![name]);
    assert(Seq::<Seq<char>>::empty() + (seq![folder] + seq![name]) =~= seq![folder, name]);
}

/// An audit looks at a file exactly where its name ends with `.ts` behind at least one
/// character and nothing in its path is called `node_modules`.
pub proof fn law_which_files_are_audited(path: Seq<char>, style: PathStyle)
    ensures
        is_audited_path(path, style) ==> !occurs("node_modules"@, path),
        is_audited_path(path, style) ==> file_name_of(path, style) is Some,
        file_name_of(path, style) matches Some(name) ==> (is_audited_path(path, style)
            <==> !occurs("node_modules"@, path) && name.len() >= 4 && name[name.len() - 3] == '.'
            && name[name.len() - 2] == 't' && name[name.len() - 1] == 's'),
{
    reveal_strlit(".ts");
    if let Some(name) = file_name_of(path, style) {
        if name.len() >= 4 {
            let end = name.subrange(name.len() - 3, name.len() as int);
            assert(end.len() == 3);
            if ".ts"@.is_suffix_of(name) {
                assert(end =~= ".ts"@);
                assert(end[0] == '.' && end[1] == 't' && end[2] == 's');
            }
            if name[name.len() - 3] == '.' && name[name.len() - 2] == 't' && name[name.len() - 1]
                == 's' {
                assert(end =~= ".ts"@);
            }
        }
    }
}

proof fn lemma_name_ends(
    before: Seq<char>,
    name: Seq<char>,
    c: char,
    rest: Seq<char>,
    by: Separators,
)
    requires
        is_plain_name(name, by),
        is_separator(c, by),
    ensures
        name_end(before + name + seq![c] + rest, before.len() as int, by) == before.len()
            + name.len(),
{
    let path = before + name + seq![c] + rest;
    let s = path.skip(before.len() as int);
    lemma_first_separator(s, by);
    assert forall|i: int| 0 <= i < name.len() implies !is_separator(#[trigger] s[i], by) by {
        assert(s[i] == name[i]);
    }
    assert(s[name.len() as int] == c);
}

/// A server and a share in front of a path are no folders, in the plain form and in the
/// verbatim one, and neither is a drive in the verbatim form.
#[verifier::spinoff_prover]
#[verifier::rlimit(30)]
pub proof fn law_servers_and_drives_are_no_folders(
    server: Seq<char>,
    share: Seq<char>,
    drive: char,
    name: Seq<char>,
)
    requires
        'a' <= drive <= 'z' || 'A' <= drive <= 'Z',
        is_plain_name(server, Separators::Either),
        server != seq!['?'],
        is_plain_name(share, Separators::Either),
        is_plain_name(name, Separators::Either),
    ensures
        ({
            let plain = seq!['\\', '\\'] + server + seq!['\\'] + (share + seq!['\\'] + name);
            let verbatim = seq!['\\', '\\', '?', '\\', 'U', 'N', 'C', '\\'] + server + seq!['\\'] + (
            share + seq!['\\'] + name);
            let on_drive = seq!['\\', '\\', '?', '\\', drive, ':', '\\'] + name;
            &&& file_name_of(plain, PathStyle::Windows) == Some(name)
            &&& folder_name_of(plain, PathStyle::Windows) is None
            &&& file_name_of(verbatim, PathStyle::Windows) == Some(name)
            &&& folder_name_of(verbatim, PathStyle::Windows) is None
            &&& file_name_of(on_drive, PathStyle::Windows) == Some(name)
            &&& folder_name_of(on_drive, PathStyle::Windows) is None
        }),
{
    let style = PathStyle::Windows;
    let b = '\\';
    let none = Seq::<char>::empty();
    assert forall|by: Separators|
        (by == Separators::Backslash || by == Separators::Either) implies is_plain_name(server, by)
        && is_plain_name(share, by) && is_plain_name(name, by) by {
        assert forall|i: int| 0 <= i < server.len() implies !is_separator(
            #[trigger] server[i],
            by,
        ) by {
            assert(!is_separator(server[i], Separators::Either));
        }
        assert forall|i: int| 0 <= i < share.len() implies !is_separator(#[trigger] share[i], by) by {
            assert(!is_separator(share[i], Separators::Either));
        }
        assert forall|i: int| 0 <= i < name.len() implies !is_separator(#[trigger] name[i], by) by {
            assert(!is_separator(name[i], Separators::Either));
        }
    }
    let rest = share + seq![b] + name;
    assert(is_plain_name(server, Separators::Backslash));
    assert(is_plain_name(share, Separators::Backslash));
    assert(is_plain_name(name, Separators::Backslash));
    // The plain form
    let head = seq![b, b];
    let plain = head + server + seq![b] + rest;
    lemma_name_ends(head, server, b, rest, Separators::Either);
    let to_share = head + server + seq![b];
    assert(plain =~= to_share + share + seq![b] + name);
    lemma_name_ends(to_share, share, b, name, Separators::Either);
    assert(!is_separator(server[0], Separators::Either));
    assert(plain[2] == server[0]);
    if server.len() > 1 {
        assert(!is_separator(server[1], Separators::Either));
        assert(plain[3] == server[1]);
    } else {
        assert(server =~= seq![server[0]]);
        assert(server[0] != '?');
    }
    assert(!is_verbatim(plain, style));
    assert(plain.skip(to_share.len() as int + share.len()) =~= none + seq![b] + name);
    lemma_one_part(b, name, Separators::Either, false);
    // The verbatim form
    let long = seq![b, b, '?', b, 'U', 'N', 'C', b];
    let verbatim = long + server + seq![b] + rest;
    assert(is_verbatim(verbatim, style) && has_verbatim_share(verbatim));
    lemma_name_ends(long, server, b, rest, Separators::Backslash);
    let to_share = long + server + seq![b];
    assert(verbatim =~= to_share + share + seq![b] + name);
    lemma_name_ends(to_share, share, b, name, Separators::Backslash);
    assert(verbatim.skip(to_share.len() as int + share.len()) =~= none + seq![b] + name);
    lemma_one_part(b, name, Separators::Backslash, true);
    // A drive
    let on_drive = seq![b, b, '?', b, drive, ':', b] + name;
    assert(is_verbatim(on_drive, style) && has_verbatim_drive(on_drive));
    assert(on_drive[5] == ':' && !has_verbatim_share(on_drive));
    assert(on_drive.skip(7) =~= name);
    lemma_plain_name(name, Separators::Backslash, true);
}

proof fn lemma_one_part(c: char, name: Seq<char>, by: Separators, keep_dots: bool)
    requires
        is_separator(c, by),
        is_plain_name(name, by),
    ensures
        parts_between(Seq::<char>::empty() + seq![c] + name, by, keep_dots) == seq![name],
{
    let none = Seq::<char>::empty();
    law_parts_follow_on_each_other(none, c, name, by, keep_dots);
    lemma_first_separator(none, by);
    lemma_plain_name(name, by, keep_dots);
    assert(parts_between(none, by, keep_dots) =~= Seq::<Seq<char>>::empty());
    assert(Seq::<Seq<char>>::empty() + seq![name] =~= seq![name]);
}

} // verus!
