//! The parts of a Windows path: its prefix, its root and its components.
//!
//! A prefix is a drive (`C:`), the share of a server (`\\server\share`), a device
//! (`\\.\COM1`), or one of these behind `\\?\`, which takes what follows it to
//! the letter: there only a backslash separates, and `.` is a name.
use crate::text::{from_chars, slice_chars, to_chars};
use vstd::prelude::*;

verus! {

/// Whether a character separates the components of a path.
pub open spec fn separator(c: char, verbatim: bool) -> bool {
    c == '\\' || (!verbatim && c == '/')
}

/// Whether a character separates the components of a path.
pub fn is_separator(c: char, verbatim: bool) -> (r: bool)
    ensures
        r == separator(c, verbatim),
{
    c == '\\' || (!verbatim && c == '/')
}

/// Whether a drive such as `C:` stands at a place of a path.
pub open spec fn drive_at(path: Seq<char>, at: int) -> bool {
    &&& at + 2 <= path.len()
    &&& ('a' <= path[at] <= 'z' || 'A' <= path[at] <= 'Z')
    &&& path[at + 1] == ':'
}

/// Whether a drive such as `C:` stands at a place of a path.
pub fn is_drive_at(path: &Vec<char>, at: usize) -> (r: bool)
    ensures
        r == drive_at(path@, at as int),
{
    if at >= path.len() || path.len() - at < 2 {
        return false;
    }
    let letter: char = path[at];
    (('a' <= letter && letter <= 'z') || ('A' <= letter && letter <= 'Z')) && path[at + 1] == ':'
}

// ---------------------------------------------------------------------------
// Prefix and root
// ---------------------------------------------------------------------------
/// Whether a path begins with two separators.
pub open spec fn doubly_separated(path: Seq<char>) -> bool {
    path.len() >= 2 && separator(path[0], false) && separator(path[1], false)
}

/// Whether a path begins with `\\?\` and is taken to the letter.
pub open spec fn verbatim(path: Seq<char>) -> bool {
    path.len() >= 4 && path[0] == '\\' && path[1] == '\\' && path[2] == '?' && path[3] == '\\'
}

/// Where the component ends that begins at a place.
pub open spec fn component_end(path: Seq<char>, at: int, verbatim: bool) -> int
    decreases path.len() - at,
{
    if at >= path.len() || separator(path[at], verbatim) {
        at
    } else {
        component_end(path, at + 1, verbatim)
    }
}

/// Where a server's name and the name of its share end that begin at a place.
pub open spec fn server_and_share_end(path: Seq<char>, at: int, verbatim: bool) -> (int, int) {
    let server = component_end(path, at, verbatim);
    if server < path.len() {
        (server, component_end(path, server + 1, verbatim))
    } else {
        (server, server)
    }
}

/// Where the prefix of a path ends.
pub open spec fn prefix_end(path: Seq<char>) -> int {
    if verbatim(path) {
        if path.len() >= 8 && path.subrange(4, 7) == seq!['U', 'N', 'C'] && separator(
            path[7],
            false,
        ) {
            let (server, share) = server_and_share_end(path, 8, true);
            if share > server + 1 {
                share
            } else {
                server
            }
        } else if drive_at(path, 4) && (path.len() == 6 || separator(path[6], false)) {
            6
        } else {
            component_end(path, 4, true)
        }
    } else if doubly_separated(path) {
        if path.len() >= 4 && path[2] == '.' && separator(path[3], false) {
            component_end(path, 4, false)
        } else {
            let (server, share) = server_and_share_end(path, 2, false);
            if server > 2 && share > server + 1 {
                share
            } else {
                0
            }
        }
    } else if drive_at(path, 0) {
        2
    } else {
        0
    }
}

/// Where the root of a path ends, or its prefix where no separator follows it.
pub open spec fn root_end(path: Seq<char>) -> int {
    let prefix = prefix_end(path);
    if prefix < path.len() && separator(path[prefix], false) {
        prefix + 1
    } else {
        prefix
    }
}

/// Whether a path begins at a root; every prefix but a drive stands for one.
pub open spec fn rooted(path: Seq<char>) -> bool {
    root_end(path) > prefix_end(path) || (prefix_end(path) > 0 && doubly_separated(path))
}

/// Whether a path names the current directory first.
pub open spec fn starts_here(path: Seq<char>) -> bool {
    let prefix = prefix_end(path);
    &&& !rooted(path)
    &&& prefix < path.len()
    &&& path[prefix] == '.'
    &&& prefix + 1 == path.len() || separator(path[prefix + 1], false)
}

/// Where the components of a path begin.
pub open spec fn body_start(path: Seq<char>) -> int {
    if starts_here(path) {
        prefix_end(path) + 1
    } else {
        root_end(path)
    }
}

fn find_component_end(path: &Vec<char>, at: usize, verbatim: bool) -> (r: usize)
    requires
        at <= path@.len(),
    ensures
        r == component_end(path@, at as int, verbatim),
        at <= r <= path@.len(),
{
    let mut n: usize = at;
    while n < path.len() && !is_separator(path[n], verbatim)
        invariant
            at <= n <= path@.len(),
            component_end(path@, at as int, verbatim) == component_end(
                path@,
                n as int,
                verbatim,
            ),
        decreases path@.len() - n,
    {
        n = n + 1;
    }
    n
}

fn find_server_and_share_end(path: &Vec<char>, at: usize, verbatim: bool) -> (r: (usize, usize))
    requires
        at <= path@.len(),
    ensures
        (r.0 as int, r.1 as int) == server_and_share_end(path@, at as int, verbatim),
        at <= r.0 <= r.1 <= path@.len(),
{
    let server: usize = find_component_end(path, at, verbatim);
    if server < path.len() {
        (server, find_component_end(path, server + 1, verbatim))
    } else {
        (server, server)
    }
}

fn is_verbatim(path: &Vec<char>) -> (r: bool)
    ensures
        r == verbatim(path@),
{
    path.len() >= 4 && path[0] == '\\' && path[1] == '\\' && path[2] == '?' && path[3] == '\\'
}

fn is_doubly_separated(path: &Vec<char>) -> (r: bool)
    ensures
        r == doubly_separated(path@),
{
    path.len() >= 2 && is_separator(path[0], false) && is_separator(path[1], false)
}

fn find_prefix_end(path: &Vec<char>) -> (r: usize)
    ensures
        r == prefix_end(path@),
        r <= path@.len(),
{
    let n: usize = path.len();
    if is_verbatim(path) {
        proof {
            if n >= 8 {
                let name = path@.subrange(4, 7);
                assert(name == seq!['U', 'N', 'C'] <==> path@[4] == 'U' && path@[5] == 'N'
                    && path@[6] == 'C') by {
                    assert(name[0] == path@[4] && name[1] == path@[5] && name[2] == path@[6]);
                    if path@[4] == 'U' && path@[5] == 'N' && path@[6] == 'C' {
                        assert(name =~= seq!['U', 'N', 'C']);
                    }
                }
            }
        }
        if n >= 8 && path[4] == 'U' && path[5] == 'N' && path[6] == 'C' && is_separator(
            path[7],
            false,
        ) {
            let (server, share): (usize, usize) = find_server_and_share_end(path, 8, true);
            if share - server > 1 {
                share
            } else {
                server
            }
        } else if is_drive_at(path, 4) && (n == 6 || is_separator(path[6], false)) {
            6
        } else {
            find_component_end(path, 4, true)
        }
    } else if is_doubly_separated(path) {
        if n >= 4 && path[2] == '.' && is_separator(path[3], false) {
            find_component_end(path, 4, false)
        } else {
            let (server, share): (usize, usize) = find_server_and_share_end(path, 2, false);
            if server > 2 && share - server > 1 {
                share
            } else {
                0
            }
        }
    } else if is_drive_at(path, 0) {
        2
    } else {
        0
    }
}

fn find_body_start(path: &Vec<char>) -> (r: usize)
    ensures
        r == body_start(path@),
        r <= path@.len(),
{
    let prefix: usize = find_prefix_end(path);
    let n: usize = path.len();
    if prefix < n && is_separator(path[prefix], false) {
        return prefix + 1;
    }
    let rooted = prefix > 0 && is_doubly_separated(path);
    if !rooted && prefix < n && path[prefix] == '.' && (n - prefix == 1 || is_separator(
        path[prefix + 1],
        false,
    )) {
        prefix + 1
    } else {
        prefix
    }
}

// ---------------------------------------------------------------------------
// Components
// ---------------------------------------------------------------------------
/// Where the component begins that ends at a place.
pub open spec fn component_start(path: Seq<char>, from: int, end: int, verbatim: bool) -> int
    decreases end - from,
{
    if end <= from {
        from
    } else if separator(path[end - 1], verbatim) {
        end
    } else {
        component_start(path, from, end - 1, verbatim)
    }
}

/// Whether a component counts: the empty one between two separators and `.` do
/// not.
pub open spec fn counts(name: Seq<char>, verbatim: bool) -> bool {
    name.len() > 0 && (verbatim || name != seq!['.'])
}

/// Where the last component that counts begins and ends, between two places of a
/// path.
pub open spec fn last_part(path: Seq<char>, from: int, end: int, verbatim: bool) -> Option<
    (int, int),
>
    decreases end - from,
{
    if end <= from {
        None
    } else {
        let start = component_start(path, from, end, verbatim);
        if counts(path.subrange(start, end), verbatim) {
            Some((start, end))
        } else if from < start <= end {
            last_part(path, from, start - 1, verbatim)
        } else {
            None
        }
    }
}

fn find_component_start(path: &Vec<char>, from: usize, end: usize, verbatim: bool) -> (r: usize)
    requires
        from <= end <= path@.len(),
    ensures
        r == component_start(path@, from as int, end as int, verbatim),
        from <= r <= end,
{
    let mut n: usize = end;
    while n > from && !is_separator(path[n - 1], verbatim)
        invariant
            from <= n <= end <= path@.len(),
            component_start(path@, from as int, end as int, verbatim) == component_start(
                path@,
                from as int,
                n as int,
                verbatim,
            ),
        decreases n,
    {
        n = n - 1;
    }
    n
}

fn find_last_part(path: &Vec<char>, from: usize, end: usize, verbatim: bool) -> (r: Option<
    (usize, usize),
>)
    requires
        from <= end <= path@.len(),
    ensures
        match r {
            Some(part) => {
                &&& last_part(path@, from as int, end as int, verbatim) == Some(
                    (part.0 as int, part.1 as int),
                )
                &&& from <= part.0 < part.1 <= end
            },
            None => last_part(path@, from as int, end as int, verbatim) is None,
        },
{
    let mut to: usize = end;
    while to > from
        invariant
            from <= to <= end <= path@.len(),
            last_part(path@, from as int, end as int, verbatim) == last_part(
                path@,
                from as int,
                to as int,
                verbatim,
            ),
        decreases to,
    {
        let start: usize = find_component_start(path, from, to, verbatim);
        proof {
            let name = path@.subrange(start as int, to as int);
            assert(name == seq!['.'] <==> name.len() == 1 && path@[start as int] == '.') by {
                if name.len() == 1 {
                    assert(name[0] == path@[start as int]);
                    if name[0] == '.' {
                        assert(name =~= seq!['.']);
                    }
                }
            }
        }
        if to > start && (verbatim || to - start != 1 || path[start] != '.') {
            return Some((start, to));
        }
        if start == from {
            return None;
        }
        to = start - 1;
    }
    None
}

/// The name of a file: the last component of its path that counts, if that is
/// not `..`; a prefix or a root is none.
pub open spec fn file_name_of(path: Seq<char>) -> Option<Seq<char>> {
    match last_part(path, body_start(path), path.len() as int, verbatim(path)) {
        Some(part) => {
            let name = path.subrange(part.0, part.1);
            if name == seq!['.'] || name == seq!['.', '.'] {
                None
            } else {
                Some(name)
            }
        },
        None => None,
    }
}

/// The name of a file.
pub fn file_name(path: &str) -> (r: Option<String>)
    ensures
        crate::config::text_of(r) == file_name_of(path@),
{
    let chars = to_chars(path);
    let from: usize = find_body_start(&chars);
    match find_last_part(&chars, from, chars.len(), is_verbatim(&chars)) {
        Some((start, end)) => {
            let name = slice_chars(&chars, start, end);
            let n: usize = name.len();
            proof {
                if name@.len() == 1 && name@[0] == '.' {
                    assert(name@ =~= seq!['.']);
                }
                if name@.len() == 2 && name@[0] == '.' && name@[1] == '.' {
                    assert(name@ =~= seq!['.', '.']);
                }
            }
            if (n == 1 && name[0] == '.') || (n == 2 && name[0] == '.' && name[1] == '.') {
                None
            } else {
                Some(from_chars(&name))
            }
        },
        None => None,
    }
}

/// The directory that holds a file: the path up to the last component before
/// that of the file, and its prefix and root in any case; empty where the path
/// has no component.
pub open spec fn parent_of(path: Seq<char>) -> Seq<char> {
    let from = body_start(path);
    match last_part(path, from, path.len() as int, verbatim(path)) {
        Some(part) => match last_part(path, from, part.0 - 1, verbatim(path)) {
            Some(before) => path.take(before.1),
            None => path.take(from),
        },
        None => if starts_here(path) {
            path.take(prefix_end(path))
        } else {
            Seq::empty()
        },
    }
}

/// The directory that holds a file.
pub fn parent_directory(path: &str) -> (r: String)
    ensures
        r@ == parent_of(path@),
{
    let chars = to_chars(path);
    let from: usize = find_body_start(&chars);
    let verbatim = is_verbatim(&chars);
    let to: usize = match find_last_part(&chars, from, chars.len(), verbatim) {
        Some((start, _)) => if start > from {
            match find_last_part(&chars, from, start - 1, verbatim) {
                Some((_, end)) => end,
                None => from,
            }
        } else {
            from
        },
        None => {
            let prefix: usize = find_prefix_end(&chars);
            if from > prefix && chars[prefix] == '.' {
                prefix
            } else {
                0
            }
        },
    };
    let head = slice_chars(&chars, 0, to);
    assert(head@ =~= parent_of(path@));
    from_chars(&head)
}

// ---------------------------------------------------------------------------
// What the parts of a path are
// ---------------------------------------------------------------------------
proof fn lemma_component_ends(path: Seq<char>, at: int, end: int, verbatim: bool)
    requires
        0 <= at <= end <= path.len(),
        forall|i: int| at <= i < end ==> !separator(#[trigger] path[i], verbatim),
        end == path.len() || separator(path[end], verbatim),
    ensures
        component_end(path, at, verbatim) == end,
    decreases end - at,
{
    if at < end {
        assert(!separator(path[at], verbatim));
        lemma_component_ends(path, at + 1, end, verbatim);
    }
}

proof fn lemma_component_starts(path: Seq<char>, from: int, start: int, end: int, verbatim: bool)
    requires
        0 <= from <= start <= end <= path.len(),
        forall|i: int| start <= i < end ==> !separator(#[trigger] path[i], verbatim),
        start == from || separator(path[start - 1], verbatim),
    ensures
        component_start(path, from, end, verbatim) == start,
    decreases end - start,
{
    if start < end {
        assert(!separator(path[end - 1], verbatim));
        lemma_component_starts(path, from, start, end - 1, verbatim);
    }
}

proof fn lemma_component_end_bounds(path: Seq<char>, at: int, verbatim: bool)
    requires
        0 <= at <= path.len(),
    ensures
        at <= component_end(path, at, verbatim) <= path.len(),
    decreases path.len() - at,
{
    if at < path.len() {
        lemma_component_end_bounds(path, at + 1, verbatim);
    }
}

proof fn lemma_component_start_bounds(path: Seq<char>, from: int, end: int, verbatim: bool)
    requires
        0 <= from <= end <= path.len(),
    ensures
        ({
            let start = component_start(path, from, end, verbatim);
            &&& from <= start <= end
            &&& start == from || separator(path[start - 1], verbatim)
            &&& forall|i: int| start <= i < end ==> !separator(#[trigger] path[i], verbatim)
        }),
    decreases end - from,
{
    if end > from && !separator(path[end - 1], verbatim) {
        lemma_component_start_bounds(path, from, end - 1, verbatim);
    }
}

proof fn lemma_last_part_bounds(path: Seq<char>, from: int, end: int, verbatim: bool)
    requires
        0 <= from,
        end <= path.len(),
    ensures
        last_part(path, from, end, verbatim) matches Some(part) ==> {
            &&& from <= part.0 < part.1 <= end
            &&& part.0 == from || separator(path[part.0 - 1], verbatim)
            &&& forall|i: int| part.0 <= i < part.1 ==> !separator(#[trigger] path[i], verbatim)
        },
    decreases end - from,
{
    if end > from {
        let start = component_start(path, from, end, verbatim);
        lemma_component_start_bounds(path, from, end, verbatim);
        if !counts(path.subrange(start, end), verbatim) && from < start <= end {
            lemma_last_part_bounds(path, from, start - 1, verbatim);
        }
    }
}

proof fn lemma_body_bounds(path: Seq<char>)
    ensures
        0 <= prefix_end(path) <= body_start(path) <= path.len(),
{
    if path.len() >= 2 {
        lemma_component_end_bounds(path, 2, false);
        let server = component_end(path, 2, false);
        if server < path.len() {
            lemma_component_end_bounds(path, server + 1, false);
        }
    }
    if path.len() >= 4 {
        lemma_component_end_bounds(path, 4, true);
        lemma_component_end_bounds(path, 4, false);
    }
    if path.len() >= 8 {
        lemma_component_end_bounds(path, 8, true);
        let server = component_end(path, 8, true);
        if server < path.len() {
            lemma_component_end_bounds(path, server + 1, true);
        }
    }
}

/// The name of a file is a piece of its path without a backslash, and the
/// directory is the path up to somewhere before it.
pub proof fn lemma_name_and_directory(path: Seq<char>)
    ensures
        parent_of(path).len() <= path.len(),
        parent_of(path) == path.take(parent_of(path).len() as int),
        file_name_of(path) matches Some(name) ==> {
            &&& name.len() > 0
            &&& forall|i: int| 0 <= i < name.len() ==> #[trigger] name[i] != '\\'
            &&& exists|at: int|
                {
                    &&& parent_of(path).len() <= at <= at + name.len() <= path.len()
                    &&& #[trigger] path.subrange(at, at + name.len()) == name
                }
        },
{
    lemma_body_bounds(path);
    let (from, v) = (body_start(path), verbatim(path));
    lemma_last_part_bounds(path, from, path.len() as int, v);
    assert(path.take(0) =~= Seq::<char>::empty());
    if let Some(part) = last_part(path, from, path.len() as int, v) {
        lemma_last_part_bounds(path, from, part.0 - 1, v);
        let name = path.subrange(part.0, part.1);
        assert forall|i: int| 0 <= i < name.len() implies #[trigger] name[i] != '\\' by {
            assert(!separator(path[part.0 + i], v));
        }
        assert(parent_of(path).len() <= part.0);
        assert(path.subrange(part.0, part.0 + name.len()) == name);
        assert(file_name_of(path) is Some ==> file_name_of(path)->Some_0 == name);
    }
}

/// Whether a text is a name that a directory can hold.
pub open spec fn plain_name(name: Seq<char>) -> bool {
    &&& name.len() > 0
    &&& name != seq!['.']
    &&& name != seq!['.', '.']
    &&& forall|i: int| 0 <= i < name.len() ==> #[trigger] name[i] != '\\' && name[i] != '/'
}

/// Whether a path begins with the root of a drive, such as `C:\`.
pub open spec fn on_drive(path: Seq<char>) -> bool {
    &&& path.len() >= 3
    &&& 'a' <= path[0] <= 'z' || 'A' <= path[0] <= 'Z'
    &&& path[1] == ':'
    &&& path[2] == '\\'
}

/// A file in a directory of a drive has the name and the directory that make its
/// path, be the directory the root itself or one below it.
pub proof fn lemma_file_on_drive(directory: Seq<char>, name: Seq<char>)
    requires
        on_drive(directory),
        plain_name(name),
    ensures
        file_name_of(directory + seq!['\\'] + name) == Some(name),
        directory.last() != '\\' && directory.last() != '/' && directory.last() != '.' ==> parent_of(
            directory + seq!['\\'] + name,
        ) == directory,
        directory.len() == 3 ==> {
            &&& file_name_of(directory + name) == Some(name)
            &&& parent_of(directory + name) == directory
        },
{
    let n = directory.len() as int;
    let path = directory + seq!['\\'] + name;
    let end = path.len() as int;
    assert(path[0] == directory[0] && path[1] == ':' && path[2] == '\\' && path[n] == '\\');
    assert(prefix_end(path) == 2 && body_start(path) == 3 && !verbatim(path));
    assert forall|i: int| n + 1 <= i < end implies !separator(#[trigger] path[i], false) by {
        assert(path[i] == name[i - n - 1]);
    }
    lemma_component_starts(path, 3, n + 1, end, false);
    assert(path.subrange(n + 1, end) =~= name);
    assert(last_part(path, 3, end, false) == Some((n + 1, end)));
    if directory.last() != '\\' && directory.last() != '/' && directory.last() != '.' {
        assert(n > 3);
        let start = component_start(path, 3, n, false);
        lemma_component_start_bounds(path, 3, n, false);
        assert(path[n - 1] == directory.last());
        assert(start < n);
        assert(path.subrange(start, n).last() == directory.last());
        assert(last_part(path, 3, n, false) == Some((start, n)));
        assert(path.take(n) =~= directory);
    }
    if n == 3 {
        let path = directory + name;
        let end = path.len() as int;
        assert(path[0] == directory[0] && path[1] == ':' && path[2] == '\\');
        assert(prefix_end(path) == 2 && body_start(path) == 3 && !verbatim(path));
        assert forall|i: int| 3 <= i < end implies !separator(#[trigger] path[i], false) by {
            assert(path[i] == name[i - 3]);
        }
        lemma_component_starts(path, 3, 3, end, false);
        assert(path.subrange(3, end) =~= name);
        assert(last_part(path, 3, end, false) == Some((3int, end)));
        assert(path.take(3) =~= directory);
    }
}

/// A name alone is the name of the file, in no directory.
pub proof fn lemma_name_alone(name: Seq<char>)
    requires
        plain_name(name),
        name.len() >= 2 ==> name[1] != ':',
    ensures
        file_name_of(name) == Some(name),
        parent_of(name) == Seq::<char>::empty(),
{
    let end = name.len() as int;
    assert(name[0] != '\\' && name[0] != '/');
    assert(name.len() == 1 && name[0] == '.' ==> name =~= seq!['.']);
    assert(name.len() >= 2 ==> name[1] != '\\' && name[1] != '/');
    assert(prefix_end(name) == 0 && root_end(name) == 0);
    assert(!starts_here(name) && body_start(name) == 0);
    assert(forall|i: int| 0 <= i < end ==> !separator(#[trigger] name[i], false));
    lemma_component_starts(name, 0, 0, end, false);
    assert(name.subrange(0, end) =~= name);
    assert(last_part(name, 0, end, false) == Some((0int, end)));
    assert(name.take(0) =~= Seq::<char>::empty());
}

/// The share of a server is the root of what lies on it.
pub proof fn lemma_file_on_share(server: Seq<char>, share: Seq<char>, name: Seq<char>)
    requires
        plain_name(server),
        plain_name(share),
        plain_name(name),
        server != seq!['?'],
    ensures
        ({
            let root = seq!['\\', '\\'] + server + seq!['\\'] + share + seq!['\\'];
            &&& file_name_of(root + name) == Some(name)
            &&& parent_of(root + name) == root
            &&& file_name_of(root) is None
            &&& parent_of(root) == Seq::<char>::empty()
        }),
{
    let root = seq!['\\', '\\'] + server + seq!['\\'] + share + seq!['\\'];
    lemma_share_root(server, share, Seq::empty());
    assert(root + Seq::<char>::empty() =~= root);
    lemma_share_root(server, share, name);
    let path = root + name;
    let (n, end) = (root.len() as int, path.len() as int);
    assert forall|i: int| n <= i < end implies !separator(#[trigger] path[i], false) by {
        assert(path[i] == name[i - n]);
    }
    lemma_component_starts(path, n, n, end, false);
    assert(path.subrange(n, end) =~= name);
    assert(last_part(path, n, end, false) == Some((n, end)));
    assert(path.take(n) =~= root);
}

proof fn lemma_share_root(server: Seq<char>, share: Seq<char>, rest: Seq<char>)
    requires
        plain_name(server),
        plain_name(share),
        server != seq!['?'],
    ensures
        ({
            let root = seq!['\\', '\\'] + server + seq!['\\'] + share + seq!['\\'];
            &&& !verbatim(root + rest)
            &&& prefix_end(root + rest) == root.len() - 1
            &&& body_start(root + rest) == root.len()
            &&& !starts_here(root + rest)
        }),
{
    let root = seq!['\\', '\\'] + server + seq!['\\'] + share + seq!['\\'];
    let path = root + rest;
    let (a, b) = (2 + server.len() as int, 3 + server.len() + share.len() as int);
    assert(path[0] == '\\' && path[1] == '\\' && path[a] == '\\' && path[b] == '\\');
    assert forall|i: int| 2 <= i < a implies path[i] != '\\' && path[i] != '/' by {
        assert(path[i] == server[i - 2]);
    }
    assert forall|i: int| a + 1 <= i < b implies path[i] != '\\' && path[i] != '/' by {
        assert(path[i] == share[i - a - 1]);
    }
    assert(path[2] == server[0]);
    if server.len() == 1 {
        assert(server[0] == '?' ==> server =~= seq!['?']);
        assert(server[0] == '.' ==> server =~= seq!['.']);
    } else {
        assert(path[3] == server[1]);
    }
    lemma_component_ends(path, 2, a, false);
    lemma_component_ends(path, a + 1, b, false);
}

/// Behind `\\?\` and the root of a drive a name is taken to the letter: a slash is
/// part of it.
pub proof fn lemma_file_taken_to_letter(letter: char, name: Seq<char>)
    requires
        'a' <= letter <= 'z' || 'A' <= letter <= 'Z',
        name.len() > 0,
        name != seq!['.'],
        name != seq!['.', '.'],
        forall|i: int| 0 <= i < name.len() ==> #[trigger] name[i] != '\\',
    ensures
        ({
            let root = seq!['\\', '\\', '?', '\\', letter, ':', '\\'];
            &&& file_name_of(root + name) == Some(name)
            &&& parent_of(root + name) == root
        }),
{
    let root = seq!['\\', '\\', '?', '\\', letter, ':', '\\'];
    let path = root + name;
    let end = path.len() as int;
    assert(path[4] == letter && path[5] == ':' && path[6] == '\\');
    assert(verbatim(path));
    if path.subrange(4, 7) == seq!['U', 'N', 'C'] {
        assert(path.subrange(4, 7)[1] == ':');
        assert(seq!['U', 'N', 'C'][1] == 'N');
    }
    assert(prefix_end(path) == 6 && body_start(path) == 7);
    assert forall|i: int| 7 <= i < end implies !separator(#[trigger] path[i], true) by {
        assert(path[i] == name[i - 7]);
    }
    lemma_component_starts(path, 7, 7, end, true);
    assert(path.subrange(7, end) =~= name);
    assert(last_part(path, 7, end, true) == Some((7int, end)));
    assert(path.take(7) =~= root);
}

proof fn lemma_last_part_of_prefix(path: Seq<char>, longer: Seq<char>, from: int, end: int)
    requires
        0 <= from,
        end <= path.len() <= longer.len(),
        longer.take(path.len() as int) == path,
    ensures
        last_part(longer, from, end, false) == last_part(path, from, end, false),
    decreases end - from,
{
    if end > from {
        assert forall|i: int| 0 <= i < path.len() implies #[trigger] longer[i] == path[i] by {
            assert(longer.take(path.len() as int)[i] == path[i]);
        }
        let start = component_start(path, from, end, false);
        lemma_component_start_bounds(path, from, end, false);
        lemma_component_starts(longer, from, start, end, false);
        assert(longer.subrange(start, end) =~= path.subrange(start, end));
        if from < start {
            lemma_last_part_of_prefix(path, longer, from, start - 1);
        }
    }
}

/// A separator at the end of a path on a drive changes neither the name nor the
/// directory, and neither does a dot behind it; two dots there have no name.
pub proof fn lemma_what_does_not_count(path: Seq<char>)
    requires
        on_drive(path),
    ensures
        file_name_of(path + seq!['\\']) == file_name_of(path),
        parent_of(path + seq!['\\']) == parent_of(path),
        file_name_of(path + seq!['/']) == file_name_of(path),
        parent_of(path + seq!['/']) == parent_of(path),
        file_name_of(path + seq!['\\', '.']) == file_name_of(path),
        parent_of(path + seq!['\\', '.']) == parent_of(path),
        file_name_of(path + seq!['\\', '.', '.']) is None,
{
    let n = path.len() as int;
    lemma_ends_alike(path, seq!['\\']);
    lemma_ends_alike(path, seq!['/']);
    lemma_ends_alike(path, seq!['\\', '.']);
    let up = path + seq!['\\', '.', '.'];
    assert(up[0] == path[0] && up[1] == ':' && up[2] == '\\' && up[n] == '\\');
    assert(prefix_end(up) == 2 && body_start(up) == 3 && !verbatim(up));
    assert(up[n + 1] == '.' && up[n + 2] == '.');
    lemma_component_starts(up, 3, n + 1, n + 3, false);
    assert(up.subrange(n + 1, n + 3) =~= seq!['.', '.']);
    assert(seq!['.', '.'] != seq!['.']) by {
        assert(seq!['.', '.'].len() != seq!['.'].len());
    }
    assert(last_part(up, 3, n + 3, false) == Some((n + 1, n + 3)));
}

proof fn lemma_ends_alike(path: Seq<char>, tail: Seq<char>)
    requires
        on_drive(path),
        tail == seq!['\\'] || tail == seq!['/'] || tail == seq!['\\', '.'],
    ensures
        file_name_of(path + tail) == file_name_of(path),
        parent_of(path + tail) == parent_of(path),
{
    let n = path.len() as int;
    let longer = path + tail;
    let end = longer.len() as int;
    assert(longer[0] == path[0] && longer[1] == ':' && longer[2] == '\\');
    assert(longer[n] == tail[0] && separator(tail[0], false));
    assert(prefix_end(longer) == 2 && body_start(longer) == 3 && !verbatim(longer));
    assert(prefix_end(path) == 2 && body_start(path) == 3 && !verbatim(path));
    assert(!starts_here(path) && !starts_here(longer));
    assert(tail.len() == 2 ==> longer[n + 1] == '.');
    lemma_component_starts(longer, 3, n + 1, end, false);
    let rest = longer.subrange(n + 1, end);
    assert(tail.len() == 2 ==> rest =~= seq!['.']);
    assert(!counts(rest, false));
    assert(last_part(longer, 3, end, false) == last_part(longer, 3, n, false));
    assert(longer.take(n) =~= path);
    lemma_last_part_of_prefix(path, longer, 3, n);
    lemma_last_part_bounds(path, 3, n, false);
    if let Some(part) = last_part(path, 3, n, false) {
        assert(longer.subrange(part.0, part.1) =~= path.subrange(part.0, part.1));
        lemma_last_part_of_prefix(path, longer, 3, part.0 - 1);
        lemma_last_part_bounds(path, 3, part.0 - 1, false);
        if let Some(before) = last_part(path, 3, part.0 - 1, false) {
            assert(longer.take(before.1) =~= path.take(before.1));
        }
        assert(longer.take(3) =~= path.take(3));
    }
}

/// A file named from the current directory lies in it, and the current directory
/// itself has no name.
pub proof fn lemma_file_from_here(name: Seq<char>)
    requires
        plain_name(name),
    ensures
        file_name_of(seq!['.', '\\'] + name) == Some(name),
        parent_of(seq!['.', '\\'] + name) == seq!['.'],
        file_name_of(seq!['.']) is None,
        parent_of(seq!['.']) == Seq::<char>::empty(),
{
    let here = seq!['.'];
    assert(prefix_end(here) == 0 && starts_here(here) && body_start(here) == 1);
    assert(here.take(0) =~= Seq::<char>::empty());
    let path = seq!['.', '\\'] + name;
    let end = path.len() as int;
    assert(path[0] == '.' && path[1] == '\\');
    assert(prefix_end(path) == 0 && root_end(path) == 0 && !verbatim(path));
    assert(starts_here(path) && body_start(path) == 1);
    assert forall|i: int| 2 <= i < end implies !separator(#[trigger] path[i], false) by {
        assert(path[i] == name[i - 2]);
    }
    lemma_component_starts(path, 1, 2, end, false);
    assert(path.subrange(2, end) =~= name);
    assert(last_part(path, 1, end, false) == Some((2int, end)));
    assert(path.take(1) =~= here);
}

} // verus!
