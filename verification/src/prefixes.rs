//! What a Windows path starts with: a drive, a share, a device, or the mark of a verbatim path.

use vstd::prelude::*;

verus! {

/// How a system writes paths.
#[derive(Clone, Copy, PartialEq, Eq, Structural, Debug)]
pub enum PathStyle {
    /// Parts are separated by `/`.
    Posix,
    /// Parts are separated by `\` or `/`, and a path may start with a drive or a share.
    Windows,
}

/// Which characters separate the parts of a path.
#[derive(Clone, Copy, PartialEq, Eq, Structural, Debug)]
pub enum Separators {
    /// `/`.
    Slash,
    /// `/` and `\`.
    Both,
    /// `\`, in a path that is taken word for word, where a single dot is a part like others.
    Verbatim,
}

/// Whether a character separates parts.
pub open spec fn parts(separators: Separators, c: char) -> bool {
    match separators {
        Separators::Slash => c == '/',
        Separators::Both => c == '/' || c == '\\',
        Separators::Verbatim => c == '\\',
    }
}

/// Whether a character separates parts.
pub fn is_separator(separators: Separators, c: char) -> (r: bool)
    ensures
        r == parts(separators, c),
{
    match separators {
        Separators::Slash => c == '/',
        Separators::Both => c == '/' || c == '\\',
        Separators::Verbatim => c == '\\',
    }
}

/// The number of characters from an index up to the next separator, or to the end.
pub open spec fn name_len(path: Seq<char>, at: nat, separators: Separators) -> nat
    decreases path.len() - at,
{
    if at >= path.len() || parts(separators, path[at as int]) {
        0
    } else {
        1 + name_len(path, at + 1, separators)
    }
}

/// What a path starts with.
#[derive(Clone, Copy, PartialEq, Eq, Structural, Debug)]
pub enum PrefixKind {
    /// Nothing.
    Absent,
    /// A drive, as in `C:`.
    Drive,
    /// A share or a device, as in `\\server\share` and `\\.\COM42`.
    Place,
    /// The mark of a path that is taken word for word, as in `\\?\C:`.
    Verbatim,
}

/// What a path starts with, and how many characters that takes.
#[derive(Clone, Copy, PartialEq, Eq, Structural, Debug)]
pub struct Prefix {
    pub kind: PrefixKind,
    pub len: usize,
}

/// What a path starts with, and how many characters that takes.
pub struct Start {
    pub kind: PrefixKind,
    pub len: nat,
}

impl View for Prefix {
    type V = Start;

    open spec fn view(&self) -> Start {
        Start { kind: self.kind, len: self.len as nat }
    }
}

/// Whether a path holds a drive at an index.
pub open spec fn has_drive(path: Seq<char>, at: nat) -> bool {
    at + 1 < path.len() && ('a' <= path[at as int] <= 'z' || 'A' <= path[at as int] <= 'Z')
        && path[(at + 1) as int] == ':'
}

/// How many characters a server takes from an index, and a share behind it.
pub open spec fn server_and_share(path: Seq<char>, at: nat, separators: Separators) -> (nat, nat) {
    let server = name_len(path, at, separators);
    (server, name_len(path, at + server + 1, separators))
}

/// Whether a path starts with two separators, followed by a mark and a separator.
pub open spec fn is_marked(path: Seq<char>, mark: char) -> bool {
    path.len() >= 4 && path[2] == mark && parts(Separators::Both, path[3])
}

/// Whether the name behind the mark of a verbatim path is `UNC`.
pub open spec fn is_verbatim_share(path: Seq<char>) -> bool {
    path.len() >= 8 && path[4] == 'U' && path[5] == 'N' && path[6] == 'C' && parts(
        Separators::Both,
        path[7],
    )
}

/// What is behind the mark of a verbatim path: a share, a drive, or a name.
pub open spec fn verbatim_len(path: Seq<char>) -> nat {
    if is_verbatim_share(path) {
        let (server, share) = server_and_share(path, 8, Separators::Verbatim);
        if share > 0 {
            8 + server + 1 + share
        } else {
            8 + server
        }
    } else if has_drive(path, 4) && (path.len() == 6 || parts(Separators::Both, path[6])) {
        6
    } else {
        4 + name_len(path, 4, Separators::Verbatim)
    }
}

/// What a Windows path starts with. The mark of a verbatim path is written with `\` alone.
pub open spec fn windows_start(path: Seq<char>) -> Start {
    if path.len() >= 2 && parts(Separators::Both, path[0]) && parts(Separators::Both, path[1]) {
        if is_marked(path, '?') && path[0] == '\\' && path[1] == '\\' && path[3] == '\\' {
            Start { kind: PrefixKind::Verbatim, len: verbatim_len(path) }
        } else if is_marked(path, '.') {
            Start { kind: PrefixKind::Place, len: 4 + name_len(path, 4, Separators::Both) }
        } else {
            let (server, share) = server_and_share(path, 2, Separators::Both);
            if server > 0 && share > 0 {
                Start { kind: PrefixKind::Place, len: 2 + server + 1 + share }
            } else {
                Start { kind: PrefixKind::Absent, len: 0 }
            }
        }
    } else if has_drive(path, 0) {
        Start { kind: PrefixKind::Drive, len: 2 }
    } else {
        Start { kind: PrefixKind::Absent, len: 0 }
    }
}

/// What a path starts with.
pub open spec fn start_of(style: PathStyle, path: Seq<char>) -> Start {
    match style {
        PathStyle::Posix => Start { kind: PrefixKind::Absent, len: 0 },
        PathStyle::Windows => windows_start(path),
    }
}

/// A name ends with the path, or before.
pub proof fn name_is_within(path: Seq<char>, at: nat, separators: Separators)
    ensures
        at <= path.len() ==> at + name_len(path, at, separators) <= path.len(),
        at >= path.len() ==> name_len(path, at, separators) == 0,
    decreases path.len() - at,
{
    if at < path.len() && !parts(separators, path[at as int]) {
        name_is_within(path, at + 1, separators);
    }
}

/// What a path starts with is a part of it.
pub proof fn start_is_within(style: PathStyle, path: Seq<char>)
    ensures
        start_of(style, path).len <= path.len(),
{
    name_is_within(path, 4, Separators::Verbatim);
    name_is_within(path, 4, Separators::Both);
    name_is_within(path, 2, Separators::Both);
    name_is_within(path, 8, Separators::Verbatim);
    let server = name_len(path, 2, Separators::Both);
    name_is_within(path, 2 + server + 1, Separators::Both);
    let host = name_len(path, 8, Separators::Verbatim);
    name_is_within(path, 8 + host + 1, Separators::Verbatim);
}

/// The number of characters from an index up to the next separator, or to the end.
pub fn measure_name(path: &[char], at: usize, separators: Separators) -> (r: usize)
    ensures
        r == name_len(path@, at as nat, separators),
        at <= path@.len() ==> at + r <= path@.len(),
{
    let n: usize = path.len();
    if at >= n {
        return 0;
    }
    let mut k: usize = at;
    while k < n && !is_separator(separators, path[k])
        invariant
            at <= k <= n,
            n == path@.len(),
            name_len(path@, at as nat, separators) == k - at + name_len(
                path@,
                k as nat,
                separators,
            ),
        decreases n - k,
    {
        k += 1;
    }
    k - at
}

fn finds_drive(path: &[char], at: usize) -> (r: bool)
    requires
        at < 8,
    ensures
        r == has_drive(path@, at as nat),
{
    if at + 1 >= path.len() {
        return false;
    }
    let c: char = path[at];
    (('a' <= c && c <= 'z') || ('A' <= c && c <= 'Z')) && path[at + 1] == ':'
}

/// The characters that a server takes from an index, and those of a share behind it.
fn measure_share(path: &[char], at: usize, separators: Separators) -> (r: (usize, usize))
    requires
        at <= path@.len(),
    ensures
        (r.0 as nat, r.1 as nat) == server_and_share(path@, at as nat, separators),
        at + r.0 <= path@.len(),
        r.1 > 0 ==> at + r.0 + 1 + r.1 <= path@.len(),
{
    let n: usize = path.len();
    let server: usize = measure_name(path, at, separators);
    if at + server == n {
        proof {
            name_is_within(path@, (at + server + 1) as nat, separators);
        }
        return (server, 0);
    }
    let share: usize = measure_name(path, at + server + 1, separators);
    (server, share)
}

fn verbatim_prefix_len(path: &[char]) -> (r: usize)
    requires
        path@.len() >= 4,
    ensures
        r == verbatim_len(path@),
{
    let n: usize = path.len();
    if n >= 8 && path[4] == 'U' && path[5] == 'N' && path[6] == 'C' && is_separator(
        Separators::Both,
        path[7],
    ) {
        let (server, share) = measure_share(path, 8, Separators::Verbatim);
        if share > 0 {
            8 + server + 1 + share
        } else {
            8 + server
        }
    } else if finds_drive(path, 4) && (n == 6 || is_separator(Separators::Both, path[6])) {
        6
    } else {
        4 + measure_name(path, 4, Separators::Verbatim)
    }
}

/// What a path starts with.
pub fn find_prefix(style: PathStyle, path: &[char]) -> (r: Prefix)
    ensures
        r@ == start_of(style, path@),
        r.len <= path@.len(),
{
    proof {
        start_is_within(style, path@);
    }
    let n: usize = path.len();
    let none = Prefix { kind: PrefixKind::Absent, len: 0 };
    match style {
        PathStyle::Posix => none,
        PathStyle::Windows => {
            if n >= 2 && is_separator(Separators::Both, path[0]) && is_separator(
                Separators::Both,
                path[1],
            ) {
                let marked: bool = n >= 4 && is_separator(Separators::Both, path[3]);
                if marked && path[2] == '?' && path[0] == '\\' && path[1] == '\\' && path[3]
                    == '\\' {
                    Prefix { kind: PrefixKind::Verbatim, len: verbatim_prefix_len(path) }
                } else if marked && path[2] == '.' {
                    Prefix {
                        kind: PrefixKind::Place,
                        len: 4 + measure_name(path, 4, Separators::Both),
                    }
                } else {
                    let (server, share) = measure_share(path, 2, Separators::Both);
                    if server > 0 && share > 0 {
                        Prefix { kind: PrefixKind::Place, len: 2 + server + 1 + share }
                    } else {
                        none
                    }
                }
            } else if finds_drive(path, 0) {
                Prefix { kind: PrefixKind::Drive, len: 2 }
            } else {
                none
            }
        },
    }
}

/// Parts are separated by `/` everywhere but in a path that is taken word for word, and by a
/// backslash on Windows.
pub proof fn separators_are_slashes(c: char)
    ensures
        parts(Separators::Slash, c) <==> c == '/',
        parts(Separators::Both, c) <==> c == '/' || c == '\\',
        parts(Separators::Verbatim, c) <==> c == '\\',
{
}

/// A name reaches up to the next separator, or to the end of the path.
pub proof fn names_reach_to_the_next_separator(
    path: Seq<char>,
    at: nat,
    separators: Separators,
    i: int,
)
    requires
        at <= path.len(),
    ensures
        ({
            let n = name_len(path, at, separators);
            &&& at + n <= path.len()
            &&& at <= i < at + n ==> !parts(separators, path[i])
            &&& at + n < path.len() ==> parts(separators, path[(at + n) as int])
        }),
    decreases path.len() - at,
{
    if at < path.len() && !parts(separators, path[at as int]) {
        names_reach_to_the_next_separator(path, at + 1, separators, i);
    }
}

/// A Windows path without two separators at its start begins with a drive, a letter and a colon,
/// or with nothing of the kind; a path of the other style always begins with nothing.
pub proof fn drives_are_a_letter_and_a_colon(path: Seq<char>)
    ensures
        start_of(PathStyle::Posix, path) == (Start { kind: PrefixKind::Absent, len: 0 }),
        path.len() < 2 ==> start_of(PathStyle::Windows, path) == (Start {
            kind: PrefixKind::Absent,
            len: 0,
        }),
        path.len() >= 2 && path[1] == ':' ==> {
            let letter = 'a' <= path[0] <= 'z' || 'A' <= path[0] <= 'Z';
            &&& letter ==> start_of(PathStyle::Windows, path) == (Start {
                kind: PrefixKind::Drive,
                len: 2,
            })
            &&& !letter ==> start_of(PathStyle::Windows, path) == (Start {
                kind: PrefixKind::Absent,
                len: 0,
            })
        },
        path.len() >= 2 && path[1] != ':' && path[1] != '/' && path[1] != '\\' ==> start_of(
            PathStyle::Windows,
            path,
        ) == (Start { kind: PrefixKind::Absent, len: 0 }),
{
}

/// What a path starts with is seen as it is.
pub proof fn prefixes_show_their_fields(prefix: Prefix)
    ensures
        prefix@.kind == prefix.kind,
        prefix@.len == prefix.len,
{
}

} // verus!
