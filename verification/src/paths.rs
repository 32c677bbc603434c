//! File paths, taken apart and put together as text.

use crate::prefixes;
use crate::prefixes::{PathStyle, PrefixKind, Separators, Start};
use crate::text;
use vstd::prelude::*;
use vstd::string::*;

verus! {

/// The separators at which a path of a style is entered, joined and rooted.
pub open spec fn any_separator(style: PathStyle) -> Separators {
    match style {
        PathStyle::Posix => Separators::Slash,
        PathStyle::Windows => Separators::Both,
    }
}

/// The separators between the parts of a path.
pub open spec fn separators_of(style: PathStyle, path: Seq<char>) -> Separators {
    if prefixes::start_of(style, path).kind == PrefixKind::Verbatim {
        Separators::Verbatim
    } else {
        any_separator(style)
    }
}

/// Whether a separator follows what the path starts with.
pub open spec fn is_rooted(style: PathStyle, path: Seq<char>) -> bool {
    let n = prefixes::start_of(style, path).len;
    path.len() > n && prefixes::parts(any_separator(style), path[n as int])
}

/// Whether a path starts with what has a root of its own.
pub open spec fn has_own_root(start: Start) -> bool {
    start.kind == PrefixKind::Place || start.kind == PrefixKind::Verbatim
}

/// Whether a path without a root goes on with a single dot as its first part.
pub open spec fn is_dotted(style: PathStyle, path: Seq<char>) -> bool {
    let start = prefixes::start_of(style, path);
    let n = start.len as int;
    &&& !is_rooted(style, path) && !has_own_root(start)
    &&& path.len() > n && path[n] == '.'
    &&& path.len() == n + 1 || prefixes::parts(separators_of(style, path), path[n + 1])
}

/// How many characters come before the parts of a path: what it starts with, the separator of the
/// root, and a leading dot.
pub open spec fn front(style: PathStyle, path: Seq<char>) -> nat {
    let n = prefixes::start_of(style, path).len;
    if is_rooted(style, path) || is_dotted(style, path) {
        n + 1
    } else {
        n
    }
}

/// Whether the path says where it is without a directory to start from.
pub open spec fn is_absolute_path(style: PathStyle, path: Seq<char>) -> bool {
    let start = prefixes::start_of(style, path);
    match style {
        PathStyle::Posix => is_rooted(style, path),
        PathStyle::Windows => start.kind != PrefixKind::Absent && (is_rooted(style, path)
            || has_own_root(start)),
    }
}

/// The parts of a path from an index on, without empty ones.
pub open spec fn names(path: Seq<char>, at: nat, separators: Separators) -> Seq<Seq<char>>
    decreases path.len() - at,
{
    if at >= path.len() {
        Seq::empty()
    } else {
        proof {
            prefixes::name_is_within(path, at, separators);
        }
        let n = prefixes::name_len(path, at, separators);
        if n == 0 {
            names(path, at + 1, separators)
        } else {
            seq![path.subrange(at as int, (at + n) as int)] + names(path, at + n, separators)
        }
    }
}

/// Whether a part is the name of something, and neither a single dot nor two.
pub open spec fn is_plain(name: Seq<char>) -> bool {
    name != seq!['.'] && name != seq!['.', '.']
}

/// Where steps lead from a directory of some parts: two dots lead back over a name, a single dot
/// leads nowhere, and anything else leads on.
pub open spec fn walked(from: Seq<Seq<char>>, steps: Seq<Seq<char>>) -> Seq<Seq<char>>
    decreases steps.len(),
{
    if steps.len() == 0 {
        from
    } else {
        let before = walked(from, steps.drop_last());
        if is_plain(steps.last()) {
            before.push(steps.last())
        } else if steps.last().len() == 2 && before.len() > 0 && is_plain(before.last()) {
            before.drop_last()
        } else {
            before
        }
    }
}

/// Parts, each behind a `\`.
pub open spec fn written(parts: Seq<Seq<char>>) -> Seq<char>
    decreases parts.len(),
{
    if parts.len() == 0 {
        Seq::empty()
    } else {
        written(parts.drop_last()).push('\\') + parts.last()
    }
}

/// `child` as seen from the verbatim directory `base`, without dots.
pub open spec fn walked_path(base: Seq<char>, child: Seq<char>) -> Seq<char> {
    let n = prefixes::windows_start(base).len;
    let child_rooted = prefixes::parts(Separators::Both, child[0]);
    let from = if child_rooted {
        Seq::empty()
    } else {
        names(base, front(PathStyle::Windows, base), Separators::Verbatim)
    };
    let there = walked(from, names(child, 0, Separators::Both));
    let root = if there.len() == 0 && (child_rooted || is_rooted(PathStyle::Windows, base)) {
        seq!['\\']
    } else {
        Seq::empty()
    };
    base.take(n as int) + root + written(there)
}

/// Whether what is joined to a directory follows without a separator: the directory is empty,
/// ends with one, or is a bare drive.
pub open spec fn follows_directly(style: PathStyle, base: Seq<char>) -> bool {
    ||| base.len() == 0
    ||| prefixes::parts(any_separator(style), base.last())
    ||| prefixes::start_of(style, base).kind == PrefixKind::Drive && base.len() == 2
}

/// The separator that a style writes.
pub open spec fn main_separator(style: PathStyle) -> char {
    match style {
        PathStyle::Posix => '/',
        PathStyle::Windows => '\\',
    }
}

/// `child` as seen from the directory `base`: a child with a prefix, or with a root where there are
/// no prefixes, is itself; a child with a root keeps what the directory starts with; any other
/// child follows the directory.
pub open spec fn joined(style: PathStyle, base: Seq<char>, child: Seq<char>) -> Seq<char> {
    let start = prefixes::start_of(style, base);
    if prefixes::start_of(style, child).kind != PrefixKind::Absent {
        child
    } else if start.kind == PrefixKind::Verbatim && child.len() > 0 {
        walked_path(base, child)
    } else if is_rooted(style, child) {
        base.take(start.len as int) + child
    } else if follows_directly(style, base) {
        base + child
    } else {
        base.push(main_separator(style)) + child
    }
}

/// A path that needs no directory to start from is the same from every directory.
pub proof fn absolute_paths_stay(style: PathStyle, base: Seq<char>, child: Seq<char>)
    requires
        is_absolute_path(style, child),
    ensures
        joined(style, base, child) == child,
{
    assert(base.take(0) + child =~= child);
}

/// The length of the last part behind the first `b` characters.
pub open spec fn part_len(path: Seq<char>, b: nat, separators: Separators) -> nat
    decreases path.len(),
{
    if path.len() <= b || prefixes::parts(separators, path.last()) {
        0
    } else {
        1 + part_len(path.drop_last(), b, separators)
    }
}

/// The path without its last part and the separator before that.
pub open spec fn cut(path: Seq<char>, b: nat, separators: Separators) -> Seq<char> {
    let k = path.len() - part_len(path, b, separators);
    if k > b {
        path.take(k - 1)
    } else {
        path.take(k)
    }
}

/// Whether the last part says nothing: it is empty, or a single dot in a path that is not taken
/// word for word.
pub open spec fn ends_idle(path: Seq<char>, b: nat, separators: Separators) -> bool {
    let p = path.skip(path.len() - part_len(path, b, separators));
    path.len() > b && (p.len() == 0 || p == seq!['.'] && separators != Separators::Verbatim)
}

/// The path without the parts at its end that say nothing.
pub open spec fn settled(path: Seq<char>, b: nat, separators: Separators) -> Seq<char>
    decreases path.len(),
{
    proof {
        cut_shortens(path, b, separators);
    }
    if ends_idle(path, b, separators) {
        settled(cut(path, b, separators), b, separators)
    } else {
        path
    }
}

/// The directory that holds a path; none for a root, for what paths start with and for the empty
/// path.
pub open spec fn parent_of(style: PathStyle, path: Seq<char>) -> Option<Seq<char>> {
    let b = front(style, path);
    let separators = separators_of(style, path);
    let s = settled(path, b, separators);
    if s.len() > b {
        Some(settled(cut(s, b, separators), b, separators))
    } else if is_dotted(style, path) && prefixes::start_of(style, path).kind == PrefixKind::Absent {
        Some(Seq::empty())
    } else {
        None
    }
}

/// The path and the directories that hold it, from the inside out.
pub open spec fn ancestors_of(style: PathStyle, path: Seq<char>) -> Seq<Seq<char>>
    decreases path.len(),
{
    proof {
        parent_is_shorter(style, path);
    }
    match parent_of(style, path) {
        Some(p) => seq![path] + ancestors_of(style, p),
        None => seq![path],
    }
}

/// Cutting the last part off a path takes at least one character and leaves the front.
pub proof fn cut_shortens(path: Seq<char>, b: nat, separators: Separators)
    ensures
        path.len() > b ==> part_len(path, b, separators) <= path.len() - b,
        path.len() <= b ==> part_len(path, b, separators) == 0,
        path.len() > b ==> cut(path, b, separators).len() < path.len(),
        path.len() >= b ==> cut(path, b, separators).len() >= b,
    decreases path.len(),
{
    if path.len() > b && !prefixes::parts(separators, path.last()) {
        cut_shortens(path.drop_last(), b, separators);
    }
}

proof fn lemma_settled(path: Seq<char>, b: nat, separators: Separators)
    requires
        path.len() >= b,
    ensures
        b <= settled(path, b, separators).len() <= path.len(),
    decreases path.len(),
{
    cut_shortens(path, b, separators);
    if ends_idle(path, b, separators) {
        lemma_settled(cut(path, b, separators), b, separators);
    }
}

/// A directory that holds a path is written shorter than the path.
pub proof fn parent_is_shorter(style: PathStyle, path: Seq<char>)
    ensures
        parent_of(style, path) matches Some(p) ==> p.len() < path.len(),
{
    let b = front(style, path);
    let separators = separators_of(style, path);
    let s = settled(path, b, separators);
    prefixes::start_is_within(style, path);
    lemma_settled(path, b, separators);
    cut_shortens(s, b, separators);
    if s.len() > b {
        lemma_settled(cut(s, b, separators), b, separators);
    }
}

/// Where parts are separated by `/`, the directory of what was joined to a directory by a plain
/// name is that directory, if its own last part says something.
pub proof fn parent_of_joined(base: Seq<char>, name: Seq<char>)
    requires
        base.len() > 0,
        base.last() != '/' || base.len() == 1,
        base == settled(base, front(PathStyle::Posix, base), Separators::Slash),
        name.len() > 0,
        !name.contains('/'),
        name != seq!['.'],
    ensures
        parent_of(PathStyle::Posix, joined(PathStyle::Posix, base, name)) == Some(base),
{
    let path = joined(PathStyle::Posix, base, name);
    let b = front(PathStyle::Posix, path);
    assert(name[0] != '/') by {
        if name[0] == '/' {
            assert(name.contains('/'));
        }
    }
    assert(b == front(PathStyle::Posix, base));
    let sep = (path.len() - name.len()) as nat;
    assert(path.skip(sep as int) =~= name);
    lemma_plain_end(path, b, name.len());
    assert(part_len(path, b, Separators::Slash) == name.len());
    assert(!ends_idle(path, b, Separators::Slash));
    assert(cut(path, b, Separators::Slash) =~= base);
}

/// A path whose last `n` characters hold no separator, behind one or behind the front, ends with
/// a part of that length.
proof fn lemma_plain_end(path: Seq<char>, b: nat, n: nat)
    requires
        n <= path.len(),
        path.len() - n >= b,
        path.len() - n == b || path[path.len() - n - 1] == '/',
        forall|i: int| path.len() - n <= i < path.len() ==> path[i] != '/',
    ensures
        part_len(path, b, Separators::Slash) == n,
    decreases n,
{
    if n > 0 {
        lemma_plain_end(path.drop_last(), b, (n - 1) as nat);
    }
}

/// The separators at which a path of a style is entered, joined and rooted.
fn entry_separators(style: PathStyle) -> (r: Separators)
    ensures
        r == any_separator(style),
{
    match style {
        PathStyle::Posix => Separators::Slash,
        PathStyle::Windows => Separators::Both,
    }
}

/// How a path is laid out.
struct Layout {
    prefix: prefixes::Prefix,
    rooted: bool,
    dotted: bool,
    front: usize,
    separators: Separators,
}

/// Finds how a path is laid out.
fn lay_out(style: PathStyle, path: &[char]) -> (r: Layout)
    ensures
        r.prefix@ == prefixes::start_of(style, path@),
        r.prefix.len <= path@.len(),
        r.rooted == is_rooted(style, path@),
        r.dotted == is_dotted(style, path@),
        r.front == front(style, path@),
        r.front <= path@.len(),
        r.separators == separators_of(style, path@),
{
    let prefix = prefixes::find_prefix(style, path);
    let n: usize = path.len();
    let p: usize = prefix.len;
    let entry = entry_separators(style);
    let separators = if prefix.kind == PrefixKind::Verbatim {
        Separators::Verbatim
    } else {
        entry
    };
    let rooted: bool = n > p && prefixes::is_separator(entry, path[p]);
    let own_root: bool = prefix.kind == PrefixKind::Place || prefix.kind == PrefixKind::Verbatim;
    let dotted: bool = !rooted && !own_root && n > p && path[p] == '.' && (n == p + 1
        || prefixes::is_separator(separators, path[p + 1]));
    let front: usize = if rooted || dotted {
        p + 1
    } else {
        p
    };
    Layout { prefix, rooted, dotted, front, separators }
}

/// Whether the path says where it is without a directory to start from.
pub fn is_absolute(style: PathStyle, path: &str) -> (r: bool)
    ensures
        r == is_absolute_path(style, path@),
{
    let chars: Vec<char> = text::chars_of(path);
    let layout = lay_out(style, &chars);
    match style {
        PathStyle::Posix => layout.rooted,
        PathStyle::Windows => match layout.prefix.kind {
            PrefixKind::Absent => false,
            PrefixKind::Drive => layout.rooted,
            _ => true,
        },
    }
}

/// Parts as sequences of characters.
spec fn names_of(parts: Seq<Vec<char>>) -> Seq<Seq<char>> {
    Seq::new(parts.len(), |i: int| parts[i]@)
}

/// The parts of a path from an index on, without empty ones.
fn find_names(path: &[char], from: usize, separators: Separators) -> (r: Vec<Vec<char>>)
    requires
        from <= path@.len(),
    ensures
        names_of(r@) == names(path@, from as nat, separators),
{
    let n: usize = path.len();
    let mut r: Vec<Vec<char>> = Vec::new();
    let mut at: usize = from;
    let ghost all = names(path@, from as nat, separators);
    assert(names_of(r@) + names(path@, at as nat, separators) =~= all);
    while at < n
        invariant
            at <= n,
            n == path@.len(),
            names_of(r@) + names(path@, at as nat, separators) == all,
        decreases n - at,
    {
        let ghost before = names_of(r@);
        let k: usize = prefixes::measure_name(path, at, separators);
        if k == 0 {
            at += 1;
        } else {
            let part: Vec<char> = copy_range(path, at, at + k);
            r.push(part);
            assert(names_of(r@) =~= before.push(path@.subrange(at as int, (at + k) as int)));
            assert(names_of(r@) + names(path@, (at + k) as nat, separators) =~= before + (seq![
                path@.subrange(at as int, (at + k) as int),
            ] + names(path@, (at + k) as nat, separators)));
            at += k;
        }
    }
    assert(names_of(r@) =~= all);
    r
}

/// The characters from one index up to another.
fn copy_range(path: &[char], from: usize, to: usize) -> (r: Vec<char>)
    requires
        from <= to <= path@.len(),
    ensures
        r@ == path@.subrange(from as int, to as int),
{
    let mut r: Vec<char> = Vec::new();
    let mut i: usize = from;
    while i < to
        invariant
            from <= i <= to <= path@.len(),
            r@ == path@.subrange(from as int, i as int),
        decreases to - i,
    {
        r.push(path[i]);
        assert(r@ =~= path@.subrange(from as int, i + 1));
        i += 1;
    }
    r
}

/// Appends the characters from one index up to another.
fn push_range(r: &mut String, path: &[char], from: usize, to: usize)
    requires
        from <= to <= path@.len(),
    ensures
        final(r)@ == old(r)@ + path@.subrange(from as int, to as int),
{
    let ghost before = r@;
    let mut i: usize = from;
    assert(before + path@.subrange(from as int, from as int) =~= before);
    while i < to
        invariant
            from <= i <= to <= path@.len(),
            r@ == before + path@.subrange(from as int, i as int),
        decreases to - i,
    {
        r.push(path[i]);
        assert(r@ =~= before + path@.subrange(from as int, i + 1));
        i += 1;
    }
}

/// The number of dots of which a part consists, where it is one or two; zero for other parts.
fn dots(name: &[char]) -> (r: usize)
    ensures
        r == 0 <==> is_plain(name@),
        r > 0 ==> r == name@.len() && r <= 2,
{
    let n: usize = name.len();
    if n == 1 && name[0] == '.' {
        assert(name@ =~= seq!['.']);
        1
    } else if n == 2 && name[0] == '.' && name[1] == '.' {
        assert(name@ =~= seq!['.', '.']);
        2
    } else {
        assert(name@ == seq!['.'] ==> name@.len() == 1 && name@[0] == '.');
        assert(name@ == seq!['.', '.'] ==> name@.len() == 2 && name@[0] == '.' && name@[1] == '.');
        0
    }
}

/// Walks steps from a directory of some parts.
fn walk(from: Vec<Vec<char>>, steps: Vec<Vec<char>>) -> (r: Vec<Vec<char>>)
    ensures
        names_of(r@) == walked(names_of(from@), names_of(steps@)),
{
    let ghost base = names_of(from@);
    let ghost all = names_of(steps@);
    let mut r: Vec<Vec<char>> = from;
    let mut i: usize = 0;
    assert(all.take(0) =~= Seq::<Seq<char>>::empty());
    while i < steps.len()
        invariant
            i <= steps@.len(),
            all == names_of(steps@),
            names_of(r@) == walked(base, all.take(i as int)),
        decreases steps@.len() - i,
    {
        let ghost before = names_of(r@);
        assert(all.take(i + 1).drop_last() =~= all.take(i as int));
        assert(all.take(i + 1).last() == steps@[i as int]@);
        let n: usize = dots(&steps[i]);
        if n == 0 {
            let step: Vec<char> = copy_range(&steps[i], 0, steps[i].len());
            assert(step@ =~= steps@[i as int]@);
            r.push(step);
            assert(names_of(r@) =~= before.push(steps@[i as int]@));
        } else if n == 2 && r.len() > 0 {
            let last: usize = r.len() - 1;
            let plain: bool = dots(&r[last]) == 0;
            assert(before.last() == r@[last as int]@);
            if plain {
                r.pop();
                assert(names_of(r@) =~= before.drop_last());
            }
        }
        i += 1;
    }
    assert(all.take(i as int) =~= all);
    r
}

/// `child` as seen from the verbatim directory `base`, without dots.
fn walk_path(base: &[char], child: &[char]) -> (r: String)
    requires
        child@.len() > 0,
        prefixes::windows_start(base@).kind == PrefixKind::Verbatim,
    ensures
        r@ == walked_path(base@, child@),
{
    let layout = lay_out(PathStyle::Windows, base);
    let child_rooted: bool = prefixes::is_separator(Separators::Both, child[0]);
    let from: Vec<Vec<char>> = if child_rooted {
        Vec::new()
    } else {
        find_names(base, layout.front, Separators::Verbatim)
    };
    assert(child_rooted ==> names_of(from@) =~= Seq::empty());
    let there: Vec<Vec<char>> = walk(from, find_names(child, 0, Separators::Both));
    let mut r = String::new();
    push_range(&mut r, base, 0, layout.prefix.len);
    assert(r@ =~= base@.take(layout.prefix.len as int));
    let ghost start = r@;
    if there.len() == 0 && (child_rooted || layout.rooted) {
        r.push('\\');
    }
    let ghost root = r@;
    let mut i: usize = 0;
    let ghost all = names_of(there@);
    assert(all.take(0) =~= Seq::<Seq<char>>::empty());
    assert(root + written(all.take(0)) =~= root);
    while i < there.len()
        invariant
            i <= there@.len(),
            all == names_of(there@),
            r@ == root + written(all.take(i as int)),
        decreases there@.len() - i,
    {
        let ghost before = written(all.take(i as int));
        assert(all.take(i + 1).drop_last() =~= all.take(i as int));
        r.push('\\');
        let n: usize = there[i].len();
        push_range(&mut r, &there[i], 0, n);
        assert(there@[i as int]@.subrange(0, n as int) =~= there@[i as int]@);
        assert(r@ =~= root + (before.push('\\') + there@[i as int]@));
        i += 1;
    }
    assert(all.take(i as int) =~= all);
    assert(r@ =~= walked_path(base@, child@));
    r
}

/// `child` as seen from the directory `base`.
pub fn join(style: PathStyle, base: &str, child: &str) -> (r: String)
    ensures
        r@ == joined(style, base@, child@),
{
    let whole: Vec<char> = text::chars_of(base);
    let more: Vec<char> = text::chars_of(child);
    let layout = lay_out(style, &whole);
    let behind = lay_out(style, &more);
    if behind.prefix.kind != PrefixKind::Absent {
        return child.to_owned();
    }
    if layout.prefix.kind == PrefixKind::Verbatim && more.len() > 0 {
        return walk_path(&whole, &more);
    }
    let mut r = String::new();
    if behind.rooted {
        push_range(&mut r, &whole, 0, layout.prefix.len);
        r.append(child);
        assert(r@ =~= base@.take(layout.prefix.len as int) + child@);
        return r;
    }
    r.append(base);
    assert(r@ =~= base@);
    let n: usize = whole.len();
    let directly: bool = n == 0 || prefixes::is_separator(entry_separators(style), whole[n - 1])
        || (layout.prefix.kind == PrefixKind::Drive && n == 2);
    if !directly {
        match style {
            PathStyle::Posix => r.push('/'),
            PathStyle::Windows => r.push('\\'),
        }
    }
    r.append(child);
    r
}

/// Where the last part of the first `n` characters begins.
fn part_start(path: &[char], n: usize, b: usize, separators: Separators) -> (r: usize)
    requires
        b <= n <= path@.len(),
    ensures
        b <= r <= n,
        r == n - part_len(path@.take(n as int), b as nat, separators),
{
    let mut k: usize = n;
    while k > b && !prefixes::is_separator(separators, path[k - 1])
        invariant
            b <= k <= n <= path@.len(),
            part_len(path@.take(n as int), b as nat, separators) == n - k + part_len(
                path@.take(k as int),
                b as nat,
                separators,
            ),
        decreases k,
    {
        assert(path@.take(k as int).drop_last() =~= path@.take(k - 1));
        k -= 1;
    }
    k
}

/// The end of the path without the last part of its first `n` characters.
fn cut_end(path: &[char], n: usize, b: usize, separators: Separators) -> (r: usize)
    requires
        b <= n <= path@.len(),
    ensures
        b <= r <= n,
        n > b ==> r < n,
        path@.take(r as int) == cut(path@.take(n as int), b as nat, separators),
{
    let k: usize = part_start(path, n, b, separators);
    proof {
        cut_shortens(path@.take(n as int), b as nat, separators);
    }
    if k > b {
        assert(path@.take(k - 1) =~= cut(path@.take(n as int), b as nat, separators));
        k - 1
    } else {
        assert(path@.take(k as int) =~= cut(path@.take(n as int), b as nat, separators));
        k
    }
}

/// The end of the path without the parts at the end of its first `n` characters that say nothing.
fn settled_end(path: &[char], n: usize, b: usize, separators: Separators) -> (r: usize)
    requires
        b <= n <= path@.len(),
    ensures
        b <= r <= n,
        path@.take(r as int) == settled(path@.take(n as int), b as nat, separators),
    decreases n,
{
    let ghost here = path@.take(n as int);
    let k: usize = part_start(path, n, b, separators);
    assert(here.skip(k as int) =~= path@.subrange(k as int, n as int));
    let idle: bool = n > b && (k == n || (n - k == 1 && path[k] == '.' && separators
        != Separators::Verbatim));
    assert(idle == ends_idle(here, b as nat, separators)) by {
        let part = here.skip(k as int);
        if n - k == 1 {
            assert(part =~= seq![path@[k as int]]);
            assert(part == seq!['.'] ==> part[0] == '.');
        } else {
            assert(part == seq!['.'] ==> part.len() == 1);
        }
    }
    if idle {
        settled_end(path, cut_end(path, n, b, separators), b, separators)
    } else {
        n
    }
}

/// The directory that holds the path; none for a root, for what paths start with and for the empty
/// path.
pub fn parent(style: PathStyle, path: &str) -> (r: Option<&str>)
    ensures
        r is Some <==> parent_of(style, path@) is Some,
        r matches Some(p) ==> Some(p@) == parent_of(style, path@),
{
    let chars: Vec<char> = text::chars_of(path);
    let n: usize = chars.len();
    let layout = lay_out(style, &chars);
    let b: usize = layout.front;
    assert(path@.take(n as int) =~= path@);
    let s: usize = settled_end(&chars, n, b, layout.separators);
    if s > b {
        let c: usize = cut_end(&chars, s, b, layout.separators);
        let end: usize = settled_end(&chars, c, b, layout.separators);
        assert(path@.subrange(0, end as int) =~= path@.take(end as int));
        Some(path.substring_char(0, end))
    } else if layout.dotted && layout.prefix.kind == PrefixKind::Absent {
        assert(path@.subrange(0, 0) =~= Seq::<char>::empty());
        Some(path.substring_char(0, 0))
    } else {
        None
    }
}

/// The path and the directories that hold it, from the inside out.
pub fn ancestors(style: PathStyle, path: &str) -> (r: Vec<String>)
    ensures
        r@.len() == ancestors_of(style, path@).len(),
        forall|i: int| 0 <= i < r@.len() ==> (#[trigger] r@[i])@ == ancestors_of(style, path@)[i],
{
    let mut r: Vec<String> = Vec::new();
    let mut here: &str = path;
    let ghost all = ancestors_of(style, path@);
    let ghost mut texts: Seq<Seq<char>> = Seq::empty();
    loop
        invariant
            texts.len() == r@.len(),
            forall|i: int| 0 <= i < r@.len() ==> (#[trigger] r@[i])@ == texts[i],
            all == texts + ancestors_of(style, here@),
            all == ancestors_of(style, path@),
        decreases here@.len(),
    {
        proof {
            parent_is_shorter(style, here@);
            texts = texts.push(here@);
        }
        r.push(here.to_owned());
        match parent(style, here) {
            Some(p) => {
                assert(all =~= texts + ancestors_of(style, p@));
                here = p;
            },
            None => {
                assert(all =~= texts);
                return r;
            },
        }
    }
}

/// Whether `place` is the first of some places where something is present, or none where nothing
/// is.
pub open spec fn is_first_present(place: Option<String>, places: Seq<String>, present: Seq<bool>) -> bool {
    match place {
        Some(p) => exists|i: int|
            0 <= i < places.len() && #[trigger] present[i] && p == places[i] && (forall|j: int|
                0 <= j < i ==> !#[trigger] present[j]),
        None => forall|j: int| 0 <= j < places.len() ==> !#[trigger] present[j],
    }
}

/// The first of the places where something is present.
pub fn first_present(places: &[String], present: &[bool]) -> (r: Option<String>)
    requires
        present@.len() == places@.len(),
    ensures
        is_first_present(r, places@, present@),
{
    let mut i: usize = 0;
    while i < places.len()
        invariant
            i <= places@.len(),
            present@.len() == places@.len(),
            forall|j: int| 0 <= j < i ==> !#[trigger] present@[j],
        decreases places@.len() - i,
    {
        if present[i] {
            return Some(places[i].clone());
        }
        i += 1;
    }
    None
}

/// Where parts are separated by `/`, a path from the root stands for itself, and any other is put
/// behind the directory with one separator, unless that ends with one or is empty.
pub proof fn names_are_put_behind_their_directory(base: Seq<char>, child: Seq<char>)
    ensures
        child.len() > 0 && child[0] == '/' ==> joined(PathStyle::Posix, base, child) == child,
        (child.len() == 0 || child[0] != '/') && (base.len() == 0 || base.last() == '/')
            ==> joined(PathStyle::Posix, base, child) == base + child,
        (child.len() == 0 || child[0] != '/') && base.len() > 0 && base.last() != '/' ==> joined(
            PathStyle::Posix,
            base,
            child,
        ) == base + seq!['/'] + child,
        is_absolute_path(PathStyle::Posix, child) <==> child.len() > 0 && child[0] == '/',
{
    assert(base.take(0) + child =~= child);
    assert(base.push('/') =~= base + seq!['/']);
}

/// On Windows, a path behind a drive or a share stands for itself; one from the root goes to the
/// root of the directory's drive; and any other is put behind the directory with one backslash,
/// unless that ends with a separator, is empty, or is a bare drive.
#[verifier::spinoff_prover]
pub proof fn names_are_put_behind_their_directory_on_windows(base: Seq<char>, child: Seq<char>)
    requires
        prefixes::windows_start(base).kind != PrefixKind::Verbatim,
    ensures
        ({
            let r = joined(PathStyle::Windows, base, child);
            let rooted = child.len() > 0 && (child[0] == '/' || child[0] == '\\');
            let ends = base.len() == 0 || base.last() == '/' || base.last() == '\\';
            let drive = base.len() == 2 && base[1] == ':' && ('a' <= base[0] <= 'z' || 'A'
                <= base[0] <= 'Z');
            &&& prefixes::windows_start(child).kind != PrefixKind::Absent ==> r == child
            &&& prefixes::windows_start(child).kind == PrefixKind::Absent && rooted ==> r
                == base.take(prefixes::windows_start(base).len as int) + child
            &&& prefixes::windows_start(child).kind == PrefixKind::Absent && !rooted && (ends
                || drive) ==> r == base + child
            &&& prefixes::windows_start(child).kind == PrefixKind::Absent && !rooted && !ends
                && !drive ==> r == base + seq!['\\'] + child
        }),
{
    assert(base.push('\\') =~= base + seq!['\\']);
}

/// The ancestors of a path are the path itself and the ancestors of its directory, up to one that
/// has no directory.
pub proof fn ancestors_go_up_one_by_one(style: PathStyle, path: Seq<char>, i: int)
    ensures
        ancestors_of(style, path).len() > 0,
        ancestors_of(style, path)[0] == path,
        0 <= i < ancestors_of(style, path).len() - 1 ==> parent_of(
            style,
            ancestors_of(style, path)[i],
        ) == Some(ancestors_of(style, path)[i + 1]),
        parent_of(style, ancestors_of(style, path).last()) is None,
    decreases path.len(),
{
    parent_is_shorter(style, path);
    if let Some(p) = parent_of(style, path) {
        ancestors_go_up_one_by_one(style, p, i - 1);
        let all = ancestors_of(style, path);
        assert(all.last() == ancestors_of(style, p).last());
        if 0 < i < all.len() - 1 {
            assert(all[i] == ancestors_of(style, p)[i - 1]);
            assert(all[i + 1] == ancestors_of(style, p)[i]);
        }
    }
}

/// The root has no directory above it, and neither has the empty path.
#[verifier::spinoff_prover]
pub proof fn roots_have_no_parent(style: PathStyle)
    ensures
        parent_of(style, seq!['/']) is None,
        parent_of(style, Seq::empty()) is None,
{
    let root = seq!['/'];
    reveal_with_fuel(settled, 2);
    reveal_with_fuel(part_len, 2);
    assert(prefixes::start_of(style, root).len == 0);
    assert(front(style, root) == 1);
    let empty = Seq::<char>::empty();
    assert(prefixes::start_of(style, empty).len == 0);
    assert(front(style, empty) == 0);
}

/// The first place is taken at which something is present, and none where nothing is.
pub proof fn the_first_present_place_is_taken(
    place: Option<String>,
    places: Seq<String>,
    present: Seq<bool>,
    i: int,
)
    requires
        is_first_present(place, places, present),
        places.len() == present.len(),
    ensures
        place is None ==> !present.contains(true),
        0 <= i < places.len() && present[i] && (forall|j: int| 0 <= j < i ==> !#[trigger] present[j])
            ==> place == Some(places[i]),
{
    if place is None && present.contains(true) {
        let w = present.index_of(true);
        assert(present[w]);
    }
    if 0 <= i < places.len() && present[i] && (forall|j: int| 0 <= j < i ==> !#[trigger] present[j]) {
        if let Some(p) = place {
            let w = choose|w: int|
                0 <= w < places.len() && #[trigger] present[w] && p == places[w] && (forall|j: int|
                    0 <= j < w ==> !#[trigger] present[j]);
            assert(w == i);
        }
    }
}

/// What joining, cutting and climbing give back is what is said of paths.
pub proof fn operations_on_paths_give_what_is_said(
    style: PathStyle,
    base: &str,
    child: &str,
    both: String,
    above: Option<&str>,
    all: Vec<String>,
    fixed: bool,
    places: &[String],
    present: &[bool],
    place: Option<String>,
)
    requires
        call_ensures(join, (style, base, child), both),
        call_ensures(parent, (style, base), above),
        call_ensures(ancestors, (style, base), all),
        call_ensures(is_absolute, (style, base), fixed),
        call_ensures(first_present, (places, present), place),
    ensures
        both@ == joined(style, base@, child@),
        above is Some <==> parent_of(style, base@) is Some,
        above matches Some(p) ==> parent_of(style, base@) == Some(p@),
        all@.len() == ancestors_of(style, base@).len(),
        fixed == is_absolute_path(style, base@),
        is_first_present(place, places@, present@),
{
}

/// On Windows, the directory of what was joined to a directory of a drive by a plain name is that
/// directory, if its own last part says something.
#[verifier::spinoff_prover]
pub proof fn parent_of_joined_on_a_drive(base: Seq<char>, name: Seq<char>)
    requires
        base.len() > 3,
        prefixes::windows_start(base).kind == PrefixKind::Drive,
        base[2] == '\\',
        base.last() != '\\' && base.last() != '/',
        base == settled(base, front(PathStyle::Windows, base), Separators::Both),
        name.len() > 0,
        !name.contains('/') && !name.contains('\\'),
        name != seq!['.'],
        prefixes::windows_start(name).kind == PrefixKind::Absent,
    ensures
        parent_of(PathStyle::Windows, joined(PathStyle::Windows, base, name)) == Some(base),
{
    assert(name[0] != '/' && name[0] != '\\') by {
        if name[0] == '/' {
            assert(name.contains('/'));
        }
        if name[0] == '\\' {
            assert(name.contains('\\'));
        }
    }
    let path = base.push('\\') + name;
    assert(joined(PathStyle::Windows, base, name) == path);
    assert(path[0] == base[0] && path[1] == base[1] && path[2] == base[2]);
    assert(prefixes::windows_start(path) == prefixes::windows_start(base));
    let b = front(PathStyle::Windows, path);
    assert(b == 3 && front(PathStyle::Windows, base) == 3);
    assert(path.skip(base.len() as int + 1) =~= name);
    assert forall|i: int| path.len() - name.len() <= i < path.len() implies !prefixes::parts(
        Separators::Both,
        #[trigger] path[i],
    ) by {
        assert(path[i] == name[i - base.len() - 1]);
    }
    lemma_plain_end_on_windows(path, b, name.len());
    assert(!ends_idle(path, b, Separators::Both));
    assert(cut(path, b, Separators::Both) =~= base);
}

proof fn lemma_plain_end_on_windows(path: Seq<char>, b: nat, n: nat)
    requires
        n <= path.len(),
        path.len() - n > b,
        prefixes::parts(Separators::Both, path[path.len() - n - 1]),
        forall|i: int|
            path.len() - n <= i < path.len() ==> !prefixes::parts(
                Separators::Both,
                #[trigger] path[i],
            ),
    ensures
        part_len(path, b, Separators::Both) == n,
    decreases n,
{
    if n > 0 {
        let less = path.drop_last();
        assert(!prefixes::parts(Separators::Both, path[path.len() - 1]));
        assert forall|i: int| less.len() - (n - 1) <= i < less.len() implies !prefixes::parts(
            Separators::Both,
            #[trigger] less[i],
        ) by {
            assert(less[i] == path[i]);
        }
        lemma_plain_end_on_windows(less, b, (n - 1) as nat);
    }
}

} // verus!
