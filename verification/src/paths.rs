//! Unix paths as text.
use vstd::prelude::*;

use crate::text::chars_of;

verus! {

/// Whether a path is absolute.
pub open spec fn is_absolute(path: Seq<char>) -> bool {
    path.len() > 0 && path[0] == '/'
}

/// `tail` taken relative to `base`: an absolute `tail` stands alone, and a `/` goes in between
/// unless `base` is empty or already ends in one.
pub open spec fn joined(base: Seq<char>, tail: Seq<char>) -> Seq<char> {
    if is_absolute(tail) {
        tail
    } else if base.len() == 0 || base.last() == '/' {
        base + tail
    } else {
        base.push('/') + tail
    }
}

/// Joins two paths.
pub fn join_path(base: &str, tail: &str) -> (path: String)
    ensures
        path@ == joined(base@, tail@),
{
    let tail_chars = chars_of(tail);
    if tail_chars.len() > 0 && tail_chars[0] == '/' {
        return tail.to_owned();
    }
    let base_chars = chars_of(base);
    let mut path = base.to_owned();
    if base_chars.len() > 0 && base_chars[base_chars.len() - 1] != '/' {
        path.append("/");
        proof {
            reveal_strlit("/");
            assert(path@ == base@.push('/'));
        }
    }
    path.append(tail);
    path
}

/// The path that a tool is to use: `path` itself where it is absolute, and otherwise `path`
/// below the current directory.
pub fn resolve_path(path: &str, current_dir: &str) -> (resolved: String)
    ensures
        resolved@ == if is_absolute(path@) {
            path@
        } else {
            joined(current_dir@, path@)
        },
{
    join_path(current_dir, path)
}

/// A path without slashes and `.` parts at its end. A lone `/` stays.
pub open spec fn trimmed(path: Seq<char>) -> Seq<char>
    decreases path.len(),
{
    let n = path.len() as int;
    if n > 1 && (path[n - 1] == '/' || (path[n - 1] == '.' && path[n - 2] == '/')) {
        trimmed(path.drop_last())
    } else {
        path
    }
}

/// What stands before the last name of a path, with the slash that ends it.
pub open spec fn before_name(path: Seq<char>) -> Seq<char>
    decreases path.len(),
{
    if path.len() == 0 || path.last() == '/' {
        path
    } else {
        before_name(path.drop_last())
    }
}

/// The directory that holds a path. The root has none, and neither has the empty path.
pub open spec fn parent(path: Seq<char>) -> Option<Seq<char>> {
    let own = trimmed(path);
    if own.len() == 0 || own == seq!['/'] {
        None
    } else {
        Some(trimmed(before_name(own)))
    }
}

/// A directory and those above it, each followed by its parent, up to the root.
pub open spec fn upward(dir: Seq<char>) -> Seq<Seq<char>>
    decreases dir.len(),
{
    proof {
        law_parent_is_a_beginning(dir);
    }
    match parent(dir) {
        Some(above) => seq![dir] + upward(above),
        None => seq![dir],
    }
}

proof fn lemma_trimmed(path: Seq<char>)
    ensures
        trimmed(path).is_prefix_of(path),
        path.len() > 0 ==> trimmed(path).len() > 0,
        trimmed(path).len() > 1 ==> trimmed(path).last() != '/',
    decreases path.len(),
{
    let n = path.len() as int;
    if n > 1 && (path[n - 1] == '/' || (path[n - 1] == '.' && path[n - 2] == '/')) {
        lemma_trimmed(path.drop_last());
    }
}

proof fn lemma_before_name(path: Seq<char>)
    ensures
        before_name(path).is_prefix_of(path),
        path.len() > 0 && path.last() != '/' ==> before_name(path).len() < path.len(),
        path.len() > 0 && path[0] == '/' ==> before_name(path).len() > 0,
    decreases path.len(),
{
    if path.len() > 0 && path.last() != '/' {
        lemma_before_name(path.drop_last());
    }
}

/// A parent is a beginning of the path, and shorter.
pub proof fn law_parent_is_a_beginning(path: Seq<char>)
    ensures
        parent(path) matches Some(above) ==> above.is_prefix_of(path) && above.len() < path.len(),
{
    let own = trimmed(path);
    lemma_trimmed(path);
    lemma_before_name(own);
    lemma_trimmed(before_name(own));
    if parent(path) is Some && own.len() == 1 {
        assert(own == seq![own[0]]);
    }
}

/// How long a beginning of a path is once it is trimmed.
fn trim_end(chars: &Vec<char>, length: usize) -> (left: usize)
    requires
        length <= chars@.len(),
    ensures
        left <= length,
        chars@.take(left as int) == trimmed(chars@.take(length as int)),
{
    let mut n = length;
    while n > 1 && (chars[n - 1] == '/' || (chars[n - 1] == '.' && chars[n - 2] == '/'))
        invariant
            n <= length <= chars@.len(),
            trimmed(chars@.take(n as int)) == trimmed(chars@.take(length as int)),
        decreases n,
    {
        assert(chars@.take(n as int).drop_last() == chars@.take(n - 1));
        n = n - 1;
    }
    n
}

/// How long the parent of a beginning of a path is.
fn parent_end(chars: &Vec<char>, length: usize) -> (end: Option<usize>)
    requires
        length <= chars@.len(),
    ensures
        end is Some <==> parent(chars@.take(length as int)) is Some,
        end matches Some(n) ==> n < length && parent(chars@.take(length as int)) == Some(
            chars@.take(n as int),
        ),
{
    let own = trim_end(chars, length);
    if own == 0 {
        return None;
    }
    assert(own == 1 ==> chars@.take(1) == seq![chars@[0]]);
    if own == 1 && chars[0] == '/' {
        return None;
    }
    let mut n = own;
    while n > 0 && chars[n - 1] != '/'
        invariant
            n <= own <= chars@.len(),
            before_name(chars@.take(n as int)) == before_name(chars@.take(own as int)),
        decreases n,
    {
        assert(chars@.take(n as int).drop_last() == chars@.take(n - 1));
        n = n - 1;
    }
    let end = trim_end(chars, n);
    proof {
        assert(chars@.take(own as int) != seq!['/']) by {
            if own == 1 {
                assert(chars@.take(1)[0] == chars@[0]);
            }
        }
        law_parent_is_a_beginning(chars@.take(length as int));
    }
    Some(end)
}

/// Lists a directory and those above it, from the nearest outwards.
pub fn directories_upward(current_dir: &str) -> (dirs: Vec<String>)
    ensures
        crate::text::views(dirs@) == upward(current_dir@),
{
    let chars = chars_of(current_dir);
    let mut dirs: Vec<String> = Vec::new();
    let mut n: usize = chars.len();
    let mut at_top = false;
    assert(chars@.take(n as int) == chars@);
    let ghost mut rest = upward(current_dir@);
    assert(crate::text::views(dirs@) + rest == rest);
    while !at_top
        invariant
            n <= chars@.len(),
            chars@ == current_dir@,
            !at_top ==> rest == upward(chars@.take(n as int)),
            at_top ==> rest.len() == 0,
            crate::text::views(dirs@) + rest == upward(current_dir@),
        decreases (if at_top {
            0
        } else {
            n + 1
        }),
    {
        let ghost before = dirs@;
        let ghost here = chars@.take(n as int);
        dirs.push(current_dir.substring_char(0, n).to_owned());
        let ghost above = match parent(here) {
            Some(above) => upward(above),
            None => seq![],
        };
        match parent_end(&chars, n) {
            Some(end) => {
                n = end;
            },
            None => {
                at_top = true;
            },
        }
        proof {
            assert(upward(here) == seq![here] + above);
            assert(crate::text::views(dirs@) == crate::text::views(before).push(here));
            assert(crate::text::views(dirs@) + above == crate::text::views(before) + rest);
            rest = above;
        }
    }
    dirs
}

// --- laws ---

/// A path resolved below an absolute directory is absolute.
pub proof fn law_resolved_is_absolute(base: Seq<char>, path: Seq<char>)
    requires
        is_absolute(base),
    ensures
        is_absolute(joined(base, path)),
{
}

/// Resolving a path a second time changes nothing.
pub proof fn law_resolve_is_idempotent(base: Seq<char>, path: Seq<char>)
    requires
        is_absolute(base),
    ensures
        joined(base, joined(base, path)) == joined(base, path),
{
    law_resolved_is_absolute(base, path);
}

/// Joining relative parts one after the other is joining their join.
pub proof fn law_join_is_associative(a: Seq<char>, b: Seq<char>, c: Seq<char>)
    requires
        b.len() > 0,
    ensures
        joined(joined(a, b), c) == joined(a, joined(b, c)),
{
    if !is_absolute(c) {
        let ab = joined(a, b);
        assert(ab.last() == b.last());
        if is_absolute(b) {
        } else if a.len() == 0 || a.last() == '/' {
            if b.last() == '/' {
                assert(a + b + c == a + (b + c));
            } else {
                assert((a + b).push('/') + c == a + (b.push('/') + c));
            }
        } else {
            if b.last() == '/' {
                assert(a.push('/') + b + c == a.push('/') + (b + c));
            } else {
                assert((a.push('/') + b).push('/') + c == a.push('/') + (b.push('/') + c));
            }
        }
    }
}

/// The walk upwards begins at the directory itself, goes on from each directory to its parent,
/// and ends where there is none.
pub proof fn law_walk_goes_from_parent_to_parent(dir: Seq<char>)
    ensures
        upward(dir).len() > 0,
        upward(dir)[0] == dir,
        forall|i: int|
            0 <= i < upward(dir).len() - 1 ==> parent(#[trigger] upward(dir)[i]) == Some(
                upward(dir)[i + 1],
            ),
        parent(upward(dir).last()) is None,
    decreases dir.len(),
{
    law_parent_is_a_beginning(dir);
    match parent(dir) {
        Some(above) => {
            law_walk_goes_from_parent_to_parent(above);
            let rest = upward(above);
            assert forall|i: int| 0 <= i < upward(dir).len() - 1 implies parent(
                #[trigger] upward(dir)[i],
            ) == Some(upward(dir)[i + 1]) by {
                if i > 0 {
                    assert(upward(dir)[i] == rest[i - 1]);
                    assert(upward(dir)[i + 1] == rest[i]);
                }
            }
            assert(upward(dir).last() == rest.last());
        },
        None => {},
    }
}

/// Every directory of the walk is a beginning of the path it starts from; an absolute path leads
/// up to the root.
pub proof fn law_walk_leads_to_the_root(dir: Seq<char>)
    ensures
        forall|i: int| 0 <= i < upward(dir).len() ==> (#[trigger] upward(dir)[i]).is_prefix_of(dir),
        is_absolute(dir) ==> trimmed(upward(dir).last()) == seq!['/'],
    decreases dir.len(),
{
    law_parent_is_a_beginning(dir);
    let own = trimmed(dir);
    lemma_trimmed(dir);
    match parent(dir) {
        Some(above) => {
            law_walk_leads_to_the_root(above);
            let rest = upward(above);
            assert forall|i: int| 0 <= i < upward(dir).len() implies (
            #[trigger] upward(dir)[i]).is_prefix_of(dir) by {
                if i > 0 {
                    assert(upward(dir)[i] == rest[i - 1]);
                    assert(rest[i - 1].is_prefix_of(above));
                    assert(dir.take(rest[i - 1].len() as int) == above.take(
                        rest[i - 1].len() as int,
                    ));
                }
            }
            assert(rest.len() > 0);
            assert(upward(dir).last() == rest.last());
            if is_absolute(dir) {
                assert(own[0] == dir[0]);
                lemma_before_name(own);
                lemma_trimmed(before_name(own));
                assert(above[0] == dir[0]);
            }
        },
        None => {
            if is_absolute(dir) {
                assert(own.len() > 0);
            }
        },
    }
}

/// Joining a relative path puts it behind the directory, with one slash between them; joining an
/// absolute path gives that path.
pub proof fn law_how_paths_are_joined(base: Seq<char>, tail: Seq<char>)
    ensures
        joined(base, seq!['/'] + tail) == seq!['/'] + tail,
        tail.len() == 0 || tail[0] != '/' ==> {
            &&& joined(seq![], tail) == tail
            &&& joined(base + seq!['/'], tail) == base + seq!['/'] + tail
            &&& base.len() > 0 && base[base.len() - 1] != '/' ==> joined(base, tail) == base
                + seq!['/'] + tail
        },
        is_absolute(tail) <==> tail.len() > 0 && tail[0] == '/',
{
    assert((seq!['/'] + tail)[0] == '/');
    assert(Seq::<char>::empty() + tail == tail);
    assert((base + seq!['/']).last() == '/');
    assert(base.push('/') == base + seq!['/']);
}

/// The root and the empty path have no parent. Slashes and `.` parts at the end, or in front of
/// the last name, make no difference to it.
pub proof fn law_parent_ignores_what_names_nothing(path: Seq<char>, name: Seq<char>)
    requires
        name.len() > 0,
        !name.contains('/'),
        name != seq!['.'],
    ensures
        parent(seq![]) is None,
        parent(seq!['/']) is None,
        parent(path + seq!['/']) == parent(path),
        parent(path + seq!['/', '.']) == parent(path),
        parent(path + seq!['/', '/'] + name) == parent(path + seq!['/'] + name),
        parent(path + seq!['/', '.', '/'] + name) == parent(path + seq!['/'] + name),
{
    let slash = path + seq!['/'];
    let dot = path + seq!['/', '.'];
    assert(dot.drop_last() == slash);
    assert(slash.drop_last() == path);
    assert(seq!['/'].len() == 1);
    if path.len() == 0 {
        assert(slash == seq!['/']);
        assert(path == Seq::<char>::empty());
    }
    assert(trimmed(dot) == trimmed(slash)) by {
        assert(dot[dot.len() - 1] == '.' && dot[dot.len() - 2] == '/');
    }
    assert(trimmed(slash) == if path.len() == 0 {
        slash
    } else {
        trimmed(path)
    });
    lemma_named_path(path, name);
    lemma_named_path(path + seq!['/'], name);
    lemma_named_path(path + seq!['/', '.'], name);
    assert(path + seq!['/', '/'] + name == path + seq!['/'] + seq!['/'] + name);
    assert(path + seq!['/', '.', '/'] + name == path + seq!['/', '.'] + seq!['/'] + name);
    let twice = slash + seq!['/'];
    let dotted = dot + seq!['/'];
    assert(twice.drop_last() == slash);
    assert(dotted.drop_last() == dot);
}

/// The parent of a path that ends in a name is what stands before the name, trimmed.
proof fn lemma_named_path(path: Seq<char>, name: Seq<char>)
    requires
        name.len() > 0,
        !name.contains('/'),
        name != seq!['.'],
    ensures
        parent(path + seq!['/'] + name) == Some(trimmed(path + seq!['/'])),
{
    let whole = path + seq!['/'] + name;
    let n = whole.len() as int;
    let m = name.len() as int;
    assert(whole[n - 1] == name[m - 1]);
    assert(name.contains(name[m - 1]));
    if m > 1 {
        assert(whole[n - 2] == name[m - 2]);
        assert(name.contains(name[m - 2]));
    } else {
        assert(name == seq![name[0]]);
    }
    assert(trimmed(whole) == whole);
    assert(whole.len() > 1);
    lemma_before_last_name(path + seq!['/'], name);
}

proof fn lemma_before_last_name(front: Seq<char>, name: Seq<char>)
    requires
        front.len() > 0,
        front.last() == '/',
        !name.contains('/'),
    ensures
        before_name(front + name) == front,
    decreases name.len(),
{
    if name.len() == 0 {
        assert(front + name == front);
    } else {
        let n = name.len() as int;
        assert(name.contains(name[n - 1]));
        assert((front + name).last() == name[n - 1]);
        assert((front + name).drop_last() == front + name.drop_last());
        assert forall|i: int| 0 <= i < n - 1 implies name.drop_last()[i] != '/' by {
            assert(name.contains(name[i]));
        }
        lemma_before_last_name(front, name.drop_last());
    }
}

/// The parent of a name in a directory is the directory, whether it is the root, another
/// directory or the one that a relative path starts from.
pub proof fn law_parent_of_a_name(dir: Seq<char>, name: Seq<char>)
    requires
        name.len() > 0,
        !name.contains('/'),
        name != seq!['.'],
    ensures
        parent(seq!['/'] + name) == Some(seq!['/']),
        parent(name) == Some(Seq::<char>::empty()),
        dir.len() > 0 && dir[dir.len() - 1] != '/' && !(dir.len() > 1 && dir[dir.len() - 1] == '.'
            && dir[dir.len() - 2] == '/') ==> parent(dir + seq!['/'] + name) == Some(dir),
{
    let none = Seq::<char>::empty();
    lemma_named_path(none, name);
    assert(none + seq!['/'] + name == seq!['/'] + name);
    assert(none + seq!['/'] == seq!['/']);
    lemma_named_path(dir, name);
    assert((dir + seq!['/']).drop_last() == dir);
    if dir.len() > 0 && dir[dir.len() - 1] != '/' && !(dir.len() > 1 && dir[dir.len() - 1] == '.'
        && dir[dir.len() - 2] == '/') {
        assert(trimmed(dir) == dir);
        assert((dir + seq!['/']).last() == '/');
    }
    let m = name.len() as int;
    assert(name.contains(name[m - 1]));
    if m > 1 {
        assert(name.contains(name[m - 2]));
    } else {
        assert(name == seq![name[0]]);
    }
    assert(trimmed(name) == name);
    lemma_bare_name(name);
    assert(name != seq!['/']) by {
        if name == seq!['/'] {
            assert(name[0] == '/');
        }
    }
}

proof fn lemma_bare_name(name: Seq<char>)
    requires
        !name.contains('/'),
    ensures
        before_name(name) == Seq::<char>::empty(),
    decreases name.len(),
{
    if name.len() > 0 {
        let n = name.len() as int;
        assert(name.contains(name[n - 1]));
        assert forall|i: int| 0 <= i < n - 1 implies name.drop_last()[i] != '/' by {
            assert(name.contains(name[i]));
        }
        lemma_bare_name(name.drop_last());
    }
}

/// The one name `.` lies in the directory that a relative path starts from.
pub proof fn law_parent_of_dot()
    ensures
        parent(seq!['.']) == Some(Seq::<char>::empty()),
{
    let dot = seq!['.'];
    assert(trimmed(dot) == dot);
    assert(dot.drop_last() == Seq::<char>::empty());
    assert(dot[0] != '/');
    assert(!dot.contains('/'));
    lemma_bare_name(dot);
}

} // verus!
