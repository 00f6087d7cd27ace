//! Relative paths as they appear inside an archive: characters separated by
//! `/`. A path is modelled by its characters; nothing here touches a file
//! system.
//!
//! The last component of a path is its *file name*. The file name splits at
//! its last dot into *stem* and *extension*, unless that dot is the first
//! character of the name (a name such as `.profile` has no extension).
//!
//! The paths that a job works on are *plain relative* paths
//! ([`is_plain_relative`]): components separated by single `/`, none of them
//! empty, `.` or `..`. On these the pieces named here are the ones that
//! `std::path::Path` names, and a path joined to a folder stays below it.
//! Every other path is brought into that form first ([`normal`]): empty
//! components and `.` are dropped, and `..` takes back the component before
//! it. A path that starts at the root, or whose `..` has nothing to take
//! back, leaves the folder that it is joined to ([`leaves_folder`]).

use crate::text::{chars_of, push_char, push_range, push_str, texts};
use vstd::prelude::*;

verus! {

/// The index of the last occurrence of `c` in `s`, or `-1` when there is none.
pub open spec fn last_index_of(s: Seq<char>, c: char) -> int
    decreases s.len(),
{
    if s.len() == 0 {
        -1
    } else if s.last() == c {
        s.len() - 1
    } else {
        last_index_of(s.drop_last(), c)
    }
}

/// Where the file name of `p` begins: just behind the last `/`.
pub open spec fn name_start(p: Seq<char>) -> int {
    last_index_of(p, '/') + 1
}

/// Everything of `p` up to and including its last `/`.
pub open spec fn dir_prefix(p: Seq<char>) -> Seq<char> {
    p.take(name_start(p))
}

/// The last component of `p`.
pub open spec fn file_name(p: Seq<char>) -> Seq<char> {
    p.skip(name_start(p))
}

/// The folder that holds the last component of `p`, without a trailing `/`.
pub open spec fn parent(p: Seq<char>) -> Seq<char> {
    if name_start(p) == 0 {
        Seq::empty()
    } else {
        p.take(name_start(p) - 1)
    }
}

/// Whether the file name `name` splits into stem and extension.
pub open spec fn splits(name: Seq<char>) -> bool {
    last_index_of(name, '.') > 0
}

/// The part of the file name `name` before its extension.
pub open spec fn stem_of(name: Seq<char>) -> Seq<char> {
    if splits(name) {
        name.take(last_index_of(name, '.'))
    } else {
        name
    }
}

/// The extension of the file name `name`, without the dot; empty if it has none.
pub open spec fn extension_of(name: Seq<char>) -> Seq<char> {
    if splits(name) {
        name.skip(last_index_of(name, '.') + 1)
    } else {
        Seq::empty()
    }
}

/// The stem of the last component of `p`.
pub open spec fn file_stem(p: Seq<char>) -> Seq<char> {
    stem_of(file_name(p))
}

/// The extension of the last component of `p`.
pub open spec fn extension(p: Seq<char>) -> Seq<char> {
    extension_of(file_name(p))
}

/// `p` with the extension of its last component replaced by `ext`. A path
/// without a file name is left as it is.
pub open spec fn with_extension(p: Seq<char>, ext: Seq<char>) -> Seq<char> {
    if file_name(p).len() == 0 {
        p
    } else if ext.len() == 0 {
        dir_prefix(p) + file_stem(p)
    } else {
        dir_prefix(p) + file_stem(p) + seq!['.'] + ext
    }
}

/// `name` placed inside the folder `base`. An empty `base` gives `name`
/// itself, and so does a `name` that starts at the root.
pub open spec fn join(base: Seq<char>, name: Seq<char>) -> Seq<char> {
    if base.len() == 0 || (name.len() > 0 && name[0] == '/') {
        name
    } else if base.last() == '/' {
        base + name
    } else {
        base + seq!['/'] + name
    }
}

/// Whether `name` can be a component of a plain relative path: it is not
/// empty, and neither `.` nor `..`.
pub open spec fn is_plain_name(name: Seq<char>) -> bool {
    name.len() > 0 && name != "."@ && name != ".."@
}

/// Whether `p` is a plain relative path: one or more components separated by
/// single `/`, none of them empty, `.` or `..`. Such a path does not start at
/// the root, does not end in `/`, and names nothing outside the folder that
/// it is joined to.
pub open spec fn is_plain_relative(p: Seq<char>) -> bool
    decreases p.len(),
    via plain_relative_terminates
{
    is_plain_name(file_name(p)) && (name_start(p) == 0 || is_plain_relative(parent(p)))
}

#[via_fn]
proof fn plain_relative_terminates(p: Seq<char>) {
    lemma_last_index_of(p, '/');
}

/// The components of `p`: the pieces between its separators, in order.
pub open spec fn components(p: Seq<char>) -> Seq<Seq<char>>
    decreases p.len(),
    via components_terminates
{
    if name_start(p) == 0 {
        seq![p]
    } else {
        components(parent(p)).push(file_name(p))
    }
}

#[via_fn]
proof fn components_terminates(p: Seq<char>) {
    lemma_last_index_of(p, '/');
}

/// What is left of the components `parts` when the empty ones and `.` are
/// dropped and each `..` takes back the component before it. A `..` with
/// nothing before it is dropped.
pub open spec fn settled(parts: Seq<Seq<char>>) -> Seq<Seq<char>>
    decreases parts.len(),
{
    if parts.len() == 0 {
        Seq::empty()
    } else {
        let before = settled(parts.drop_last());
        let part = parts.last();
        if part.len() == 0 || part == "."@ {
            before
        } else if part == ".."@ {
            if before.len() == 0 {
                before
            } else {
                before.drop_last()
            }
        } else {
            before.push(part)
        }
    }
}

/// Whether a `..` among the components `parts` has nothing before it to take
/// back.
pub open spec fn climbs(parts: Seq<Seq<char>>) -> bool
    decreases parts.len(),
{
    if parts.len() == 0 {
        false
    } else {
        climbs(parts.drop_last()) || (parts.last() == ".."@ && settled(parts.drop_last()).len()
            == 0)
    }
}

/// The components `parts` with a `/` between each two.
pub open spec fn joined(parts: Seq<Seq<char>>) -> Seq<char>
    decreases parts.len(),
{
    if parts.len() == 0 {
        Seq::empty()
    } else if parts.len() == 1 {
        parts[0]
    } else {
        joined(parts.drop_last()) + seq!['/'] + parts.last()
    }
}

/// `p` in its normal form: without empty components and `.`, and with each
/// `..` and the component before it taken out.
pub open spec fn normal(p: Seq<char>) -> Seq<char> {
    joined(settled(components(p)))
}

/// Whether `p` starts at the root.
pub open spec fn is_rooted(p: Seq<char>) -> bool {
    p.len() > 0 && p[0] == '/'
}

/// Whether `p`, joined to a folder, names a place outside that folder: it
/// starts at the root, or one of its `..` climbs above its start.
pub open spec fn leaves_folder(p: Seq<char>) -> bool {
    is_rooted(p) || climbs(components(p))
}

/// Whether `path` lies below the folder `dir`: it is a plain relative path
/// joined to `dir`.
pub open spec fn is_below(dir: Seq<char>, path: Seq<char>) -> bool {
    exists|rel: Seq<char>| is_plain_relative(rel) && path == #[trigger] join(dir, rel)
}

/// What [`last_index_of`] finds: the place holds `c`, and no later place does.
pub proof fn lemma_last_index_of(s: Seq<char>, c: char)
    ensures
        -1 <= last_index_of(s, c) < s.len(),
        last_index_of(s, c) >= 0 ==> s[last_index_of(s, c)] == c,
        forall|i: int| last_index_of(s, c) < i < s.len() ==> s[i] != c,
    decreases s.len(),
{
    if s.len() > 0 && s.last() != c {
        let front = s.drop_last();
        lemma_last_index_of(front, c);
        assert forall|i: int| last_index_of(s, c) < i < s.len() implies s[i] != c by {
            if i < front.len() {
                assert(front[i] == s[i]);
            }
        }
    }
}

/// The place that holds `c` with no later `c` is the one [`last_index_of`] finds.
pub proof fn lemma_last_index_of_unique(s: Seq<char>, c: char, k: int)
    requires
        -1 <= k < s.len(),
        k >= 0 ==> s[k] == c,
        forall|i: int| k < i < s.len() ==> s[i] != c,
    ensures
        last_index_of(s, c) == k,
{
    lemma_last_index_of(s, c);
}

/// Appending characters other than `c` does not move the last `c`.
pub proof fn lemma_last_index_of_append(s: Seq<char>, t: Seq<char>, c: char)
    requires
        forall|i: int| 0 <= i < t.len() ==> t[i] != c,
    ensures
        last_index_of(s + t, c) == last_index_of(s, c),
{
    lemma_last_index_of(s, c);
    lemma_last_index_of_unique(s + t, c, last_index_of(s, c));
}

/// The file name of a path holds no separator, and prefix and file name make
/// up the path.
pub proof fn lemma_split_path(p: Seq<char>)
    ensures
        0 <= name_start(p) <= p.len(),
        dir_prefix(p) + file_name(p) == p,
        forall|i: int| 0 <= i < file_name(p).len() ==> file_name(p)[i] != '/',
        name_start(p) > 0 ==> dir_prefix(p).last() == '/',
{
    lemma_last_index_of(p, '/');
    assert(dir_prefix(p) + file_name(p) =~= p);
}

/// Stem and extension are pieces of the file name.
pub proof fn lemma_split_name(name: Seq<char>)
    ensures
        splits(name) ==> stem_of(name) + seq!['.'] + extension_of(name) == name,
        splits(name) ==> stem_of(name).len() > 0,
        !splits(name) ==> stem_of(name) == name && extension_of(name).len() == 0,
        forall|i: int| 0 <= i < extension_of(name).len() ==> extension_of(name)[i] != '.',
{
    lemma_last_index_of(name, '.');
    if splits(name) {
        assert(stem_of(name) + seq!['.'] + extension_of(name) =~= name);
    }
}

/// A character that the file name does not hold is in neither stem nor extension.
pub proof fn lemma_split_name_avoids(name: Seq<char>, c: char)
    requires
        forall|i: int| 0 <= i < name.len() ==> name[i] != c,
    ensures
        forall|i: int| 0 <= i < stem_of(name).len() ==> stem_of(name)[i] != c,
        forall|i: int| 0 <= i < extension_of(name).len() ==> extension_of(name)[i] != c,
{
    lemma_last_index_of(name, '.');
}

/// A plain relative path is not empty, does not start at the root and does not
/// end in `/`.
pub proof fn lemma_plain_relative_ends(p: Seq<char>)
    requires
        is_plain_relative(p),
    ensures
        p.len() > 0,
        p[0] != '/',
        p.last() != '/',
    decreases p.len(),
{
    lemma_split_path(p);
    lemma_last_index_of(p, '/');
    let name = file_name(p);
    assert(p.last() == name.last());
    if name_start(p) > 0 {
        lemma_plain_relative_ends(parent(p));
        assert(p[0] == parent(p)[0]);
    } else {
        assert(p[0] == name[0]);
    }
}

/// Joined to a folder, a plain relative path is appended to it as it is.
pub proof fn lemma_join_plain(base: Seq<char>, rel: Seq<char>)
    requires
        is_plain_relative(rel),
    ensures
        is_below(base, join(base, rel)),
        join(base, rel) == if base.len() == 0 {
            rel
        } else if base.last() == '/' {
            base + rel
        } else {
            base + seq!['/'] + rel
        },
{
    lemma_plain_relative_ends(rel);
}

/// A path keeps its folder when its file name is replaced by a name without
/// `/`.
pub proof fn lemma_replace_file_name(p: Seq<char>, name: Seq<char>)
    requires
        forall|i: int| 0 <= i < name.len() ==> name[i] != '/',
    ensures
        name_start(dir_prefix(p) + name) == name_start(p),
        dir_prefix(dir_prefix(p) + name) == dir_prefix(p),
        file_name(dir_prefix(p) + name) == name,
        parent(dir_prefix(p) + name) == parent(p),
{
    lemma_split_path(p);
    let prefix = dir_prefix(p);
    let q = prefix + name;
    lemma_last_index_of_append(prefix, name, '/');
    lemma_last_index_of_unique(prefix, '/', prefix.len() - 1);
    assert(name_start(q) == prefix.len());
    assert(q.take(prefix.len() as int) =~= prefix);
    assert(q.skip(prefix.len() as int) =~= name);
    if name_start(p) > 0 {
        assert(q.take(name_start(p) - 1) =~= p.take(name_start(p) - 1));
    }
}

/// A plain relative path stays one when its file name is replaced by a plain
/// name.
pub proof fn lemma_replace_keeps_plain(p: Seq<char>, name: Seq<char>)
    requires
        is_plain_relative(p),
        is_plain_name(name),
        forall|i: int| 0 <= i < name.len() ==> name[i] != '/',
    ensures
        is_plain_relative(dir_prefix(p) + name),
{
    lemma_replace_file_name(p, name);
}

/// A plain relative path stays one when its extension is replaced by one
/// that holds neither `/` nor a dot.
pub proof fn lemma_with_extension_plain(p: Seq<char>, ext: Seq<char>)
    requires
        is_plain_relative(p),
        ext.len() > 0,
        forall|i: int| 0 <= i < ext.len() ==> ext[i] != '/' && ext[i] != '.',
    ensures
        is_plain_relative(with_extension(p, ext)),
{
    reveal_strlit(".");
    reveal_strlit("..");
    lemma_split_path(p);
    lemma_split_name_avoids(file_name(p), '/');
    let name = file_stem(p) + seq!['.'] + ext;
    assert forall|i: int| 0 <= i < name.len() implies name[i] != '/' by {
        if i < file_stem(p).len() {
            assert(name[i] == file_stem(p)[i]);
        } else if i > file_stem(p).len() {
            assert(name[i] == ext[i - file_stem(p).len() - 1]);
        }
    }
    assert(name.len() >= 2);
    assert(name.last() == ext.last());
    assert(with_extension(p, ext) =~= dir_prefix(p) + name);
    lemma_replace_keeps_plain(p, name);
}

/// No component of a path holds a separator.
pub proof fn lemma_components(p: Seq<char>)
    ensures
        components(p).len() >= 1,
        components(p).last() == file_name(p),
        forall|k: int, i: int|
            0 <= k < components(p).len() && 0 <= i < components(p)[k].len() ==> components(
                p,
            )[k][i] != '/',
    decreases p.len(),
{
    lemma_split_path(p);
    lemma_last_index_of(p, '/');
    if name_start(p) > 0 {
        lemma_components(parent(p));
        let front = components(parent(p));
        assert forall|k: int, i: int|
            0 <= k < components(p).len() && 0 <= i < components(p)[k].len() implies components(
            p,
        )[k][i] != '/' by {
            if k < front.len() {
                assert(components(p)[k] == front[k]);
            }
        }
    } else {
        assert(file_name(p) =~= p);
    }
}

/// What is left of components without separators are plain names without
/// separators.
pub proof fn lemma_settled(parts: Seq<Seq<char>>)
    requires
        forall|k: int, i: int| 0 <= k < parts.len() && 0 <= i < parts[k].len() ==> parts[k][i] != '/',
    ensures
        forall|k: int| 0 <= k < settled(parts).len() ==> is_plain_name(#[trigger] settled(parts)[k]),
        forall|k: int, i: int|
            0 <= k < settled(parts).len() && 0 <= i < settled(parts)[k].len() ==> settled(
                parts,
            )[k][i] != '/',
        is_plain_name(parts.last()) && parts.len() > 0 ==> settled(parts).len() > 0 && settled(
            parts,
        ).last() == parts.last(),
    decreases parts.len(),
{
    if parts.len() > 0 {
        let front = parts.drop_last();
        assert forall|k: int, i: int|
            0 <= k < front.len() && 0 <= i < front[k].len() implies front[k][i] != '/' by {
            assert(front[k] == parts[k]);
        }
        lemma_settled(front);
        let before = settled(front);
        let now = settled(parts);
        assert forall|k: int| 0 <= k < now.len() implies is_plain_name(#[trigger] now[k]) by {
            if k < before.len() {
                assert(now[k] == before[k]);
            }
        }
        assert forall|k: int, i: int|
            0 <= k < now.len() && 0 <= i < now[k].len() implies now[k][i] != '/' by {
            if k < before.len() {
                assert(now[k] == before[k]);
            } else {
                assert(now[k] == parts[parts.len() - 1]);
            }
        }
    }
}

/// Plain names without separators, joined, make a plain relative path whose
/// file name is the last of them.
pub proof fn lemma_joined(parts: Seq<Seq<char>>)
    requires
        parts.len() > 0,
        forall|k: int| 0 <= k < parts.len() ==> is_plain_name(#[trigger] parts[k]),
        forall|k: int, i: int| 0 <= k < parts.len() && 0 <= i < parts[k].len() ==> parts[k][i] != '/',
    ensures
        is_plain_relative(joined(parts)),
        file_name(joined(parts)) == parts.last(),
    decreases parts.len(),
{
    let path = joined(parts);
    let last = parts.last();
    if parts.len() == 1 {
        lemma_last_index_of_unique(path, '/', -1);
        assert(file_name(path) =~= path);
    } else {
        let front = parts.drop_last();
        assert forall|k: int| 0 <= k < front.len() implies is_plain_name(#[trigger] front[k]) by {
            assert(front[k] == parts[k]);
        }
        assert forall|k: int, i: int|
            0 <= k < front.len() && 0 <= i < front[k].len() implies front[k][i] != '/' by {
            assert(front[k] == parts[k]);
        }
        lemma_joined(front);
        let dir = joined(front);
        let cut = dir.len() as int;
        assert(path =~= dir + seq!['/'] + last);
        assert(path[cut] == '/');
        assert forall|i: int| cut < i < path.len() implies path[i] != '/' by {
            assert(path[i] == last[i - cut - 1]);
        }
        lemma_last_index_of_unique(path, '/', cut);
        assert(file_name(path) =~= last);
        assert(parent(path) =~= dir);
    }
}

/// Only `..` climbs: a path that does not start at the root and has no
/// component `..` stays in the folder that it is joined to.
pub proof fn lemma_stays_without_dots(p: Seq<char>)
    requires
        !is_rooted(p),
        !components(p).contains(".."@),
    ensures
        !leaves_folder(p),
{
    if climbs(components(p)) {
        lemma_climbing_needs_dots(components(p));
    }
}

/// Components climb only if one of them is `..`.
pub proof fn lemma_climbing_needs_dots(parts: Seq<Seq<char>>)
    requires
        climbs(parts),
    ensures
        parts.contains(".."@),
    decreases parts.len(),
{
    if parts.len() > 0 {
        if climbs(parts.drop_last()) {
            lemma_climbing_needs_dots(parts.drop_last());
            let k = choose|k: int| 0 <= k < parts.drop_last().len() && parts.drop_last()[k] == ".."@;
            assert(parts[k] == ".."@);
        } else {
            assert(parts[parts.len() - 1] == ".."@);
        }
    }
}

/// The normal form of a path is empty or a plain relative path, and it ends
/// as the path does if the path ends in a plain name.
pub proof fn lemma_normal(p: Seq<char>)
    ensures
        normal(p).len() == 0 || is_plain_relative(normal(p)),
        is_plain_name(file_name(p)) ==> is_plain_relative(normal(p)) && file_name(normal(p))
            == file_name(p),
{
    lemma_components(p);
    lemma_settled(components(p));
    let stack = settled(components(p));
    if stack.len() > 0 {
        lemma_joined(stack);
    }
}

/// The positions of the last `/` and of the dot that splits the file name.
struct Marks {
    /// Where the file name begins.
    name_start: usize,
    /// The index of the splitting dot, if the file name splits.
    dot: Option<usize>,
}

/// Scans `v` once for the start of the file name and its splitting dot.
fn marks(v: &Vec<char>) -> (m: Marks)
    ensures
        m.name_start == name_start(v@),
        m.name_start <= v.len(),
        m.dot is Some == splits(file_name(v@)),
        m.dot matches Some(d) ==> d == name_start(v@) + last_index_of(file_name(v@), '.'),
        m.dot matches Some(d) ==> name_start(v@) < d < v.len(),
{
    let mut start: usize = 0;
    let mut dot: Option<usize> = None;
    let mut i: usize = 0;
    while i < v.len()
        invariant
            i <= v.len(),
            start == name_start(v@.take(i as int)),
            start <= i,
            match dot {
                Some(d) => start <= d < i && d - start == last_index_of(
                    v@.take(i as int).skip(start as int),
                    '.',
                ),
                None => last_index_of(v@.take(i as int).skip(start as int), '.') == -1,
            },
        decreases v.len() - i,
    {
        let c = v[i];
        proof {
            let before = v@.take(i as int);
            let after = v@.take(i + 1);
            assert(after.drop_last() =~= before);
            assert(after.last() == c);
            if c != '/' {
                let tail = after.skip(start as int);
                assert(tail.drop_last() =~= before.skip(start as int));
                assert(tail.last() == c);
            } else {
                assert(after.skip(i + 1) =~= Seq::<char>::empty());
            }
        }
        if c == '/' {
            start = i + 1;
            dot = None;
        } else if c == '.' {
            dot = Some(i);
        }
        i = i + 1;
    }
    proof {
        assert(v@.take(v.len() as int) =~= v@);
    }
    let dot = match dot {
        Some(d) => if d > start {
            Some(d)
        } else {
            None
        },
        None => None,
    };
    Marks { name_start: start, dot }
}

/// Everything of `path` up to and including its last `/`.
pub fn dir_prefix_of(path: &str) -> (prefix: String)
    ensures
        prefix@ == dir_prefix(path@),
{
    let v = chars_of(path);
    let m = marks(&v);
    let mut out = String::new();
    push_range(&mut out, &v, 0, m.name_start);
    proof {
        assert(out@ =~= dir_prefix(path@));
    }
    out
}

/// The last component of `path`.
pub fn file_name_of(path: &str) -> (name: String)
    ensures
        name@ == file_name(path@),
{
    let v = chars_of(path);
    let m = marks(&v);
    let mut out = String::new();
    push_range(&mut out, &v, m.name_start, v.len());
    proof {
        assert(out@ =~= file_name(path@));
    }
    out
}

/// The folder that holds the last component of `path`.
pub fn parent_of(path: &str) -> (dir: String)
    ensures
        dir@ == parent(path@),
{
    let v = chars_of(path);
    let m = marks(&v);
    let mut out = String::new();
    if m.name_start > 0 {
        push_range(&mut out, &v, 0, m.name_start - 1);
    }
    proof {
        assert(out@ =~= parent(path@));
    }
    out
}

/// The stem of the last component of `path`.
pub fn file_stem_of(path: &str) -> (stem: String)
    ensures
        stem@ == file_stem(path@),
{
    let v = chars_of(path);
    let m = marks(&v);
    let mut out = String::new();
    let end = match m.dot {
        Some(d) => d,
        None => v.len(),
    };
    push_range(&mut out, &v, m.name_start, end);
    proof {
        assert(out@ =~= file_stem(path@));
    }
    out
}

/// The extension of the last component of `path`, empty if it has none.
pub fn extension_of_path(path: &str) -> (ext: String)
    ensures
        ext@ == extension(path@),
{
    let v = chars_of(path);
    let m = marks(&v);
    let mut out = String::new();
    match m.dot {
        Some(d) => {
            push_range(&mut out, &v, d + 1, v.len());
        },
        None => {},
    }
    proof {
        assert(out@ =~= extension(path@));
    }
    out
}

/// `path` with the extension of its last component replaced by `new_ext`.
pub fn change_extension(path: &str, new_ext: &str) -> (changed: String)
    ensures
        changed@ == with_extension(path@, new_ext@),
{
    let v = chars_of(path);
    let m = marks(&v);
    let mut out = String::new();
    if m.name_start == v.len() {
        push_range(&mut out, &v, 0, v.len());
        proof {
            assert(out@ =~= path@);
        }
        return out;
    }
    let end = match m.dot {
        Some(d) => d,
        None => v.len(),
    };
    push_range(&mut out, &v, 0, end);
    proof {
        assert(file_stem(path@) =~= v@.subrange(m.name_start as int, end as int));
        assert(out@ =~= dir_prefix(path@) + file_stem(path@));
    }
    if new_ext.unicode_len() > 0 {
        push_char(&mut out, '.');
        push_str(&mut out, new_ext);
        proof {
            assert(out@ =~= dir_prefix(path@) + file_stem(path@) + seq!['.'] + new_ext@);
        }
    }
    out
}

/// Whether `path` is a plain relative path.
pub fn is_plain_path(path: &str) -> (plain: bool)
    ensures
        plain == is_plain_relative(path@),
{
    let v = chars_of(path);
    let mut end: usize = v.len();
    proof {
        assert(v@.take(end as int) =~= path@);
    }
    loop
        invariant
            end <= v.len(),
            v@ == path@,
            is_plain_relative(path@) == is_plain_relative(v@.take(end as int)),
        decreases end,
    {
        let ghost upto = v@.take(end as int);
        let mut start: usize = end;
        while start > 0 && v[start - 1] != '/'
            invariant
                start <= end <= v.len(),
                forall|k: int| start <= k < end ==> v@[k] != '/',
            decreases start,
        {
            start = start - 1;
        }
        proof {
            reveal_strlit(".");
            reveal_strlit("..");
            lemma_last_index_of_unique(upto, '/', start - 1);
            assert(file_name(upto) =~= v@.subrange(start as int, end as int));
            if start > 0 {
                assert(parent(upto) =~= v@.take(start - 1));
            }
        }
        let length = end - start;
        let plain_name = length > 0 && !(length == 1 && v[start] == '.') && !(length == 2
            && v[start] == '.' && v[start + 1] == '.');
        proof {
            let name = file_name(upto);
            if length == 1 && v[start as int] == '.' {
                assert(name =~= "."@);
            }
            if length == 2 && v[start as int] == '.' && v[start + 1] == '.' {
                assert(name =~= ".."@);
            }
            if name == "."@ {
                assert(name[0] == '.');
            }
            if name == ".."@ {
                assert(name[0] == '.' && name[1] == '.');
            }
            assert(plain_name == is_plain_name(name));
        }
        if !plain_name {
            return false;
        }
        if start == 0 {
            return true;
        }
        end = start - 1;
    }
}

/// `path` in its normal form, and whether it leaves the folder that it is
/// joined to.
#[verifier::loop_isolation(false)]
pub fn normalize(path: &str) -> (result: (String, bool))
    ensures
        result.0@ == normal(path@),
        result.1 == leaves_folder(path@),
{
    let v = chars_of(path);
    let mut stack: Vec<String> = Vec::new();
    let mut climbed = false;
    let ghost mut parts: Seq<Seq<char>> = Seq::empty();
    let mut start: usize = 0;
    let mut i: usize = 0;
    proof {
        reveal_strlit(".");
        reveal_strlit("..");
        assert(texts(stack@) =~= settled(parts));
    }
    loop
        invariant
            start <= i <= v.len(),
            v@ == path@,
            forall|k: int| start <= k < i ==> v@[k] != '/',
            start > 0 ==> v@[start - 1] == '/' && parts == components(v@.take(start - 1)),
            start == 0 ==> parts.len() == 0,
            texts(stack@) == settled(parts),
            climbed == climbs(parts),
        decreases v.len() - i + 1, v.len() - start + 1,
    {
        if i < v.len() && v[i] != '/' {
            i = i + 1;
            continue ;
        }
        let ghost upto = v@.take(i as int);
        let ghost part = v@.subrange(start as int, i as int);
        let ghost before = parts;
        proof {
            lemma_last_index_of_unique(upto, '/', start - 1);
            assert(file_name(upto) =~= part);
            if start > 0 {
                assert(parent(upto) =~= v@.take(start - 1));
                assert(components(upto) == before.push(part));
            } else {
                assert(upto =~= part);
                assert(components(upto) =~= before.push(part));
            }
            parts = before.push(part);
            assert(parts.drop_last() =~= before);
            assert(parts.last() == part);
        }
        let length = i - start;
        let dot = length == 1 && v[start] == '.';
        let dots = length == 2 && v[start] == '.' && v[start + 1] == '.';
        proof {
            if dot {
                assert(part =~= "."@);
            }
            if dots {
                assert(part =~= ".."@);
            }
            if part == "."@ {
                assert(part[0] == '.');
            }
            if part == ".."@ {
                assert(part[0] == '.' && part[1] == '.');
            }
        }
        let ghost old_stack = texts(stack@);
        if length == 0 || dot {
        } else if dots {
            if stack.len() == 0 {
                climbed = true;
            } else {
                stack.pop();
                proof {
                    assert(texts(stack@) =~= old_stack.drop_last());
                }
            }
        } else {
            let mut name = String::new();
            push_range(&mut name, &v, start, i);
            stack.push(name);
            proof {
                assert(texts(stack@) =~= old_stack.push(part));
            }
        }
        if i == v.len() {
            proof {
                assert(upto =~= path@);
            }
            break ;
        }
        start = i + 1;
        i = i + 1;
    }
    let mut out = String::new();
    let mut k: usize = 0;
    while k < stack.len()
        invariant
            k <= stack.len(),
            out@ == joined(texts(stack@).take(k as int)),
        decreases stack.len() - k,
    {
        proof {
            let upto = texts(stack@).take(k + 1);
            assert(upto.drop_last() =~= texts(stack@).take(k as int));
            assert(upto.last() == stack@[k as int]@);
        }
        if k > 0 {
            push_char(&mut out, '/');
        }
        push_str(&mut out, stack[k].as_str());
        proof {
            let upto = texts(stack@).take(k + 1);
            if k == 0 {
                assert(out@ =~= upto[0]);
            } else {
                assert(out@ =~= joined(upto.drop_last()) + seq!['/'] + upto.last());
            }
        }
        k = k + 1;
    }
    proof {
        assert(texts(stack@).take(k as int) =~= texts(stack@));
    }
    let rooted = v.len() > 0 && v[0] == '/';
    (out, rooted || climbed)
}

/// `name` placed inside the folder `base`.
pub fn join_paths(base: &str, name: &str) -> (joined: String)
    ensures
        joined@ == join(base@, name@),
{
    let b = chars_of(base);
    let n = chars_of(name);
    let mut out = String::new();
    if b.len() == 0 || (n.len() > 0 && n[0] == '/') {
        push_range(&mut out, &n, 0, n.len());
        proof {
            assert(out@ =~= name@);
        }
        return out;
    }
    push_range(&mut out, &b, 0, b.len());
    if b[b.len() - 1] != '/' {
        push_char(&mut out, '/');
    }
    push_range(&mut out, &n, 0, n.len());
    proof {
        assert(out@ =~= join(base@, name@));
    }
    out
}

} // verus!
