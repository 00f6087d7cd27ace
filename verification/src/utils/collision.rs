//! Unique output paths within one job.
//!
//! A [`CollisionManager`] remembers every path it has handed out. A request
//! for a path that is still free returns it unchanged; a request for a taken
//! path returns the first free name among `stem-1.ext`, `stem-2.ext`, ... in
//! the same folder.
//!
//! The manager is made for plain relative paths
//! ([`crate::paths::is_plain_relative`]), and answers such a path with such a
//! path. It answers every other string too, by the same rule on its
//! characters.

use crate::paths::{
    dir_prefix, dir_prefix_of, extension, extension_of_path, file_name, file_stem, file_stem_of,
    is_plain_name, is_plain_relative, lemma_replace_file_name, lemma_replace_keeps_plain,
    lemma_split_name, lemma_split_name_avoids, lemma_split_path,
};
use crate::text::{
    decimal, lemma_decimal_digits, lemma_decimal_injective, push_char, push_decimal, push_str,
};
use vstd::hash_set::StringHashSet;
use vstd::prelude::*;

verus! {

/// The stem that numbered names are built on: the stem of the last component
/// of `p`, or `file` where `p` has no file name.
pub open spec fn base_stem(p: Seq<char>) -> Seq<char> {
    if file_stem(p).len() == 0 {
        "file"@
    } else {
        file_stem(p)
    }
}

/// What follows the number in a numbered name: the dot and the extension of
/// `p`, or nothing where `p` has no extension.
pub open spec fn extension_tail(p: Seq<char>) -> Seq<char> {
    if extension(p).len() == 0 {
        Seq::empty()
    } else {
        seq!['.'] + extension(p)
    }
}

/// The `i`-th numbered file name for `p`: `stem-i.ext`.
pub open spec fn numbered(p: Seq<char>, i: nat) -> Seq<char> {
    base_stem(p) + seq!['-'] + decimal(i) + extension_tail(p)
}

/// The `i`-th numbered name for `p`: `stem-i.ext` in the folder of `p`.
pub open spec fn candidate(p: Seq<char>, i: nat) -> Seq<char> {
    dir_prefix(p) + base_stem(p) + seq!['-'] + decimal(i) + extension_tail(p)
}

/// Whether `k` is the number of the first numbered name for `p` that `used`
/// does not hold.
pub open spec fn is_first_free(used: Set<Seq<char>>, p: Seq<char>, k: nat) -> bool {
    &&& k >= 1
    &&& !used.contains(candidate(p, k))
    &&& forall|j: nat| 1 <= j < k ==> used.contains(#[trigger] candidate(p, j))
}

/// The number of the first numbered name for `p` that `used` does not hold.
pub open spec fn first_free(used: Set<Seq<char>>, p: Seq<char>) -> nat {
    choose|k: nat| is_first_free(used, p, k)
}

/// The path that a request for `p` is answered with when `used` holds the
/// paths handed out so far.
pub open spec fn resolve(used: Set<Seq<char>>, p: Seq<char>) -> Seq<char> {
    if !used.contains(p) {
        p
    } else {
        candidate(p, first_free(used, p))
    }
}

/// The paths handed out after `n` further requests for `p`.
pub open spec fn after_requests(used: Set<Seq<char>>, p: Seq<char>, n: nat) -> Set<Seq<char>>
    decreases n,
{
    if n == 0 {
        used
    } else {
        let before = after_requests(used, p, (n - 1) as nat);
        before.insert(resolve(before, p))
    }
}

/// A numbered name is longer than the path it is made from.
pub proof fn lemma_candidate_longer(p: Seq<char>, i: nat)
    ensures
        candidate(p, i).len() > p.len(),
        candidate(p, i) != p,
{
    reveal_strlit("file");
    lemma_split_path(p);
    lemma_split_name(file_name(p));
    lemma_decimal_digits(i);
    let name = file_name(p);
    assert(p.len() == dir_prefix(p).len() + name.len());
    if file_stem(p).len() == 0 {
        assert(name.len() == 0);
    }
}

/// Numbered names with different numbers differ.
pub proof fn lemma_candidate_injective(p: Seq<char>, i: nat, j: nat)
    requires
        candidate(p, i) == candidate(p, j),
    ensures
        i == j,
{
    let head = dir_prefix(p) + base_stem(p) + seq!['-'];
    let tail = extension_tail(p);
    let ci = candidate(p, i);
    let cj = candidate(p, j);
    assert(ci.len() == head.len() + decimal(i).len() + tail.len());
    assert(cj.len() == head.len() + decimal(j).len() + tail.len());
    let n = decimal(i).len() as int;
    assert(ci.subrange(head.len() as int, head.len() + n) =~= decimal(i));
    assert(cj.subrange(head.len() as int, head.len() + n) =~= decimal(j));
    lemma_decimal_injective(i, j);
}

/// A numbered file name is a plain name without `/`.
pub proof fn lemma_numbered_is_name(p: Seq<char>, i: nat)
    ensures
        candidate(p, i) == dir_prefix(p) + numbered(p, i),
        is_plain_name(numbered(p, i)),
        forall|k: int| 0 <= k < numbered(p, i).len() ==> numbered(p, i)[k] != '/',
{
    reveal_strlit("file");
    reveal_strlit(".");
    reveal_strlit("..");
    lemma_split_path(p);
    lemma_split_name_avoids(file_name(p), '/');
    lemma_decimal_digits(i);
    let rest = numbered(p, i);
    let a = base_stem(p).len() as int;
    let b = a + 1;
    let c = b + decimal(i).len();
    assert(candidate(p, i) =~= dir_prefix(p) + rest);
    assert forall|k: int| 0 <= k < rest.len() implies rest[k] != '/' by {
        if k < a {
            assert(rest[k] == base_stem(p)[k]);
        } else if k < b {
        } else if k < c {
            assert(rest[k] == decimal(i)[k - b]);
        } else {
            assert(rest[k] == extension_tail(p)[k - c]);
            if k > c {
                assert(extension_tail(p)[k - c] == extension(p)[k - c - 1]);
            }
        }
    }
    assert(rest[a] == '-');
    assert(a >= 1);
    assert(rest.len() >= 3);
}

/// A numbered name lies in the folder of the path it is made from.
pub proof fn lemma_candidate_same_folder(p: Seq<char>, i: nat)
    ensures
        dir_prefix(candidate(p, i)) == dir_prefix(p),
{
    lemma_numbered_is_name(p, i);
    lemma_replace_file_name(p, numbered(p, i));
}

/// A numbered name for a plain relative path is a plain relative path.
pub proof fn lemma_candidate_plain(p: Seq<char>, i: nat)
    requires
        is_plain_relative(p),
    ensures
        is_plain_relative(candidate(p, i)),
{
    lemma_numbered_is_name(p, i);
    lemma_replace_keeps_plain(p, numbered(p, i));
}

/// The answer to a request for a plain relative path is a plain relative
/// path.
pub proof fn lemma_resolve_plain(used: Set<Seq<char>>, p: Seq<char>)
    requires
        is_plain_relative(p),
    ensures
        is_plain_relative(resolve(used, p)),
{
    if used.contains(p) {
        lemma_candidate_plain(p, first_free(used, p));
    }
}

/// A finite set that holds the first `n` numbered names for `p` has at least
/// `n` elements.
pub proof fn lemma_candidates_fit(used: Set<Seq<char>>, p: Seq<char>, n: nat)
    requires
        used.finite(),
        forall|j: nat| 1 <= j <= n ==> used.contains(#[trigger] candidate(p, j)),
    ensures
        n <= used.len(),
    decreases n,
{
    if n > 0 {
        let last = candidate(p, n);
        let rest = used.remove(last);
        assert forall|j: nat| 1 <= j <= n - 1 implies rest.contains(#[trigger] candidate(p, j)) by {
            if candidate(p, j) == last {
                lemma_candidate_injective(p, j, n);
            }
        }
        lemma_candidates_fit(rest, p, (n - 1) as nat);
    }
}

/// At most one number is the first free one.
pub proof fn lemma_first_free_unique(used: Set<Seq<char>>, p: Seq<char>, k: nat)
    requires
        is_first_free(used, p, k),
    ensures
        first_free(used, p) == k,
{
    let c = first_free(used, p);
    assert(is_first_free(used, p, c));
    if c < k {
        assert(used.contains(candidate(p, c)));
    } else if k < c {
        assert(used.contains(candidate(p, k)));
    }
}

/// In a finite set some numbered name for `p` is free: the first one from
/// `k` on, where all before `k` are taken.
pub proof fn lemma_first_free_exists(used: Set<Seq<char>>, p: Seq<char>, k: nat) -> (first: nat)
    requires
        used.finite(),
        k >= 1,
        forall|j: nat| 1 <= j < k ==> used.contains(#[trigger] candidate(p, j)),
    ensures
        is_first_free(used, p, first),
    decreases used.len() + 1 - k,
{
    if !used.contains(candidate(p, k)) {
        k
    } else {
        lemma_candidates_fit(used, p, k);
        lemma_first_free_exists(used, p, k + 1)
    }
}

/// The answer to a request is a path that was not handed out before.
pub proof fn lemma_resolve_is_free(used: Set<Seq<char>>, p: Seq<char>)
    requires
        used.finite(),
    ensures
        !used.contains(resolve(used, p)),
{
    if used.contains(p) {
        let first = lemma_first_free_exists(used, p, 1);
        lemma_first_free_unique(used, p, first);
    }
}

/// A path that has not been handed out is handed out unchanged.
pub proof fn lemma_fresh_path_is_kept(used: Set<Seq<char>>, p: Seq<char>)
    requires
        !used.contains(p),
    ensures
        resolve(used, p) == p,
{
}

/// Repeated requests for one path are answered with the path itself, then
/// with its numbered names in order: the request after `n` earlier ones gets
/// the `n`-th numbered name, as long as none of these names was handed out
/// for another request.
pub proof fn lemma_repeated_requests(used: Set<Seq<char>>, p: Seq<char>, n: nat)
    requires
        !used.contains(p),
        forall|j: nat| 1 <= j <= n ==> !used.contains(#[trigger] candidate(p, j)),
    ensures
        resolve(after_requests(used, p, 0), p) == p,
        n >= 1 ==> resolve(after_requests(used, p, n), p) == candidate(p, n),
        n >= 1 ==> after_requests(used, p, n).contains(p),
        forall|j: nat| 1 <= j < n ==> after_requests(used, p, n).contains(#[trigger] candidate(p, j)),
        forall|q: Seq<char>| #[trigger]
            after_requests(used, p, n).contains(q) ==> used.contains(q) || q == p || exists|j: nat|
                1 <= j < n && q == candidate(p, j),
    decreases n,
{
    if n >= 1 {
        let m = (n - 1) as nat;
        lemma_repeated_requests(used, p, m);
        let before = after_requests(used, p, m);
        let now = after_requests(used, p, n);
        let answer = resolve(before, p);
        assert(now == before.insert(answer));
        if m == 0 {
            assert(answer == p);
        } else {
            assert(answer == candidate(p, m));
        }
        assert forall|q: Seq<char>| #[trigger] now.contains(q) implies used.contains(q) || q == p
            || exists|j: nat| 1 <= j < n && q == candidate(p, j) by {
            if q == answer && m >= 1 {
                assert(1 <= m < n && q == candidate(p, m));
            }
        }
        assert(!now.contains(candidate(p, n))) by {
            lemma_candidate_longer(p, n);
            if now.contains(candidate(p, n)) {
                let j = choose|j: nat| 1 <= j < n && candidate(p, n) == candidate(p, j);
                lemma_candidate_injective(p, n, j);
            }
        }
        assert(is_first_free(now, p, n));
        lemma_first_free_unique(now, p, n);
    }
}

/// A request for `p` leaves every path of another folder as free or taken
/// as it was: the same file name in different folders never collides.
pub proof fn lemma_folders_do_not_collide(used: Set<Seq<char>>, p: Seq<char>, q: Seq<char>)
    requires
        dir_prefix(p) != dir_prefix(q),
    ensures
        resolve(used, p) != q,
        used.insert(resolve(used, p)).contains(q) == used.contains(q),
{
    if used.contains(p) {
        lemma_candidate_same_folder(p, first_free(used, p));
    }
}

/// The paths handed out within one job.
pub struct CollisionManager {
    used_paths: StringHashSet,
}

impl View for CollisionManager {
    type V = Set<Seq<char>>;

    /// The paths handed out so far.
    closed spec fn view(&self) -> Set<Seq<char>> {
        self.used_paths@
    }
}

/// Builds the `i`-th numbered name from the pieces of a path.
fn numbered_name(prefix: &str, stem: &str, ext: &str, i: u128) -> (name: String)
    ensures
        name@ == prefix@ + (if stem@.len() == 0 {
            "file"@
        } else {
            stem@
        }) + seq!['-'] + decimal(i as nat) + (if ext@.len() == 0 {
            Seq::<char>::empty()
        } else {
            seq!['.'] + ext@
        }),
{
    let mut out = String::new();
    push_str(&mut out, prefix);
    if stem.unicode_len() == 0 {
        push_str(&mut out, "file");
    } else {
        push_str(&mut out, stem);
    }
    push_char(&mut out, '-');
    push_decimal(&mut out, i);
    if ext.unicode_len() > 0 {
        push_char(&mut out, '.');
        push_str(&mut out, ext);
    }
    proof {
        let s = if stem@.len() == 0 { "file"@ } else { stem@ };
        let t = if ext@.len() == 0 { Seq::<char>::empty() } else { seq!['.'] + ext@ };
        assert(out@ =~= prefix@ + s + seq!['-'] + decimal(i as nat) + t);
    }
    out
}

impl CollisionManager {
    /// In every manager the set of paths handed out is finite.
    #[verifier::type_invariant]
    spec fn well_formed(self) -> bool {
        self.used_paths@.finite()
    }

    /// A manager that has handed out no path.
    pub fn new() -> (manager: Self)
        ensures
            manager@ == Set::<Seq<char>>::empty(),
    {
        CollisionManager { used_paths: StringHashSet::new() }
    }

    /// Hands out a path for `desired_path` that no earlier request got:
    /// `desired_path` itself if it is free, else its first free numbered name.
    pub fn get_unique_path(&mut self, desired_path: &str) -> (path: String)
        ensures
            path@ == resolve(old(self)@, desired_path@),
            !old(self)@.contains(desired_path@) ==> path@ == desired_path@,
            !old(self)@.contains(path@),
            final(self)@ == old(self)@.insert(path@),
    {
        proof {
            use_type_invariant(&*self);
        }
        let mut used = StringHashSet::new();
        std::mem::swap(&mut used, &mut self.used_paths);
        if !used.contains(desired_path) {
            used.insert(desired_path.to_owned());
            self.used_paths = used;
            return desired_path.to_owned();
        }
        let prefix = dir_prefix_of(desired_path);
        let stem = file_stem_of(desired_path);
        let ext = extension_of_path(desired_path);
        let taken = used.len();
        let mut i: u128 = 1;
        loop
            invariant
                1 <= i <= taken + 1,
                taken == used@.len(),
                used@.finite(),
                used@ == old(self)@,
                used@.contains(desired_path@),
                self.used_paths@.finite(),
                prefix@ == dir_prefix(desired_path@),
                stem@ == file_stem(desired_path@),
                ext@ == extension(desired_path@),
                forall|j: nat| 1 <= j < i ==> used@.contains(#[trigger] candidate(desired_path@, j)),
            decreases taken + 1 - i,
        {
            let name = numbered_name(prefix.as_str(), stem.as_str(), ext.as_str(), i);
            assert(name@ == candidate(desired_path@, i as nat));
            if !used.contains(name.as_str()) {
                proof {
                    assert(is_first_free(used@, desired_path@, i as nat));
                    lemma_first_free_unique(used@, desired_path@, i as nat);
                }
                used.insert(name.clone());
                self.used_paths = used;
                return name;
            }
            proof {
                lemma_candidates_fit(used@, desired_path@, i as nat);
            }
            i = i + 1;
        }
    }

    /// Marks `path` as handed out, whether or not it was before.
    pub fn reserve_path(&mut self, path: &str)
        ensures
            final(self)@ == old(self)@.insert(path@),
    {
        proof {
            use_type_invariant(&*self);
        }
        let mut used = StringHashSet::new();
        std::mem::swap(&mut used, &mut self.used_paths);
        used.insert(path.to_owned());
        self.used_paths = used;
    }

    /// Whether `path` has been handed out.
    pub fn is_used(&self, path: &str) -> (used: bool)
        ensures
            used == self@.contains(path@),
    {
        self.used_paths.contains(path)
    }
}

impl Default for CollisionManager {
    fn default() -> (manager: Self)
        ensures
            manager@ == Set::<Seq<char>>::empty(),
    {
        CollisionManager::new()
    }
}

} // verus!
