//! How a target's backup file is named, and how a backup name leads back to
//! the file it was taken from.

use vstd::prelude::*;
use vstd::string::*;

verus! {

/// The reserved suffix of every backup file: the extension `oip.backup`.
pub open spec fn backup_suffix() -> Seq<char> {
    ".oip.backup"@
}

/// Scanning `p` backwards from position `i`, where the extension's dot stands
/// in the last path component, or `p.len()` where that component has none.
/// A dot that opens the component (as in `.profile`) starts no extension.
pub open spec fn dot_before(p: Seq<char>, i: int) -> int
    decreases i,
{
    if i <= 1 || i > p.len() {
        p.len() as int
    } else if p[i - 1] == '/' {
        p.len() as int
    } else if p[i - 1] == '.' && p[i - 2] != '/' {
        i - 1
    } else {
        dot_before(p, i - 1)
    }
}

/// Where the extension of `p` starts (its dot), or `p.len()` if it has none.
pub open spec fn extension_start(p: Seq<char>) -> int {
    dot_before(p, p.len() as int)
}

/// The backup path of `p`: its extension replaced by `oip.backup`, or that
/// extension appended where `p` has none.
pub open spec fn backup_name(p: Seq<char>) -> Seq<char> {
    p.subrange(0, extension_start(p)) + backup_suffix()
}

/// `name` ends in the reserved backup suffix.
pub open spec fn is_backup(name: Seq<char>) -> bool {
    name.len() >= backup_suffix().len() && name.subrange(
        name.len() - backup_suffix().len(),
        name.len() as int,
    ) == backup_suffix()
}

/// `name` with the backup suffix taken off its end.
pub open spec fn strip_backup(name: Seq<char>) -> Seq<char> {
    name.subrange(0, name.len() - backup_suffix().len())
}

/// What the backward scan finds: nothing, or a dot with no dot after it
/// before `i`.
pub proof fn lemma_dot_before(p: Seq<char>, i: int)
    requires
        i <= p.len(),
    ensures
        dot_before(p, i) == p.len() || (0 < dot_before(p, i) < i && p[dot_before(p, i)] == '.'
            && forall|j: int| dot_before(p, i) < j < i ==> p[j] != '.'),
    decreases i,
{
    if i <= 1 || p[i - 1] == '/' {
    } else if p[i - 1] == '.' && p[i - 2] != '/' {
    } else {
        lemma_dot_before(p, i - 1);
        if p[i - 1] == '.' {
            assert(p[i - 2] == '/');
            assert(dot_before(p, i - 1) == p.len());
        }
    }
}

/// A backup name always ends in the backup suffix.
pub proof fn lemma_backup_name_is_backup(p: Seq<char>)
    ensures
        is_backup(backup_name(p)),
{
    lemma_dot_before(p, p.len() as int);
    let b = backup_name(p);
    assert(b.subrange(b.len() - backup_suffix().len(), b.len() as int) =~= backup_suffix());
}

/// No path is its own backup.
pub proof fn lemma_backup_name_differs(p: Seq<char>)
    ensures
        backup_name(p) != p,
{
    lemma_dot_before(p, p.len() as int);
    let e = extension_start(p);
    let b = backup_name(p);
    reveal_strlit(".oip.backup");
    if b == p {
        assert(e < p.len());
        assert(b.len() == e + 11);
        assert(b[e + 4] == '.');
        assert(p[e + 4] != '.');
    }
}

/// Where the extension of `p` starts, as `extension_start` defines it.
fn extension_index(p: &str) -> (k: usize)
    ensures
        k == extension_start(p@),
{
    let n = p.unicode_len();
    let mut i: usize = n;
    while i > 1
        invariant
            n == p@.len(),
            i <= n,
            dot_before(p@, i as int) == dot_before(p@, n as int),
        decreases i,
    {
        let c = p.get_char(i - 1);
        if c == '/' {
            return n;
        }
        if c == '.' && p.get_char(i - 2) != '/' {
            return i - 1;
        }
        i = i - 1;
    }
    n
}

/// The path of the backup kept for `target`.
pub fn backup_path(target: &str) -> (r: String)
    ensures
        r@ == backup_name(target@),
{
    let k = extension_index(target);
    proof {
        lemma_dot_before(target@, target@.len() as int);
    }
    let mut r = target.substring_char(0, k).to_owned();
    r.append(".oip.backup");
    r
}

/// Whether `name` ends in the backup suffix.
pub fn has_backup_suffix(name: &str) -> (r: bool)
    ensures
        r == is_backup(name@),
{
    let n = name.unicode_len();
    proof {
        reveal_strlit(".oip.backup");
    }
    if n < 11 {
        return false;
    }
    let tail = name.substring_char(n - 11, n);
    crate::text::same_chars(tail, ".oip.backup")
}

/// `name` without its backup suffix.
pub fn without_backup_suffix(name: &str) -> (r: String)
    requires
        is_backup(name@),
    ensures
        r@ == strip_backup(name@),
{
    proof {
        reveal_strlit(".oip.backup");
    }
    let n = name.unicode_len();
    name.substring_char(0, n - 11).to_owned()
}

} // verus!
