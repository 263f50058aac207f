//! Revert: copy each backup in a directory back onto the file it was taken
//! from.

use vstd::prelude::*;
use crate::apply::Files;
use crate::naming::{
    backup_name,
    backup_path,
    has_backup_suffix,
    is_backup,
    lemma_backup_name_is_backup,
    strip_backup,
    without_backup_suffix,
};

verus! {

/// Some file of `names` that is no backup has `from` as its backup.
pub open spec fn has_source_file(names: Set<Seq<char>>, from: Seq<char>) -> bool {
    exists|m: Seq<char>| #[trigger] names.contains(m) && !is_backup(m) && backup_name(m) == from
}

/// In a directory holding `names`, the backup `from` is copied onto `to`:
/// `to` is no backup and `from` is its backup; and `to` is in the directory,
/// or, where no file of the directory has `from` as its backup, `to` is
/// `from` without its suffix.
pub open spec fn restores(names: Set<Seq<char>>, from: Seq<char>, to: Seq<char>) -> bool {
    &&& names.contains(from)
    &&& is_backup(from)
    &&& !is_backup(to)
    &&& backup_name(to) == from
    &&& (names.contains(to) || (to == strip_backup(from) && to.len() > 0 && !has_source_file(
        names,
        from,
    )))
}

/// `to` gets restored from its backup.
pub open spec fn restored(names: Set<Seq<char>>, to: Seq<char>) -> bool {
    restores(names, backup_name(to), to)
}

/// The files after a revert: every restored file holds its backup's bytes.
pub open spec fn revert_files(files: Files) -> Files {
    Map::new(
        |k: Seq<char>| files.contains_key(k) || restored(files.dom(), k),
        |k: Seq<char>|
            if restored(files.dom(), k) {
                files[backup_name(k)]
            } else {
                files[k]
            },
    )
}

/// Whether some entry of `names` is no backup and has `from` as its backup.
fn any_source_file(names: &Vec<String>, from: &String) -> (r: bool)
    ensures
        r == has_source_file(names.deep_view().to_set(), from@),
{
    let ghost view = names.deep_view();
    let mut i: usize = 0;
    while i < names.len()
        invariant
            view == names.deep_view(),
            i <= names.len(),
            forall|j: int| 0 <= j < i ==> is_backup(#[trigger] view[j]) || backup_name(view[j]) != from@,
        decreases names.len() - i,
    {
        if !has_backup_suffix(names[i].as_str()) {
            let b = backup_path(names[i].as_str());
            if b == *from {
                assert(view.to_set().contains(view[i as int]));
                return true;
            }
        }
        i = i + 1;
    }
    assert forall|m: Seq<char>| #[trigger] view.to_set().contains(m) && !is_backup(m) implies backup_name(m) != from@ by {
        let j = choose|j: int| 0 <= j < view.len() && view[j] == m;
    }
    false
}

/// The copies that restore the directory entries `names`: pairs of a backup
/// and the file it is copied onto.
pub fn plan_revert(names: &Vec<String>) -> (r: Vec<(String, String)>)
    ensures
        exact_plan(names.deep_view().to_set(), r.deep_view()),
{
    let ghost view = names.deep_view();
    let ghost set = view.to_set();
    let mut r: Vec<(String, String)> = Vec::new();
    let mut i: usize = 0;
    while i < names.len()
        invariant
            view == names.deep_view(),
            set == view.to_set(),
            i <= names.len(),
            forall|k: int| 0 <= k < r.len() ==> restores(set, #[trigger] r@[k].0@, r@[k].1@),
            forall|j: int| 0 <= j < i ==> (!is_backup(#[trigger] view[j]) && set.contains(backup_name(view[j])))
                ==> exists|k: int| 0 <= k < r.len() && r@[k].0@ == backup_name(view[j]) && #[trigger] r@[k].1@ == view[j],
        decreases names.len() - i,
    {
        let ghost r0 = r@;
        let ghost name = view[i as int];
        assert(set.contains(name));
        proof {
            lemma_backup_name_is_backup(name);
        }
        if !has_backup_suffix(names[i].as_str()) {
            let b = backup_path(names[i].as_str());
            if any_listed(names, &b) {
                r.push((b, names[i].clone()));
                assert(restores(set, r@[r.len() - 1].0@, r@[r.len() - 1].1@));
            }
        }
        assert(forall|k: int| 0 <= k < r0.len() ==> r@[k] == r0[k]);
        i = i + 1;
    }
    let mut i: usize = 0;
    while i < names.len()
        invariant
            view == names.deep_view(),
            set == view.to_set(),
            i <= names.len(),
            forall|k: int| 0 <= k < r.len() ==> restores(set, #[trigger] r@[k].0@, r@[k].1@),
            forall|j: int| 0 <= j < view.len() ==> (!is_backup(#[trigger] view[j]) && set.contains(backup_name(view[j])))
                ==> exists|k: int| 0 <= k < r.len() && r@[k].0@ == backup_name(view[j]) && #[trigger] r@[k].1@ == view[j],
            forall|j: int| 0 <= j < i ==> (restores(set, #[trigger] view[j], strip_backup(view[j]))
                && !set.contains(strip_backup(view[j]))) ==> exists|k: int| 0 <= k < r.len() && r@[k].0@ == view[j] && #[trigger] r@[k].1@ == strip_backup(view[j]),
        decreases names.len() - i,
    {
        let ghost r0 = r@;
        assert(set.contains(view[i as int]));
        if has_backup_suffix(names[i].as_str()) {
            let t = without_backup_suffix(names[i].as_str());
            if t.as_str().unicode_len() > 0 && !has_backup_suffix(t.as_str()) && !any_source_file(names, &names[i]) {
                let b = backup_path(t.as_str());
                if b == names[i] {
                    r.push((names[i].clone(), t));
                    assert(restores(set, r@[r.len() - 1].0@, r@[r.len() - 1].1@));
                }
            }
        }
        assert(forall|k: int| 0 <= k < r0.len() ==> r@[k] == r0[k]);
        i = i + 1;
    }
    assert forall|from: Seq<char>, to: Seq<char>| #[trigger] restores(set, from, to) implies
        exists|k: int| 0 <= k < r.len() && r@[k].0@ == from && #[trigger] r@[k].1@ == to by {
        if set.contains(to) {
            let j = choose|j: int| 0 <= j < view.len() && view[j] == to;
        } else {
            let j = choose|j: int| 0 <= j < view.len() && view[j] == from;
        }
    }
    let ghost pairs = r.deep_view();
    assert forall|i: int| 0 <= i < pairs.len() implies restores(set, #[trigger] pairs[i].0, pairs[i].1) by {
        assert(pairs[i] == (r@[i].0@, r@[i].1@));
    }
    assert forall|from: Seq<char>, to: Seq<char>| #[trigger] restores(set, from, to) implies
        exists|i: int| 0 <= i < pairs.len() && pairs[i].0 == from && #[trigger] pairs[i].1 == to by {
        let k = choose|k: int| 0 <= k < r.len() && r@[k].0@ == from && #[trigger] r@[k].1@ == to;
        assert(pairs[k] == (r@[k].0@, r@[k].1@));
        assert(pairs[k].0 == from && pairs[k].1 == to);
    }
    r
}

/// Whether `name` is one of `names`.
fn any_listed(names: &Vec<String>, name: &String) -> (r: bool)
    ensures
        r == names.deep_view().to_set().contains(name@),
{
    let ghost view = names.deep_view();
    let mut i: usize = 0;
    while i < names.len()
        invariant
            view == names.deep_view(),
            i <= names.len(),
            forall|j: int| 0 <= j < i ==> #[trigger] view[j] != name@,
        decreases names.len() - i,
    {
        if names[i] == *name {
            assert(view.to_set().contains(view[i as int]));
            return true;
        }
        i = i + 1;
    }
    false
}

/// `pairs` are exactly the copies that restore a directory holding `names`.
pub open spec fn exact_plan(names: Set<Seq<char>>, pairs: Seq<(Seq<char>, Seq<char>)>) -> bool {
    &&& forall|i: int| 0 <= i < pairs.len() ==> restores(names, #[trigger] pairs[i].0, pairs[i].1)
    &&& forall|from: Seq<char>, to: Seq<char>| #[trigger] restores(names, from, to) ==>
        exists|i: int| 0 <= i < pairs.len() && pairs[i].0 == from && #[trigger] pairs[i].1 == to
}

/// The files after copying each pair's backup onto its file, in order.
pub open spec fn copy_all(files: Files, pairs: Seq<(Seq<char>, Seq<char>)>) -> Files
    decreases pairs.len(),
{
    if pairs.len() == 0 {
        files
    } else {
        let before = copy_all(files, pairs.drop_last());
        before.insert(pairs.last().1, before[pairs.last().0])
    }
}

/// Some pair of `pairs` copies onto `to`.
pub open spec fn copies_onto(pairs: Seq<(Seq<char>, Seq<char>)>, to: Seq<char>) -> bool {
    exists|i: int| 0 <= i < pairs.len() && #[trigger] pairs[i].1 == to
}

/// Copying pairs that each restore a file of `files` gives every file they
/// copy onto its backup's bytes, and leaves the other files alone.
proof fn lemma_copy_all(files: Files, pairs: Seq<(Seq<char>, Seq<char>)>)
    requires
        forall|i: int| 0 <= i < pairs.len() ==> restores(files.dom(), #[trigger] pairs[i].0, pairs[i].1),
    ensures
        forall|k: Seq<char>| #[trigger] copy_all(files, pairs).contains_key(k) <==> files.contains_key(k)
            || copies_onto(pairs, k),
        forall|k: Seq<char>| #[trigger] copy_all(files, pairs)[k] == if copies_onto(pairs, k) {
            files[backup_name(k)]
        } else {
            files[k]
        },
    decreases pairs.len(),
{
    if pairs.len() > 0 {
        let rest = pairs.drop_last();
        assert forall|i: int| 0 <= i < rest.len() implies restores(files.dom(), #[trigger] rest[i].0, rest[i].1) by {
            assert(rest[i] == pairs[i]);
        }
        lemma_copy_all(files, rest);
        let (from, to) = pairs.last();
        assert(pairs[pairs.len() - 1] == (from, to));
        assert(is_backup(from) && backup_name(to) == from);
        assert(!copies_onto(rest, from)) by {
            if copies_onto(rest, from) {
                let i = choose|i: int| 0 <= i < rest.len() && #[trigger] rest[i].1 == from;
                assert(restores(files.dom(), rest[i].0, rest[i].1));
            }
        }
        assert forall|k: Seq<char>| copies_onto(pairs, k) <==> #[trigger] copies_onto(rest, k) || k == to by {
            if copies_onto(pairs, k) {
                let i = choose|i: int| 0 <= i < pairs.len() && #[trigger] pairs[i].1 == k;
                if i < rest.len() {
                    assert(rest[i] == pairs[i]);
                }
            }
            if copies_onto(rest, k) {
                let i = choose|i: int| 0 <= i < rest.len() && #[trigger] rest[i].1 == k;
                assert(rest[i] == pairs[i]);
            }
        }
        let before = copy_all(files, rest);
        assert(copy_all(files, pairs) == before.insert(to, before[from]));
        assert(before[from] == files[from]);
        assert forall|k: Seq<char>| #[trigger] copy_all(files, pairs).contains_key(k) <==> files.contains_key(k)
            || copies_onto(pairs, k) by {
            assert(before.contains_key(k) <==> files.contains_key(k) || copies_onto(rest, k));
        }
    }
}

/// Performing the copies of a revert plan, in any order, gives the files
/// after a revert.
pub proof fn lemma_plan_performs_revert(files: Files, pairs: Seq<(Seq<char>, Seq<char>)>)
    requires
        exact_plan(files.dom(), pairs),
    ensures
        copy_all(files, pairs) == revert_files(files),
{
    lemma_copy_all(files, pairs);
    assert forall|k: Seq<char>| copies_onto(pairs, k) <==> #[trigger] restored(files.dom(), k) by {
        if copies_onto(pairs, k) {
            let i = choose|i: int| 0 <= i < pairs.len() && #[trigger] pairs[i].1 == k;
            assert(restores(files.dom(), pairs[i].0, pairs[i].1));
        }
        if restored(files.dom(), k) {
            assert(restores(files.dom(), backup_name(k), k));
        }
    }
    assert(copy_all(files, pairs) =~= revert_files(files));
}

/// Reverting twice leaves the files as reverting once does.
pub proof fn lemma_revert_idempotent(files: Files)
    ensures
        revert_files(revert_files(files)) == revert_files(files),
{
    let once = revert_files(files);
    let d = files.dom();
    let d1 = once.dom();
    assert forall|k: Seq<char>| restored(d1, k) <==> #[trigger] restored(d, k) by {
        lemma_backup_name_is_backup(k);
        if restored(d1, k) {
            let b = backup_name(k);
            if !d.contains(b) {
                assert(restored(d, b));
            }
            if !d1.contains(k) {
                assert forall|m: Seq<char>| #[trigger] d.contains(m) && !is_backup(m) implies backup_name(m) != b by {
                    assert(d1.contains(m));
                }
            }
        }
    }
    assert forall|k: Seq<char>| #[trigger] restored(d, k) implies once[backup_name(k)] == files[backup_name(k)] by {
        lemma_backup_name_is_backup(k);
        lemma_backup_name_is_backup(backup_name(k));
    }
    assert(revert_files(once) =~= once);
}

/// Running a revert twice, each time performing the plan made for the
/// directory as it then is, leaves the files as running it once does.
pub proof fn lemma_revert_twice(
    files: Files,
    first: Seq<(Seq<char>, Seq<char>)>,
    second: Seq<(Seq<char>, Seq<char>)>,
)
    requires
        exact_plan(files.dom(), first),
        exact_plan(copy_all(files, first).dom(), second),
    ensures
        copy_all(copy_all(files, first), second) == copy_all(files, first),
{
    lemma_plan_performs_revert(files, first);
    lemma_plan_performs_revert(copy_all(files, first), second);
    lemma_revert_idempotent(files);
}

} // verus!
