//! Choosing a default target when none was given.

use vstd::prelude::*;

verus! {

/// The last component of `cwd` names a build-output directory.
pub open spec fn in_build_dir(cwd: Seq<Seq<char>>) -> bool {
    cwd.len() > 0 && (cwd.last() == "debug"@ || cwd.last() == "release"@)
}

/// The default target for a working directory given as its components, the
/// first being the root: `src/main.rs` under the directory itself, or under
/// its third ancestor where it is a build-output directory; `None` where that
/// ancestor does not exist.
pub open spec fn inferred_target(cwd: Seq<Seq<char>>) -> Option<Seq<Seq<char>>> {
    if in_build_dir(cwd) {
        if cwd.len() >= 4 {
            Some(cwd.subrange(0, cwd.len() - 3) + seq!["src"@, "main.rs"@])
        } else {
            None
        }
    } else {
        Some(cwd + seq!["src"@, "main.rs"@])
    }
}

/// The default target for the working directory `cwd`, given as its
/// components with the root first.
pub fn infer_target(cwd: &Vec<String>) -> (r: Option<Vec<String>>)
    ensures
        match r {
            Some(p) => inferred_target(cwd.deep_view()) == Some(p.deep_view()),
            None => inferred_target(cwd.deep_view()) is None,
        },
{
    let ghost view = cwd.deep_view();
    let n = cwd.len();
    let mut keep = n;
    if n > 0 {
        let last = cwd[n - 1].as_str();
        if crate::text::same_chars(last, "debug") || crate::text::same_chars(last, "release") {
            if n < 4 {
                return None;
            }
            keep = n - 3;
        }
    }
    let mut r: Vec<String> = Vec::new();
    let mut i: usize = 0;
    while i < keep
        invariant
            view == cwd.deep_view(),
            keep <= n,
            n == cwd.len(),
            i <= keep,
            r@.len() == i,
            forall|k: int| 0 <= k < i ==> #[trigger] r@[k]@ == view[k],
        decreases keep - i,
    {
        r.push(cwd[i].clone());
        i = i + 1;
    }
    assert(r.deep_view() =~= view.subrange(0, keep as int));
    let ghost kept = r.deep_view();
    r.push("src".to_owned());
    r.push("main.rs".to_owned());
    assert(r.deep_view() =~= kept + seq!["src"@, "main.rs"@]);
    assert(r.deep_view() =~= view.subrange(0, keep as int) + seq!["src"@, "main.rs"@]);
    assert(view.subrange(0, n as int) =~= view);
    Some(r)
}

} // verus!
