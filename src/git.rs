use vstd::prelude::*;

use crate::error::Error;
use crate::text::{chars_of, trim, trim_chars};

use vstd::string::StringExecFns;

verus! {

/// Whether `git rev-parse --is-inside-work-tree` reported a work tree: it
/// succeeded and printed `true` (up to surrounding whitespace).
pub fn is_work_tree_output(success: bool, stdout: &str) -> (r: bool)
    ensures
        r == (success && trim(stdout@) == "true"@),
{
    proof {
        reveal_strlit("true");
    }
    if !success {
        return false;
    }
    let t = trim_chars(&chars_of(stdout));
    let want = chars_of("true");
    if t.len() != want.len() {
        return false;
    }
    let mut i: usize = 0;
    while i < t.len()
        invariant
            success,
            t@ == trim(stdout@),
            want@ == "true"@,
            t@.len() == want@.len(),
            i <= t@.len(),
            forall|j: int| 0 <= j < i ==> t@[j] == want@[j],
        decreases t@.len() - i,
    {
        if t[i] != want[i] {
            assert(t@[i as int] != want@[i as int]);
            assert(t@ != want@);
            return false;
        }
        i = i + 1;
    }
    assert(t@ =~= want@);
    true
}

/// The staged diff from the outcome of `git diff --staged`: a failure is a
/// version-control error carrying stderr; output that is blank means there is
/// nothing staged.
pub fn staged_diff_from_output(success: bool, stdout: String, stderr: &str) -> (r: Result<
    String,
    Error,
>)
    ensures
        !success ==> (r matches Err(Error::Git(m)) && m@ == "Failed to get staged diff: "@
            + stderr@),
        success && trim(stdout@).len() == 0 ==> r matches Err(Error::NoStagedChanges),
        success && trim(stdout@).len() > 0 ==> (r matches Ok(d) && d@ == stdout@),
{
    if !success {
        return Err(Error::Git(String::from_str("Failed to get staged diff: ").concat(stderr)));
    }
    if trim_chars(&chars_of(stdout.as_str())).len() == 0 {
        Err(Error::NoStagedChanges)
    } else {
        Ok(stdout)
    }
}

} // verus!
