use vstd::prelude::*;

use crate::config::SmartCommitConfig;
use crate::diff_hasher::{join_lines, line_scan, lines};
use crate::text::{chars_of, string_of};

verus! {

/// The decimal digit for `v < 10`.
pub open spec fn decimal_digit(v: nat) -> char {
    seq!['0', '1', '2', '3', '4', '5', '6', '7', '8', '9'][v as int]
}

/// The decimal rendering of `n`, without leading zeros.
pub open spec fn decimal(n: nat) -> Seq<char>
    decreases n,
{
    if n < 10 {
        seq![decimal_digit(n)]
    } else {
        decimal(n / 10).push(decimal_digit(n % 10))
    }
}

/// The line appended to a truncated diff.
pub open spec fn truncation_marker(threshold: nat) -> Seq<char> {
    "... [Diff truncated to "@ + decimal(threshold) + " lines] ..."@
}

/// The text analyzed for a diff: the diff itself when it has at most
/// `threshold` lines, else its first `threshold` lines joined by `'\n'`,
/// followed by a line with the truncation marker.
pub open spec fn bounded_diff(d: Seq<char>, threshold: nat) -> Seq<char> {
    if lines(d).len() > threshold {
        join_lines(lines(d).take(threshold as int)) + seq!['\n'] + truncation_marker(threshold)
    } else {
        d
    }
}

fn push_decimal(out: &mut Vec<char>, n: u32)
    ensures
        final(out)@ == old(out)@ + decimal(n as nat),
    decreases n,
{
    if n >= 10 {
        push_decimal(out, n / 10);
    }
    let digits = ['0', '1', '2', '3', '4', '5', '6', '7', '8', '9'];
    assert(digits@ =~= seq!['0', '1', '2', '3', '4', '5', '6', '7', '8', '9']);
    out.push(digits[(n % 10) as usize]);
    proof {
        if n >= 10 {
            assert(old(out)@ + decimal(n as nat) =~= old(out)@ + decimal((n / 10) as nat) + seq![
                decimal_digit((n % 10) as nat),
            ]);
        } else {
            assert(old(out)@ + decimal(n as nat) =~= old(out)@ + seq![decimal_digit(n as nat)]);
        }
    }
}

/// The lines of a sequence of characters, as `str::lines` yields them.
pub fn split_lines(cs: &Vec<char>) -> (r: Vec<Vec<char>>)
    ensures
        r@.len() == lines(cs@).len(),
        forall|i: int| 0 <= i < r@.len() ==> (#[trigger] r@[i])@ == lines(cs@)[i],
{
    let mut out: Vec<Vec<char>> = Vec::new();
    let mut cur: Vec<char> = Vec::new();
    let n = cs.len();
    let mut i: usize = 0;
    assert(cs@.take(0) =~= seq![]);
    while i < n
        invariant
            n == cs@.len(),
            i <= n,
            cur@ == line_scan(cs@.take(i as int)).1,
            out@.len() == line_scan(cs@.take(i as int)).0.len(),
            forall|j: int|
                0 <= j < out@.len() ==> (#[trigger] out@[j])@ == line_scan(cs@.take(i as int)).0[j],
        decreases n - i,
    {
        let c = cs[i];
        assert(cs@.take(i + 1).drop_last() =~= cs@.take(i as int));
        if c == '\n' {
            let len = cur.len();
            if len > 0 && cur[len - 1] == '\r' {
                cur.pop();
            }
            let ghost prev = out@;
            out.push(cur);
            assert forall|j: int| 0 <= j < out@.len() implies (#[trigger] out@[j])@
                == line_scan(cs@.take(i + 1)).0[j] by {
                if j < prev.len() {
                    assert(out@[j] == prev[j]);
                }
            }
            cur = Vec::new();
            assert(cur@ =~= seq![]);
        } else {
            cur.push(c);
        }
        i = i + 1;
    }
    assert(cs@.take(n as int) =~= cs@);
    if cur.len() > 0 {
        let ghost prev = out@;
        out.push(cur);
        assert forall|j: int| 0 <= j < out@.len() implies (#[trigger] out@[j])@ == lines(cs@)[j] by {
            if j < prev.len() {
                assert(out@[j] == prev[j]);
            }
        }
    }
    out
}

/// Bounds the size of a diff: beyond `line_threshold` lines it keeps the first
/// `line_threshold` lines and appends a line that says so.
pub fn analyze_diff(diff: &str, smart_commit_config: &SmartCommitConfig) -> (r: String)
    ensures
        r@ == bounded_diff(diff@, smart_commit_config.line_threshold as nat),
{
    let cs = chars_of(diff);
    let ls = split_lines(&cs);
    let threshold = smart_commit_config.line_threshold;
    let t = threshold as usize;
    if ls.len() > t {
        let ghost all = lines(diff@);
        let mut out: Vec<char> = Vec::new();
        let mut k: usize = 0;
        assert(all.take(0) =~= Seq::<Seq<char>>::empty());
        while k < t
            invariant
                t < ls@.len() == all.len(),
                all == lines(diff@),
                forall|i: int| 0 <= i < ls@.len() ==> (#[trigger] ls@[i])@ == all[i],
                k <= t,
                out@ == join_lines(all.take(k as int)),
            decreases t - k,
        {
            let ghost before = all.take(k as int);
            assert(all.take(k + 1) =~= before.push(all[k as int]));
            assert(before.push(all[k as int]).drop_last() =~= before);
            if k > 0 {
                out.push('\n');
            }
            let mut line = crate::text::copy_range(&ls[k], 0, ls[k].len());
            assert(ls@[k as int]@.subrange(0, ls@[k as int]@.len() as int) =~= ls@[k as int]@);
            out.append(&mut line);
            proof {
                if k == 0 {
                    assert(before.push(all[0]).len() == 1);
                    assert(out@ =~= all[0]);
                }
            }
            k = k + 1;
        }
        proof {
            reveal_strlit("\n... [Diff truncated to ");
            reveal_strlit(" lines] ...");
            reveal_strlit("... [Diff truncated to ");
        }
        let ghost joined = out@;
        let mut head = chars_of("\n... [Diff truncated to ");
        out.append(&mut head);
        push_decimal(&mut out, threshold);
        let mut tail = chars_of(" lines] ...");
        out.append(&mut tail);
        assert(out@ =~= joined + seq!['\n'] + truncation_marker(threshold as nat));
        string_of(out)
    } else {
        string_of(cs)
    }
}

} // verus!
