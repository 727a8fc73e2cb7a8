use vstd::prelude::*;

use crate::repository::{CommitMessage, CommitMessageView};
use crate::text::{chars_of, replace, replace_chars, string_of, trim, trim_chars};

verus! {

/// A template with its placeholders filled in from `c`. A non-empty scope goes
/// in for `{scope}`; otherwise `({scope})` and `{scope}` are removed, the result
/// is trimmed and each double space becomes a single one.
pub open spec fn formatted(c: CommitMessageView, template: Seq<char>) -> Seq<char> {
    let base = replace(replace(template, "{type}"@, c.commit_type), "{message}"@, c.message);
    if c.scope is Some && c.scope->0.len() > 0 {
        replace(base, "{scope}"@, c.scope->0)
    } else {
        replace(
            trim(replace(replace(base, "({scope})"@, seq![]), "{scope}"@, seq![])),
            "  "@,
            " "@,
        )
    }
}

/// Fills in the `{type}`, `{scope}` and `{message}` placeholders of a template.
pub fn format_commit_message(commit: &CommitMessage, format_template: &str) -> (r: String)
    ensures
        r@ == formatted(commit@, format_template@),
{
    proof {
        reveal_strlit("{type}");
        reveal_strlit("{message}");
        reveal_strlit("{scope}");
        reveal_strlit("({scope})");
        reveal_strlit("  ");
    }
    let template = chars_of(format_template);
    let ty = chars_of(commit.commit_type.as_str());
    let msg = chars_of(commit.message.as_str());
    let with_type = replace_chars(&template, &chars_of("{type}"), &ty);
    let base = replace_chars(&with_type, &chars_of("{message}"), &msg);
    let out = match &commit.scope {
        Some(scope) if scope.as_str().unicode_len() > 0 => {
            replace_chars(&base, &chars_of("{scope}"), &chars_of(scope.as_str()))
        },
        _ => {
            let empty: Vec<char> = Vec::new();
            let a = replace_chars(&base, &chars_of("({scope})"), &empty);
            let b = replace_chars(&a, &chars_of("{scope}"), &empty);
            let c = trim_chars(&b);
            replace_chars(&c, &chars_of("  "), &chars_of(" "))
        },
    };
    string_of(out)
}

} // verus!
