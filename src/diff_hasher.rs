use sha2::Digest;
use vstd::prelude::*;
use vstd::utf8::{decode_utf8, encode_utf8, encode_utf8_decode_utf8};

use crate::text::{chars_of, is_whitespace, is_ws, string_of};

verus! {

/// A line is blank when it is empty after trimming whitespace.
pub open spec fn is_blank(line: Seq<char>) -> bool {
    forall|i: int| 0 <= i < line.len() ==> is_ws(#[trigger] line[i])
}

/// Drops one trailing carriage return.
pub open spec fn strip_cr(line: Seq<char>) -> Seq<char> {
    if line.len() > 0 && line.last() == '\r' {
        line.drop_last()
    } else {
        line
    }
}

/// Scans `s` for line breaks: the lines ended by a `'\n'` so far (each without
/// its `"\n"` or `"\r\n"`), and the text after the last `'\n'`.
pub open spec fn line_scan(s: Seq<char>) -> (Seq<Seq<char>>, Seq<char>)
    decreases s.len(),
{
    if s.len() == 0 {
        (seq![], seq![])
    } else {
        let (done, cur) = line_scan(s.drop_last());
        if s.last() == '\n' {
            (done.push(strip_cr(cur)), seq![])
        } else {
            (done, cur.push(s.last()))
        }
    }
}

/// The lines of `s` as `str::lines` yields them: a final line break is optional.
pub open spec fn lines(s: Seq<char>) -> Seq<Seq<char>> {
    let (done, cur) = line_scan(s);
    if cur.len() == 0 {
        done
    } else {
        done.push(cur)
    }
}

/// The lines of `ls` that are not blank, in their order.
pub open spec fn keep_nonblank(ls: Seq<Seq<char>>) -> Seq<Seq<char>>
    decreases ls.len(),
{
    if ls.len() == 0 {
        ls
    } else {
        let rest = keep_nonblank(ls.drop_last());
        if is_blank(ls.last()) {
            rest
        } else {
            rest.push(ls.last())
        }
    }
}

/// The lines of `ls` joined by single `'\n'` separators.
pub open spec fn join_lines(ls: Seq<Seq<char>>) -> Seq<char>
    decreases ls.len(),
{
    if ls.len() == 0 {
        seq![]
    } else if ls.len() == 1 {
        ls[0]
    } else {
        join_lines(ls.drop_last()) + seq!['\n'] + ls.last()
    }
}

/// The canonical form of a diff: its non-blank lines, in order, joined by `'\n'`.
pub open spec fn normalize(d: Seq<char>) -> Seq<char> {
    join_lines(keep_nonblank(lines(d)))
}

proof fn lemma_scan_step(s: Seq<char>, i: int)
    requires
        0 <= i < s.len(),
    ensures
        line_scan(s.take(i + 1)) == (if s[i] == '\n' {
            (line_scan(s.take(i)).0.push(strip_cr(line_scan(s.take(i)).1)), seq![])
        } else {
            (line_scan(s.take(i)).0, line_scan(s.take(i)).1.push(s[i]))
        }),
{
    assert(s.take(i + 1).drop_last() =~= s.take(i));
}

proof fn lemma_keep_push(ls: Seq<Seq<char>>, l: Seq<char>)
    ensures
        keep_nonblank(ls.push(l)) == (if is_blank(l) {
            keep_nonblank(ls)
        } else {
            keep_nonblank(ls).push(l)
        }),
{
    assert(ls.push(l).drop_last() =~= ls);
}

proof fn lemma_join_push(ls: Seq<Seq<char>>, l: Seq<char>)
    ensures
        join_lines(ls.push(l)) == (if ls.len() == 0 {
            l
        } else {
            join_lines(ls) + seq!['\n'] + l
        }),
{
    assert(ls.push(l).drop_last() =~= ls);
}

proof fn lemma_strip_cr_blank(line: Seq<char>)
    ensures
        is_blank(strip_cr(line)) == is_blank(line),
{
    if line.len() > 0 && line.last() == '\r' {
        assert(is_ws(line[line.len() - 1]));
        if is_blank(strip_cr(line)) {
            assert forall|i: int| 0 <= i < line.len() implies is_ws(#[trigger] line[i]) by {
                if i < line.len() - 1 {
                    assert(line[i] == strip_cr(line)[i]);
                }
            }
        }
        if is_blank(line) {
            assert forall|i: int| 0 <= i < strip_cr(line).len() implies is_ws(
                #[trigger] strip_cr(line)[i],
            ) by {
                assert(line[i] == strip_cr(line)[i]);
            }
        }
    }
}

/// Appends `line` to `out` as the next line of a `'\n'`-joined text.
fn push_line(out: &mut Vec<char>, any: bool, line: &mut Vec<char>)
    ensures
        final(out)@ == (if any {
            old(out)@ + seq!['\n'] + old(line)@
        } else {
            old(out)@ + old(line)@
        }),
{
    if any {
        out.push('\n');
    }
    out.append(line);
}

/// `normalize` on a sequence of characters.
pub fn normalize_chars(cs: &Vec<char>) -> (r: Vec<char>)
    ensures
        r@ == normalize(cs@),
{
    let mut out: Vec<char> = Vec::new();
    let mut cur: Vec<char> = Vec::new();
    let mut cur_blank = true;
    let mut any = false;
    let n = cs.len();
    let mut i: usize = 0;
    assert(cs@.take(0) =~= seq![]);
    while i < n
        invariant
            n == cs@.len(),
            i <= n,
            cur@ == line_scan(cs@.take(i as int)).1,
            cur_blank == is_blank(cur@),
            out@ == join_lines(keep_nonblank(line_scan(cs@.take(i as int)).0)),
            any == (keep_nonblank(line_scan(cs@.take(i as int)).0).len() > 0),
        decreases n - i,
    {
        let c = cs[i];
        proof {
            lemma_scan_step(cs@, i as int);
        }
        let ghost done = line_scan(cs@.take(i as int)).0;
        if c == '\n' {
            let ghost old_cur = cur@;
            let len = cur.len();
            if len > 0 && cur[len - 1] == '\r' {
                cur.pop();
            }
            assert(cur@ == strip_cr(old_cur));
            proof {
                lemma_strip_cr_blank(old_cur);
                lemma_keep_push(done, cur@);
                lemma_join_push(keep_nonblank(done), cur@);
            }
            if !cur_blank {
                push_line(&mut out, any, &mut cur);
                any = true;
            }
            cur = Vec::new();
            cur_blank = true;
        } else {
            let ghost old_cur = cur@;
            let w = is_whitespace(c);
            cur.push(c);
            proof {
                if cur_blank && w {
                    assert forall|k: int| 0 <= k < cur@.len() implies is_ws(#[trigger] cur@[k]) by {
                        if k < old_cur.len() {
                            assert(cur@[k] == old_cur[k]);
                        }
                    }
                }
                if !w {
                    assert(!is_ws(cur@[cur@.len() - 1]));
                }
                if !cur_blank {
                    let k = choose|k: int| 0 <= k < old_cur.len() && !is_ws(#[trigger] old_cur[k]);
                    assert(cur@[k] == old_cur[k]);
                }
            }
            cur_blank = cur_blank && w;
        }
        i = i + 1;
    }
    assert(cs@.take(n as int) =~= cs@);
    let ghost done = line_scan(cs@).0;
    if cur.len() > 0 {
        proof {
            lemma_keep_push(done, cur@);
            lemma_join_push(keep_nonblank(done), cur@);
        }
        if !cur_blank {
            push_line(&mut out, any, &mut cur);
        }
    }
    out
}

/// Canonical form of a diff for hashing: blank lines (empty after trimming
/// whitespace) are dropped and the rest are joined by single `'\n'`s, in order.
pub fn normalize_diff(diff: &str) -> (r: String)
    ensures
        r@ == normalize(diff@),
{
    let cs = chars_of(diff);
    string_of(normalize_chars(&cs))
}

/// The SHA-256 digest of a byte string.
pub uninterp spec fn sha256_of(data: Seq<u8>) -> Seq<u8>;

/// Relies on `sha2::Sha256` through `digest::Digest::digest`: the SHA-256 digest
/// of `data`, whose output size is 32 bytes.
#[verifier::external_body]
fn sha256(data: &[u8]) -> (r: Vec<u8>)
    ensures
        r@ == sha256_of(data@),
        r@.len() == 32,
{
    sha2::Sha256::digest(data).to_vec()
}

/// The lowercase hexadecimal digit for `v < 16`.
pub open spec fn hex_digit(v: int) -> char {
    seq!['0', '1', '2', '3', '4', '5', '6', '7', '8', '9', 'a', 'b', 'c', 'd', 'e', 'f'][v]
}

/// Lowercase hexadecimal rendering: two digits per byte, high nibble first.
pub open spec fn hex_lower(bytes: Seq<u8>) -> Seq<char> {
    Seq::new(
        2 * bytes.len(),
        |i: int|
            if i % 2 == 0 {
                hex_digit(bytes[i / 2] as int / 16)
            } else {
                hex_digit(bytes[i / 2] as int % 16)
            },
    )
}

/// The fingerprint of a diff: lowercase hex SHA-256 of its normalized UTF-8 text.
pub open spec fn fingerprint(d: Seq<char>) -> Seq<char> {
    hex_lower(sha256_of(encode_utf8(normalize(d))))
}

fn hex_char(v: u8) -> (c: char)
    requires
        v < 16,
    ensures
        c == hex_digit(v as int),
{
    let digits = ['0', '1', '2', '3', '4', '5', '6', '7', '8', '9', 'a', 'b', 'c', 'd', 'e', 'f'];
    assert(digits@ =~= seq!['0', '1', '2', '3', '4', '5', '6', '7', '8', '9', 'a', 'b', 'c', 'd', 'e', 'f']);
    digits[v as usize]
}

/// Renders bytes as lowercase hexadecimal, two digits per byte.
pub fn hex_encode(bytes: &[u8]) -> (r: String)
    requires
        bytes@.len() < usize::MAX / 2,
    ensures
        r@ == hex_lower(bytes@),
{
    let mut out: Vec<char> = Vec::new();
    let n = bytes.len();
    let mut i: usize = 0;
    while i < n
        invariant
            n == bytes@.len(),
            n < usize::MAX / 2,
            i <= n,
            out@ =~= hex_lower(bytes@.take(i as int)),
        decreases n - i,
    {
        let b = bytes[i];
        let ghost prev = out@;
        out.push(hex_char(b / 16));
        out.push(hex_char(b % 16));
        proof {
            let t = bytes@.take(i as int + 1);
            assert forall|k: int| 0 <= k < 2 * (i + 1) implies #[trigger] out@[k] == hex_lower(t)[k] by {
                if k < 2 * i {
                    assert(t[k / 2] == bytes@.take(i as int)[k / 2]);
                    assert(out@[k] == prev[k]);
                }
            }
        }
        i = i + 1;
    }
    assert(bytes@.take(n as int) =~= bytes@);
    string_of(out)
}

/// The cache key of a diff: the lowercase hex SHA-256 digest of its normalized text.
pub fn generate_diff_hash(diff: &str) -> (r: String)
    ensures
        r@ == fingerprint(diff@),
        r@.len() == 64,
{
    let normalized = normalize_diff(diff);
    let digest = sha256(normalized.as_str().as_bytes());
    hex_encode(digest.as_slice())
}

/// No `'\n'` in `l`.
pub open spec fn no_newline(l: Seq<char>) -> bool {
    forall|i: int| 0 <= i < l.len() ==> #[trigger] l[i] != '\n'
}

/// Every non-blank line of `d` except the last one kept is free of a trailing `'\r'`.
pub open spec fn no_inner_cr_end(d: Seq<char>) -> bool {
    let k = keep_nonblank(lines(d));
    forall|i: int| 0 <= i < k.len() - 1 ==> #[trigger] strip_cr(k[i]) == k[i]
}

proof fn lemma_scan_append_text(p: Seq<char>, q: Seq<char>)
    requires
        no_newline(q),
    ensures
        line_scan(p + q) == (line_scan(p).0, line_scan(p).1 + q),
    decreases q.len(),
{
    if q.len() == 0 {
        assert(p + q =~= p);
        assert(line_scan(p).1 + q =~= line_scan(p).1);
    } else {
        let q1 = q.drop_last();
        assert(no_newline(q1)) by {
            assert forall|i: int| 0 <= i < q1.len() implies #[trigger] q1[i] != '\n' by {
                assert(q1[i] == q[i]);
            }
        }
        lemma_scan_append_text(p, q1);
        assert((p + q).drop_last() =~= p + q1);
        assert(q[q.len() - 1] != '\n');
        assert((line_scan(p).1 + q1).push(q.last()) =~= line_scan(p).1 + q);
    }
}

proof fn lemma_scan_append_newline(p: Seq<char>)
    ensures
        line_scan(p + seq!['\n']) == (line_scan(p).0.push(strip_cr(line_scan(p).1)), Seq::<char>::empty()),
{
    assert((p + seq!['\n']).drop_last() =~= p);
}

proof fn lemma_scan_concat(p: Seq<char>, r: Seq<char>)
    requires
        line_scan(p).1 == Seq::<char>::empty(),
    ensures
        line_scan(p + r) == (line_scan(p).0 + line_scan(r).0, line_scan(r).1),
    decreases r.len(),
{
    if r.len() == 0 {
        assert(p + r =~= p);
        assert(line_scan(p).0 + line_scan(r).0 =~= line_scan(p).0);
    } else {
        let r1 = r.drop_last();
        lemma_scan_concat(p, r1);
        assert((p + r).drop_last() =~= p + r1);
        let (a, b) = line_scan(r1);
        assert((line_scan(p).0 + a).push(strip_cr(b)) =~= line_scan(p).0 + a.push(strip_cr(b)));
    }
}

proof fn lemma_scan_no_newline(s: Seq<char>)
    ensures
        no_newline(line_scan(s).1),
        forall|i: int|
            0 <= i < line_scan(s).0.len() ==> no_newline(#[trigger] line_scan(s).0[i]),
    decreases s.len(),
{
    if s.len() > 0 {
        lemma_scan_no_newline(s.drop_last());
        let (done, cur) = line_scan(s.drop_last());
        if s.last() == '\n' {
            let l = strip_cr(cur);
            assert(no_newline(l)) by {
                assert forall|i: int| 0 <= i < l.len() implies #[trigger] l[i] != '\n' by {
                    assert(l[i] == cur[i]);
                }
            }
            assert forall|i: int| 0 <= i < done.push(l).len() implies no_newline(
                #[trigger] done.push(l)[i],
            ) by {
                if i < done.len() {
                    assert(done.push(l)[i] == done[i]);
                }
            }
        } else {
            let c2 = cur.push(s.last());
            assert forall|i: int| 0 <= i < c2.len() implies #[trigger] c2[i] != '\n' by {
                if i < cur.len() {
                    assert(c2[i] == cur[i]);
                }
            }
        }
    }
}

proof fn lemma_lines_no_newline(s: Seq<char>)
    ensures
        forall|i: int| 0 <= i < lines(s).len() ==> no_newline(#[trigger] lines(s)[i]),
{
    lemma_scan_no_newline(s);
    let (done, cur) = line_scan(s);
    if cur.len() > 0 {
        assert forall|i: int| 0 <= i < lines(s).len() implies no_newline(#[trigger] lines(s)[i]) by {
            if i < done.len() {
                assert(lines(s)[i] == done[i]);
            }
        }
    }
}

proof fn lemma_keep_props(ls: Seq<Seq<char>>)
    requires
        forall|i: int| 0 <= i < ls.len() ==> no_newline(#[trigger] ls[i]),
    ensures
        forall|i: int|
            0 <= i < keep_nonblank(ls).len() ==> no_newline(#[trigger] keep_nonblank(ls)[i])
                && !is_blank(keep_nonblank(ls)[i]),
    decreases ls.len(),
{
    if ls.len() > 0 {
        let l1 = ls.drop_last();
        assert forall|i: int| 0 <= i < l1.len() implies no_newline(#[trigger] l1[i]) by {
            assert(l1[i] == ls[i]);
        }
        lemma_keep_props(l1);
        assert(no_newline(ls[ls.len() - 1]));
        let k1 = keep_nonblank(l1);
        if !is_blank(ls.last()) {
            assert forall|i: int| 0 <= i < k1.push(ls.last()).len() implies no_newline(
                #[trigger] k1.push(ls.last())[i],
            ) && !is_blank(k1.push(ls.last())[i]) by {
                if i < k1.len() {
                    assert(k1.push(ls.last())[i] == k1[i]);
                }
            }
        }
    }
}

proof fn lemma_keep_all_nonblank(ls: Seq<Seq<char>>)
    requires
        forall|i: int| 0 <= i < ls.len() ==> !is_blank(#[trigger] ls[i]),
    ensures
        keep_nonblank(ls) == ls,
    decreases ls.len(),
{
    if ls.len() > 0 {
        let l1 = ls.drop_last();
        assert forall|i: int| 0 <= i < l1.len() implies !is_blank(#[trigger] l1[i]) by {
            assert(l1[i] == ls[i]);
        }
        lemma_keep_all_nonblank(l1);
        assert(!is_blank(ls[ls.len() - 1]));
        assert(l1.push(ls.last()) =~= ls);
    }
}

proof fn lemma_keep_concat(a: Seq<Seq<char>>, b: Seq<Seq<char>>)
    ensures
        keep_nonblank(a + b) == keep_nonblank(a) + keep_nonblank(b),
    decreases b.len(),
{
    if b.len() == 0 {
        assert(a + b =~= a);
        assert(keep_nonblank(a) + keep_nonblank(b) =~= keep_nonblank(a));
    } else {
        lemma_keep_concat(a, b.drop_last());
        assert((a + b).drop_last() =~= a + b.drop_last());
        assert((a + b).last() == b.last());
        assert((keep_nonblank(a) + keep_nonblank(b.drop_last())).push(b.last()) =~= keep_nonblank(a)
            + keep_nonblank(b.drop_last()).push(b.last()));
    }
}

proof fn lemma_scan_join(ls: Seq<Seq<char>>)
    requires
        ls.len() > 0,
        forall|i: int| 0 <= i < ls.len() ==> no_newline(#[trigger] ls[i]),
        forall|i: int| 0 <= i < ls.len() - 1 ==> #[trigger] strip_cr(ls[i]) == ls[i],
    ensures
        line_scan(join_lines(ls)) == (ls.drop_last(), ls.last()),
    decreases ls.len(),
{
    if ls.len() == 1 {
        lemma_scan_append_text(seq![], ls[0]);
        assert(Seq::<char>::empty() + ls[0] =~= ls[0]);
        assert(ls.drop_last() =~= Seq::<Seq<char>>::empty());
    } else {
        let l1 = ls.drop_last();
        assert forall|i: int| 0 <= i < l1.len() implies no_newline(#[trigger] l1[i]) by {
            assert(l1[i] == ls[i]);
        }
        assert forall|i: int| 0 <= i < l1.len() - 1 implies #[trigger] strip_cr(l1[i]) == l1[i] by {
            assert(l1[i] == ls[i]);
        }
        lemma_scan_join(l1);
        let j = join_lines(l1);
        lemma_scan_append_newline(j);
        assert(strip_cr(ls[ls.len() - 2]) == ls[ls.len() - 2]);
        assert(l1.drop_last().push(l1.last()) =~= l1);
        lemma_scan_append_text(j + seq!['\n'], ls.last());
        assert(no_newline(ls[ls.len() - 1]));
        assert(Seq::<char>::empty() + ls.last() =~= ls.last());
    }
}

/// Normalizing twice gives the same text as normalizing once, for every diff
/// in which no kept line other than the last ends in `'\r'` (a line such as
/// `"a\r\r"` followed by `'\n'` keeps one `'\r'`, which a second pass strips).
pub proof fn lemma_normalize_idempotent(d: Seq<char>)
    requires
        no_inner_cr_end(d),
    ensures
        normalize(normalize(d)) == normalize(d),
{
    let k = keep_nonblank(lines(d));
    lemma_lines_no_newline(d);
    lemma_keep_props(lines(d));
    if k.len() == 0 {
        assert(normalize(d) =~= Seq::<char>::empty());
        assert(line_scan(Seq::<char>::empty()) == (Seq::<Seq<char>>::empty(), Seq::<char>::empty()));
        assert(lines(Seq::<char>::empty()) =~= Seq::<Seq<char>>::empty());
    } else {
        lemma_scan_join(k);
        assert(k[k.len() - 1].len() > 0);
        assert(k.drop_last().push(k.last()) =~= k);
        assert(lines(normalize(d)) == k);
        lemma_keep_all_nonblank(k);
    }
}

/// Two diffs with the same normalized text have the same fingerprint.
pub proof fn lemma_fingerprint_deterministic(d1: Seq<char>, d2: Seq<char>)
    requires
        normalize(d1) == normalize(d2),
    ensures
        fingerprint(d1) == fingerprint(d2),
{
}

/// Whole blank lines: whitespace only, ending in `'\n'` unless empty.
pub open spec fn is_blank_block(b: Seq<char>) -> bool {
    is_blank(b) && (b.len() == 0 || b.last() == '\n')
}

proof fn lemma_scan_blank(s: Seq<char>)
    requires
        is_blank(s),
    ensures
        is_blank(line_scan(s).1),
        forall|i: int| 0 <= i < line_scan(s).0.len() ==> is_blank(#[trigger] line_scan(s).0[i]),
    decreases s.len(),
{
    if s.len() > 0 {
        let s1 = s.drop_last();
        assert(is_blank(s1)) by {
            assert forall|i: int| 0 <= i < s1.len() implies is_ws(#[trigger] s1[i]) by {
                assert(s1[i] == s[i]);
            }
        }
        lemma_scan_blank(s1);
        let (done, cur) = line_scan(s1);
        assert(is_ws(s[s.len() - 1]));
        if s.last() == '\n' {
            lemma_strip_cr_blank(cur);
            assert forall|i: int| 0 <= i < done.push(strip_cr(cur)).len() implies is_blank(
                #[trigger] done.push(strip_cr(cur))[i],
            ) by {
                if i < done.len() {
                    assert(done.push(strip_cr(cur))[i] == done[i]);
                }
            }
        } else {
            let c2 = cur.push(s.last());
            assert forall|i: int| 0 <= i < c2.len() implies is_ws(#[trigger] c2[i]) by {
                if i < cur.len() {
                    assert(c2[i] == cur[i]);
                }
            }
        }
    }
}

proof fn lemma_keep_all_blank(ls: Seq<Seq<char>>)
    requires
        forall|i: int| 0 <= i < ls.len() ==> is_blank(#[trigger] ls[i]),
    ensures
        keep_nonblank(ls) == Seq::<Seq<char>>::empty(),
    decreases ls.len(),
{
    if ls.len() > 0 {
        let l1 = ls.drop_last();
        assert forall|i: int| 0 <= i < l1.len() implies is_blank(#[trigger] l1[i]) by {
            assert(l1[i] == ls[i]);
        }
        lemma_keep_all_blank(l1);
        assert(is_blank(ls[ls.len() - 1]));
    }
}

/// Inserting blank lines (whitespace only, each ended by `'\n'`) at the start
/// of a line of a diff leaves its normalized text, and so its fingerprint,
/// unchanged.
pub proof fn lemma_fingerprint_ignores_blank_lines(d: Seq<char>, i: int, b: Seq<char>)
    requires
        0 <= i <= d.len(),
        i == 0 || d[i - 1] == '\n',
        is_blank_block(b),
    ensures
        normalize(d.take(i) + b + d.skip(i)) == normalize(d),
        fingerprint(d.take(i) + b + d.skip(i)) == fingerprint(d),
{
    let p = d.take(i);
    let r = d.skip(i);
    assert(line_scan(p).1 == Seq::<char>::empty()) by {
        if i > 0 {
            assert(p.drop_last() =~= d.take(i - 1));
        } else {
            assert(p =~= Seq::<char>::empty());
        }
    }
    assert(p + r =~= d);
    lemma_scan_concat(p, r);
    lemma_scan_blank(b);
    assert(line_scan(b).1 == Seq::<char>::empty()) by {
        if b.len() > 0 {
            assert(b.drop_last() + seq!['\n'] =~= b);
        } else {
            assert(line_scan(b) == (Seq::<Seq<char>>::empty(), Seq::<char>::empty()));
        }
    }
    lemma_scan_concat(p, b);
    let q = p + b;
    lemma_scan_concat(q, r);
    let d2 = p + b + r;
    assert(d.take(i) + b + d.skip(i) == d2);
    let a = line_scan(p).0;
    let bl = line_scan(b).0;
    let (rd, rc) = line_scan(r);
    let rest = if rc.len() == 0 { rd } else { rd.push(rc) };
    assert(lines(d) =~= a + rest);
    assert(lines(d2) =~= (a + bl) + rest);
    lemma_keep_concat(a + bl, rest);
    lemma_keep_concat(a, bl);
    lemma_keep_concat(a, rest);
    lemma_keep_all_blank(bl);
    assert(keep_nonblank(a) + Seq::<Seq<char>>::empty() =~= keep_nonblank(a));
}

proof fn lemma_hex_digit_injective(x: int, y: int)
    requires
        0 <= x < 16,
        0 <= y < 16,
        hex_digit(x) == hex_digit(y),
    ensures
        x == y,
{
    let digits = seq!['0', '1', '2', '3', '4', '5', '6', '7', '8', '9', 'a', 'b', 'c', 'd', 'e', 'f'];
    assert(digits[0] == '0' && digits[1] == '1' && digits[2] == '2' && digits[3] == '3');
    assert(digits[4] == '4' && digits[5] == '5' && digits[6] == '6' && digits[7] == '7');
    assert(digits[8] == '8' && digits[9] == '9' && digits[10] == 'a' && digits[11] == 'b');
    assert(digits[12] == 'c' && digits[13] == 'd' && digits[14] == 'e' && digits[15] == 'f');
}

proof fn lemma_hex_lower_injective(a: Seq<u8>, b: Seq<u8>)
    requires
        hex_lower(a) == hex_lower(b),
    ensures
        a == b,
{
    assert(a.len() == b.len()) by {
        assert(hex_lower(a).len() == 2 * a.len());
    }
    assert forall|k: int| 0 <= k < a.len() implies a[k] == b[k] by {
        let j = 2 * k;
        assert(j / 2 == k && j % 2 == 0);
        assert((j + 1) / 2 == k && (j + 1) % 2 == 1);
        assert(hex_lower(a)[j] == hex_digit(a[k] as int / 16));
        assert(hex_lower(b)[j] == hex_digit(b[k] as int / 16));
        assert(hex_lower(a)[j + 1] == hex_digit(a[k] as int % 16));
        assert(hex_lower(b)[j + 1] == hex_digit(b[k] as int % 16));
        lemma_hex_digit_injective(a[k] as int / 16, b[k] as int / 16);
        lemma_hex_digit_injective(a[k] as int % 16, b[k] as int % 16);
    }
    assert(a =~= b);
}

/// Diffs whose normalized texts differ have different fingerprints, as long as
/// SHA-256 does not collide on the two texts' UTF-8 bytes.
pub proof fn lemma_fingerprint_distinguishes(d1: Seq<char>, d2: Seq<char>)
    requires
        normalize(d1) != normalize(d2),
        encode_utf8(normalize(d1)) != encode_utf8(normalize(d2)) ==> sha256_of(
            encode_utf8(normalize(d1)),
        ) != sha256_of(encode_utf8(normalize(d2))),
    ensures
        fingerprint(d1) != fingerprint(d2),
{
    encode_utf8_decode_utf8(normalize(d1));
    encode_utf8_decode_utf8(normalize(d2));
    assert(decode_utf8(encode_utf8(normalize(d1))) != decode_utf8(encode_utf8(normalize(d2))));
    if fingerprint(d1) == fingerprint(d2) {
        lemma_hex_lower_injective(
            sha256_of(encode_utf8(normalize(d1))),
            sha256_of(encode_utf8(normalize(d2))),
        );
    }
}

} // verus!
