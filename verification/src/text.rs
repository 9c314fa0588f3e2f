//! Line-oriented text processing for the launch file: splitting raw
//! text into lines, recognizing comment lines, substituting the
//! workspace placeholder, and assembling the cleaned text that is
//! handed to the JSON deserializer.

use vstd::prelude::*;
use vstd::string::StrSliceExecFns;
use vstd::string::StringExecFns;

verus! {

/// Index of the first occurrence of `c` in `s`, or `s.len()` when `c`
/// does not occur.
pub open spec fn first_index(s: Seq<char>, c: char) -> nat
    decreases s.len(),
{
    if s.len() == 0 {
        0
    } else if s[0] == c {
        0
    } else {
        (1 + first_index(s.drop_first(), c)) as nat
    }
}

pub proof fn lemma_first_index(s: Seq<char>, c: char)
    ensures
        first_index(s, c) <= s.len(),
        forall|j: int| 0 <= j < first_index(s, c) ==> s[j] != c,
        first_index(s, c) < s.len() ==> s[first_index(s, c) as int] == c,
    decreases s.len(),
{
    if s.len() > 0 && s[0] != c {
        lemma_first_index(s.drop_first(), c);
        assert forall|j: int| 0 <= j < first_index(s, c) implies s[j] != c by {
            if j > 0 {
                assert(s.drop_first()[j - 1] != c);
            }
        }
    }
}

/// `first_index` is pinned down by its characteristic properties.
pub proof fn lemma_first_index_is(s: Seq<char>, c: char, k: int)
    requires
        0 <= k <= s.len(),
        forall|j: int| 0 <= j < k ==> s[j] != c,
        k < s.len() ==> s[k] == c,
    ensures
        first_index(s, c) == k,
{
    lemma_first_index(s, c);
    let f = first_index(s, c) as int;
    if f < k {
        assert(s[f] == c);
        assert(s[f] != c);
    }
    if k < f {
        assert(s[k] != c);
        assert(s[k] == c);
    }
}

/// Drop one trailing carriage return, as a `\r\n` line ending leaves
/// one on the split line.
pub open spec fn strip_cr(l: Seq<char>) -> Seq<char> {
    if l.len() > 0 && l[l.len() - 1] == '\r' {
        l.drop_last()
    } else {
        l
    }
}

/// The lines of `s`: split at `\n`, with a `\r` immediately before a
/// `\n` removed, and no empty line after a trailing terminator.
pub open spec fn split_lines(s: Seq<char>) -> Seq<Seq<char>>
    decreases s.len(),
{
    if s.len() == 0 {
        Seq::empty()
    } else {
        let b = first_index(s, '\n');
        if b >= s.len() {
            seq![s]
        } else {
            seq![strip_cr(s.take(b as int))] + split_lines(s.skip(b as int + 1))
        }
    }
}

/// Split text into its lines.
pub fn split_lines_exec(text: &str) -> (r: Vec<String>)
    ensures
        r.deep_view() == split_lines(text@),
{
    let n = text.unicode_len();
    let mut out: Vec<String> = Vec::new();
    let mut pos: usize = 0;
    proof {
        assert(text@.skip(0) =~= text@);
        assert(out.deep_view() + split_lines(text@.skip(0)) =~~= split_lines(text@));
    }
    while pos < n
        invariant
            n == text@.len(),
            pos <= n,
            split_lines(text@) == out.deep_view() + split_lines(text@.skip(pos as int)),
        decreases n - pos,
    {
        let ghost rest = text@.skip(pos as int);
        let mut j = pos;
        while j < n && text.get_char(j) != '\n'
            invariant
                n == text@.len(),
                pos <= j <= n,
                forall|k: int| pos <= k < j ==> text@[k] != '\n',
            decreases n - j,
        {
            j += 1;
        }
        proof {
            assert forall|k: int| 0 <= k < j - pos implies rest[k] != '\n' by {
                assert(rest[k] == text@[pos + k]);
            }
            if j < n {
                assert(rest[j - pos] == text@[j as int]);
            }
            lemma_first_index_is(rest, '\n', j - pos);
        }
        let nl_found = j < n;
        let line_end = if nl_found && j > pos && text.get_char(j - 1) == '\r' {
            j - 1
        } else {
            j
        };
        let line = String::from_str(text.substring_char(pos, line_end));
        out.push(line);
        let new_pos = if nl_found {
            j + 1
        } else {
            n
        };
        proof {
            let b = first_index(rest, '\n') as int;
            let old_dv = out.deep_view().drop_last();
            assert(out.deep_view() =~~= old_dv.push(line@));
            if nl_found {
                assert(b < rest.len());
                assert(rest.take(b) =~= text@.subrange(pos as int, j as int));
                if j > pos && text@[j - 1] == '\r' {
                    assert(rest.take(b).len() > 0);
                    assert(rest.take(b)[b - 1] == text@[j - 1]);
                    assert(strip_cr(rest.take(b)) =~= text@.subrange(
                        pos as int,
                        line_end as int,
                    ));
                } else {
                    if rest.take(b).len() > 0 {
                        assert(rest.take(b)[b - 1] == text@[j - 1]);
                    }
                    assert(strip_cr(rest.take(b)) =~= text@.subrange(
                        pos as int,
                        line_end as int,
                    ));
                }
                assert(rest.skip(b + 1) =~= text@.skip(new_pos as int));
                assert(split_lines(rest) == seq![line@] + split_lines(
                    text@.skip(new_pos as int),
                ));
            } else {
                assert(b >= rest.len());
                assert(rest.len() > 0);
                assert(rest =~= text@.subrange(pos as int, n as int));
                assert(split_lines(rest) == seq![line@]);
                assert(text@.skip(new_pos as int) =~= Seq::<char>::empty());
                assert(split_lines(text@.skip(new_pos as int)) == Seq::<Seq<char>>::empty());
                assert(split_lines(rest) =~= seq![line@] + split_lines(
                    text@.skip(new_pos as int),
                ));
            }
            assert(old_dv + split_lines(rest) =~~= out.deep_view() + split_lines(
                text@.skip(new_pos as int),
            ));
        }
        pos = new_pos;
    }
    proof {
        assert(text@.skip(pos as int) =~= Seq::<char>::empty());
        assert(out.deep_view() + split_lines(text@.skip(pos as int)) =~~= out.deep_view());
    }
    out
}

/// ASCII whitespace, the set `trim_ascii_start` removes.
pub open spec fn is_space_char(c: char) -> bool {
    c == ' ' || c == '\t' || c == '\n' || c == '\x0C' || c == '\r'
}

/// Length of the longest all-whitespace prefix of `s`.
pub open spec fn ws_prefix_len(s: Seq<char>) -> nat
    decreases s.len(),
{
    if s.len() > 0 && is_space_char(s[0]) {
        (1 + ws_prefix_len(s.drop_first())) as nat
    } else {
        0
    }
}

pub proof fn lemma_ws_prefix(s: Seq<char>)
    ensures
        ws_prefix_len(s) <= s.len(),
        forall|j: int| 0 <= j < ws_prefix_len(s) ==> is_space_char(s[j]),
        ws_prefix_len(s) < s.len() ==> !is_space_char(s[ws_prefix_len(s) as int]),
    decreases s.len(),
{
    if s.len() > 0 && is_space_char(s[0]) {
        lemma_ws_prefix(s.drop_first());
        assert forall|j: int| 0 <= j < ws_prefix_len(s) implies is_space_char(s[j]) by {
            if j > 0 {
                assert(is_space_char(s.drop_first()[j - 1]));
            }
        }
    }
}

pub proof fn lemma_ws_prefix_is(s: Seq<char>, k: int)
    requires
        0 <= k <= s.len(),
        forall|j: int| 0 <= j < k ==> is_space_char(s[j]),
        k < s.len() ==> !is_space_char(s[k]),
    ensures
        ws_prefix_len(s) == k,
{
    lemma_ws_prefix(s);
    let w = ws_prefix_len(s) as int;
    if w < k {
        assert(is_space_char(s[w]));
        assert(!is_space_char(s[w]));
    }
    if k < w {
        assert(is_space_char(s[k]));
        assert(!is_space_char(s[k]));
    }
}

/// A comment line: after trimming leading ASCII whitespace it starts
/// with the two-character marker `//`.
pub open spec fn is_comment_spec(line: Seq<char>) -> bool {
    let t = line.skip(ws_prefix_len(line) as int);
    t.len() >= 2 && t[0] == '/' && t[1] == '/'
}

/// Whether one character is ASCII whitespace.
pub fn space_char(c: char) -> (r: bool)
    ensures
        r == is_space_char(c),
{
    c == ' ' || c == '\t' || c == '\n' || c == '\x0C' || c == '\r'
}

/// Decide whether a line is a comment line (leading whitespace
/// followed by `//`).
pub fn is_comment_line(line: &str) -> (r: bool)
    ensures
        r == is_comment_spec(line@),
{
    let n = line.unicode_len();
    let mut i: usize = 0;
    while i < n && space_char(line.get_char(i))
        invariant
            n == line@.len(),
            i <= n,
            forall|k: int| 0 <= k < i ==> is_space_char(line@[k]),
        decreases n - i,
    {
        i += 1;
    }
    proof {
        lemma_ws_prefix_is(line@, i as int);
    }
    let ghost t = line@.skip(i as int);
    if n - i >= 2 {
        let r = line.get_char(i) == '/' && line.get_char(i + 1) == '/';
        proof {
            assert(t[0] == line@[i as int]);
            assert(t[1] == line@[i + 1]);
        }
        r
    } else {
        false
    }
}

/// The workspace-placeholder token, as a character sequence.
pub open spec fn workspace_token() -> Seq<char> {
    seq![
        '$',
        '{',
        'w',
        'o',
        'r',
        'k',
        's',
        'p',
        'a',
        'c',
        'e',
        'F',
        'o',
        'l',
        'd',
        'e',
        'r',
        '}',
    ]
}

/// The workspace-placeholder token, as a string slice.
pub fn workspace_token_str() -> (r: &'static str)
    ensures
        r@ == workspace_token(),
{
    let s = "${workspaceFolder}";
    proof {
        reveal_strlit("${workspaceFolder}");
        assert(s@ =~= workspace_token());
    }
    s
}

/// The token occurs in `s` at position `i`.
pub open spec fn token_at(s: Seq<char>, i: int) -> bool {
    &&& 0 <= i
    &&& i + workspace_token().len() <= s.len()
    &&& s.subrange(i, i + workspace_token().len() as int) == workspace_token()
}

/// The token occurs somewhere in `s`.
pub open spec fn has_token(s: Seq<char>) -> bool {
    exists|i: int| token_at(s, i)
}

/// `s` with every occurrence of the workspace token replaced by `ws`,
/// scanning left to right without overlap.
pub open spec fn substituted(s: Seq<char>, ws: Seq<char>) -> Seq<char>
    decreases s.len(),
{
    let tok = workspace_token();
    if s.len() == 0 {
        Seq::empty()
    } else if tok.len() <= s.len() && s.take(tok.len() as int) == tok {
        ws + substituted(s.skip(tok.len() as int), ws)
    } else {
        seq![s[0]] + substituted(s.drop_first(), ws)
    }
}

/// Whether the token stands in `line` at position `i`.
fn has_token_at(line: &str, i: usize, tok: &str) -> (r: bool)
    requires
        tok@ == workspace_token(),
        i + tok@.len() <= line@.len(),
    ensures
        r == token_at(line@, i as int),
{
    let n = line.unicode_len();
    let tl = tok.unicode_len();
    let mut k: usize = 0;
    let mut ok = true;
    while k < tl
        invariant
            n == line@.len(),
            tl == tok@.len(),
            tok@ == workspace_token(),
            i + tl <= line@.len(),
            k <= tl,
            ok ==> forall|m: int| 0 <= m < k ==> line@[i + m] == tok@[m],
            !ok ==> exists|m: int| 0 <= m < k && line@[i + m] != tok@[m],
        decreases tl - k,
    {
        if line.get_char(i + k) != tok.get_char(k) {
            ok = false;
        }
        k += 1;
    }
    proof {
        let sub = line@.subrange(i as int, i + tok@.len());
        if ok {
            assert(sub =~= tok@);
        } else {
            let m = choose|m: int| 0 <= m < tl && line@[i + m] != tok@[m];
            assert(sub[m] != tok@[m]);
        }
    }
    ok
}

/// Replace every occurrence of the workspace token in `line` by `ws`.
pub fn substitute_token(line: &str, ws: &str) -> (r: String)
    ensures
        r@ == substituted(line@, ws@),
{
    let n = line.unicode_len();
    let tok = workspace_token_str();
    let tok_len = tok.unicode_len();
    let mut out = String::new();
    let mut i: usize = 0;
    proof {
        assert(line@.skip(0) =~= line@);
        assert(out@ + substituted(line@.skip(0), ws@) =~= substituted(line@, ws@));
    }
    while i < n
        invariant
            n == line@.len(),
            tok@ == workspace_token(),
            tok_len == tok@.len(),
            i <= n,
            substituted(line@, ws@) == out@ + substituted(line@.skip(i as int), ws@),
        decreases n - i,
    {
        let ghost rest = line@.skip(i as int);
        if n - i >= tok_len && has_token_at(line, i, tok) {
            out.append(ws);
            proof {
                let tl = tok@.len() as int;
                assert(rest.take(tl) =~= line@.subrange(i as int, i + tl));
                assert(rest.skip(tl) =~= line@.skip(i + tok_len));
                assert(substituted(rest, ws@) == ws@ + substituted(
                    line@.skip(i + tok_len),
                    ws@,
                ));
            }
            i += tok_len;
        } else {
            let piece = line.substring_char(i, i + 1);
            out.append(piece);
            proof {
                let tl = tok@.len() as int;
                assert(rest.len() > 0);
                if tl <= rest.len() {
                    assert(!token_at(line@, i as int));
                    assert(rest.take(tl) =~= line@.subrange(i as int, i + tl));
                    assert(rest.take(tl) != tok@);
                }
                assert(piece@ =~= seq![rest[0]]);
                assert(rest.drop_first() =~= line@.skip(i + 1));
                assert(substituted(rest, ws@) == seq![rest[0]] + substituted(
                    line@.skip(i + 1),
                    ws@,
                ));
            }
            i += 1;
        }
    }
    proof {
        assert(line@.skip(n as int) =~= Seq::<char>::empty());
        assert(out@ + substituted(line@.skip(n as int), ws@) =~= out@);
    }
    out
}

/// What one line contributes to the cleaned text: nothing for a
/// comment line, its substituted content otherwise.
pub open spec fn line_contrib(line: Seq<char>, ws: Seq<char>) -> Seq<char> {
    if is_comment_spec(line) {
        Seq::empty()
    } else {
        substituted(line, ws)
    }
}

/// The cleaned text assembled from a sequence of lines: comment lines
/// are dropped, the remaining lines are substituted and concatenated.
pub open spec fn cleaned_lines(lines: Seq<Seq<char>>, ws: Seq<char>) -> Seq<char>
    decreases lines.len(),
{
    if lines.len() == 0 {
        Seq::empty()
    } else {
        line_contrib(lines[0], ws) + cleaned_lines(lines.drop_first(), ws)
    }
}

/// The cleaned form of raw launch-file text: its lines, stripped of
/// comment lines, each with the workspace token substituted, joined.
pub open spec fn clean_spec(text: Seq<char>, ws: Seq<char>) -> Seq<char> {
    cleaned_lines(split_lines(text), ws)
}

pub proof fn lemma_cleaned_lines_push(lines: Seq<Seq<char>>, x: Seq<char>, ws: Seq<char>)
    ensures
        cleaned_lines(lines.push(x), ws) == cleaned_lines(lines, ws) + line_contrib(x, ws),
    decreases lines.len(),
{
    if lines.len() == 0 {
        assert(lines.push(x).drop_first() =~= lines);
        assert(lines.push(x)[0] == x);
        assert(cleaned_lines(lines.push(x), ws) =~= cleaned_lines(lines, ws) + line_contrib(
            x,
            ws,
        ));
    } else {
        lemma_cleaned_lines_push(lines.drop_first(), x, ws);
        assert(lines.push(x).drop_first() =~= lines.drop_first().push(x));
        assert(lines.push(x)[0] == lines[0]);
        assert(cleaned_lines(lines.push(x), ws) =~= cleaned_lines(lines, ws) + line_contrib(
            x,
            ws,
        ));
    }
}

/// Clean raw launch-file text: drop every comment line and replace
/// every occurrence of the workspace token in the remaining lines by
/// the workspace path.
pub fn clean_launch_text(text: &str, workspace: &str) -> (r: String)
    ensures
        r@ == clean_spec(text@, workspace@),
{
    let lines = split_lines_exec(text);
    let ghost dv = lines.deep_view();
    let mut out = String::new();
    let mut i: usize = 0;
    proof {
        assert(dv.take(0) =~~= Seq::<Seq<char>>::empty());
    }
    while i < lines.len()
        invariant
            dv == lines.deep_view(),
            dv == split_lines(text@),
            i <= lines.len(),
            dv.len() == lines.len(),
            out@ == cleaned_lines(dv.take(i as int), workspace@),
        decreases lines.len() - i,
    {
        let line = &lines[i];
        proof {
            assert(dv[i as int] == line@);
        }
        if !is_comment_line(line.as_str()) {
            let sub = substitute_token(line.as_str(), workspace);
            out.append(sub.as_str());
        }
        proof {
            assert(dv.take(i + 1) =~~= dv.take(i as int).push(dv[i as int]));
            lemma_cleaned_lines_push(dv.take(i as int), dv[i as int], workspace@);
        }
        i += 1;
    }
    proof {
        assert(dv.take(i as int) =~~= dv);
    }
    out
}

/// Lines joined back into one text with `\n` between them and no
/// trailing terminator.
pub open spec fn join_lines(lines: Seq<Seq<char>>) -> Seq<char>
    decreases lines.len(),
{
    if lines.len() == 0 {
        Seq::empty()
    } else if lines.len() == 1 {
        lines[0]
    } else {
        lines[0] + seq!['\n'] + join_lines(lines.drop_first())
    }
}

/// A sequence of line contents that splitting can give back: no line
/// holds a newline, no line but the last ends in a carriage return
/// (that would be eaten as part of a `\r\n` ending), and the last
/// line is not empty (an empty last line would vanish behind the
/// final terminator).
pub open spec fn joinable_lines(lines: Seq<Seq<char>>) -> bool {
    &&& forall|i: int, j: int|
        0 <= i < lines.len() && 0 <= j < lines[i].len() ==> #[trigger] lines[i][j] != '\n'
    &&& forall|i: int|
        0 <= i < lines.len() - 1 ==> (#[trigger] lines[i].len() == 0 || lines[i].last() != '\r')
    &&& (lines.len() > 0 ==> lines.last().len() > 0)
}

/// Round trip: splitting the joined text gives the lines back.
pub proof fn lemma_split_join(lines: Seq<Seq<char>>)
    requires
        joinable_lines(lines),
    ensures
        split_lines(join_lines(lines)) == lines,
    decreases lines.len(),
{
    let s = join_lines(lines);
    if lines.len() == 0 {
        assert(split_lines(s) =~~= lines);
    } else if lines.len() == 1 {
        assert(s == lines[0]);
        assert(s.len() > 0);
        lemma_first_index_is(s, '\n', s.len() as int);
        assert(split_lines(s) =~~= lines);
    } else {
        let l0 = lines[0];
        let rest = lines.drop_first();
        assert(s == l0 + seq!['\n'] + join_lines(rest));
        assert forall|k: int| 0 <= k < l0.len() implies s[k] != '\n' by {
            assert(s[k] == l0[k]);
        }
        assert(s[l0.len() as int] == '\n');
        lemma_first_index_is(s, '\n', l0.len() as int);
        let b = l0.len() as int;
        assert(b < s.len());
        assert(s.take(b) =~= l0);
        assert(strip_cr(l0) == l0);
        assert(s.skip(b + 1) =~= join_lines(rest));
        assert forall|i: int|
            0 <= i < rest.len() - 1 implies (#[trigger] rest[i].len() == 0 || rest[i].last()
            != '\r') by {
            assert(rest[i] == lines[i + 1]);
        }
        assert forall|i: int, j: int|
            0 <= i < rest.len() && 0 <= j < rest[i].len() implies #[trigger] rest[i][j]
            != '\n' by {
            assert(rest[i] == lines[i + 1]);
        }
        assert(rest.last() == lines.last());
        lemma_split_join(rest);
        assert(split_lines(s) =~~= lines);
    }
}

/// A comment line contributes nothing to the cleaned text: cleaning a
/// line sequence that holds one is the same as cleaning the sequence
/// with exactly that line removed, so no other line is affected.
pub proof fn lemma_comment_line_removed(lines: Seq<Seq<char>>, k: int, ws: Seq<char>)
    requires
        0 <= k < lines.len(),
        is_comment_spec(lines[k]),
    ensures
        cleaned_lines(lines, ws) == cleaned_lines(lines.remove(k), ws),
    decreases lines.len(),
{
    if k == 0 {
        assert(lines.remove(0) =~~= lines.drop_first());
        assert(line_contrib(lines[0], ws) =~= Seq::<char>::empty());
        assert(cleaned_lines(lines, ws) =~= cleaned_lines(lines.drop_first(), ws));
    } else {
        lemma_comment_line_removed(lines.drop_first(), k - 1, ws);
        assert(lines.remove(k).drop_first() =~~= lines.drop_first().remove(k - 1));
        assert(lines.remove(k)[0] == lines[0]);
        assert(cleaned_lines(lines, ws) =~= cleaned_lines(lines.remove(k), ws));
    }
}

/// Round trip at the text level: in a text assembled from line
/// contents, stripping acts on exactly the comment lines — cleaning
/// the whole text equals cleaning the line sequence with one comment
/// line removed, so that line's content is gone and no other line is
/// touched.
pub proof fn lemma_comment_stripping_roundtrip(lines: Seq<Seq<char>>, k: int, ws: Seq<char>)
    requires
        joinable_lines(lines),
        0 <= k < lines.len(),
        is_comment_spec(lines[k]),
    ensures
        clean_spec(join_lines(lines), ws) == cleaned_lines(lines.remove(k), ws),
{
    lemma_split_join(lines);
    lemma_comment_line_removed(lines, k, ws);
}

/// A line that is not a comment is kept: alone it contributes exactly
/// its substituted content.
pub proof fn lemma_noncomment_line_kept(line: Seq<char>, ws: Seq<char>)
    requires
        !is_comment_spec(line),
    ensures
        cleaned_lines(seq![line], ws) == substituted(line, ws),
{
    let ls = seq![line];
    assert(ls.drop_first() =~~= Seq::<Seq<char>>::empty());
    assert(ls[0] == line);
    assert(cleaned_lines(ls, ws) == line_contrib(line, ws) + cleaned_lines(
        Seq::<Seq<char>>::empty(),
        ws,
    ));
    assert(line_contrib(line, ws) + Seq::<char>::empty() =~= substituted(line, ws));
}

/// A line without any occurrence of the workspace token passes through
/// substitution verbatim; in particular a `//` that stands anywhere
/// but at the start of a non-comment line is preserved.
pub proof fn lemma_substituted_no_token(s: Seq<char>, ws: Seq<char>)
    requires
        !has_token(s),
    ensures
        substituted(s, ws) == s,
    decreases s.len(),
{
    let tok = workspace_token();
    if s.len() == 0 {
        assert(substituted(s, ws) =~= s);
    } else {
        if tok.len() <= s.len() && s.take(tok.len() as int) == tok {
            assert(s.subrange(0, tok.len() as int) =~= s.take(tok.len() as int));
            assert(token_at(s, 0));
        }
        assert forall|i: int| !token_at(s.drop_first(), i) by {
            if token_at(s.drop_first(), i) {
                assert(s.subrange(i + 1, i + 1 + tok.len()) =~= s.drop_first().subrange(
                    i,
                    i + tok.len(),
                ));
                assert(token_at(s, i + 1));
            }
        }
        lemma_substituted_no_token(s.drop_first(), ws);
        assert(substituted(s, ws) =~= s);
    }
}

/// Substitution replaces every occurrence of the token, scanning left
/// to right: at the first occurrence the prefix is kept, the token
/// becomes the workspace path, and the rest is substituted in turn.
pub proof fn lemma_substituted_token_replaced(s: Seq<char>, i: int, ws: Seq<char>)
    requires
        token_at(s, i),
        forall|j: int| 0 <= j < i ==> !token_at(s, j),
    ensures
        substituted(s, ws) == s.take(i) + ws + substituted(
            s.skip(i + workspace_token().len() as int),
            ws,
        ),
    decreases i,
{
    let tok = workspace_token();
    if i == 0 {
        assert(s.take(tok.len() as int) =~= s.subrange(0, tok.len() as int));
        assert(s.len() >= tok.len());
        assert(substituted(s, ws) == ws + substituted(s.skip(tok.len() as int), ws));
        assert(s.take(0) + ws + substituted(s.skip(tok.len() as int), ws) =~= ws + substituted(
            s.skip(tok.len() as int),
            ws,
        ));
    } else {
        assert(s.len() > 0);
        if tok.len() <= s.len() && s.take(tok.len() as int) == tok {
            assert(s.take(tok.len() as int) =~= s.subrange(0, tok.len() as int));
            assert(token_at(s, 0));
        }
        assert(substituted(s, ws) == seq![s[0]] + substituted(s.drop_first(), ws));
        let d = s.drop_first();
        assert(d.subrange(i - 1, i - 1 + tok.len()) =~= s.subrange(i, i + tok.len()));
        assert(token_at(d, i - 1));
        assert forall|j: int| 0 <= j < i - 1 implies !token_at(d, j) by {
            if token_at(d, j) {
                assert(s.subrange(j + 1, j + 1 + tok.len()) =~= d.subrange(j, j + tok.len()));
                assert(token_at(s, j + 1));
            }
        }
        lemma_substituted_token_replaced(d, i - 1, ws);
        assert(d.skip(i - 1 + tok.len()) =~= s.skip(i + tok.len()));
        assert(seq![s[0]] + (d.take(i - 1) + ws + substituted(s.skip(i + tok.len()), ws)) =~= s.take(
            i,
        ) + ws + substituted(s.skip(i + tok.len()), ws));
    }
}

} // verus!
