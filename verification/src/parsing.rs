//! Parsing that works on plain text: the dotenv `KEY=VALUE` format,
//! and the normalization pass that runs over every configuration
//! after the launch file has been deserialized.

use crate::enums::classification;
use crate::enums::classify;
use crate::model::env_map;
use crate::model::Configuration;
use crate::model::EnvList;
use crate::model::LaunchJson;
use crate::text::first_index;
use crate::text::is_space_char;
use crate::text::lemma_first_index_is;
use crate::text::lemma_ws_prefix_is;
use crate::text::space_char;
use crate::text::split_lines;
use crate::text::split_lines_exec;
use crate::text::ws_prefix_len;
use vstd::prelude::*;
use vstd::string::StrSliceExecFns;
use vstd::string::StringExecFns;

verus! {

/// Length of the longest all-whitespace suffix of `s`.
pub open spec fn ws_suffix_len(s: Seq<char>) -> nat
    decreases s.len(),
{
    if s.len() > 0 && is_space_char(s.last()) {
        (1 + ws_suffix_len(s.drop_last())) as nat
    } else {
        0
    }
}

pub proof fn lemma_ws_suffix(s: Seq<char>)
    ensures
        ws_suffix_len(s) <= s.len(),
        forall|j: int| s.len() - ws_suffix_len(s) <= j < s.len() ==> is_space_char(s[j]),
        ws_suffix_len(s) < s.len() ==> !is_space_char(s[s.len() - ws_suffix_len(s) - 1]),
    decreases s.len(),
{
    if s.len() > 0 && is_space_char(s.last()) {
        lemma_ws_suffix(s.drop_last());
        assert forall|j: int| s.len() - ws_suffix_len(s) <= j < s.len() implies is_space_char(
            s[j],
        ) by {
            if j < s.len() - 1 {
                assert(is_space_char(s.drop_last()[j]));
            }
        }
    }
}

pub proof fn lemma_ws_suffix_is(s: Seq<char>, k: int)
    requires
        0 <= k <= s.len(),
        forall|j: int| s.len() - k <= j < s.len() ==> is_space_char(s[j]),
        k < s.len() ==> !is_space_char(s[s.len() - k - 1]),
    ensures
        ws_suffix_len(s) == k,
{
    lemma_ws_suffix(s);
    let w = ws_suffix_len(s) as int;
    if w < k {
        assert(is_space_char(s[s.len() - w - 1]));
        assert(!is_space_char(s[s.len() - w - 1]));
    }
    if k < w {
        assert(is_space_char(s[s.len() - k - 1]));
        assert(!is_space_char(s[s.len() - k - 1]));
    }
}

/// `s` with leading and trailing ASCII whitespace removed.
pub open spec fn trim_spec(s: Seq<char>) -> Seq<char> {
    let t = s.skip(ws_prefix_len(s) as int);
    t.take(t.len() - ws_suffix_len(t))
}

/// Remove leading and trailing whitespace.
pub fn trim_str(s: &str) -> (r: String)
    ensures
        r@ == trim_spec(s@),
{
    let n = s.unicode_len();
    let mut a: usize = 0;
    while a < n && space_char(s.get_char(a))
        invariant
            n == s@.len(),
            a <= n,
            forall|k: int| 0 <= k < a ==> is_space_char(s@[k]),
        decreases n - a,
    {
        a += 1;
    }
    proof {
        lemma_ws_prefix_is(s@, a as int);
    }
    let mut b: usize = n;
    while b > a && space_char(s.get_char(b - 1))
        invariant
            n == s@.len(),
            a <= b <= n,
            forall|k: int| b <= k < n ==> is_space_char(s@[k]),
        decreases b,
    {
        b -= 1;
    }
    let ghost t = s@.skip(a as int);
    proof {
        assert forall|j: int| t.len() - (n - b) <= j < t.len() implies is_space_char(t[j]) by {
            assert(t[j] == s@[a + j]);
        }
        if b > a {
            assert(t[b - 1 - a] == s@[b - 1]);
        }
        lemma_ws_suffix_is(t, n - b);
        assert(t.take(t.len() - (n - b)) =~= s@.subrange(a as int, b as int));
    }
    String::from_str(s.substring_char(a, b))
}

/// The key/value pair a dotenv line denotes, or `None` when the line
/// is skipped: the text before the first `=` (trimmed) is the key, the
/// text after it (trimmed, one pair of wrapping double quotes
/// stripped) is the value; a line without `=` or with an empty key is
/// skipped.
pub open spec fn dotenv_entry(line: Seq<char>) -> Option<(Seq<char>, Seq<char>)> {
    let e = first_index(line, '=') as int;
    if e >= line.len() {
        None
    } else {
        let key = trim_spec(line.take(e));
        let raw = trim_spec(line.skip(e + 1));
        let value = if raw.len() >= 2 && raw[0] == '"' && raw.last() == '"' {
            raw.subrange(1, raw.len() - 1)
        } else {
            raw
        };
        if key.len() == 0 {
            None
        } else {
            Some((key, value))
        }
    }
}

/// Parse one dotenv line.
pub fn parse_dotenv_line(line: &str) -> (r: Option<(String, String)>)
    ensures
        r is Some <==> dotenv_entry(line@) is Some,
        r matches Some(p) ==> dotenv_entry(line@) == Some((p.0@, p.1@)),
{
    let n = line.unicode_len();
    let mut e: usize = 0;
    while e < n && line.get_char(e) != '='
        invariant
            n == line@.len(),
            e <= n,
            forall|k: int| 0 <= k < e ==> line@[k] != '=',
        decreases n - e,
    {
        e += 1;
    }
    proof {
        lemma_first_index_is(line@, '=', e as int);
        assert(line@.subrange(0, e as int) =~= line@.take(e as int));
    }
    if e == n {
        return None;
    }
    let key = trim_str(line.substring_char(0, e));
    proof {
        assert(line@.subrange(e + 1, n as int) =~= line@.skip(e + 1));
    }
    let raw = trim_str(line.substring_char(e + 1, n));
    let raw_len = raw.as_str().unicode_len();
    let value = if raw_len >= 2 && raw.as_str().get_char(0) == '"' && raw.as_str().get_char(
        raw_len - 1,
    ) == '"' {
        String::from_str(raw.as_str().substring_char(1, raw_len - 1))
    } else {
        raw
    };
    if key.as_str().unicode_len() == 0 {
        None
    } else {
        Some((key, value))
    }
}

/// The mapping a sequence of dotenv lines denotes; a later line with
/// the same key overwrites an earlier one.
pub open spec fn dotenv_map(lines: Seq<Seq<char>>) -> Map<Seq<char>, Seq<char>>
    decreases lines.len(),
{
    if lines.len() == 0 {
        Map::empty()
    } else {
        let m = dotenv_map(lines.drop_last());
        match dotenv_entry(lines.last()) {
            Option::None => m,
            Option::Some(p) => m.insert(p.0, p.1),
        }
    }
}

/// The mapping a whole dotenv text denotes.
pub open spec fn dotenv_spec(text: Seq<char>) -> Map<Seq<char>, Seq<char>> {
    dotenv_map(split_lines(text))
}

/// Parse dotenv text into an environment list denoting exactly the
/// mapping of the text.
pub fn parse_dotenv(text: &str) -> (r: EnvList)
    ensures
        env_map(r@) == dotenv_spec(text@),
{
    let lines = split_lines_exec(text);
    let ghost dv = lines.deep_view();
    let mut out: EnvList = Vec::new();
    let mut i: usize = 0;
    proof {
        assert(dv.take(0) =~~= Seq::<Seq<char>>::empty());
    }
    while i < lines.len()
        invariant
            dv == lines.deep_view(),
            dv == split_lines(text@),
            i <= lines.len(),
            dv.len() == lines.len(),
            env_map(out@) == dotenv_map(dv.take(i as int)),
        decreases lines.len() - i,
    {
        proof {
            assert(dv[i as int] == lines[i as int]@);
            assert(dv.take(i + 1).drop_last() =~~= dv.take(i as int));
            assert(dv.take(i + 1).last() == dv[i as int]);
        }
        let ghost pre = out@;
        match parse_dotenv_line(lines[i].as_str()) {
            Option::Some(p) => {
                out.push(p);
                proof {
                    assert(out@.drop_last() =~= pre);
                }
            },
            Option::None => {},
        }
        i += 1;
    }
    proof {
        assert(dv.take(i as int) =~~= dv);
    }
    out
}

/// The default working directory given to a configuration that
/// declares none.
pub open spec fn default_cwd() -> Seq<char> {
    "."@
}

/// How a configuration looks after normalization, relative to its
/// parsed form: `cwd` is defaulted when absent, the language is
/// classified from `config_type`, everything else is untouched.
pub open spec fn config_normalized(pre: Configuration, post: Configuration) -> bool {
    &&& post.name == pre.name
    &&& post.config_type == pre.config_type
    &&& post.request == pre.request
    &&& post.program == pre.program
    &&& post.python == pre.python
    &&& post.windows == pre.windows
    &&& post.env == pre.env
    &&& post.env_file == pre.env_file
    &&& post.args == pre.args
    &&& post.command == pre.command
    &&& post.cargo == pre.cargo
    &&& (pre.cwd is Some ==> post.cwd == pre.cwd)
    &&& (pre.cwd is None ==> (post.cwd matches Some(d) && d@ == default_cwd()))
    &&& post.cwd is Some
    &&& post.programming_language == classification(pre.config_type@)
}

/// Normalize one configuration: default an absent `cwd` and classify
/// the programming language from the raw `type` discriminator.
pub fn normalize_configuration(c: Configuration) -> (r: Configuration)
    ensures
        config_normalized(c, r),
{
    let mut r = c;
    if r.cwd.is_none() {
        r.cwd = Some(String::from_str("."));
    }
    r.programming_language = classify(r.config_type.as_str());
    r
}

/// Normalize every configuration of a parsed launch file.
pub fn normalize_launch(l: LaunchJson) -> (r: LaunchJson)
    ensures
        r.version == l.version,
        r.configurations@.len() == l.configurations@.len(),
        forall|i: int|
            0 <= i < l.configurations@.len() ==> config_normalized(
                l.configurations@[i],
                r.configurations@[i],
            ),
{
    let LaunchJson { version, configurations } = l;
    let mut rest = configurations;
    let mut done: Vec<Configuration> = Vec::new();
    let ghost orig = rest@;
    while rest.len() > 0
        invariant
            orig == l.configurations@,
            done@.len() + rest@.len() == orig.len(),
            rest@ == orig.skip(done@.len() as int),
            forall|i: int| 0 <= i < done@.len() ==> config_normalized(orig[i], done@[i]),
        decreases rest.len(),
    {
        let ghost k = done@.len() as int;
        let c = rest.remove(0);
        proof {
            assert(c == orig[k]);
            assert(rest@ =~= orig.skip(k + 1));
        }
        done.push(normalize_configuration(c));
    }
    LaunchJson { version, configurations: done }
}

} // verus!
