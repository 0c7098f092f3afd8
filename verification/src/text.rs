//! What the analytics read out of free text: hints in prompts, signals in log lines, values in
//! tool output and configuration, and masked account identifiers.
use crate::chars::{ascii_lower, chars_of, contains, contains_str, copy_range, count_char_exec, count_char, lower_chars, lower_str, str_eq, string_from_chars, trim, trim_chars};
use vstd::prelude::*;

verus! {

/// Whether a prompt holds code: a fence of three backticks, or at least two backticks.
pub open spec fn code_hint(text: Seq<char>) -> bool {
    contains(text, "```"@) || count_char(text, '`') >= 2
}

/// Whether a prompt holds code.
pub fn contains_code_hint(text: &str) -> (r: bool)
    ensures
        r == code_hint(text@),
{
    let v = chars_of(text);
    contains_str(v.as_slice(), "```") || count_char_exec(v.as_slice(), '`') >= 2
}

/// Whether a prompt names a path: a drive or a backslash, a home, parent or current directory,
/// or a slash that is not part of a web address.
pub open spec fn path_hint(text: Seq<char>) -> bool {
    let lower = ascii_lower(text);
    contains(lower, ":\\"@) || contains(lower, "\\"@) || contains(lower, "~/"@) || contains(lower, "../"@)
        || contains(lower, "./"@) || (contains(lower, "/"@) && !contains(lower, "http://"@) && !contains(
        lower,
        "https://"@,
    ))
}

/// Whether a prompt names a path.
pub fn contains_path_hint(text: &str) -> (r: bool)
    ensures
        r == path_hint(text@),
{
    let v = chars_of(text);
    let lower = lower_chars(v.as_slice());
    let l = lower.as_slice();
    contains_str(l, ":\\") || contains_str(l, "\\") || contains_str(l, "~/") || contains_str(l, "../")
        || contains_str(l, "./") || (contains_str(l, "/") && !contains_str(l, "http://") && !contains_str(
        l,
        "https://",
    ))
}

/// The command names, each with the space that follows it, that mark a prompt as holding a
/// command.
pub open spec fn command_words() -> Seq<Seq<char>> {
    seq![
        "git "@,
        "pnpm "@,
        "npm "@,
        "cargo "@,
        "python "@,
        "node "@,
        "powershell "@,
        "cmd "@,
        "bash "@,
        "uv "@,
        "pytest "@,
        "cd "@,
        "ls "@,
        "dir "@,
        "rg "@,
    ]
}

/// Whether a prompt holds a command: one of the command words, in any case.
pub open spec fn command_hint(text: Seq<char>) -> bool {
    exists|i: int| 0 <= i < command_words().len() && contains(ascii_lower(text), #[trigger] command_words()[i])
}

/// Whether a prompt holds a command.
pub fn contains_command_hint(text: &str) -> (r: bool)
    ensures
        r == command_hint(text@),
{
    let v = chars_of(text);
    let lower = lower_chars(v.as_slice());
    let words = vec![
        "git ",
        "pnpm ",
        "npm ",
        "cargo ",
        "python ",
        "node ",
        "powershell ",
        "cmd ",
        "bash ",
        "uv ",
        "pytest ",
        "cd ",
        "ls ",
        "dir ",
        "rg ",
    ];
    assert(words@.map_values(|w: &str| w@) =~= command_words());
    let mut i: usize = 0;
    while i < words.len()
        invariant
            i <= words@.len(),
            words@.map_values(|w: &str| w@) == command_words(),
            lower@ == ascii_lower(text@),
            forall|j: int| 0 <= j < i ==> !contains(ascii_lower(text@), #[trigger] command_words()[j]),
        decreases words.len() - i,
    {
        assert(words@[i as int]@ == command_words()[i as int]);
        if contains_str(lower.as_slice(), words[i]) {
            return true;
        }
        i += 1;
    }
    false
}

/// Whether a log target, in lower case, belongs to the transport.
pub open spec fn transport_target(target: Seq<char>) -> bool {
    contains(target, "transport"@) || contains(target, "responses_websocket"@) || contains(
        target,
        "stream_events_utils"@,
    ) || contains(target, "codex_core::spawn"@)
}

/// Whether a log target, in lower case, belongs to the transport.
pub fn is_transport_target(target: &str) -> (r: bool)
    ensures
        r == transport_target(target@),
{
    let v = chars_of(target);
    let t = v.as_slice();
    contains_str(t, "transport") || contains_str(t, "responses_websocket") || contains_str(t, "stream_events_utils")
        || contains_str(t, "codex_core::spawn")
}

/// Whether a log line reports a transport error: a transport target, and an error or warning
/// level or a body, in lower case, that speaks of a timeout, a failure, an error or a
/// disconnect.
pub open spec fn transport_error(target: Seq<char>, level: Seq<char>, body: Seq<char>) -> bool {
    transport_target(target) && (ascii_lower(level) == "error"@ || ascii_lower(level) == "warn"@ || contains(
        body,
        "timeout"@,
    ) || contains(body, "failed"@) || contains(body, "error"@) || contains(body, "disconnect"@))
}

/// A level written `warn` or `error` in any mix of upper- and lower-case letters.
pub open spec fn warn_or_error_level(level: Seq<char>) -> bool {
    ||| (level.len() == 4 && (level[0] == 'w' || level[0] == 'W') && (level[1] == 'a' || level[1] == 'A') && (
    level[2] == 'r' || level[2] == 'R') && (level[3] == 'n' || level[3] == 'N'))
    ||| (level.len() == 5 && (level[0] == 'e' || level[0] == 'E') && (level[1] == 'r' || level[1] == 'R') && (
    level[2] == 'r' || level[2] == 'R') && (level[3] == 'o' || level[3] == 'O') && (level[4] == 'r' || level[4]
        == 'R'))
}

/// Only lines of a transport target are transport errors, and every warning or error line of
/// a transport target is one, whatever the case of its level and whatever its body says.
pub proof fn lemma_transport_error_levels(target: Seq<char>, level: Seq<char>, body: Seq<char>)
    ensures
        !transport_target(target) ==> !transport_error(target, level, body),
        transport_target(target) && warn_or_error_level(level) ==> transport_error(target, level, body),
{
    reveal_strlit("warn");
    reveal_strlit("error");
    if warn_or_error_level(level) {
        if level.len() == 4 {
            assert(ascii_lower(level) =~= "warn"@);
        } else {
            assert(ascii_lower(level) =~= "error"@);
        }
    }
}

/// Whether a log line reports a transport error.
pub fn is_transport_error(target: &str, level: &str, body: &str) -> (r: bool)
    ensures
        r == transport_error(target@, level@, body@),
{
    if !is_transport_target(target) {
        return false;
    }
    let level = lower_str(level);
    let v = chars_of(body);
    let b = v.as_slice();
    str_eq(level.as_str(), "error") || str_eq(level.as_str(), "warn") || contains_str(b, "timeout") || contains_str(
        b,
        "failed",
    ) || contains_str(b, "error") || contains_str(b, "disconnect")
}

/// The service tier that a log body, in lower case, speaks of, if it speaks of one.
pub open spec fn service_tier(body: Seq<char>) -> Option<Seq<char>> {
    if !contains(body, "service_tier"@) && !contains(body, "service tier"@) {
        None
    } else if contains(body, "fast"@) {
        Some("Fast"@)
    } else if contains(body, "standard"@) || contains(body, "default"@) {
        Some("Standard"@)
    } else if contains(body, "slow"@) {
        Some("Slow"@)
    } else {
        Some("Unknown"@)
    }
}

/// The service tier that a log body, in lower case, speaks of.
pub fn parse_service_tier(body: &str) -> (r: Option<String>)
    ensures
        match r {
            Some(t) => service_tier(body@) == Some(t@),
            None => service_tier(body@) is None,
        },
{
    let v = chars_of(body);
    let b = v.as_slice();
    if !contains_str(b, "service_tier") && !contains_str(b, "service tier") {
        return None;
    }
    if contains_str(b, "fast") {
        Some("Fast".to_owned())
    } else if contains_str(b, "standard") || contains_str(b, "default") {
        Some("Standard".to_owned())
    } else if contains_str(b, "slow") {
        Some("Slow".to_owned())
    } else {
        Some("Unknown".to_owned())
    }
}

/// Whether a character ends a value in a log body.
pub open spec fn ends_log_value(c: char) -> bool {
    c == '}' || c == ',' || c == ')' || c == '"' || c == '\'' || c == '\n' || c == '\r'
}

/// The first position of `needle` in `hay`, if it occurs.
pub open spec fn first_occurrence(hay: Seq<char>, needle: Seq<char>) -> Option<int> {
    if contains(hay, needle) {
        Some(
            choose|i: int|
                crate::chars::occurs_at(hay, needle, i) && forall|j: int|
                    0 <= j < i ==> !crate::chars::occurs_at(hay, needle, j),
        )
    } else {
        None
    }
}

/// The working directory that a log body names after its first `cwd=`, up to the first
/// closing bracket, comma, quote or line break, trimmed; none when there is none or it is
/// blank.
pub open spec fn log_cwd(body: Seq<char>) -> Option<Seq<char>> {
    match first_occurrence(body, "cwd="@) {
        None => None,
        Some(p) => {
            let tail = body.skip(p + 4);
            let end = if exists|k: int| 0 <= k < tail.len() && ends_log_value(tail[k]) {
                choose|k: int|
                    0 <= k < tail.len() && ends_log_value(tail[k]) && forall|j: int| 0 <= j < k ==> !ends_log_value(tail[j])
            } else {
                tail.len() as int
            };
            let value = trim(tail.take(end));
            if value.len() == 0 {
                None
            } else {
                Some(value)
            }
        },
    }
}

/// The working directory that a log body names.
pub fn extract_cwd_from_log(body: &str) -> (r: Option<String>)
    ensures
        match r {
            Some(v) => log_cwd(body@) == Some(v@),
            None => log_cwd(body@) is None,
        },
{
    let v = chars_of(body);
    let marker = chars_of("cwd=");
    let p = match crate::chars::find_from(v.as_slice(), marker.as_slice(), 0) {
        Some(p) => p,
        None => {
            assert(!contains(body@, "cwd="@));
            return None;
        },
    };
    proof {
        reveal_strlit("cwd=");
        assert(p + 4 <= v@.len());
        assert(contains(body@, "cwd="@));
        let q = choose|i: int|
            crate::chars::occurs_at(body@, "cwd="@, i) && forall|j: int|
                0 <= j < i ==> !crate::chars::occurs_at(body@, "cwd="@, j);
        if q < p {
        } else if q > p {
        }
        assert(q == p);
    }
    let n = v.len();
    assert(p + 4 <= n);
    let start = p + 4;
    let ghost tail = body@.skip(start as int);
    let mut end = start;
    while end < v.len() && !(v[end] == '}' || v[end] == ',' || v[end] == ')' || v[end] == '"' || v[end] == '\''
        || v[end] == '\n' || v[end] == '\r')
        invariant
            start <= end <= v@.len(),
            v@ == body@,
            tail == body@.skip(start as int),
            forall|j: int| 0 <= j < end - start ==> !ends_log_value(tail[j]),
        decreases v.len() - end,
    {
        end += 1;
    }
    proof {
        let k = end - start;
        if end < v.len() {
            assert(ends_log_value(tail[k as int]));
            let c = choose|c: int|
                0 <= c < tail.len() && ends_log_value(tail[c]) && forall|j: int| 0 <= j < c ==> !ends_log_value(tail[j]);
            if c < k {
            } else if c > k {
            }
            assert(c == k);
        } else {
            assert(!exists|c: int| 0 <= c < tail.len() && ends_log_value(tail[c]));
        }
        assert(tail.take(k as int) == v@.subrange(start as int, end as int));
    }
    let slice = copy_range(v.as_slice(), start, end);
    let value = trim_chars(slice.as_slice());
    if value.len() == 0 {
        None
    } else {
        Some(string_from_chars(value.as_slice()))
    }
}

/// The position of the first `c` in `t`, or the length of `t` when there is none.
pub open spec fn first_index_of(t: Seq<char>, c: char) -> int
    decreases t.len(),
{
    if t.len() == 0 {
        0
    } else if t[0] == c {
        0
    } else {
        1 + first_index_of(t.drop_first(), c)
    }
}

proof fn lemma_first_index_of(t: Seq<char>, c: char, k: int)
    requires
        0 <= k <= t.len(),
        forall|j: int| 0 <= j < k ==> t[j] != c,
        k == t.len() || t[k] == c,
    ensures
        first_index_of(t, c) == k,
    decreases t.len(),
{
    if t.len() > 0 && k > 0 {
        lemma_first_index_of(t.drop_first(), c, k - 1);
    }
}

/// Where the first occurrence of a character is.
pub proof fn lemma_first_index_of_bounds(t: Seq<char>, c: char)
    ensures
        0 <= first_index_of(t, c) <= t.len(),
        first_index_of(t, c) < t.len() ==> t[first_index_of(t, c)] == c,
        forall|j: int| 0 <= j < first_index_of(t, c) ==> t[j] != c,
    decreases t.len(),
{
    if t.len() > 0 && t[0] != c {
        lemma_first_index_of_bounds(t.drop_first(), c);
        assert forall|j: int| 0 <= j < first_index_of(t, c) implies t[j] != c by {
            if j > 0 {
                assert(t[j] == t.drop_first()[j - 1]);
            }
        }
    }
}

/// A line without the carriage return that ended it.
pub open spec fn strip_cr(line: Seq<char>) -> Seq<char> {
    if line.len() > 0 && line.last() == '\r' {
        line.drop_last()
    } else {
        line
    }
}

/// The lines of a text, as `str::lines` gives them: split at each line feed, a carriage
/// return before the line feed dropped, and no empty line after a final line feed.
pub open spec fn lines_of(s: Seq<char>) -> Seq<Seq<char>>
    decreases s.len(),
{
    if s.len() == 0 {
        Seq::empty()
    } else {
        let i = first_index_of(s, '\n');
        if i >= s.len() {
            seq![s]
        } else {
            proof {
                lemma_first_index_of_bounds(s, '\n');
            }
            seq![strip_cr(s.take(i))] + lines_of(s.skip(i + 1))
        }
    }
}

/// The lines of a text.
pub fn lines_exec(v: &[char]) -> (r: Vec<Vec<char>>)
    ensures
        r@.map_values(|l: Vec<char>| l@) == lines_of(v@),
{
    let mut r: Vec<Vec<char>> = Vec::new();
    let mut start: usize = 0;
    let mut i: usize = 0;
    assert(v@.skip(0) == v@);
    while i < v.len()
        invariant
            start <= i <= v@.len(),
            forall|j: int| start <= j < i ==> v@[j] != '\n',
            lines_of(v@) == r@.map_values(|l: Vec<char>| l@) + lines_of(v@.skip(start as int)),
        decreases v.len() - i,
    {
        if v[i] == '\n' {
            let ghost t = v@.skip(start as int);
            proof {
                lemma_first_index_of(t, '\n', i - start);
                assert(t.take(i - start) == v@.subrange(start as int, i as int));
                assert(t.skip(i - start + 1) == v@.skip(i + 1));
            }
            let mut end = i;
            if end > start && v[end - 1] == '\r' {
                end = end - 1;
            }
            let line = copy_range(v, start, end);
            let ghost before = r@.map_values(|l: Vec<char>| l@);
            r.push(line);
            proof {
                assert(line@ == strip_cr(t.take(i - start)));
                assert(r@.map_values(|l: Vec<char>| l@) == before.push(line@));
                assert(lines_of(t) == seq![line@] + lines_of(v@.skip(i + 1)));
                assert(before + lines_of(t) == r@.map_values(|l: Vec<char>| l@) + lines_of(v@.skip(i + 1)));
            }
            start = i + 1;
        }
        i += 1;
    }
    if start < v.len() {
        let ghost t = v@.skip(start as int);
        proof {
            lemma_first_index_of(t, '\n', t.len() as int);
            assert(t == v@.subrange(start as int, v@.len() as int));
        }
        let line = copy_range(v, start, v.len());
        let ghost before = r@.map_values(|l: Vec<char>| l@);
        r.push(line);
        assert(r@.map_values(|l: Vec<char>| l@) == before.push(line@));
        assert(lines_of(t) == seq![line@]);
    } else {
        assert(v@.skip(start as int).len() == 0);
        assert(r@.map_values(|l: Vec<char>| l@) + Seq::<Seq<char>>::empty() == r@.map_values(|l: Vec<char>| l@));
    }
    r
}

/// What follows `prefix` in the first line that starts with it.
pub open spec fn after_prefix_in(lines: Seq<Seq<char>>, prefix: Seq<char>) -> Option<Seq<char>>
    decreases lines.len(),
{
    if lines.len() == 0 {
        None
    } else if crate::chars::starts_with(lines[0], prefix) {
        Some(lines[0].skip(prefix.len() as int))
    } else {
        after_prefix_in(lines.drop_first(), prefix)
    }
}

/// The exit code that a tool's output reports on its first `Exit code:` line, if it is a
/// number.
pub open spec fn exit_code_of(output: Seq<char>) -> Option<i64> {
    match after_prefix_in(lines_of(output), "Exit code:"@) {
        Some(rest) => crate::numbers::parsed_i64(trim(rest)),
        None => None,
    }
}

/// The exit code that a tool's output reports.
pub fn parse_function_call_exit_code(output: &str) -> (r: Option<i64>)
    ensures
        r == exit_code_of(output@),
{
    let v = chars_of(output);
    let lines = lines_exec(v.as_slice());
    let ghost ls = lines@.map_values(|l: Vec<char>| l@);
    let prefix = chars_of("Exit code:");
    let mut i: usize = 0;
    assert(ls.skip(0) == ls);
    while i < lines.len()
        invariant
            i <= lines@.len(),
            ls == lines@.map_values(|l: Vec<char>| l@),
            ls == lines_of(output@),
            prefix@ == "Exit code:"@,
            after_prefix_in(ls, "Exit code:"@) == after_prefix_in(ls.skip(i as int), "Exit code:"@),
        decreases lines.len() - i,
    {
        assert(ls.skip(i as int)[0] == lines@[i as int]@);
        assert(ls.skip(i as int).drop_first() == ls.skip(i as int + 1));
        if crate::chars::occurs_at_exec(lines[i].as_slice(), prefix.as_slice(), 0) {
            let n = lines[i].len();
            let rest = copy_range(lines[i].as_slice(), prefix.len(), n);
            assert(rest@ == lines@[i as int]@.skip(prefix@.len() as int));
            let t = trim_chars(rest.as_slice());
            return crate::numbers::parse_i64(t.as_slice());
        }
        i += 1;
    }
    None
}

/// `s` without the double quotes at its start and its end.
pub open spec fn strip_quotes(s: Seq<char>) -> Seq<char>
    decreases s.len(),
{
    if s.len() > 0 && s[0] == '"' {
        strip_quotes(s.drop_first())
    } else if s.len() > 0 && s.last() == '"' {
        strip_quotes(s.drop_last())
    } else {
        s
    }
}

fn strip_quotes_exec(v: &[char]) -> (r: Vec<char>)
    ensures
        r@ == strip_quotes(v@),
{
    let mut a: usize = 0;
    let mut b: usize = v.len();
    assert(v@.subrange(0, v@.len() as int) == v@);
    while a < b && v[a] == '"'
        invariant
            a <= b <= v@.len(),
            b == v@.len(),
            strip_quotes(v@) == strip_quotes(v@.subrange(a as int, b as int)),
        decreases b - a,
    {
        assert(v@.subrange(a as int, b as int).drop_first() == v@.subrange(a + 1, b as int));
        a += 1;
    }
    while a < b && v[b - 1] == '"'
        invariant
            a <= b <= v@.len(),
            strip_quotes(v@) == strip_quotes(v@.subrange(a as int, b as int)),
            a < b ==> v@[a as int] != '"',
        decreases b - a,
    {
        assert(v@.subrange(a as int, b as int).drop_last() == v@.subrange(a as int, b - 1));
        if a < b - 1 {
            assert(v@.subrange(a as int, b as int)[0] == v@.subrange(a as int, b - 1)[0]);
        }
        b -= 1;
    }
    copy_range(v, a, b)
}

/// The value of `key` in a TOML text: the first line, outside comments and table headers,
/// whose part before its first `=` is `key`, trimmed; the part after it, trimmed and without
/// its quotes.
pub open spec fn toml_value_in(lines: Seq<Seq<char>>, key: Seq<char>) -> Option<Seq<char>>
    decreases lines.len(),
{
    if lines.len() == 0 {
        None
    } else {
        let t = trim(lines[0]);
        let e = first_index_of(t, '=');
        if crate::chars::starts_with(t, "#"@) || crate::chars::starts_with(t, "["@) || e >= t.len() || trim(
            t.take(e),
        ) != key {
            toml_value_in(lines.drop_first(), key)
        } else {
            Some(strip_quotes(trim(t.skip(e + 1))))
        }
    }
}

/// The value of `key` in a TOML text.
pub fn extract_toml_value(contents: &str, key: &str) -> (r: Option<String>)
    ensures
        match r {
            Some(v) => toml_value_in(lines_of(contents@), key@) == Some(v@),
            None => toml_value_in(lines_of(contents@), key@) is None,
        },
{
    let v = chars_of(contents);
    let lines = lines_exec(v.as_slice());
    let ghost ls = lines@.map_values(|l: Vec<char>| l@);
    let mut i: usize = 0;
    assert(ls.skip(0) == ls);
    while i < lines.len()
        invariant
            i <= lines@.len(),
            ls == lines@.map_values(|l: Vec<char>| l@),
            ls == lines_of(contents@),
            toml_value_in(ls, key@) == toml_value_in(ls.skip(i as int), key@),
        decreases lines.len() - i,
    {
        assert(ls.skip(i as int)[0] == lines@[i as int]@);
        assert(ls.skip(i as int).drop_first() == ls.skip(i as int + 1));
        let t = trim_chars(lines[i].as_slice());
        let comment = crate::chars::starts_with_str(t.as_slice(), "#") || crate::chars::starts_with_str(t.as_slice(), "[");
        if !comment {
            let mut e: usize = 0;
            while e < t.len() && t[e] != '='
                invariant
                    e <= t@.len(),
                    forall|j: int| 0 <= j < e ==> t@[j] != '=',
                decreases t.len() - e,
            {
                e += 1;
            }
            proof {
                lemma_first_index_of(t@, '=', e as int);
            }
            if e < t.len() {
                let left = copy_range(t.as_slice(), 0, e);
                let left = trim_chars(left.as_slice());
                if crate::chars::chars_eq_str(left.as_slice(), key) {
                    let right = copy_range(t.as_slice(), e + 1, t.len());
                    assert(right@ == t@.skip(e + 1));
                    let right = trim_chars(right.as_slice());
                    let value = strip_quotes_exec(right.as_slice());
                    return Some(string_from_chars(value.as_slice()));
                }
                assert(left@ == trim(t@.take(e as int)));
            }
        }
        i += 1;
    }
    None
}

/// The first `n` characters of `s`, or all of them.
pub open spec fn first_chars(s: Seq<char>, n: int) -> Seq<char> {
    if s.len() < n {
        s
    } else {
        s.take(n)
    }
}

/// The last `n` characters of `s`, or all of them.
pub open spec fn last_chars(s: Seq<char>, n: int) -> Seq<char> {
    if s.len() < n {
        s
    } else {
        s.skip(s.len() - n)
    }
}

/// An identifier masked: `***` when it takes at most eight bytes, else its first and last four
/// characters around `***`.
pub open spec fn masked_identifier(value: Seq<char>) -> Seq<char> {
    if vstd::utf8::encode_utf8(value).len() <= 8 {
        "***"@
    } else {
        first_chars(value, 4) + "***"@ + last_chars(value, 4)
    }
}

/// Whether the UTF-8 encoding of `v` takes more than `limit` bytes.
fn utf8_longer_than(v: &[char], limit: usize) -> (r: bool)
    ensures
        r == (vstd::utf8::encode_utf8(v@).len() > limit),
{
    let mut acc: usize = 0;
    let mut i: usize = 0;
    assert(v@.skip(0) == v@);
    while i < v.len()
        invariant
            i <= v@.len(),
            acc <= limit,
            vstd::utf8::encode_utf8(v@).len() == acc + vstd::utf8::encode_utf8(v@.skip(i as int)).len(),
        decreases v.len() - i,
    {
        let c = v[i];
        let code = c as u32;
        proof {
            vstd::utf8::char_is_scalar(c);
            assert(v@.skip(i as int)[0] == c);
            assert(v@.skip(i as int).drop_first() == v@.skip(i + 1));
        }
        let width: usize = if code <= 0x7F {
            1
        } else if code <= 0x7FF {
            2
        } else if code <= 0xFFFF {
            3
        } else {
            4
        };
        assert(vstd::utf8::encode_scalar(code).len() == width);
        if width > limit - acc {
            return true;
        }
        acc = acc + width;
        i += 1;
    }
    false
}

fn ends_of(v: &[char], n: usize) -> (r: (Vec<char>, Vec<char>))
    ensures
        r.0@ == first_chars(v@, n as int),
        r.1@ == last_chars(v@, n as int),
{
    if v.len() < n {
        (copy_range(v, 0, v.len()), copy_range(v, 0, v.len()))
    } else {
        (copy_range(v, 0, n), copy_range(v, v.len() - n, v.len()))
    }
}

/// An identifier masked.
pub fn mask_identifier(value: &str) -> (r: String)
    ensures
        r@ == masked_identifier(value@),
{
    let v = chars_of(value);
    if !utf8_longer_than(v.as_slice(), 8) {
        return "***".to_owned();
    }
    let (head, tail) = ends_of(v.as_slice(), 4);
    let mut out = string_from_chars(head.as_slice());
    out.append("***");
    let t = string_from_chars(tail.as_slice());
    out.append(t.as_str());
    out
}

/// An email address masked: the first and last two characters of the local part around
/// `***`, then the domain; an address without `@` is masked as an identifier.
pub open spec fn masked_email(email: Seq<char>) -> Seq<char> {
    let at = first_index_of(email, '@');
    if at >= email.len() {
        masked_identifier(email)
    } else {
        let local = email.take(at);
        first_chars(local, 2) + "***"@ + last_chars(local, 2) + "@"@ + email.skip(at + 1)
    }
}

/// An email address masked.
pub fn mask_email(email: &str) -> (r: String)
    ensures
        r@ == masked_email(email@),
{
    let v = chars_of(email);
    let mut at: usize = 0;
    while at < v.len() && v[at] != '@'
        invariant
            at <= v@.len(),
            v@ == email@,
            forall|j: int| 0 <= j < at ==> v@[j] != '@',
        decreases v.len() - at,
    {
        at += 1;
    }
    proof {
        lemma_first_index_of(v@, '@', at as int);
    }
    if at == v.len() {
        return mask_identifier(email);
    }
    let local = copy_range(v.as_slice(), 0, at);
    let domain = copy_range(v.as_slice(), at + 1, v.len());
    let (head, tail) = ends_of(local.as_slice(), 2);
    let mut out = string_from_chars(head.as_slice());
    out.append("***");
    let t = string_from_chars(tail.as_slice());
    out.append(t.as_str());
    out.append("@");
    let d = string_from_chars(domain.as_slice());
    out.append(d.as_str());
    assert(domain@ == email@.skip(at + 1));
    out
}

} // verus!
