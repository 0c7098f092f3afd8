//! Project and workspace names derived from working-directory paths.
//!
//! Paths are treated as text: both `/` and `\` separate components, whatever the host.
use vstd::prelude::*;
use crate::chars::{
    ascii_lower, chars_of, eq_ignore_ascii_case, eq_ignore_case_str, is_blank, is_blank_str, is_whitespace,
    is_ws, lower_chars, lower_str, str_eq, string_from_chars, trim, trim_bounds, trim_chars, trim_end, trim_start, trim_str,
};

verus! {

/// A path separator, on any host.
pub open spec fn is_sep(c: char) -> bool {
    c == '/' || c == '\\'
}

/// `s` without its trailing separators: `trim_end_matches(['/', '\\'])`.
pub open spec fn trim_end_seps(s: Seq<char>) -> Seq<char>
    decreases s.len(),
{
    if s.len() > 0 && is_sep(s.last()) {
        trim_end_seps(s.drop_last())
    } else {
        s
    }
}

/// Where the last segment of `s` starts: just after its last separator, or at 0.
pub open spec fn last_segment_start(s: Seq<char>) -> int
    decreases s.len(),
{
    if s.len() == 0 {
        0
    } else if is_sep(s.last()) {
        s.len() as int
    } else {
        last_segment_start(s.drop_last())
    }
}

/// The last segment of a text starts within it.
pub proof fn lemma_segment_start_bounds(s: Seq<char>)
    ensures
        0 <= last_segment_start(s) <= s.len(),
    decreases s.len(),
{
    if s.len() > 0 && !is_sep(s.last()) {
        lemma_segment_start_bounds(s.drop_last());
    }
}

/// The last segment of `s`, split at separators, that is not blank; scanning from the end
/// as `rsplit(..).find(..)` does.
pub open spec fn last_nonblank_segment(s: Seq<char>) -> Option<Seq<char>>
    decreases s.len(),
{
    let k = last_segment_start(s);
    proof {
        lemma_segment_start_bounds(s);
    }
    let seg = s.subrange(k, s.len() as int);
    if !is_blank(seg) {
        Some(seg)
    } else if k <= 0 {
        None
    } else {
        last_nonblank_segment(s.subrange(0, k - 1))
    }
}

/// The last named component of a path given as text.
pub open spec fn last_component(value: Seq<char>) -> Option<Seq<char>> {
    let t = trim_end_seps(trim(value));
    if t.len() == 0 {
        None
    } else {
        last_nonblank_segment(t)
    }
}

/// A character with `\` turned into `/`.
pub open spec fn slash(c: char) -> char {
    if c == '\\' {
        '/'
    } else {
        c
    }
}

/// `value.trim().replace('\\', "/").to_ascii_lowercase()`.
pub open spec fn normalized_workspace(value: Seq<char>) -> Seq<char> {
    ascii_lower(trim(value).map_values(|c: char| slash(c)))
}

/// The key that identifies a project: its last component, lower-cased.
pub open spec fn project_key_of(value: Seq<char>) -> Seq<char> {
    match last_component(value) {
        Some(item) => ascii_lower(item),
        None => ascii_lower(value),
    }
}

/// The display label of a project directory.
pub open spec fn project_label_of(value: Seq<char>) -> Seq<char> {
    match last_component(value) {
        Some(item) => if !is_blank(item) {
            item
        } else {
            trim(value)
        },
        None => trim(value),
    }
}

/// The display label of an optional project directory.
pub open spec fn project_label_of_option(value: Option<Seq<char>>) -> Seq<char> {
    match value {
        Some(v) => if !is_blank(project_label_of(v)) {
            project_label_of(v)
        } else {
            "Unknown"@
        },
        None => "Unknown"@,
    }
}

/// The project filter that a user's selection stands for: `None` for no filter.
pub open spec fn project_filter_of(value: Option<Seq<char>>) -> Option<Seq<char>> {
    match value {
        Some(v) => if trim(v).len() != 0 && !eq_ignore_ascii_case(trim(v), "all"@) {
            Some(ascii_lower(trim(v)))
        } else {
            None
        },
        None => None,
    }
}

/// Whether a session's working directory belongs to the selected project.
pub open spec fn project_matches(cwd: Option<Seq<char>>, selected: Option<Seq<char>>) -> bool {
    match selected {
        None => true,
        Some(sel) => match cwd {
            Some(c) => project_key_of(normalized_workspace(c)) == sel,
            None => false,
        },
    }
}

fn is_separator(c: char) -> (b: bool)
    ensures
        b == is_sep(c),
{
    c == '/' || c == '\\'
}

proof fn lemma_trim_end_seps_take(s: Seq<char>, k: int)
    requires
        0 <= k <= s.len(),
        forall|j: int| k <= j < s.len() ==> is_sep(#[trigger] s[j]),
    ensures
        trim_end_seps(s) == trim_end_seps(s.take(k)),
    decreases s.len() - k,
{
    if k < s.len() {
        assert(s.take(s.len() - 1) == s.drop_last());
        lemma_trim_end_seps_take(s.drop_last(), k);
        assert(s.drop_last().take(k) == s.take(k));
    } else {
        assert(s.take(k) == s);
    }
}

proof fn lemma_segment_start(s: Seq<char>, k: int)
    requires
        0 <= k <= s.len(),
        k == 0 || is_sep(s[k - 1]),
        forall|j: int| k <= j < s.len() ==> !is_sep(#[trigger] s[j]),
    ensures
        last_segment_start(s) == k,
    decreases s.len(),
{
    if s.len() > k {
        lemma_segment_start(s.drop_last(), k);
    }
}

/// Whether every character of `v[from..to]` is white space.
fn all_ws(v: &[char], from: usize, to: usize) -> (b: bool)
    requires
        from <= to <= v@.len(),
    ensures
        b == is_blank(v@.subrange(from as int, to as int)),
{
    let mut i = from;
    while i < to
        invariant
            from <= i <= to <= v@.len(),
            forall|j: int| from <= j < i ==> is_ws(#[trigger] v@[j]),
        decreases to - i,
    {
        if !is_whitespace(v[i]) {
            assert(!is_ws(v@.subrange(from as int, to as int)[i - from]));
            return false;
        }
        i += 1;
    }
    assert forall|j: int| 0 <= j < to - from implies is_ws(
        #[trigger] v@.subrange(from as int, to as int)[j],
    ) by {
        assert(v@.subrange(from as int, to as int)[j] == v@[from + j]);
    }
    true
}

/// The last named component of a path, both `/` and `\` separating components.
pub fn last_path_component(value: &str) -> (r: Option<&str>)
    ensures
        match r {
            Some(item) => last_component(value@) == Some(item@),
            None => last_component(value@) is None,
        },
{
    let v = chars_of(value);
    let (a, b0) = trim_bounds(v.as_slice());
    let ghost tr = v@.subrange(a as int, b0 as int);
    let mut b = b0;
    while b > a && is_separator(v[b - 1])
        invariant
            a <= b <= b0 <= v@.len(),
            tr == v@.subrange(a as int, b0 as int),
            forall|j: int| b <= j < b0 ==> is_sep(#[trigger] v@[j]),
        decreases b,
    {
        b -= 1;
    }
    let ghost t = v@.subrange(a as int, b as int);
    proof {
        assert forall|j: int| (b - a) <= j < tr.len() implies is_sep(#[trigger] tr[j]) by {
            assert(tr[j] == v@[a + j]);
        }
        lemma_trim_end_seps_take(tr, (b - a) as int);
        assert(tr.take((b - a) as int) == t);
        if t.len() > 0 {
            assert(t.last() == v@[b - 1]);
        }
        assert(trim_end_seps(t) == t);
    }
    if a == b {
        return None;
    }
    let mut end = b;
    loop
        invariant
            a < end <= b <= v@.len(),
            v@ == value@,
            t == v@.subrange(a as int, b as int),
            trim_end_seps(trim(value@)) == t,
            t.len() > 0,
            last_nonblank_segment(t) == last_nonblank_segment(
                v@.subrange(a as int, end as int),
            ),
        decreases end,
    {
        let ghost cur = v@.subrange(a as int, end as int);
        let mut k = end;
        while k > a && !is_separator(v[k - 1])
            invariant
                a <= k <= end <= v@.len(),
                forall|j: int| k <= j < end ==> !is_sep(#[trigger] v@[j]),
            decreases k,
        {
            k -= 1;
        }
        proof {
            assert forall|j: int| (k - a) <= j < cur.len() implies !is_sep(#[trigger] cur[j]) by {
                assert(cur[j] == v@[a + j]);
            }
            if k > a {
                assert(cur[k - a - 1] == v@[k - 1]);
            }
            lemma_segment_start(cur, (k - a) as int);
            assert(cur.subrange((k - a) as int, cur.len() as int) == v@.subrange(
                k as int,
                end as int,
            ));
        }
        if !all_ws(v.as_slice(), k, end) {
            let item = value.substring_char(k, end);
            return Some(item);
        }
        if k == a {
            return None;
        }
        proof {
            assert(cur.subrange(0, k - a - 1) == v@.subrange(a as int, k - 1));
        }
        end = k - 1;
        if end == a {
            proof {
                let e = v@.subrange(a as int, a as int);
                assert(last_segment_start(e) == 0);
                assert(is_blank(e.subrange(0, 0)));
            }
            return None;
        }
    }
}

/// `value.trim().replace('\\', "/").to_ascii_lowercase()`.
pub fn normalize_workspace(value: &str) -> (r: String)
    ensures
        r@ == normalized_workspace(value@),
{
    let v = chars_of(value);
    let t = trim_chars(v.as_slice());
    let mut s: Vec<char> = Vec::new();
    let mut i: usize = 0;
    while i < t.len()
        invariant
            i <= t@.len(),
            s@ == t@.take(i as int).map_values(|c: char| slash(c)),
        decreases t.len() - i,
    {
        let c = t[i];
        s.push(if c == '\\' {
            '/'
        } else {
            c
        });
        assert(t@.take(i as int + 1) == t@.take(i as int).push(c));
        i += 1;
    }
    assert(t@.take(t@.len() as int) == t@);
    let l = lower_chars(s.as_slice());
    string_from_chars(l.as_slice())
}

/// The key that identifies a project: the last component, lower-cased.
pub fn project_key(value: &str) -> (r: String)
    ensures
        r@ == project_key_of(value@),
{
    match last_path_component(value) {
        Some(item) => lower_str(item),
        None => lower_str(value),
    }
}

/// The display label of a project directory: its last component, or the trimmed path.
pub fn project_label_from_cwd(value: &str) -> (r: String)
    ensures
        r@ == project_label_of(value@),
{
    match last_path_component(value) {
        Some(item) => {
            if !is_blank_str(item) {
                return item.to_owned();
            }
            trim_str(value)
        },
        None => trim_str(value),
    }
}

/// The display label of an optional project directory, `"Unknown"` when there is none.
pub fn project_label_from_option(value: Option<&str>) -> (r: String)
    ensures
        r@ == project_label_of_option(
            match value {
                Some(v) => Some(v@),
                None => None,
            },
        ),
{
    match value {
        Some(v) => {
            let label = project_label_from_cwd(v);
            if !is_blank_str(label.as_str()) {
                return label;
            }
            "Unknown".to_owned()
        },
        None => "Unknown".to_owned(),
    }
}

/// The project filter that a selection stands for; blank and `all` select every project.
pub fn normalize_project_filter(value: Option<&str>) -> (r: Option<String>)
    ensures
        match r {
            Some(s) => project_filter_of(
                match value {
                    Some(v) => Some(v@),
                    None => None,
                },
            ) == Some(s@),
            None => project_filter_of(
                match value {
                    Some(v) => Some(v@),
                    None => None,
                },
            ) is None,
        },
{
    match value {
        Some(v) => {
            let t = trim_str(v);
            if t.as_str().is_empty() || eq_ignore_case_str(t.as_str(), "all") {
                None
            } else {
                Some(lower_str(t.as_str()))
            }
        },
        None => None,
    }
}

/// Whether a working directory belongs to the selected project; every directory does when
/// no project is selected.
pub fn matches_project_filter(cwd: Option<&str>, selected_project: Option<&str>) -> (b: bool)
    ensures
        b == project_matches(
            match cwd {
                Some(c) => Some(c@),
                None => None,
            },
            match selected_project {
                Some(s) => Some(s@),
                None => None,
            },
        ),
{
    match selected_project {
        None => true,
        Some(sel) => match cwd {
            Some(c) => {
                let n = normalize_workspace(c);
                let k = project_key(n.as_str());
                str_eq(k.as_str(), sel)
            },
            None => false,
        },
    }
}

/// A text with every `\\` turned into `/`.
pub open spec fn with_slashes(s: Seq<char>) -> Seq<char> {
    s.map_values(|c: char| slash(c))
}

proof fn lemma_slashes_drop(s: Seq<char>)
    requires
        s.len() > 0,
    ensures
        with_slashes(s).drop_first() == with_slashes(s.drop_first()),
        with_slashes(s).drop_last() == with_slashes(s.drop_last()),
        with_slashes(s)[0] == slash(s[0]),
        with_slashes(s).last() == slash(s.last()),
{
    assert(with_slashes(s).drop_first() =~= with_slashes(s.drop_first()));
    assert(with_slashes(s).drop_last() =~= with_slashes(s.drop_last()));
}

proof fn lemma_trim_slashes(s: Seq<char>)
    ensures
        trim_start(with_slashes(s)) == with_slashes(trim_start(s)),
        trim_end(with_slashes(s)) == with_slashes(trim_end(s)),
        trim(with_slashes(s)) == with_slashes(trim(s)),
    decreases s.len(),
{
    if s.len() > 0 {
        lemma_slashes_drop(s);
        lemma_trim_slashes(s.drop_first());
        lemma_trim_slashes(s.drop_last());
    }
    if trim_start(s).len() > 0 {
        lemma_trim_slashes_end(trim_start(s));
    } else {
        lemma_trim_slashes_end(trim_start(s));
    }
}

proof fn lemma_trim_slashes_end(s: Seq<char>)
    ensures
        trim_end(with_slashes(s)) == with_slashes(trim_end(s)),
    decreases s.len(),
{
    if s.len() > 0 {
        lemma_slashes_drop(s);
        lemma_trim_slashes_end(s.drop_last());
    }
}

proof fn lemma_seps_slashes(s: Seq<char>)
    ensures
        trim_end_seps(with_slashes(s)) == with_slashes(trim_end_seps(s)),
        last_segment_start(with_slashes(s)) == last_segment_start(s),
    decreases s.len(),
{
    if s.len() > 0 {
        lemma_slashes_drop(s);
        lemma_seps_slashes(s.drop_last());
    }
}

proof fn lemma_segment_has_no_sep(s: Seq<char>, j: int)
    requires
        last_segment_start(s) <= j < s.len(),
    ensures
        !is_sep(s[j]),
    decreases s.len(),
{
    lemma_segment_start_bounds(s);
    if s.len() > 0 && !is_sep(s.last()) && j < s.len() - 1 {
        lemma_segment_has_no_sep(s.drop_last(), j);
        assert(s.drop_last()[j] == s[j]);
    }
}

proof fn lemma_nonblank_segment_nonblank(s: Seq<char>)
    ensures
        last_nonblank_segment(s) matches Some(x) ==> !is_blank(x),
    decreases s.len(),
{
    let k = last_segment_start(s);
    lemma_segment_start_bounds(s);
    if k > 0 {
        lemma_nonblank_segment_nonblank(s.subrange(0, k - 1));
    }
}

proof fn lemma_nonblank_slashes(s: Seq<char>)
    ensures
        last_nonblank_segment(with_slashes(s)) == last_nonblank_segment(s),
    decreases s.len(),
{
    let k = last_segment_start(s);
    lemma_segment_start_bounds(s);
    lemma_seps_slashes(s);
    let w = with_slashes(s);
    let seg = s.subrange(k, s.len() as int);
    assert forall|j: int| 0 <= j < seg.len() implies w.subrange(k, s.len() as int)[j] == #[trigger] seg[j] by {
        lemma_segment_has_no_sep(s, k + j);
    }
    assert(w.subrange(k, s.len() as int) =~= seg);
    if k > 0 {
        assert(w.subrange(0, k - 1) =~= with_slashes(s.subrange(0, k - 1)));
        lemma_nonblank_slashes(s.subrange(0, k - 1));
    }
}

/// Path analysis does not depend on the separator: where a path names a component, turning its
/// `\\` into `/` changes neither its project key nor its project label; and it never changes the
/// normalised workspace.
pub proof fn lemma_separator_independent(value: Seq<char>)
    ensures
        normalized_workspace(with_slashes(value)) == normalized_workspace(value),
        last_component(value) is Some ==> project_key_of(with_slashes(value)) == project_key_of(value),
        last_component(value) is Some ==> project_label_of(with_slashes(value)) == project_label_of(value),
        last_component(with_slashes(value)) == last_component(value),
{
    lemma_trim_slashes(value);
    lemma_seps_slashes(trim(value));
    lemma_nonblank_slashes(trim_end_seps(trim(value)));
    lemma_nonblank_segment_nonblank(trim_end_seps(trim(value)));
    let t = trim(value);
    assert(with_slashes(t).map_values(|c: char| slash(c)) =~= t.map_values(|c: char| slash(c)));
}

} // verus!
