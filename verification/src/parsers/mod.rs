//! Parsing session files into sessions, raw events and messages.
pub mod codex_session_jsonl;
pub mod generic_json;
pub mod generic_jsonl;
pub mod registry;
use vstd::prelude::*;
use crate::chars::{chars_of, is_blank, is_blank_str, is_whitespace, is_ws, str_eq, string_from_chars};
use crate::models::{
    opt_view, MessageView, ParseWarning, ParsedMessage, ParsedSession, ParserTarget, SessionIndexEntry,
    SessionView,
};
use std::sync::Arc;
use crate::json::{field_text, get_string, get_text, str_field, Json};
use sha2::Digest;

verus! {

/// The instant that an RFC 3339 text denotes, in milliseconds since the Unix epoch, as
/// chrono's `DateTime::parse_from_rfc3339(..).timestamp_millis()` gives it; `None` where chrono
/// refuses the text.
pub uninterp spec fn rfc3339_millis_of(text: Seq<char>) -> Option<i64>;

/// The whole seconds from one RFC 3339 instant to another, as chrono's
/// `(end - start).num_seconds()` gives it; `None` where chrono refuses either text.
pub uninterp spec fn rfc3339_elapsed_of(start: Seq<char>, end: Seq<char>) -> Option<i64>;

/// The RFC 3339 text of a UTC instant given in milliseconds, as chrono's
/// `DateTime::<Utc>::from_timestamp_millis(..).to_rfc3339()` gives it; `None` out of chrono's range.
pub uninterp spec fn utc_rfc3339_of(millis: i64) -> Option<Seq<char>>;

/// The lower-case hexadecimal SHA-256 digest of the UTF-8 encoding of a text, as sha2's
/// `Sha256` hasher formatted with `{:x}` gives it.
pub uninterp spec fn sha256_hex_of(text: Seq<char>) -> Seq<char>;

/// chrono's `DateTime::parse_from_rfc3339`, reduced to `timestamp_millis`.
/// The contract names the result and claims nothing else of it.
#[verifier::external_body]
fn rfc3339_to_millis(value: &str) -> (r: Option<i64>)
    ensures
        r == rfc3339_millis_of(value@),
{
    chrono::DateTime::parse_from_rfc3339(value).ok().map(|t| t.timestamp_millis())
}

/// chrono's `DateTime::parse_from_rfc3339` of two texts, reduced to the whole seconds of their
/// difference (`TimeDelta::num_seconds`). The contract names the result and claims nothing else.
#[verifier::external_body]
fn rfc3339_seconds_between(start: &str, end: &str) -> (r: Option<i64>)
    ensures
        r == rfc3339_elapsed_of(start@, end@),
{
    let start = chrono::DateTime::parse_from_rfc3339(start).ok()?;
    let end = chrono::DateTime::parse_from_rfc3339(end).ok()?;
    Some((end - start).num_seconds())
}

/// chrono's `DateTime::<Utc>::from_timestamp_millis`, rendered with `to_rfc3339`.
/// The contract names the result and claims nothing else of it.
#[verifier::external_body]
fn millis_to_rfc3339(value: i64) -> (r: Option<String>)
    ensures
        match r {
            Some(s) => utc_rfc3339_of(value) == Some(s@),
            None => utc_rfc3339_of(value) is None,
        },
{
    chrono::DateTime::<chrono::Utc>::from_timestamp_millis(value).map(|dt| dt.to_rfc3339())
}

/// sha2's `Sha256` over the bytes of a text, formatted as lower-case hexadecimal.
/// The contract names the digest and claims nothing else of it.
#[verifier::external_body]
fn sha256_hex(text: &str) -> (r: String)
    ensures
        r@ == sha256_hex_of(text@),
{
    let mut hasher = sha2::Sha256::new();
    hasher.update(text);
    format!("{:x}", hasher.finalize())
}

/// The text with every run of white space turned into one space and none at either end:
/// `text.split_whitespace().collect::<Vec<_>>().join(" ")`.
pub open spec fn normalized(s: Seq<char>) -> Seq<char>
    decreases s.len(),
{
    if s.len() == 0 {
        Seq::empty()
    } else if is_ws(s.last()) {
        normalized(s.drop_last())
    } else {
        let p = normalized(s.drop_last());
        if s.len() >= 2 && !is_ws(s[s.len() - 2]) {
            p.push(s.last())
        } else if p.len() == 0 {
            p.push(s.last())
        } else {
            p.push(' ').push(s.last())
        }
    }
}

/// The words of `text` joined by single spaces.
pub fn normalize_text(text: &str) -> (r: String)
    ensures
        r@ == normalized(text@),
{
    let v = chars_of(text);
    let mut out: Vec<char> = Vec::new();
    let mut i: usize = 0;
    while i < v.len()
        invariant
            i <= v@.len(),
            v@ == text@,
            out@ == normalized(v@.take(i as int)),
        decreases v.len() - i,
    {
        let c = v[i];
        let ghost prefix = v@.take(i as int + 1);
        assert(prefix.drop_last() == v@.take(i as int));
        if !is_whitespace(c) {
            if i > 0 && !is_whitespace(v[i - 1]) {
                out.push(c);
            } else if out.len() == 0 {
                out.push(c);
            } else {
                out.push(' ');
                out.push(c);
            }
        }
        i += 1;
    }
    assert(v@.take(v@.len() as int) == v@);
    string_from_chars(out.as_slice())
}

/// The first 16 characters of a seed, used to name sessions that carry no id.
pub fn short_hash(seed: &str) -> (r: String)
    ensures
        r@ == seed@.take(if seed@.len() < 16 {
            seed@.len() as int
        } else {
            16
        }),
{
    let v = chars_of(seed);
    let n = if v.len() < 16 {
        v.len()
    } else {
        16
    };
    let mut out: Vec<char> = Vec::new();
    let mut i: usize = 0;
    while i < n
        invariant
            i <= n <= v@.len(),
            out@ == v@.take(i as int),
        decreases n - i,
    {
        out.push(v[i]);
        assert(v@.take(i as int + 1) == v@.take(i as int).push(v@[i as int]));
        i += 1;
    }
    string_from_chars(out.as_slice())
}

/// A text in the shape that normalising gives, but for at most one space at its end: white
/// space only as single spaces, none first, never two in a row.
pub open spec fn spaced(w: Seq<char>) -> bool {
    &&& forall|i: int| 0 <= i < w.len() && is_ws(#[trigger] w[i]) ==> w[i] == ' ' && i > 0
    &&& forall|i: int| 0 < i < w.len() && is_ws(#[trigger] w[i]) ==> !is_ws(w[i - 1])
}

proof fn lemma_spaced_normal(w: Seq<char>)
    requires
        spaced(w),
    ensures
        normalized(w) == if w.len() > 0 && is_ws(w.last()) {
            w.drop_last()
        } else {
            w
        },
    decreases w.len(),
{
    if w.len() > 0 {
        let d = w.drop_last();
        assert(spaced(d)) by {
            assert forall|i: int| 0 <= i < d.len() && is_ws(#[trigger] d[i]) implies d[i] == ' ' && i > 0 by {
                assert(d[i] == w[i]);
            }
            assert forall|i: int| 0 < i < d.len() && is_ws(#[trigger] d[i]) implies !is_ws(d[i - 1]) by {
                assert(d[i] == w[i] && d[i - 1] == w[i - 1]);
            }
        }
        lemma_spaced_normal(d);
        let n = w.len() - 1;
        if is_ws(w.last()) {
            assert(w[n] == w.last());
            if n > 0 {
                assert(!is_ws(w[n - 1]));
                assert(d.last() == w[n - 1]);
            }
        } else if w.len() >= 2 && is_ws(w[w.len() - 2]) {
            assert(d.last() == w[n - 1]);
            assert(w[n - 1] == ' ' && n - 1 > 0);
            assert(d.drop_last().push(' ').push(w.last()) =~= w);
        } else {
            if w.len() >= 2 {
                assert(d.last() == w[n - 1]);
            }
            assert(d.push(w.last()) =~= w);
        }
    }
}

proof fn lemma_normalized_spaced(s: Seq<char>)
    ensures
        spaced(normalized(s)),
        normalized(s).len() == 0 || !is_ws(normalized(s).last()),
    decreases s.len(),
{
    if s.len() > 0 {
        lemma_normalized_spaced(s.drop_last());
        let p = normalized(s.drop_last());
        let r = normalized(s);
        if !is_ws(s.last()) {
            if s.len() >= 2 && !is_ws(s[s.len() - 2]) || p.len() == 0 {
                assert(r == p.push(s.last()));
                assert forall|i: int| 0 <= i < r.len() && is_ws(#[trigger] r[i]) implies r[i] == ' ' && i > 0 by {
                    assert(r[i] == p[i]);
                }
                assert forall|i: int| 0 < i < r.len() && is_ws(#[trigger] r[i]) implies !is_ws(r[i - 1]) by {
                    assert(r[i] == p[i] && r[i - 1] == p[i - 1]);
                }
            } else {
                let q = p.push(' ');
                assert(r == q.push(s.last()));
                assert(is_ws(' '));
                assert forall|i: int| 0 <= i < r.len() && is_ws(#[trigger] r[i]) implies r[i] == ' ' && i > 0 by {
                    if i < p.len() {
                        assert(r[i] == p[i]);
                    }
                }
                assert forall|i: int| 0 < i < r.len() && is_ws(#[trigger] r[i]) implies !is_ws(r[i - 1]) by {
                    if i < p.len() {
                        assert(r[i] == p[i] && r[i - 1] == p[i - 1]);
                    } else {
                        assert(i == p.len());
                        assert(r[i - 1] == p.last());
                    }
                }
            }
        }
    }
}

/// Normalising a text twice gives what normalising it once gives.
pub proof fn lemma_normalized_idempotent(s: Seq<char>)
    ensures
        normalized(normalized(s)) == normalized(s),
{
    lemma_normalized_spaced(s);
    lemma_spaced_normal(normalized(s));
}

/// A text and its normalised form have the same digest, so messages that differ only in
/// white space are compared as equal.
pub proof fn lemma_digest_ignores_spacing(s: Seq<char>)
    ensures
        message_digest(normalized(s)) == message_digest(s),
{
    lemma_normalized_idempotent(s);
}

/// The digest under which messages are compared: the SHA-256 of the normalised text.
pub open spec fn message_digest(text: Seq<char>) -> Seq<char> {
    sha256_hex_of(normalized(text))
}

/// The hexadecimal SHA-256 of the normalised text.
pub fn message_hash(text: &str) -> (r: String)
    ensures
        r@ == message_digest(text@),
{
    let normalized = normalize_text(text);
    sha256_hex(normalized.as_str())
}

/// The instant of an RFC 3339 text in milliseconds; `None` where it does not parse.
pub fn timestamp_millis(value: &str) -> (r: Option<i64>)
    ensures
        r == rfc3339_millis_of(value@),
{
    rfc3339_to_millis(value)
}

/// The whole seconds from `start` to `end`, never negative; `None` where either does not parse.
pub fn diff_seconds(start: &str, end: &str) -> (r: Option<i64>)
    ensures
        r == match rfc3339_elapsed_of(start@, end@) {
            Some(d) => Some(if d < 0 {
                0i64
            } else {
                d
            }),
            None => None,
        },
{
    match rfc3339_seconds_between(start, end) {
        Some(d) => Some(if d < 0 {
            0
        } else {
            d
        }),
        None => None,
    }
}

/// The RFC 3339 text of a UTC instant given in milliseconds.
pub fn iso_from_millis(value: i64) -> (r: Option<String>)
    ensures
        match r {
            Some(s) => utc_rfc3339_of(value) == Some(s@),
            None => utc_rfc3339_of(value) is None,
        },
{
    millis_to_rfc3339(value)
}

/// Whether two message instants count as the same moment: both absent, or within two seconds.
pub open spec fn overlapping(left: Option<i64>, right: Option<i64>) -> bool {
    match (left, right) {
        (Some(l), Some(r)) => -2000 <= l - r <= 2000,
        (None, None) => true,
        _ => false,
    }
}

/// Whether two message instants count as the same moment.
pub fn timestamps_overlap(left: Option<i64>, right: Option<i64>) -> (b: bool)
    ensures
        b == overlapping(left, right),
{
    match (left, right) {
        (Some(l), Some(r)) => {
            let d: i128 = l as i128 - r as i128;
            -2000 <= d && d <= 2000
        },
        (None, None) => true,
        _ => false,
    }
}

/// The text of an optional string; empty where there is none.
pub open spec fn opt_chars(o: Option<Seq<char>>) -> Seq<char> {
    match o {
        Some(s) => s,
        None => Seq::empty(),
    }
}

/// The texts of a list of messages.
pub open spec fn message_views(ms: Seq<ParsedMessage>) -> Seq<MessageView> {
    ms.map_values(|m: ParsedMessage| m@)
}

/// The key under which two messages are the same message:
/// role, kind, turn, tool, phase and the digest of the normalised text, separated by `|`.
pub open spec fn message_key(m: MessageView) -> Seq<char> {
    opt_chars(m.role) + "|"@ + m.kind + "|"@ + opt_chars(m.turn_id) + "|"@ + opt_chars(
        m.tool_name,
    ) + "|"@ + opt_chars(m.phase) + "|"@ + message_digest(opt_chars(m.text))
}

/// The instant of a message in milliseconds, where its timestamp parses.
pub open spec fn message_instant(m: MessageView) -> Option<i64> {
    match m.ts {
        Some(t) => rfc3339_millis_of(t),
        None => None,
    }
}

/// Whether `m` repeats one of `kept`: the same key at an overlapping instant.
pub open spec fn repeats(kept: Seq<MessageView>, m: MessageView) -> bool {
    exists|k: int|
        0 <= k < kept.len() && message_key(#[trigger] kept[k]) == message_key(m) && overlapping(
            message_instant(kept[k]),
            message_instant(m),
        )
}

/// The messages that remain after duplicates are dropped: in order, each message is kept
/// unless it repeats a message kept before it.
pub open spec fn deduped(ms: Seq<MessageView>) -> Seq<MessageView>
    decreases ms.len(),
{
    if ms.len() == 0 {
        Seq::empty()
    } else {
        let prev = deduped(ms.drop_last());
        if repeats(prev, ms.last()) {
            prev
        } else {
            prev.push(ms.last())
        }
    }
}

/// `keys` and `stamps` hold the key and the instant of each kept message.
pub open spec fn keys_match(keys: Seq<String>, stamps: Seq<Option<i64>>, kept: Seq<MessageView>) -> bool {
    &&& keys.len() == kept.len()
    &&& stamps.len() == kept.len()
    &&& forall|j: int| 0 <= j < kept.len() ==> #[trigger] keys[j]@ == message_key(kept[j]) && stamps[j] == message_instant(kept[j])
}

/// A copy of an optional string.
pub fn clone_opt(o: &Option<String>) -> (r: Option<String>)
    ensures
        r == *o,
{
    match o {
        Some(s) => Some(s.clone()),
        None => None,
    }
}

/// A copy of a message.
pub fn clone_message(m: &ParsedMessage) -> (r: ParsedMessage)
    ensures
        r == *m,
{
    ParsedMessage {
        turn_id: clone_opt(&m.turn_id),
        role: clone_opt(&m.role),
        kind: m.kind.clone(),
        text: clone_opt(&m.text),
        ts: clone_opt(&m.ts),
        tool_name: clone_opt(&m.tool_name),
        phase: clone_opt(&m.phase),
        meta_json: m.meta_json.clone(),
    }
}

fn append_opt(out: &mut String, o: &Option<String>)
    ensures
        final(out)@ == old(out)@ + opt_chars(opt_view(*o)),
{
    match o {
        Some(s) => out.append(s.as_str()),
        None => {
            assert(old(out)@ + Seq::<char>::empty() == old(out)@);
        },
    }
}

/// The key under which two messages are the same message.
pub fn message_key_of(m: &ParsedMessage) -> (r: String)
    ensures
        r@ == message_key(m@),
{
    let mut key = String::new();
    append_opt(&mut key, &m.role);
    key.append("|");
    key.append(m.kind.as_str());
    key.append("|");
    append_opt(&mut key, &m.turn_id);
    key.append("|");
    append_opt(&mut key, &m.tool_name);
    key.append("|");
    append_opt(&mut key, &m.phase);
    key.append("|");
    let digest = match &m.text {
        Some(t) => message_hash(t.as_str()),
        None => message_hash(""),
    };
    proof {
        if m.text is None {
            assert(""@ =~= Seq::<char>::empty()) by {
                reveal_strlit("");
            }
        }
    }
    key.append(digest.as_str());
    key
}

/// Drops the messages that repeat an earlier kept message: the same role, kind, turn, tool,
/// phase and normalised text, with timestamps both absent or at most two seconds apart.
pub fn dedupe_messages(messages: &mut Vec<ParsedMessage>)
    ensures
        message_views(final(messages)@) == deduped(message_views(old(messages)@)),
{
    let mut kept: Vec<ParsedMessage> = Vec::new();
    let mut keys: Vec<String> = Vec::new();
    let mut stamps: Vec<Option<i64>> = Vec::new();
    let n = messages.len();
    let mut i: usize = 0;
    while i < n
        invariant
            n == messages@.len(),
            messages@ == old(messages)@,
            i <= n,
            message_views(kept@) == deduped(message_views(messages@.take(i as int))),
            keys_match(keys@, stamps@, message_views(kept@)),
        decreases n - i,
    {
        let m = &messages[i];
        let key = message_key_of(m);
        let ts = match &m.ts {
            Some(t) => timestamp_millis(t.as_str()),
            None => None,
        };
        let mut duplicate = false;
        let mut j: usize = 0;
        while j < kept.len()
            invariant
                j <= kept@.len(),
                keys_match(keys@, stamps@, message_views(kept@)),
                key@ == message_key(m@),
                ts == message_instant(m@),
                duplicate == exists|k: int|
                    0 <= k < j && message_key(#[trigger] message_views(kept@)[k]) == message_key(m@)
                        && overlapping(message_instant(message_views(kept@)[k]), message_instant(m@)),
            decreases kept.len() - j,
        {
            if str_eq(keys[j].as_str(), key.as_str()) && timestamps_overlap(stamps[j], ts) {
                duplicate = true;
            }
            proof {
                if keys@[j as int]@ == key@ && overlapping(stamps@[j as int], ts) {
                    assert(message_key(message_views(kept@)[j as int]) == message_key(m@));
                }
            }
            j += 1;
        }
        let ghost prefix = message_views(messages@.take(i as int + 1));
        assert(prefix.drop_last() == message_views(messages@.take(i as int)));
        assert(prefix.last() == m@);
        if !duplicate {
            let ghost old_keys = keys@;
            let ghost old_stamps = stamps@;
            let ghost old_kept = kept@;
            kept.push(clone_message(m));
            keys.push(key);
            stamps.push(ts);
            proof {
                assert(message_views(kept@) == message_views(old_kept).push(m@));
                let kv = message_views(kept@);
                assert forall|j: int| 0 <= j < kv.len() implies #[trigger] keys@[j]@ == message_key(kv[j]) && stamps@[j] == message_instant(kv[j]) by {
                    if j < old_kept.len() {
                        assert(keys@[j] == old_keys[j]);
                        assert(kv[j] == message_views(old_kept)[j]);
                        assert(stamps@[j] == old_stamps[j]);
                    }
                }
            }
        }
        i += 1;
    }
    assert(messages@.take(n as int) == messages@);
    *messages = kept;
}

/// No two messages of `ms` are the same message at overlapping instants.
pub open spec fn free_of_repeats(ms: Seq<MessageView>) -> bool {
    forall|i: int, j: int|
        0 <= i < j < ms.len() ==> !(message_key(#[trigger] ms[i]) == message_key(#[trigger] ms[j])
            && overlapping(message_instant(ms[i]), message_instant(ms[j])))
}

/// Dropping duplicates leaves no duplicate: no two kept messages share a key at overlapping
/// instants.
pub proof fn lemma_deduped_free_of_repeats(ms: Seq<MessageView>)
    ensures
        free_of_repeats(deduped(ms)),
    decreases ms.len(),
{
    if ms.len() > 0 {
        lemma_deduped_free_of_repeats(ms.drop_last());
        let prev = deduped(ms.drop_last());
        if !repeats(prev, ms.last()) {
            let r = prev.push(ms.last());
            assert forall|i: int, j: int| 0 <= i < j < r.len() implies !(message_key(
                #[trigger] r[i],
            ) == message_key(#[trigger] r[j]) && overlapping(
                message_instant(r[i]),
                message_instant(r[j]),
            )) by {
                if j == r.len() - 1 {
                    assert(r[i] == prev[i]);
                    if message_key(r[i]) == message_key(r[j]) && overlapping(
                        message_instant(r[i]),
                        message_instant(r[j]),
                    ) {
                        assert(message_key(prev[i]) == message_key(ms.last()));
                    }
                } else {
                    assert(r[i] == prev[i] && r[j] == prev[j]);
                }
            }
        }
    }
}

/// A list with no duplicate is left as it is.
pub proof fn lemma_deduped_keeps_free(ms: Seq<MessageView>)
    requires
        free_of_repeats(ms),
    ensures
        deduped(ms) == ms,
    decreases ms.len(),
{
    if ms.len() > 0 {
        let init = ms.drop_last();
        assert forall|i: int, j: int| 0 <= i < j < init.len() implies !(message_key(
            #[trigger] init[i],
        ) == message_key(#[trigger] init[j]) && overlapping(
            message_instant(init[i]),
            message_instant(init[j]),
        )) by {
            assert(init[i] == ms[i] && init[j] == ms[j]);
        }
        lemma_deduped_keeps_free(init);
        if repeats(init, ms.last()) {
            let k = choose|k: int|
                0 <= k < init.len() && message_key(#[trigger] init[k]) == message_key(ms.last())
                    && overlapping(message_instant(init[k]), message_instant(ms.last()));
            assert(ms[k] == init[k]);
            assert(ms[ms.len() - 1] == ms.last());
        }
        assert(init.push(ms.last()) == ms);
    }
}

/// Dropping duplicates twice drops no more than dropping them once.
pub proof fn lemma_dedupe_idempotent(ms: Seq<MessageView>)
    ensures
        deduped(deduped(ms)) == deduped(ms),
{
    lemma_deduped_free_of_repeats(ms);
    lemma_deduped_keeps_free(deduped(ms));
}

/// Dropping duplicates keeps a subsequence: every kept message is one of the input, at a
/// position no earlier than in the output, and never more messages than came in.
pub proof fn lemma_deduped_subsequence(ms: Seq<MessageView>)
    ensures
        deduped(ms).len() <= ms.len(),
        forall|i: int| 0 <= i < deduped(ms).len() ==> ms.contains(#[trigger] deduped(ms)[i]),
        ms.len() > 0 ==> deduped(ms).len() > 0 && deduped(ms)[0] == ms[0],
    decreases ms.len(),
{
    if ms.len() > 0 {
        let init = ms.drop_last();
        lemma_deduped_subsequence(init);
        let prev = deduped(init);
        assert forall|i: int| 0 <= i < deduped(ms).len() implies ms.contains(
            #[trigger] deduped(ms)[i],
        ) by {
            if i < prev.len() {
                assert(deduped(ms)[i] == prev[i]);
                assert(init.contains(prev[i]));
                let k = choose|k: int| 0 <= k < init.len() && init[k] == prev[i];
                assert(ms[k] == init[k]);
            } else {
                assert(deduped(ms)[i] == ms[ms.len() - 1]);
            }
        }
        if init.len() == 0 {
            assert(!repeats(prev, ms.last()));
        } else {
            assert(ms[0] == init[0]);
        }
    }
}

/// The serde_json rendering of a list of strings as a JSON array.
pub uninterp spec fn json_string_array_of(items: Seq<Seq<char>>) -> Seq<char>;

/// serde_json's `to_string` of a list of strings. serde_json documents two causes of an
/// error, a `Serialize` impl that fails and a map with keys that are not strings; a list of
/// strings has neither, so the contract says the rendering is always there. It names the
/// rendering and claims nothing else of it.
#[verifier::external_body]
fn json_string_array(items: &Vec<String>) -> (r: Option<String>)
    ensures
        r is Some,
        r matches Some(s) ==> s@ == json_string_array_of(items@.map_values(|i: String| i@)),
{
    serde_json::to_string(items).ok()
}

/// A parser of one kind of session file.
pub trait SourceParser {
    /// The name under which results of the parser are stored.
    fn key(&self) -> &'static str;

    /// The version of the parser's output.
    fn version(&self) -> &'static str;

    /// How well the parser fits a file; the registry picks the best fit.
    fn supports(&self, target: &ParserTarget) -> u8;
}

/// What the lines of a session file say of the session before its messages are counted.
#[derive(Debug)]
pub struct SessionSeed {
    pub id: Option<String>,
    pub thread_title: Option<String>,
    pub cwd: Option<String>,
    pub originator: Option<String>,
    pub source: Option<String>,
    pub model_provider: Option<String>,
    pub cli_version: Option<String>,
    pub started_at: Option<String>,
    pub updated_at: Option<String>,
}

impl Default for SessionSeed {
    fn default() -> (r: Self)
        ensures
            r.id is None && r.thread_title is None && r.cwd is None && r.originator is None
                && r.source is None && r.model_provider is None && r.cli_version is None
                && r.started_at is None && r.updated_at is None,
    {
        SessionSeed {
            id: None,
            thread_title: None,
            cwd: None,
            originator: None,
            source: None,
            model_provider: None,
            cli_version: None,
            started_at: None,
            updated_at: None,
        }
    }
}

/// The entry under `key`: the last one inserted.
pub open spec fn index_lookup(entries: Seq<(String, SessionIndexEntry)>, key: Seq<char>) -> Option<
    SessionIndexEntry,
>
    decreases entries.len(),
{
    if entries.len() == 0 {
        None
    } else if entries.last().0@ == key {
        Some(entries.last().1)
    } else {
        index_lookup(entries.drop_last(), key)
    }
}

/// The Codex session index: thread names and update times by session id.
#[derive(Debug)]
pub struct SessionIndex {
    entries: Vec<(String, SessionIndexEntry)>,
}

impl SessionIndex {
    /// The entry recorded for a session id.
    pub closed spec fn entry(&self, key: Seq<char>) -> Option<SessionIndexEntry> {
        index_lookup(self.entries@, key)
    }

    /// An empty index.
    pub fn new() -> (r: Self)
        ensures
            forall|k: Seq<char>| r.entry(k) is None,
    {
        SessionIndex { entries: Vec::new() }
    }

    /// Records an entry for a session id; a later entry for the same id replaces it.
    pub fn insert(&mut self, id: String, entry: SessionIndexEntry)
        ensures
            final(self).entry(id@) == Some(entry),
            forall|k: Seq<char>| k != id@ ==> final(self).entry(k) == old(self).entry(k),
    {
        let ghost key = id@;
        self.entries.push((id, entry));
        proof {
            assert(self.entries@.drop_last() == old(self).entries@);
        }
    }

    /// The entry recorded for a session id.
    pub fn get(&self, id: &str) -> (r: Option<&SessionIndexEntry>)
        ensures
            match r {
                Some(e) => self.entry(id@) == Some(*e),
                None => self.entry(id@) is None,
            },
    {
        let mut i = self.entries.len();
        assert(self.entries@.take(i as int) == self.entries@);
        while i > 0
            invariant
                i <= self.entries@.len(),
                index_lookup(self.entries@, id@) == index_lookup(self.entries@.take(i as int), id@),
            decreases i,
        {
            let ghost t = self.entries@.take(i as int);
            assert(t.drop_last() == self.entries@.take(i - 1));
            assert(t.last() == self.entries@[i - 1]);
            if str_eq(self.entries[i - 1].0.as_str(), id) {
                return Some(&self.entries[i - 1].1);
            }
            i -= 1;
        }
        None
    }
}

/// A read of the index gives back the last entry written for that id, and a write leaves the
/// other ids as they were.
pub proof fn lemma_index_read_after_write(
    before: SessionIndex,
    after: SessionIndex,
    id: Seq<char>,
    entry: SessionIndexEntry,
    other: Seq<char>,
)
    requires
        after.entry(id) == Some(entry),
        forall|k: Seq<char>| k != id ==> after.entry(k) == before.entry(k),
        other != id,
    ensures
        after.entry(id) == Some(entry),
        after.entry(other) == before.entry(other),
{
}

/// What a parser knows of the file it parses.
#[derive(Debug)]
pub struct ParseContext {
    pub source_id: String,
    pub import_id: String,
    pub abs_path: String,
    pub rel_path: Option<String>,
    pub file_size: u64,
    pub mtime_ms: i64,
    pub fingerprint: String,
    pub session_index: Arc<SessionIndex>,
}

/// Whether a message has the role `role`.
pub open spec fn has_role(m: MessageView, role: Seq<char>) -> bool {
    m.role == Some(role)
}

/// How many messages have the role `role`.
pub open spec fn count_role(ms: Seq<MessageView>, role: Seq<char>) -> nat
    decreases ms.len(),
{
    if ms.len() == 0 {
        0
    } else {
        count_role(ms.drop_last(), role) + if has_role(ms.last(), role) {
            1nat
        } else {
            0nat
        }
    }
}

/// How many messages are of kind `kind`.
pub open spec fn count_kind(ms: Seq<MessageView>, kind: Seq<char>) -> nat
    decreases ms.len(),
{
    if ms.len() == 0 {
        0
    } else {
        count_kind(ms.drop_last(), kind) + if ms.last().kind == kind {
            1nat
        } else {
            0nat
        }
    }
}

/// The distinct non-blank turn ids of the messages, in the order they first appear.
pub open spec fn turn_ids(ms: Seq<MessageView>) -> Seq<Seq<char>>
    decreases ms.len(),
{
    if ms.len() == 0 {
        Seq::empty()
    } else {
        let prev = turn_ids(ms.drop_last());
        match ms.last().turn_id {
            Some(t) => if !is_blank(t) && !prev.contains(t) {
                prev.push(t)
            } else {
                prev
            },
            None => prev,
        }
    }
}

/// The first message with role `role`.
pub open spec fn first_with_role(ms: Seq<MessageView>, role: Seq<char>) -> Option<MessageView>
    decreases ms.len(),
{
    if ms.len() == 0 {
        None
    } else {
        match first_with_role(ms.drop_last(), role) {
            Some(m) => Some(m),
            None => if has_role(ms.last(), role) {
                Some(ms.last())
            } else {
                None
            },
        }
    }
}

/// The first timestamp among the messages.
pub open spec fn first_ts(ms: Seq<MessageView>) -> Option<Seq<char>>
    decreases ms.len(),
{
    if ms.len() == 0 {
        None
    } else {
        match first_ts(ms.drop_last()) {
            Some(t) => Some(t),
            None => ms.last().ts,
        }
    }
}

/// The last timestamp among the messages.
pub open spec fn last_ts(ms: Seq<MessageView>) -> Option<Seq<char>>
    decreases ms.len(),
{
    if ms.len() == 0 {
        None
    } else {
        match ms.last().ts {
            Some(t) => Some(t),
            None => last_ts(ms.drop_last()),
        }
    }
}

/// The first of two optional values that is present.
pub open spec fn or_else<T>(a: Option<T>, b: Option<T>) -> Option<T> {
    match a {
        Some(x) => Some(x),
        None => b,
    }
}

/// The texts of a session seed.
pub struct SeedView {
    pub id: Option<Seq<char>>,
    pub thread_title: Option<Seq<char>>,
    pub cwd: Option<Seq<char>>,
    pub originator: Option<Seq<char>>,
    pub source: Option<Seq<char>>,
    pub model_provider: Option<Seq<char>>,
    pub cli_version: Option<Seq<char>>,
    pub started_at: Option<Seq<char>>,
    pub updated_at: Option<Seq<char>>,
}

impl View for SessionSeed {
    type V = SeedView;

    open spec fn view(&self) -> SeedView {
        SeedView {
            id: opt_view(self.id),
            thread_title: opt_view(self.thread_title),
            cwd: opt_view(self.cwd),
            originator: opt_view(self.originator),
            source: opt_view(self.source),
            model_provider: opt_view(self.model_provider),
            cli_version: opt_view(self.cli_version),
            started_at: opt_view(self.started_at),
            updated_at: opt_view(self.updated_at),
        }
    }
}

/// The first 16 characters of a text.
pub open spec fn first16(s: Seq<char>) -> Seq<char> {
    s.take(if s.len() < 16 { s.len() as int } else { 16 })
}

/// The session that `finalize_session` makes of a seed and the deduplicated messages `ms`:
/// the seed's identity, the message counts, the distinct turns, and the first and last dates.
pub open spec fn session_of(
    seed: SeedView,
    fingerprint: Seq<char>,
    mtime_ms: i64,
    raw_event_count: int,
    ms: Seq<MessageView>,
    codes: Seq<Seq<char>>,
    s: SessionView,
) -> bool {
    let users = count_role(ms, "user"@);
    let assistants = count_role(ms, "assistant"@);
    let ids = turn_ids(ms);
    let first_user = first_with_role(ms, "user"@);
    let first_user_ts = match first_user {
        Some(m) => m.ts,
        None => None,
    };
    let fallback = utc_rfc3339_of(mtime_ms);
    let started = or_else(or_else(or_else(seed.started_at, first_user_ts), first_ts(ms)), fallback);
    let updated = or_else(or_else(seed.updated_at, last_ts(ms)), fallback);
    &&& s.id == match seed.id {
        Some(id) => id,
        None => "synthetic-"@ + first16(fingerprint),
    }
    &&& s.thread_title == seed.thread_title
    &&& s.cwd == seed.cwd
    &&& s.originator == seed.originator
    &&& s.source == seed.source
    &&& s.model_provider == seed.model_provider
    &&& s.cli_version == seed.cli_version
    &&& s.started_at == started
    &&& s.updated_at == updated
    &&& s.first_user_message == match first_user {
        Some(m) => m.text,
        None => None,
    }
    &&& s.raw_event_count == raw_event_count
    &&& s.user_message_count == users
    &&& s.assistant_message_count == assistants
    &&& s.tool_call_count == count_kind(ms, "tool_call"@)
    &&& s.turn_count == finalized_turn_count(ms)
    &&& s.duration_sec == match (started, updated) {
        (Some(a), Some(b)) => match rfc3339_elapsed_of(a, b) {
            Some(d) => if d < 0 { 0 } else { d },
            None => 0,
        },
        _ => 0,
    }
    &&& s.warning_count == codes.len()
    &&& s.warnings_json == json_string_array_of(codes)
}

/// The turn count of a session whose messages name no turn: the larger of the user and the
/// assistant message counts, and at least one.
pub open spec fn fallback_turn_count(ms: Seq<MessageView>) -> int {
    let users = count_role(ms, "user"@);
    let assistants = count_role(ms, "assistant"@);
    if users >= assistants && users >= 1 {
        users as int
    } else if assistants >= 1 {
        assistants as int
    } else {
        1
    }
}

/// The turn count of a session: its distinct turn ids, or the fallback where it has none.
pub open spec fn finalized_turn_count(ms: Seq<MessageView>) -> int {
    if turn_ids(ms).len() == 0 {
        fallback_turn_count(ms)
    } else {
        turn_ids(ms).len() as int
    }
}

/// The codes of a list of warnings.
pub open spec fn warning_codes(ws: Seq<ParseWarning>) -> Seq<Seq<char>> {
    ws.map_values(|w: ParseWarning| w.code@)
}

fn first_present(a: Option<String>, b: Option<String>) -> (r: Option<String>)
    ensures
        r == or_else(a, b),
{
    match a {
        Some(x) => Some(x),
        None => b,
    }
}

proof fn lemma_opt_view_or(a: Option<String>, b: Option<String>)
    ensures
        opt_view(or_else(a, b)) == or_else(opt_view(a), opt_view(b)),
{
}

/// Counts, dates and identity of a session, from its seed and its messages; drops repeated
/// messages first.
#[verifier::spinoff_prover]
#[verifier::rlimit(40)]
pub fn finalize_session(
    seed: SessionSeed,
    ctx: &ParseContext,
    raw_event_count: usize,
    messages: &mut Vec<ParsedMessage>,
    warnings: &[ParseWarning],
) -> (s: ParsedSession)
    requires
        raw_event_count <= i64::MAX,
        old(messages)@.len() <= i64::MAX,
        warnings@.len() <= i64::MAX,
    ensures
        message_views(final(messages)@) == deduped(message_views(old(messages)@)),
        session_of(seed@, ctx.fingerprint@, ctx.mtime_ms, raw_event_count as int, message_views(final(messages)@), warning_codes(warnings@), s@),
{
    let ghost seed0 = seed@;
    dedupe_messages(messages);
    proof {
        lemma_deduped_subsequence(message_views(old(messages)@));
    }
    let ghost ms = message_views(messages@);
    let n = messages.len();
    let mut users: i64 = 0;
    let mut assistants: i64 = 0;
    let mut tools: i64 = 0;
    let mut ids: Vec<String> = Vec::new();
    let mut first_user: Option<usize> = None;
    let mut first_any: Option<String> = None;
    let mut i: usize = 0;
    while i < n
        invariant
            n == ms.len() <= i64::MAX,
            ms == message_views(messages@),
            i <= n,
            users == count_role(ms.take(i as int), "user"@),
            assistants == count_role(ms.take(i as int), "assistant"@),
            tools == count_kind(ms.take(i as int), "tool_call"@),
            users <= i && assistants <= i && tools <= i && ids@.len() <= i,
            ids@.map_values(|t: String| t@) == turn_ids(ms.take(i as int)),
            match first_user {
                Some(k) => k < i && first_with_role(ms.take(i as int), "user"@) == Some(ms[k as int]),
                None => first_with_role(ms.take(i as int), "user"@) is None,
            },
            opt_view(first_any) == first_ts(ms.take(i as int)),
        decreases n - i,
    {
        let m = &messages[i];
        let ghost t = ms.take(i as int + 1);
        assert(t.drop_last() == ms.take(i as int));
        assert(t.last() == m@);
        let is_user = match &m.role {
            Some(r) => str_eq(r.as_str(), "user"),
            None => false,
        };
        let is_assistant = match &m.role {
            Some(r) => str_eq(r.as_str(), "assistant"),
            None => false,
        };
        if is_user {
            users += 1;
            if first_user.is_none() {
                first_user = Some(i);
            }
        }
        if is_assistant {
            assistants += 1;
        }
        if str_eq(m.kind.as_str(), "tool_call") {
            tools += 1;
        }
        if first_any.is_none() {
            first_any = clone_opt(&m.ts);
        }
        match &m.turn_id {
            Some(tid) => {
                if !is_blank_str(tid.as_str()) {
                    let ghost views = ids@.map_values(|t: String| t@);
                    let mut seen = false;
                    let mut k: usize = 0;
                    while k < ids.len()
                        invariant
                            k <= ids@.len(),
                            views == ids@.map_values(|t: String| t@),
                            seen == exists|j: int| 0 <= j < k && views[j] == tid@,
                        decreases ids.len() - k,
                    {
                        assert(views[k as int] == ids@[k as int]@);
                        if str_eq(ids[k].as_str(), tid.as_str()) {
                            seen = true;
                        }
                        k += 1;
                    }
                    if !seen {
                        ids.push(tid.clone());
                        assert(ids@.map_values(|t: String| t@) == views.push(tid@));
                    }
                }
            },
            None => {},
        }
        i += 1;
    }
    assert(ms.take(n as int) == ms);
    let mut last_any: Option<String> = None;
    let mut j = n;
    while j > 0 && last_any.is_none()
        invariant
            j <= n == ms.len(),
            ms == message_views(messages@),
            last_ts(ms) == match opt_view(last_any) {
                Some(t) => Some(t),
                None => last_ts(ms.take(j as int)),
            },
        decreases j,
    {
        let ghost t = ms.take(j as int);
        assert(t.drop_last() == ms.take(j - 1));
        assert(t.last() == ms[j - 1]);
        last_any = clone_opt(&messages[j - 1].ts);
        j -= 1;
    }
    assert(ms.take(0) =~= Seq::<MessageView>::empty());
    assert(opt_view(last_any) == last_ts(ms));
    let first_user_message = match first_user {
        Some(k) => clone_opt(&messages[k].text),
        None => None,
    };
    let first_user_ts = match first_user {
        Some(k) => clone_opt(&messages[k].ts),
        None => None,
    };
    let fallback = iso_from_millis(ctx.mtime_ms);
    let started_at = first_present(first_present(first_present(seed.started_at, first_user_ts), first_any), clone_opt(&fallback));
    let updated_at = first_present(first_present(seed.updated_at, last_any), fallback);
    proof {
        lemma_opt_view_or(seed.started_at, first_user_ts);
        lemma_opt_view_or(seed.updated_at, last_any);
        lemma_opt_view_or(or_else(seed.started_at, first_user_ts), first_any);
        lemma_opt_view_or(or_else(or_else(seed.started_at, first_user_ts), first_any), fallback);
        lemma_opt_view_or(or_else(seed.updated_at, last_any), fallback);
    }
    let duration_sec = match (&started_at, &updated_at) {
        (Some(a), Some(b)) => match diff_seconds(a.as_str(), b.as_str()) {
            Some(d) => d,
            None => 0,
        },
        _ => 0,
    };
    let turn_count: i64 = if ids.len() == 0 {
        if users >= assistants && users >= 1 {
            users
        } else if assistants >= 1 {
            assistants
        } else {
            1
        }
    } else {
        assert(ids@.len() == turn_ids(ms).len());
        ids.len() as i64
    };
    let mut codes: Vec<String> = Vec::new();
    let mut w: usize = 0;
    while w < warnings.len()
        invariant
            w <= warnings@.len(),
            codes@.map_values(|c: String| c@) == warnings@.take(w as int).map_values(|x: ParseWarning| x.code@),
        decreases warnings.len() - w,
    {
        codes.push(warnings[w].code.clone());
        assert(warnings@.take(w as int + 1).map_values(|x: ParseWarning| x.code@) == warnings@.take(w as int).map_values(|x: ParseWarning| x.code@).push(warnings@[w as int].code@));
        w += 1;
    }
    assert(warnings@.take(warnings@.len() as int) == warnings@);
    let warnings_json = match json_string_array(&codes) {
        Some(j) => j,
        None => "[]".to_owned(),
    };
    let id = match seed.id {
        Some(id) => id,
        None => {
            let mut name = "synthetic-".to_owned();
            let h = short_hash(ctx.fingerprint.as_str());
            name.append(h.as_str());
            name
        },
    };
    let s = ParsedSession {
        id,
        thread_title: seed.thread_title,
        cwd: seed.cwd,
        originator: seed.originator,
        source: seed.source,
        model_provider: seed.model_provider,
        cli_version: seed.cli_version,
        started_at,
        updated_at,
        first_user_message,
        raw_event_count: raw_event_count as i64,
        user_message_count: users,
        assistant_message_count: assistants,
        tool_call_count: tools,
        turn_count,
        duration_sec,
        warning_count: warnings.len() as i64,
        warnings_json,
    };
    s
}

/// The message that a generic JSON record stands for: its role or speaker, its readable
/// text, turn and phase; none when it has neither role nor text.
pub open spec fn generic_message_of(value: Json, ts: Option<Seq<char>>) -> Option<MessageView> {
    let role = or_else(str_field(value, "role"@), str_field(value, "speaker"@));
    let text = or_else(or_else(field_text(value, "text"@), field_text(value, "message"@)), field_text(value, "content"@));
    if role is None && text is None {
        None
    } else {
        Some(
            MessageView {
                turn_id: str_field(value, "turn_id"@),
                role,
                kind: "message"@,
                text,
                ts,
                tool_name: None,
                phase: str_field(value, "phase"@),
                meta_json: value.text@,
            },
        )
    }
}

/// The message that a generic JSON record stands for.
pub fn generic_message_from_value(value: &Json, ts: Option<String>) -> (r: Option<ParsedMessage>)
    ensures
        match r {
            Some(m) => generic_message_of(*value, opt_view(ts)) == Some(m@),
            None => generic_message_of(*value, opt_view(ts)) is None,
        },
{
    let role = match get_string(value, "role") {
        Some(r) => Some(r),
        None => get_string(value, "speaker"),
    };
    let text = match get_text(value, "text") {
        Some(t) => Some(t),
        None => match get_text(value, "message") {
            Some(t) => Some(t),
            None => get_text(value, "content"),
        },
    };
    if role.is_none() && text.is_none() {
        return None;
    }
    Some(
        ParsedMessage {
            turn_id: get_string(value, "turn_id"),
            role,
            kind: "message".to_owned(),
            text,
            ts,
            tool_name: None,
            phase: get_string(value, "phase"),
            meta_json: value.text.clone(),
        },
    )
}

} // verus!
