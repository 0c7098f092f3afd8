//! What the analytics read out of stored session events and of the local Codex files: tool
//! names, turn ids, searches, token usage, image attachments, service tiers and account claims.
use crate::chars::{chars_of, copy_range, is_blank, is_blank_str, starts_with, string_from_chars, trim, trim_str};
use crate::json::{as_string, get, get_i64, get_string, i64_field, json_as_str, json_get, owned, str_field, Json, JsonKind};
use crate::models::TokenUsageSummary;
use crate::numbers::{decimal, i64_text};
use crate::text::first_index_of;
use base64::Engine;
use vstd::prelude::*;

verus! {

/// The label a tool call is counted under: the name of a function or custom tool call,
/// `web_search` and `view_image` for those calls, the event type for any other, and
/// `tool_call` when nothing names it.
pub open spec fn tool_label_of(inner_type: Option<Seq<char>>, payload: Json) -> Seq<char> {
    match inner_type {
        Some(t) => if t == "function_call"@ || t == "custom_tool_call"@ {
            match str_field(payload, "name"@) {
                Some(n) => n,
                None => "tool_call"@,
            }
        } else if t == "web_search_call"@ {
            "web_search"@
        } else if t == "view_image_tool_call"@ {
            "view_image"@
        } else {
            t
        },
        None => "tool_call"@,
    }
}

/// The label a tool call is counted under.
pub fn tool_label(inner_type: Option<&str>, payload: &Json) -> (r: String)
    ensures
        r@ == tool_label_of(
            match inner_type {
                Some(t) => Some(t@),
                None => None,
            },
            *payload,
        ),
{
    match inner_type {
        Some(t) => {
            if crate::chars::str_eq(t, "function_call") || crate::chars::str_eq(t, "custom_tool_call") {
                match get_string(payload, "name") {
                    Some(n) => n,
                    None => "tool_call".to_owned(),
                }
            } else if crate::chars::str_eq(t, "web_search_call") {
                "web_search".to_owned()
            } else if crate::chars::str_eq(t, "view_image_tool_call") {
                "view_image".to_owned()
            } else {
                t.to_owned()
            }
        },
        None => "tool_call".to_owned(),
    }
}

/// The turn an event belongs to: the `turn_id` it names, else the current turn.
pub open spec fn turn_id_of(payload: Json, current: Option<Seq<char>>) -> Option<Seq<char>> {
    match str_field(payload, "turn_id"@) {
        Some(t) => Some(t),
        None => current,
    }
}

/// The turn an event belongs to.
pub fn resolve_turn_id(payload: &Json, current_turn_id: Option<&str>) -> (r: Option<String>)
    ensures
        owned(
            turn_id_of(
                *payload,
                match current_turn_id {
                    Some(t) => Some(t@),
                    None => None,
                },
            ),
            r,
        ),
{
    match get_string(payload, "turn_id") {
        Some(t) => Some(t),
        None => match current_turn_id {
            Some(c) => Some(c.to_owned()),
            None => None,
        },
    }
}

/// The non-blank strings among some values, trimmed.
pub open spec fn query_strings(items: Seq<Json>) -> Seq<Seq<char>>
    decreases items.len(),
{
    if items.len() == 0 {
        Seq::empty()
    } else {
        let prev = query_strings(items.drop_last());
        match json_as_str(items.last()) {
            Some(q) => if is_blank(q) {
                prev
            } else {
                prev.push(trim(q))
            },
            None => prev,
        }
    }
}

/// The queries of a web search call: its action's `query` when not blank, then the non-blank
/// strings of its action's `queries`, each trimmed.
pub open spec fn search_queries_of(payload: Json) -> Seq<Seq<char>> {
    let action = json_get(payload, "action"@);
    let first = match action {
        Some(a) => match str_field(a, "query"@) {
            Some(q) => if is_blank(q) {
                Seq::empty()
            } else {
                seq![trim(q)]
            },
            None => Seq::empty(),
        },
        None => Seq::empty(),
    };
    let rest = match action {
        Some(a) => match json_get(a, "queries"@) {
            Some(qs) => match qs.kind {
                JsonKind::Array(items) => query_strings(items@),
                _ => Seq::empty(),
            },
            None => Seq::empty(),
        },
        None => Seq::empty(),
    };
    first + rest
}

/// The queries of a web search call.
pub fn extract_search_queries(payload: &Json) -> (r: Vec<String>)
    ensures
        r@.map_values(|q: String| q@) == search_queries_of(*payload),
{
    let mut queries: Vec<String> = Vec::new();
    let action = get(payload, "action");
    match action {
        Some(a) => {
            match get_string(a, "query") {
                Some(q) => {
                    if !is_blank_str(q.as_str()) {
                        queries.push(trim_str(q.as_str()));
                    }
                },
                None => {},
            }
            assert(queries@.map_values(|q: String| q@) =~= match str_field(*a, "query"@) {
                Some(q) => if is_blank(q) {
                    Seq::<Seq<char>>::empty()
                } else {
                    seq![trim(q)]
                },
                None => Seq::<Seq<char>>::empty(),
            });
            match get(a, "queries") {
                Some(qs) => match &qs.kind {
                    JsonKind::Array(items) => {
                        let ghost first = queries@.map_values(|q: String| q@);
                        let mut i: usize = 0;
                        while i < items.len()
                            invariant
                                i <= items@.len(),
                                queries@.map_values(|q: String| q@) == first + query_strings(items@.take(i as int)),
                            decreases items.len() - i,
                        {
                            assert(items@.take(i as int + 1).drop_last() == items@.take(i as int));
                            assert(items@.take(i as int + 1).last() == items@[i as int]);
                            let ghost before = queries@;
                            match as_string(&items[i]) {
                                Some(q) => {
                                    if !is_blank_str(q.as_str()) {
                                        queries.push(trim_str(q.as_str()));
                                        assert(queries@.map_values(|q: String| q@) =~= before.map_values(
                                            |q: String| q@,
                                        ).push(trim(q@)));
                                    }
                                },
                                None => {},
                            }
                            i += 1;
                        }
                        assert(items@.take(items@.len() as int) == items@);
                    },
                    _ => {},
                },
                None => {},
            }
        },
        None => {},
    }
    queries
}

/// The token usage an event reports as `info.last_token_usage`, each missing count 0.
pub open spec fn last_token_usage_of(payload: Json) -> Option<(i64, i64, i64, i64, i64)> {
    match json_get(payload, "info"@) {
        Some(info) => match json_get(info, "last_token_usage"@) {
            Some(u) => Some(
                (
                    i64_field(u, "input_tokens"@).unwrap_or(0),
                    i64_field(u, "output_tokens"@).unwrap_or(0),
                    i64_field(u, "cached_input_tokens"@).unwrap_or(0),
                    i64_field(u, "reasoning_output_tokens"@).unwrap_or(0),
                    i64_field(u, "total_tokens"@).unwrap_or(0),
                ),
            ),
            None => None,
        },
        None => None,
    }
}

/// The counts of a token usage: input, output, cached input, reasoning output, total.
pub open spec fn usage_counts(u: TokenUsageSummary) -> (i64, i64, i64, i64, i64) {
    (u.input_tokens, u.output_tokens, u.cached_input_tokens, u.reasoning_output_tokens, u.total_tokens)
}

/// The token usage an event reports.
pub fn extract_last_token_usage(payload: &Json) -> (r: Option<TokenUsageSummary>)
    ensures
        match r {
            Some(u) => last_token_usage_of(*payload) == Some(usage_counts(u)),
            None => last_token_usage_of(*payload) is None,
        },
{
    let info = match get(payload, "info") {
        Some(i) => i,
        None => return None,
    };
    let usage = match get(info, "last_token_usage") {
        Some(u) => u,
        None => return None,
    };
    let input_tokens = match get_i64(usage, "input_tokens") {
        Some(v) => v,
        None => 0,
    };
    let output_tokens = match get_i64(usage, "output_tokens") {
        Some(v) => v,
        None => 0,
    };
    let cached_input_tokens = match get_i64(usage, "cached_input_tokens") {
        Some(v) => v,
        None => 0,
    };
    let reasoning_output_tokens = match get_i64(usage, "reasoning_output_tokens") {
        Some(v) => v,
        None => 0,
    };
    let total_tokens = match get_i64(usage, "total_tokens") {
        Some(v) => v,
        None => 0,
    };
    Some(TokenUsageSummary { input_tokens, output_tokens, cached_input_tokens, reasoning_output_tokens, total_tokens })
}

/// The signature by which a turn recognises a token report it has already counted: the
/// cached input, input, output, reasoning output and total counts, separated by colons.
pub open spec fn usage_signature(u: (i64, i64, i64, i64, i64)) -> Seq<char> {
    decimal(u.2 as int) + ":"@ + decimal(u.0 as int) + ":"@ + decimal(u.1 as int) + ":"@ + decimal(u.3 as int) + ":"@
        + decimal(u.4 as int)
}

/// The signature of a token report.
pub fn token_signature(usage: &TokenUsageSummary) -> (r: String)
    ensures
        r@ == usage_signature(usage_counts(*usage)),
{
    let mut out = i64_text(usage.cached_input_tokens);
    out.append(":");
    let t = i64_text(usage.input_tokens);
    out.append(t.as_str());
    out.append(":");
    let t = i64_text(usage.output_tokens);
    out.append(t.as_str());
    out.append(":");
    let t = i64_text(usage.reasoning_output_tokens);
    out.append(t.as_str());
    out.append(":");
    let t = i64_text(usage.total_tokens);
    out.append(t.as_str());
    out
}

/// The default service tier that the desktop state records: under
/// `electron-persisted-atom-state` when that names one, else at the top.
pub open spec fn default_service_tier_of(global_state: Option<Json>) -> Option<Seq<char>> {
    let nested = match global_state {
        Some(g) => match json_get(g, "electron-persisted-atom-state"@) {
            Some(a) => json_get(a, "default-service-tier"@),
            None => None,
        },
        None => None,
    };
    let found = match nested {
        Some(v) => Some(v),
        None => match global_state {
            Some(g) => json_get(g, "default-service-tier"@),
            None => None,
        },
    };
    match found {
        Some(v) => json_as_str(v),
        None => None,
    }
}

/// The default service tier that the desktop state records.
pub fn extract_default_service_tier(global_state: Option<&Json>) -> (r: Option<String>)
    ensures
        owned(
            default_service_tier_of(
                match global_state {
                    Some(g) => Some(*g),
                    None => None,
                },
            ),
            r,
        ),
{
    let nested = match global_state {
        Some(g) => match get(g, "electron-persisted-atom-state") {
            Some(a) => get(a, "default-service-tier"),
            None => None,
        },
        None => None,
    };
    let found = match nested {
        Some(v) => Some(v),
        None => match global_state {
            Some(g) => get(g, "default-service-tier"),
            None => None,
        },
    };
    match found {
        Some(v) => as_string(v),
        None => None,
    }
}

/// The claims of the signed-in account that the dashboard shows.
#[derive(Debug, Default)]
pub struct AuthClaims {
    pub email: Option<String>,
    pub plan_type: Option<String>,
    pub account_user_id: Option<String>,
}

/// The access token of a Codex `auth.json`: `tokens.access_token`.
pub open spec fn access_token_of(auth_json: Json) -> Option<Seq<char>> {
    match json_get(auth_json, "tokens"@) {
        Some(t) => str_field(t, "access_token"@),
        None => None,
    }
}

/// The access token of a Codex `auth.json`.
pub fn access_token(auth_json: &Json) -> (r: Option<String>)
    ensures
        owned(access_token_of(*auth_json), r),
{
    match get(auth_json, "tokens") {
        Some(t) => get_string(t, "access_token"),
        None => None,
    }
}

/// The email, plan and account user of a token's payload: the profile's `email`, the auth
/// claim's `chatgpt_plan_type`, and its `chatgpt_account_user_id`, or where that is absent
/// its `chatgpt_user_id`.
pub open spec fn auth_claims_of(payload: Json) -> (Option<Seq<char>>, Option<Seq<char>>, Option<Seq<char>>) {
    let auth = json_get(payload, "https://api.openai.com/auth"@);
    let profile = json_get(payload, "https://api.openai.com/profile"@);
    let email = match profile {
        Some(p) => str_field(p, "email"@),
        None => None,
    };
    let plan = match auth {
        Some(a) => str_field(a, "chatgpt_plan_type"@),
        None => None,
    };
    let user = match auth {
        Some(a) => match json_get(a, "chatgpt_account_user_id"@) {
            Some(v) => json_as_str(v),
            None => str_field(a, "chatgpt_user_id"@),
        },
        None => None,
    };
    (email, plan, user)
}

/// The claims of a token's payload.
pub fn auth_claims_from_payload(payload: &Json) -> (r: AuthClaims)
    ensures
        owned(auth_claims_of(*payload).0, r.email),
        owned(auth_claims_of(*payload).1, r.plan_type),
        owned(auth_claims_of(*payload).2, r.account_user_id),
{
    let auth = get(payload, "https://api.openai.com/auth");
    let profile = get(payload, "https://api.openai.com/profile");
    let email = match profile {
        Some(p) => get_string(p, "email"),
        None => None,
    };
    let plan_type = match auth {
        Some(a) => get_string(a, "chatgpt_plan_type"),
        None => None,
    };
    let account_user_id = match auth {
        Some(a) => match get(a, "chatgpt_account_user_id") {
            Some(v) => as_string(v),
            None => get_string(a, "chatgpt_user_id"),
        },
        None => None,
    };
    AuthClaims { email, plan_type, account_user_id }
}

/// The bytes that `URL_SAFE_NO_PAD` of the base64 crate decodes a text to, or `None` where it
/// refuses the text.
pub uninterp spec fn base64_url_decoded(text: Seq<char>) -> Option<Seq<u8>>;

/// `base64::engine::general_purpose::URL_SAFE_NO_PAD.decode`: the URL-safe alphabet without
/// padding. Its result is named, not stated: it depends on the text alone.
#[verifier::external_body]
fn decode_base64_url(text: &str) -> (r: Option<Vec<u8>>)
    ensures
        match r {
            Some(b) => base64_url_decoded(text@) == Some(b@),
            None => base64_url_decoded(text@) is None,
        },
{
    base64::engine::general_purpose::URL_SAFE_NO_PAD.decode(text).ok()
}

/// The second dot-separated segment of a token: the text after its first dot, up to the next
/// dot; none when it has no dot.
pub open spec fn jwt_payload_segment(token: Seq<char>) -> Option<Seq<char>> {
    let d = first_index_of(token, '.');
    if d >= token.len() {
        None
    } else {
        let rest = token.skip(d + 1);
        Some(rest.take(first_index_of(rest, '.')))
    }
}

/// The decoded payload segment of a JSON web token; none when the token has no payload segment
/// or it is not valid base64.
pub fn decode_jwt_payload(token: &str) -> (r: Option<Vec<u8>>)
    ensures
        match jwt_payload_segment(token@) {
            None => r is None,
            Some(seg) => match r {
                Some(b) => base64_url_decoded(seg) == Some(b@),
                None => base64_url_decoded(seg) is None,
            },
        },
{
    let v = chars_of(token);
    let mut d: usize = 0;
    while d < v.len() && v[d] != '.'
        invariant
            d <= v@.len(),
            v@ == token@,
            forall|j: int| 0 <= j < d ==> v@[j] != '.',
        decreases v.len() - d,
    {
        d += 1;
    }
    proof {
        crate::text::lemma_first_index_of_bounds(v@, '.');
        if first_index_of(v@, '.') < d {
        } else if first_index_of(v@, '.') > d && d < v@.len() {
        }
    }
    if d == v.len() {
        return None;
    }
    let mut e: usize = d + 1;
    while e < v.len() && v[e] != '.'
        invariant
            d + 1 <= e <= v@.len(),
            forall|j: int| d + 1 <= j < e ==> v@[j] != '.',
        decreases v.len() - e,
    {
        e += 1;
    }
    proof {
        let rest = v@.skip(d + 1);
        crate::text::lemma_first_index_of_bounds(rest, '.');
        let k = first_index_of(rest, '.');
        if k < e - d - 1 {
            assert(rest[k] == v@[d + 1 + k]);
        } else if k > e - d - 1 && e < v@.len() {
            assert(rest[e - d - 1] == v@[e as int]);
        }
        assert(rest.take(e - d - 1) == v@.subrange(d + 1, e as int));
    }
    let seg = copy_range(v.as_slice(), d + 1, e);
    let text = string_from_chars(seg.as_slice());
    decode_base64_url(text.as_str())
}

/// Whether a string is an inline image: `data:image/...`.
pub open spec fn is_image_data(s: Seq<char>) -> bool {
    starts_with(s, "data:image/"@)
}

/// The image URLs found in a value, appended to `acc` in document order, each once.
pub open spec fn image_urls(acc: Seq<Seq<char>>, v: Json) -> Seq<Seq<char>>
    decreases v, 1nat, 0nat,
{
    match v.kind {
        JsonKind::Str(s) => if is_image_data(s@) && !acc.contains(s@) {
            acc.push(s@)
        } else {
            acc
        },
        JsonKind::Array(items) => image_urls_items(acc, v, items@.len() as int),
        JsonKind::Object(ms) => image_urls_members(acc, v, ms@.len() as int),
        _ => acc,
    }
}

/// The image URLs found in the first `n` items of an array.
pub open spec fn image_urls_items(acc: Seq<Seq<char>>, v: Json, n: int) -> Seq<Seq<char>>
    decreases v, 0nat, n,
{
    match v.kind {
        JsonKind::Array(items) => if n <= 0 || n > items@.len() {
            acc
        } else {
            image_urls(image_urls_items(acc, v, n - 1), items@[n - 1])
        },
        _ => acc,
    }
}

/// The image URLs found in the values of the first `n` members of an object.
pub open spec fn image_urls_members(acc: Seq<Seq<char>>, v: Json, n: int) -> Seq<Seq<char>>
    decreases v, 0nat, n,
{
    match v.kind {
        JsonKind::Object(ms) => if n <= 0 || n > ms@.len() {
            acc
        } else {
            image_urls(image_urls_members(acc, v, n - 1), ms@[n - 1].value)
        },
        _ => acc,
    }
}

fn contains_string(urls: &Vec<String>, s: &String) -> (r: bool)
    ensures
        r == urls@.map_values(|u: String| u@).contains(s@),
{
    let ghost us = urls@.map_values(|u: String| u@);
    let mut i: usize = 0;
    while i < urls.len()
        invariant
            i <= urls@.len(),
            us == urls@.map_values(|u: String| u@),
            forall|j: int| 0 <= j < i ==> us[j] != s@,
        decreases urls.len() - i,
    {
        if urls[i] == *s {
            assert(us[i as int] == s@);
            return true;
        }
        i += 1;
    }
    false
}

/// Appends the image URLs found in a value that `urls` does not hold yet.
pub fn collect_image_urls(value: &Json, urls: &mut Vec<String>)
    ensures
        final(urls)@.map_values(|u: String| u@) == image_urls(old(urls)@.map_values(|u: String| u@), *value),
    decreases *value, 1nat, 0nat,
{
    match &value.kind {
        JsonKind::Str(s) => {
            let v = chars_of(s.as_str());
            if crate::chars::starts_with_str(v.as_slice(), "data:image/") && !contains_string(urls, s) {
                let ghost before = urls@;
                urls.push(s.clone());
                assert(urls@.map_values(|u: String| u@) =~= before.map_values(|u: String| u@).push(s@));
            }
        },
        JsonKind::Array(items) => {
            let ghost start = urls@.map_values(|u: String| u@);
            let mut i: usize = 0;
            while i < items.len()
                invariant
                    i <= items@.len(),
                    value.kind == JsonKind::Array(*items),
                    urls@.map_values(|u: String| u@) == image_urls_items(start, *value, i as int),
                decreases items.len() - i,
            {
                assert(decreases_to!(*value => items@[i as int]));
                collect_image_urls(&items[i], urls);
                i += 1;
            }
        },
        JsonKind::Object(ms) => {
            let ghost start = urls@.map_values(|u: String| u@);
            let mut i: usize = 0;
            while i < ms.len()
                invariant
                    i <= ms@.len(),
                    value.kind == JsonKind::Object(*ms),
                    urls@.map_values(|u: String| u@) == image_urls_members(start, *value, i as int),
                decreases ms.len() - i,
            {
                assert(decreases_to!(*value => ms@[i as int].value));
                collect_image_urls(&ms[i].value, urls);
                i += 1;
            }
        },
        _ => {},
    }
}

} // verus!
