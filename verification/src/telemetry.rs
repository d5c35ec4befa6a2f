//! Previews of texts for the log: on one line, cut short, and with secrets taken out.
use vstd::prelude::*;
use crate::json::{Json, JsonView};
use crate::json;
use crate::text::CharClass;
use crate::text;

verus! {

/// What stands in place of a secret.
pub const REDACTED: &'static str = "***REDACTED***";

/// The trace id made at `now_ms` milliseconds with the number `seq`.
pub open spec fn trace_id(now_ms: nat, seq: nat) -> Seq<char> {
    "trc-"@ + text::decimal(now_ms) + "-"@ + text::decimal(seq)
}

/// The number that follows another; behind the last one the numbers start again.
pub open spec fn following(seq: u64) -> u64 {
    if seq == u64::MAX {
        0
    } else {
        (seq + 1) as u64
    }
}

/// The numbers of the trace ids of a process.
#[derive(Debug, PartialEq, Eq)]
pub struct TraceCounter {
    /// The number of the next trace id.
    pub next: u64,
}

impl TraceCounter {
    /// A counter that starts with one.
    pub fn new() -> (r: Self)
        ensures
            r.next == 1,
    {
        TraceCounter { next: 1 }
    }
}

/// The next trace id of a process, made at `now_ms` milliseconds.
pub fn next_trace_id(counter: &mut TraceCounter, now_ms: u64) -> (r: String)
    ensures
        r@ == trace_id(now_ms as nat, old(counter).next as nat),
        final(counter).next == following(old(counter).next),
{
    let seq: u64 = counter.next;
    counter.next = if seq == u64::MAX {
        0
    } else {
        seq + 1
    };
    let mut out = text::concat3("trc-", text::decimal_of(now_ms).as_str(), "-");
    out.append(text::decimal_of(seq).as_str());
    out
}

/// The number after some calls.
pub open spec fn number_after(start: u64, calls: nat) -> u64
    decreases calls,
{
    if calls == 0 {
        start
    } else {
        following(number_after(start, (calls - 1) as nat))
    }
}

/// The numbers go up one by one, as long as they last.
proof fn lemma_number_after(start: u64, calls: nat)
    requires
        start + calls <= u64::MAX,
    ensures
        number_after(start, calls) == start + calls,
    decreases calls,
{
    if calls > 0 {
        lemma_number_after(start, (calls - 1) as nat);
    }
}

/// Trace ids with different numbers differ, whenever they are made.
proof fn lemma_trace_ids_differ(first_ms: nat, first: nat, second_ms: nat, second: nat)
    requires
        first != second,
    ensures
        trace_id(first_ms, first) != trace_id(second_ms, second),
{
    reveal_strlit("-");
    let a = trace_id(first_ms, first);
    let b = trace_id(second_ms, second);
    let s = text::decimal(first);
    let t = text::decimal(second);
    text::lemma_decimal_digits(first);
    text::lemma_decimal_digits(second);
    assert(a[a.len() - s.len() - 1] == '-');
    assert(b[b.len() - t.len() - 1] == '-');
    assert(a.skip(a.len() - s.len()) =~= s);
    assert(b.skip(b.len() - t.len()) =~= t);
    if a == b {
        if s.len() < t.len() {
            let at = a.len() - s.len() - 1;
            assert(b[at] == t[at - (b.len() - t.len())]);
        } else if t.len() < s.len() {
            let at = b.len() - t.len() - 1;
            assert(a[at] == s[at - (a.len() - s.len())]);
        } else {
            text::lemma_decimal_injective(first, second);
        }
    }
}

/// A later trace id of a process has a greater number than an earlier one and differs from it,
/// whenever the two are made, as long as the numbers last.
pub proof fn law_later_trace_ids_are_new(
    start: u64,
    earlier: nat,
    earlier_ms: nat,
    later: nat,
    later_ms: nat,
)
    requires
        earlier < later,
        start + later <= u64::MAX,
    ensures
        number_after(start, earlier) < number_after(start, later),
        trace_id(earlier_ms, number_after(start, earlier) as nat) != trace_id(
            later_ms,
            number_after(start, later) as nat,
        ),
{
    lemma_number_after(start, earlier);
    lemma_number_after(start, later);
    lemma_trace_ids_differ(
        earlier_ms,
        number_after(start, earlier) as nat,
        later_ms,
        number_after(start, later) as nat,
    );
}

/// Whether `key` names a secret: whether one of the telling words stands in it, in any case.
pub open spec fn sensitive(key: Seq<char>) -> bool {
    let lower = text::lower(key);
    ||| text::contains(lower, "api_key"@)
    ||| text::contains(lower, "apikey"@)
    ||| text::contains(lower, "token"@)
    ||| text::contains(lower, "secret"@)
    ||| text::contains(lower, "password"@)
    ||| text::contains(lower, "authorization"@)
    ||| text::contains(lower, "access_token"@)
    ||| text::contains(lower, "refresh_token"@)
}

/// Whether `key` names a secret.
pub fn is_sensitive_key(key: &str) -> (r: bool)
    ensures
        r == sensitive(key@),
{
    let lower = text::lowered(key);
    let lower = lower.as_str();
    text::has_text(lower, "api_key") || text::has_text(lower, "apikey") || text::has_text(
        lower,
        "token",
    ) || text::has_text(lower, "secret") || text::has_text(lower, "password") || text::has_text(
        lower,
        "authorization",
    ) || text::has_text(lower, "access_token") || text::has_text(lower, "refresh_token")
}

/// Whether `c` ends the value of a secret in plain text.
pub open spec fn ends_value(c: char) -> bool {
    ||| text::is_white(c)
    ||| c == '"'
    ||| c == '\''
    ||| c == ','
    ||| c == '&'
    ||| c == ';'
    ||| c == ')'
    ||| c == '('
    ||| c == ']'
    ||| c == '['
    ||| c == '{'
    ||| c == '}'
}

/// Whether `c` ends the value of a secret in plain text.
pub fn is_secret_value_terminator(c: char) -> (r: bool)
    ensures
        r == ends_value(c),
{
    text::is_whitespace(c) || c == '"' || c == '\'' || c == ',' || c == '&' || c == ';' || c == ')'
        || c == '(' || c == ']' || c == '[' || c == '{' || c == '}'
}

/// Where the value that starts at `from` ends.
pub open spec fn value_end(s: Seq<char>, from: int) -> int
    decreases s.len() - from,
{
    if from >= s.len() || ends_value(s[from]) {
        from
    } else {
        value_end(s, from + 1)
    }
}

/// A value ends within the text.
proof fn lemma_value_end(s: Seq<char>, from: int)
    requires
        0 <= from <= s.len(),
    ensures
        from <= value_end(s, from) <= s.len(),
    decreases s.len() - from,
{
    if from >= s.len() || ends_value(s[from]) {
    } else {
        lemma_value_end(s, from + 1);
    }
}

/// Where the secret that starts at `from` ends.  After an authorization key the word `bearer`
/// belongs to the secret, together with the token that follows it.
pub open spec fn secret_end(s: Seq<char>, from: int, authorization: bool) -> int {
    if authorization && text::occurs_at(text::lower(s), "bearer "@, from) {
        value_end(s, from + "bearer "@.len())
    } else {
        value_end(s, from)
    }
}

/// `s` with every secret that follows `needle`, in any case, replaced.  The needle is searched
/// on behind each secret replaced; where no value follows it, behind the next character.
pub open spec fn redact_after(s: Seq<char>, needle: Seq<char>, authorization: bool) -> Seq<char>
    decreases s.len(),
{
    match text::find_from(text::lower(s), needle, 0) {
        None => s,
        Some(i) => {
            let start = i + needle.len();
            let end = secret_end(s, start, authorization);
            if i < 0 || start >= s.len() {
                s
            } else if end == start {
                s.take(start + 1) + redact_after(s.skip(start + 1), needle, authorization)
            } else if start < end <= s.len() {
                s.take(start) + REDACTED@ + redact_after(s.skip(end), needle, authorization)
            } else {
                s
            }
        },
    }
}

/// Lower case is taken character by character.
proof fn lemma_lower_skip(s: Seq<char>, n: int)
    requires
        0 <= n <= s.len(),
    ensures
        text::lower(s).skip(n) == text::lower(s.skip(n)),
{
    assert(text::lower(s).skip(n) =~= text::lower(s.skip(n)));
}

/// The end of a value in a suffix, seen from the whole.
proof fn lemma_value_end_skip(s: Seq<char>, base: int, from: int)
    requires
        0 <= base <= s.len(),
        0 <= from <= s.len() - base,
    ensures
        value_end(s, base + from) == base + value_end(s.skip(base), from),
    decreases s.len() - base - from,
{
    if from >= s.len() - base || ends_value(s.skip(base)[from]) {
    } else {
        lemma_value_end_skip(s, base, from + 1);
    }
}

/// Where the value that starts at `from` ends.
fn value_end_of(chars: &Vec<char>, from: usize) -> (r: usize)
    requires
        from <= chars@.len(),
    ensures
        r == value_end(chars@, from as int),
        from <= r <= chars@.len(),
{
    let mut i: usize = from;
    while i < chars.len() && !is_secret_value_terminator(chars[i])
        invariant
            from <= i <= chars@.len(),
            value_end(chars@, i as int) == value_end(chars@, from as int),
        decreases chars@.len() - i,
    {
        i = i + 1;
    }
    i
}

/// An occurrence in a suffix, seen from the whole.
proof fn lemma_occurs_skip(s: Seq<char>, pat: Seq<char>, base: int, i: int)
    requires
        0 <= base <= s.len(),
        0 <= i,
    ensures
        text::occurs_at(s, pat, base + i) == text::occurs_at(s.skip(base), pat, i),
{
    if base + i + pat.len() <= s.len() {
        assert(s.subrange(base + i, base + i + pat.len()) =~= s.skip(base).subrange(
            i,
            i + pat.len(),
        ));
    }
}

/// Where the first secret behind `needle` starts and ends, searched from the start of `s`: nowhere
/// where the needle is missing or the text ends with it.
spec fn first_secret(s: Seq<char>, needle: Seq<char>, authorization: bool) -> Option<(int, int)> {
    match text::find_from(text::lower(s), needle, 0) {
        None => None,
        Some(i) => {
            let start = i + needle.len();
            if start >= s.len() {
                None
            } else {
                Some((start, secret_end(s, start, authorization)))
            }
        },
    }
}

/// Where the first secret behind `pattern` starts and ends, searched from `from`.
fn next_secret(
    chars: &Vec<char>,
    lower: &Vec<char>,
    pattern: &Vec<char>,
    bearer: &Vec<char>,
    from: usize,
    authorization: bool,
) -> (r: Option<(usize, usize)>)
    requires
        from <= chars@.len(),
        lower@ == text::lower(chars@),
        pattern@.len() > 0,
        bearer@ == "bearer "@,
    ensures
        match r {
            None => first_secret(chars@.skip(from as int), pattern@, authorization) is None,
            Some((start, end)) => {
                &&& from + pattern@.len() <= start < chars@.len()
                &&& start <= end <= chars@.len()
                &&& first_secret(chars@.skip(from as int), pattern@, authorization) == Some(
                    (start - from, end - from),
                )
            },
        },
{
    let ghost rest = chars@.skip(from as int);
    proof {
        reveal_strlit("bearer ");
        lemma_lower_skip(chars@, from as int);
        text::lemma_find_skip(lower@, pattern@, from as int, 0);
    }
    let start: usize = match text::position(lower, pattern, from) {
        None => {
            return None;
        },
        Some(at) => at + pattern.len(),
    };
    if start >= chars.len() {
        return None;
    }
    proof {
        lemma_value_end_skip(chars@, from as int, start - from);
        lemma_occurs_skip(lower@, bearer@, from as int, start - from);
    }
    if authorization && text::found_at(lower, bearer, start) {
        proof {
            lemma_value_end_skip(chars@, from as int, start - from + 7);
        }
        let end = value_end_of(chars, start + 7);
        Some((start, end))
    } else {
        let end = value_end_of(chars, start);
        Some((start, end))
    }
}

/// `input` with every secret that follows `needle`, in any case, replaced.
fn redact_following(input: &str, needle: &str, authorization: bool) -> (r: String)
    requires
        needle@.len() > 0,
    ensures
        r@ == redact_after(input@, needle@, authorization),
{
    let chars = text::chars_of(input);
    let lower = text::lowered_chars(&chars);
    let pattern = text::chars_of(needle);
    let bearer = text::chars_of("bearer ");
    let mut out = String::new();
    let total = chars.len();
    let mut from: usize = 0;
    let ghost whole = redact_after(chars@, needle@, authorization);
    proof {
        assert(chars@.skip(0) =~= chars@);
        assert(out@ + whole =~= whole);
    }
    loop
        invariant_except_break
            from <= chars@.len(),
            total == chars@.len(),
            lower@ == text::lower(chars@),
            pattern@ == needle@,
            needle@.len() > 0,
            bearer@ == "bearer "@,
            out@ + redact_after(chars@.skip(from as int), needle@, authorization) == whole,
        ensures
            out@ == whole,
        decreases chars@.len() - from,
    {
        let ghost rest = chars@.skip(from as int);
        let ghost before = out@;
        match next_secret(&chars, &lower, &pattern, &bearer, from, authorization) {
            None => {
                let tail = text::string_of_range(&chars, from, total);
                assert(tail@ =~= rest);
                out.append(tail.as_str());
                break;
            },
            Some((start, end)) => {
                if end == start {
                    let piece = text::string_of_range(&chars, from, start + 1);
                    out.append(piece.as_str());
                    proof {
                        let n = start - from + 1;
                        assert(rest.take(n) =~= piece@);
                        assert(rest.skip(n) =~= chars@.skip(start + 1));
                        let tail = redact_after(chars@.skip(start + 1), needle@, authorization);
                        assert(before + (piece@ + tail) =~= before + piece@ + tail);
                    }
                    from = start + 1;
                } else {
                    let piece = text::string_of_range(&chars, from, start);
                    out.append(piece.as_str());
                    out.append(REDACTED);
                    proof {
                        assert(rest.take(start - from) =~= piece@);
                        assert(rest.skip(end - from) =~= chars@.skip(end as int));
                        let tail = redact_after(chars@.skip(end as int), needle@, authorization);
                        assert(before + (piece@ + REDACTED@ + tail) =~= before + piece@ + REDACTED@
                            + tail);
                    }
                    from = end;
                }
            },
        }
    }
    out
}

/// `s` with every secret behind `key` and the separator replaced.
pub open spec fn redact_key(s: Seq<char>, key: Seq<char>, separator: char) -> Seq<char> {
    redact_after(s, key.push(separator), text::lower(key) == "authorization"@)
}

/// `input` with every secret behind `key` and the separator replaced.
pub fn redact_after_key(input: &str, key: &str, separator: char) -> (r: String)
    ensures
        r@ == redact_key(input@, key@, separator),
{
    let mut needle = key.to_owned();
    needle.push(separator);
    let authorization = text::same_text(text::lowered(key).as_str(), "authorization");
    redact_following(input, needle.as_str(), authorization)
}

/// `input` with every bearer token replaced.
pub fn redact_bearer_token(input: &str) -> (r: String)
    ensures
        r@ == redact_after(input@, "bearer "@, false),
{
    proof {
        reveal_strlit("bearer ");
    }
    redact_following(input, "bearer ", false)
}

/// `document` with every value under a key that names a secret replaced.
pub open spec fn redact_document(document: JsonView) -> JsonView
    decreases document,
{
    match document {
        JsonView::Array(items) => JsonView::Array(
            Seq::new(
                items.len(),
                |i: int|
                    if 0 <= i < items.len() {
                        redact_document(items[i])
                    } else {
                        JsonView::Null
                    },
            ),
        ),
        JsonView::Object(members) => JsonView::Object(
            Map::new(
                |key: Seq<char>| members.contains_key(key),
                |key: Seq<char>|
                    if sensitive(key) {
                        JsonView::Str(REDACTED@)
                    } else if members.contains_key(key) {
                        redact_document(members[key])
                    } else {
                        JsonView::Null
                    },
            ),
        ),
        _ => document,
    }
}

/// In a redacted object a key that names a secret leads to the mark, and the keys stay.
pub proof fn law_secret_members_are_replaced(members: Map<Seq<char>, JsonView>, key: Seq<char>)
    requires
        members.contains_key(key),
        sensitive(key),
    ensures
        redact_document(JsonView::Object(members)).get(key) == Some(JsonView::Str(REDACTED@)),
{
}

/// Redacting a document that is redacted changes nothing.
pub proof fn law_redaction_is_idempotent(document: JsonView)
    ensures
        redact_document(redact_document(document)) == redact_document(document),
    decreases document,
{
    let once = redact_document(document);
    match document {
        JsonView::Array(items) => {
            assert forall|i: int| 0 <= i < items.len() implies redact_document(
                redact_document(#[trigger] items[i]),
            ) == redact_document(items[i]) by {
                law_redaction_is_idempotent(items[i]);
            }
            assert(redact_document(once)->Array_0 =~= once->Array_0);
        },
        JsonView::Object(members) => {
            assert forall|key: Seq<char>| members.contains_key(key) implies redact_document(
                redact_document(#[trigger] members[key]),
            ) == redact_document(members[key]) by {
                law_redaction_is_idempotent(members[key]);
            }
            assert(redact_document(once)->Object_0 =~= once->Object_0);
        },
        _ => {},
    }
}

/// The document with every value under a key that names a secret replaced.
pub fn redact_json_value(value: Json) -> (r: Json)
    requires
        value.wf(),
    ensures
        r@ == redact_document(value@),
        r.wf(),
    decreases value,
{
    let ghost whole = value;
    match value {
        Json::Array(items) => {
            let ghost all = items@;
            let mut out: Vec<Json> = Vec::new();
            for item in iter: items
                invariant
                    iter.seq() == all,
                    whole is Array && whole->Array_0@ == all,
                    whole == value,
                    whole.wf(),
                    out@.len() == iter.index(),
                    forall|j: int|
                        0 <= j < out@.len() ==> (#[trigger] out@[j])@ == redact_document(all[j]@)
                            && out@[j].wf(),
            {
                let ghost k = out@.len() as int;
                assert(whole->Array_0@[k].wf());
                assert(decreases_to!(whole => whole->Array_0@[k]));
                out.push(redact_json_value(item));
            }
            proof {
                json::lemma_items(all);
                json::lemma_items(out@);
                assert(redact_document(whole@)->Array_0 =~= json::items_view(out@));
            }
            Json::Array(out)
        },
        Json::Object(members) => {
            let ghost all = members@;
            let mut out: Vec<(String, Json)> = Vec::new();
            for member in iter: members
                invariant
                    iter.seq() == all,
                    whole is Object && whole->Object_0@ == all,
                    whole == value,
                    whole.wf(),
                    out@.len() == iter.index(),
                    forall|j: int|
                        0 <= j < out@.len() ==> (#[trigger] out@[j]).0@ == all[j].0@
                            && out@[j].1@ == (if sensitive(all[j].0@) {
                            JsonView::Str(REDACTED@)
                        } else {
                            redact_document(all[j].1@)
                        }) && out@[j].1.wf(),
            {
                let ghost k = out@.len() as int;
                let (key, inner) = member;
                assert(whole->Object_0@[k].1.wf());
                assert(decreases_to!(whole => whole->Object_0@[k].1));
                if is_sensitive_key(key.as_str()) {
                    out.push((key, Json::text(REDACTED)));
                } else {
                    out.push((key, redact_json_value(inner)));
                }
            }
            proof {
                assert(json::distinct(out@));
                let target = redact_document(whole@)->Object_0;
                assert forall|key: Seq<char>|
                    #[trigger] json::members_view(out@).contains_key(key)
                        == target.contains_key(key) && (target.contains_key(key)
                        ==> json::members_view(out@)[key] == target[key]) by {
                    json::lemma_members(out@, key);
                    json::lemma_members(all, key);
                    if target.contains_key(key) {
                        let i = choose|i: int|
                            0 <= i < all.len() && (#[trigger] all[i]).0@ == key;
                        assert(out@[i].0@ == key);
                        json::lemma_member_at(all, i);
                        json::lemma_member_at(out@, i);
                    } else if json::members_view(out@).contains_key(key) {
                        let i = choose|i: int|
                            0 <= i < out@.len() && (#[trigger] out@[i]).0@ == key;
                        assert(all[i].0@ == key);
                    }
                }
                assert(json::members_view(out@) =~= target);
            }
            Json::Object(out)
        },
        other => other,
    }
}

/// `s` with the secrets of plain text replaced, key by key, and bearer tokens at last.
pub open spec fn redact_plain(s: Seq<char>) -> Seq<char> {
    let s = redact_key(redact_key(s, "api_key"@, '='), "api_key"@, ':');
    let s = redact_key(redact_key(s, "apikey"@, '='), "apikey"@, ':');
    let s = redact_key(redact_key(s, "token"@, '='), "token"@, ':');
    let s = redact_key(redact_key(s, "secret"@, '='), "secret"@, ':');
    let s = redact_key(redact_key(s, "password"@, '='), "password"@, ':');
    let s = redact_key(redact_key(s, "authorization"@, '='), "authorization"@, ':');
    let s = redact_key(redact_key(s, "access_token"@, '='), "access_token"@, ':');
    let s = redact_key(redact_key(s, "refresh_token"@, '='), "refresh_token"@, ':');
    redact_after(s, "bearer "@, false)
}

/// `input` with the secrets behind `key` and an equals sign, then a colon, replaced.
fn redact_both(input: &str, key: &str) -> (r: String)
    ensures
        r@ == redact_key(redact_key(input@, key@, '='), key@, ':'),
{
    redact_after_key(redact_after_key(input, key, '=').as_str(), key, ':')
}

/// `input` with the secrets of plain text replaced.
pub fn redact_plain_text(input: &str) -> (r: String)
    ensures
        r@ == redact_plain(input@),
{
    let out = redact_both(input, "api_key");
    let out = redact_both(out.as_str(), "apikey");
    let out = redact_both(out.as_str(), "token");
    let out = redact_both(out.as_str(), "secret");
    let out = redact_both(out.as_str(), "password");
    let out = redact_both(out.as_str(), "authorization");
    let out = redact_both(out.as_str(), "access_token");
    let out = redact_both(out.as_str(), "refresh_token");
    redact_bearer_token(out.as_str())
}

/// `s` with its secrets replaced: as a document where it is one, else as plain text.
pub open spec fn redact(s: Seq<char>) -> Seq<char> {
    match json::parsed_json(s) {
        Ok(document) => json::rendered_json(redact_document(document)),
        Err(_) => redact_plain(s),
    }
}

/// `input` with its secrets replaced: as a document where it is one, else as plain text.
pub fn redact_sensitive_values(input: &str) -> (r: String)
    ensures
        r@ == redact(input@),
{
    match Json::parse(input) {
        Ok(document) => redact_json_value(document).render(),
        Err(_) => redact_plain_text(input),
    }
}

/// `s` on one line: its words with one space between neighbours.
pub open spec fn one_line(s: Seq<char>) -> Seq<char> {
    text::join(text::words(s), " "@)
}

/// `input` on one line.
pub fn normalize_for_log_line(input: &str) -> (r: String)
    ensures
        r@ == one_line(input@),
{
    text::joined(&text::words_of(input), " ")
}

/// `s` where it has at most `max_chars` characters, else its start and a mark.
pub open spec fn log_clip(s: Seq<char>, max_chars: int) -> Seq<char> {
    text::clip_marked(s, max_chars, "...[truncated]"@)
}

/// `input` where it has at most `max_chars` characters, else its start and a mark.
pub fn truncate_for_log(input: &str, max_chars: usize) -> (r: String)
    ensures
        r@ == log_clip(input@, max_chars as int),
{
    text::clipped_marked(input, max_chars, "...[truncated]")
}

/// The preview of a redacted text: on one line and cut short.
pub open spec fn preview_of_redacted(redacted: Seq<char>, max_chars: int) -> Seq<char> {
    log_clip(one_line(redacted), max_chars)
}

/// The preview of a redacted text: on one line and cut short.
pub fn preview_redacted(redacted: &str, max_chars: usize) -> (r: String)
    ensures
        r@ == preview_of_redacted(redacted@, max_chars as int),
{
    truncate_for_log(normalize_for_log_line(redacted).as_str(), max_chars)
}

/// The preview of `input` for the log: redacted, on one line and cut short.
pub fn sanitize_preview(input: &str, max_chars: usize) -> (r: String)
    ensures
        r@ == preview_of_redacted(redact(input@), max_chars as int),
{
    preview_redacted(redact_sensitive_values(input).as_str(), max_chars)
}

/// Whether no part holds white space.
spec fn spaceless(parts: Seq<Seq<char>>) -> bool {
    forall|w: int, i: int|
        0 <= w < parts.len() && 0 <= i < parts[w].len() ==> !text::is_white(#[trigger] parts[w][i])
}

/// No word holds white space.
proof fn lemma_words_hold_no_space(s: Seq<char>)
    ensures
        spaceless(text::words(s)),
    decreases s.len(),
{
    if s.len() == 0 {
        assert(spaceless(text::words(s)));
    } else if text::is_white(s[0]) {
        lemma_words_hold_no_space(s.skip(1));
    } else {
        let n = text::class_from(s, CharClass::White, 0);
        text::lemma_class_from(s, CharClass::White, 0);
        if 0 < n <= s.len() {
            lemma_words_hold_no_space(s.skip(n));
            let rest = text::words(s.skip(n));
            let all = seq![s.take(n)] + rest;
            assert forall|w: int, i: int|
                0 <= w < all.len() && 0 <= i < all[w].len() implies !text::is_white(
                #[trigger] all[w][i],
            ) by {
                if w == 0 {
                    assert(all[0][i] == s[i]);
                    assert(!CharClass::White.has(s[i]));
                } else {
                    assert(all[w] == rest[w - 1]);
                    assert(!text::is_white(rest[w - 1][i]));
                }
            }
            assert(text::words(s) == all);
        }
    }
}

/// Joining parts without white space by a space puts no other white space in.
proof fn lemma_join_spaces(parts: Seq<Seq<char>>)
    requires
        spaceless(parts),
    ensures
        forall|i: int|
            0 <= i < text::join(parts, " "@).len() && text::is_white(
                #[trigger] text::join(parts, " "@)[i],
            ) ==> text::join(parts, " "@)[i] == ' ',
    decreases parts.len(),
{
    reveal_strlit(" ");
    let whole = text::join(parts, " "@);
    if parts.len() > 1 {
        let front = parts.drop_last();
        assert forall|w: int, i: int|
            0 <= w < front.len() && 0 <= i < front[w].len() implies !text::is_white(
            #[trigger] front[w][i],
        ) by {
            assert(!text::is_white(parts[w][i]));
        }
        lemma_join_spaces(front);
        let head = text::join(front, " "@);
        assert forall|i: int| 0 <= i < whole.len() && text::is_white(#[trigger] whole[i]) implies whole[i]
            == ' ' by {
            if i < head.len() {
                assert(whole[i] == head[i]);
            } else if i == head.len() {
                assert(whole[i] == " "@[0]);
            } else {
                let w = parts.len() - 1;
                assert(whole[i] == parts[w][i - head.len() - 1]);
            }
        }
    } else if parts.len() == 1 {
        assert forall|i: int| 0 <= i < whole.len() && text::is_white(#[trigger] whole[i]) implies whole[i]
            == ' ' by {
            assert(whole[i] == parts[0][i]);
        }
    }
}

/// A preview stands on one line: the only white space in it is the space character.
pub proof fn law_preview_is_one_line(redacted: Seq<char>, max_chars: int)
    requires
        0 <= max_chars,
    ensures
        forall|i: int|
            0 <= i < preview_of_redacted(redacted, max_chars).len() && text::is_white(
                #[trigger] preview_of_redacted(redacted, max_chars)[i],
            ) ==> preview_of_redacted(redacted, max_chars)[i] == ' ',
{
    reveal_strlit("...[truncated]");
    lemma_words_hold_no_space(redacted);
    lemma_join_spaces(text::words(redacted));
    let line = one_line(redacted);
    let preview = preview_of_redacted(redacted, max_chars);
    assert forall|i: int| 0 <= i < preview.len() && text::is_white(#[trigger] preview[i]) implies preview[i]
        == ' ' by {
        if i < max_chars && i < line.len() {
            assert(preview[i] == line[i]);
        } else {
            assert(preview[i] == "...[truncated]"@[i - max_chars]);
        }
    }
}

/// A preview has at most `max_chars` characters and the mark.
pub proof fn law_preview_is_short(redacted: Seq<char>, max_chars: int)
    requires
        0 <= max_chars,
    ensures
        preview_of_redacted(redacted, max_chars).len() <= max_chars + "...[truncated]"@.len(),
{
}

/// A key is a secret's wherever one of the words stands in it, in any case.
pub proof fn law_words_for_secrets_are_known(before: Seq<char>, word: Seq<char>, behind: Seq<char>)
    requires
        text::lower(word) == "token"@ || text::lower(word) == "secret"@ || text::lower(word)
            == "password"@ || text::lower(word) == "authorization"@ || text::lower(word)
            == "api_key"@ || text::lower(word) == "apikey"@,
    ensures
        sensitive(before + word + behind),
{
    let whole = text::lower(before + word + behind);
    let n = before.len() as int;
    assert(whole.subrange(n, n + word.len()) =~= text::lower(word));
    assert(text::occurs_at(whole, text::lower(word), n));
}

/// Every member that is no secret stays, with its own secrets taken out; what holds no members
/// stays as it is, and a list stays as long.
pub proof fn law_other_members_stay(
    members: Map<Seq<char>, JsonView>,
    key: Seq<char>,
    items: Seq<JsonView>,
    i: int,
    told: Seq<char>,
    truth: bool,
    number: serde_json::Number,
)
    ensures
        members.contains_key(key) && !sensitive(key) ==> redact_document(
            JsonView::Object(members),
        ).get(key) == Some(redact_document(members[key])),
        !members.contains_key(key) ==> redact_document(JsonView::Object(members)).get(key) is None,
        redact_document(JsonView::Array(items)).as_array() is Some,
        redact_document(JsonView::Array(items)).as_array()->0.len() == items.len(),
        0 <= i < items.len() ==> redact_document(JsonView::Array(items)).as_array()->0[i]
            == redact_document(items[i]),
        redact_document(JsonView::Str(told)) == JsonView::Str(told),
        redact_document(JsonView::Bool(truth)) == JsonView::Bool(truth),
        redact_document(JsonView::Number(number)) == JsonView::Number(number),
        redact_document(JsonView::Null) == JsonView::Null,
{
}

/// A document is shown without its secrets, and a text that is none without those behind a key.
pub proof fn law_documents_are_shown_without_secrets(s: Seq<char>)
    ensures
        json::parsed_json(s) is Ok ==> redact(s) == json::rendered_json(
            redact_document(json::parsed_json(s)->Ok_0),
        ),
        json::parsed_json(s) is Err ==> redact(s) == redact_plain(s),
{
}

/// Where a value goes on to the end of the text, that is its end.
proof fn lemma_value_goes_on(s: Seq<char>, from: int, end: int)
    requires
        0 <= from <= end <= s.len(),
        forall|i: int| from <= i < end ==> !ends_value(#[trigger] s[i]),
        end < s.len() ==> ends_value(s[end]),
    ensures
        value_end(s, from) == end,
    decreases end - from,
{
    if from < end {
        lemma_value_goes_on(s, from + 1, end);
    }
}

/// The first secret behind a key is taken out, whole, and what follows likewise; a text without the
/// key stays as it is.
pub proof fn law_secrets_behind_a_key_are_taken_out(
    before: Seq<char>,
    needle: Seq<char>,
    secret: Seq<char>,
    behind: Seq<char>,
)
    requires
        needle.len() > 0,
        text::lower(needle) == needle,
        secret.len() > 0,
        forall|i: int| 0 <= i < secret.len() ==> !ends_value(#[trigger] secret[i]),
        behind.len() == 0 || ends_value(behind[0]),
        forall|j: int|
            0 <= j < before.len() ==> !text::occurs_at(
                text::lower(before + needle + secret + behind),
                needle,
                j,
            ),
    ensures
        redact_after(before + needle + secret + behind, needle, false) == before + needle
            + "***REDACTED***"@ + redact_after(behind, needle, false),
        !text::contains(text::lower(before), needle) ==> redact_after(before, needle, false)
            == before,
{
    let s = before + needle + secret + behind;
    let lowered = text::lower(s);
    let n = before.len() as int;
    let start = n + needle.len();
    let end = start + secret.len();
    assert(lowered.subrange(n, start) =~= text::lower(needle));
    assert(text::occurs_at(lowered, needle, n));
    text::lemma_find(lowered, needle, 0);
    assert(text::find_from(lowered, needle, 0) == Some(n));
    assert forall|i: int| start <= i < end implies !ends_value(#[trigger] s[i]) by {
        assert(s[i] == secret[i - start]);
    }
    if end < s.len() {
        assert(s[end] == behind[0]);
    }
    lemma_value_goes_on(s, start, end);
    assert(s.take(start) =~= before + needle);
    assert(s.skip(end) =~= behind);
    text::lemma_find(text::lower(before), needle, 0);
    if !text::contains(text::lower(before), needle) {
        if text::find_from(text::lower(before), needle, 0) is Some {
            assert(text::occurs_at(
                text::lower(before),
                needle,
                text::find_from(text::lower(before), needle, 0)->0,
            ));
        }
    }
}

/// A text of one key and its value: no other sign for a value stands in it, and the value goes on to
/// its end.
pub open spec fn one_value(key: Seq<char>, separator: char, value: Seq<char>) -> bool {
    &&& separator == '=' || separator == ':'
    &&& value.len() > 0
    &&& forall|i: int|
        0 <= i < value.len() ==> !ends_value(#[trigger] value[i]) && value[i] != '=' && value[i]
            != ':'
    &&& forall|i: int|
        0 <= i < key.len() ==> #[trigger] key[i] != '=' && key[i] != ':' && key[i] != ' '
}

/// A step of taking out secrets leaves such a text, or takes out its value; it does so where the key
/// is the one looked for.
proof fn lemma_one_step(
    key: Seq<char>,
    separator: char,
    value: Seq<char>,
    word: Seq<char>,
    sign: char,
    authorization: bool,
)
    requires
        one_value(key, separator, value),
        word.len() > 0,
        sign == '=' || sign == ':',
    ensures
        ({
            let s = key.push(separator) + value;
            let done = key.push(separator) + REDACTED@;
            let r = redact_after(s, word.push(sign), authorization);
            &&& r == s || r == done
            &&& sign == separator && text::ends_with(text::lower(key), word) ==> r == done
        }),
{
    reveal_strlit("bearer ");
    let s = key.push(separator) + value;
    let needle = word.push(sign);
    let lowered = text::lower(s);
    let n = key.len() as int;
    text::lemma_find(lowered, needle, 0);
    assert forall|j: int| 0 <= j && text::occurs_at(lowered, needle, j) implies j + word.len() == n
        && sign == separator by {
        let at = j + word.len();
        assert(lowered.subrange(j, j + needle.len())[word.len() as int] == sign);
        assert(lowered[at] == sign);
        assert(s[at] == sign);
        if at < n {
            assert(s[at] == key[at]);
        } else if at > n {
            assert(s[at] == value[at - n - 1]);
        }
    }
    if sign == separator && text::ends_with(text::lower(key), word) {
        let j = n - word.len();
        assert(text::lower(key).subrange(j, n) =~= word);
        assert(lowered.subrange(j, n + 1) =~= needle) by {
            assert forall|k: int| 0 <= k < needle.len() implies lowered.subrange(j, n + 1)[k]
                == needle[k] by {
                if k < word.len() {
                    assert(s[j + k] == key[j + k]);
                    assert(text::lower(key).subrange(j, n)[k] == text::lower(key)[j + k]);
                }
            }
        }
        assert(text::occurs_at(lowered, needle, j));
    }
    if text::find_from(lowered, needle, 0) is Some {
        let i = text::find_from(lowered, needle, 0)->0;
        let start = n + 1;
        assert(i + needle.len() == start);
        assert forall|k: int| start <= k < s.len() implies !ends_value(#[trigger] s[k]) by {
            assert(s[k] == value[k - start]);
        }
        lemma_value_goes_on(s, start, s.len() as int);
        if authorization && text::occurs_at(lowered, "bearer "@, start) {
            assert(lowered.subrange(start, start + 7)[6] == ' ');
            assert(lowered[start + 6] == ' ');
            assert(s[start + 6] == ' ');
            assert(ends_value(s[start + 6]));
        }
        assert(s.take(start) =~= key.push(separator));
        let rest = s.skip(s.len() as int);
        assert(rest =~= Seq::<char>::empty());
        text::lemma_find(text::lower(rest), needle, 0);
        assert(redact_after(rest, needle, authorization) =~= rest);
        assert(key.push(separator) + REDACTED@ + rest =~= key.push(separator) + REDACTED@);
    }
}

/// What stands in a secret's place is a value like any other.
proof fn lemma_redacted_is_a_value(key: Seq<char>, separator: char, value: Seq<char>)
    requires
        one_value(key, separator, value),
    ensures
        one_value(key, separator, REDACTED@),
{
    reveal_strlit("***REDACTED***");
    assert(REDACTED@ =~= seq![
        '*',
        '*',
        '*',
        'R',
        'E',
        'D',
        'A',
        'C',
        'T',
        'E',
        'D',
        '*',
        '*',
        '*',
    ]);
}

/// Both signs behind a word are looked for.
proof fn lemma_one_word(
    key: Seq<char>,
    separator: char,
    value: Seq<char>,
    s: Seq<char>,
    word: Seq<char>,
) -> (r: Seq<char>)
    requires
        one_value(key, separator, value),
        s == key.push(separator) + value || s == key.push(separator) + REDACTED@,
        word.len() > 0,
    ensures
        r == redact_key(redact_key(s, word, '='), word, ':'),
        r == s || r == key.push(separator) + REDACTED@,
        text::ends_with(text::lower(key), word) ==> r == key.push(separator) + REDACTED@,
{
    let authorization = text::lower(word) == "authorization"@;
    lemma_redacted_is_a_value(key, separator, value);
    lemma_one_step(key, separator, value, word, '=', authorization);
    lemma_one_step(key, separator, REDACTED@, word, '=', authorization);
    lemma_one_step(key, separator, value, word, ':', authorization);
    lemma_one_step(key, separator, REDACTED@, word, ':', authorization);
    redact_key(redact_key(s, word, '='), word, ':')
}

/// The value of a key that ends with one of the words is never shown, whatever it is, and whichever
/// of the two signs stands between them.
pub proof fn law_secret_values_are_never_shown(key: Seq<char>, separator: char, value: Seq<char>)
    requires
        one_value(key, separator, value),
        text::ends_with(text::lower(key), "api_key"@) || text::ends_with(
            text::lower(key),
            "apikey"@,
        ) || text::ends_with(text::lower(key), "token"@) || text::ends_with(
            text::lower(key),
            "secret"@,
        ) || text::ends_with(text::lower(key), "password"@) || text::ends_with(
            text::lower(key),
            "authorization"@,
        ),
    ensures
        redact_plain(key.push(separator) + value) == key.push(separator) + "***REDACTED***"@,
{
    reveal_strlit("api_key");
    reveal_strlit("apikey");
    reveal_strlit("token");
    reveal_strlit("secret");
    reveal_strlit("password");
    reveal_strlit("authorization");
    reveal_strlit("access_token");
    reveal_strlit("refresh_token");
    reveal_strlit("bearer ");
    let s0 = key.push(separator) + value;
    let s1 = lemma_one_word(key, separator, value, s0, "api_key"@);
    let s2 = lemma_one_word(key, separator, value, s1, "apikey"@);
    let s3 = lemma_one_word(key, separator, value, s2, "token"@);
    let s4 = lemma_one_word(key, separator, value, s3, "secret"@);
    let s5 = lemma_one_word(key, separator, value, s4, "password"@);
    let s6 = lemma_one_word(key, separator, value, s5, "authorization"@);
    let s7 = lemma_one_word(key, separator, value, s6, "access_token"@);
    let s8 = lemma_one_word(key, separator, value, s7, "refresh_token"@);
    assert(s8 == key.push(separator) + REDACTED@);
    lemma_redacted_is_a_value(key, separator, value);
    let lowered = text::lower(s8);
    text::lemma_find(lowered, "bearer "@, 0);
    if text::find_from(lowered, "bearer "@, 0) is Some {
        let i = text::find_from(lowered, "bearer "@, 0)->0;
        assert(lowered.subrange(i, i + 7)[6] == ' ');
        assert(lowered[i + 6] == ' ');
        assert(s8[i + 6] == ' ');
        if i + 6 < key.len() {
            assert(s8[i + 6] == key[i + 6]);
        } else if i + 6 > key.len() {
            assert(s8[i + 6] == REDACTED@[i + 6 - key.len() - 1]);
            assert(ends_value(' '));
        }
    }
}

/// A text in which no sign for a value stands is shown as it is, but for what follows the word for a
/// bearer.
proof fn lemma_plain_word(s: Seq<char>, word: Seq<char>)
    requires
        forall|i: int| 0 <= i < s.len() ==> #[trigger] s[i] != '=' && s[i] != ':',
    ensures
        redact_key(s, word, '=') == s,
        redact_key(s, word, ':') == s,
{
    let lowered = text::lower(s);
    let n = word.len() as int;
    let first = word.push('=');
    text::lemma_find(lowered, first, 0);
    if text::find_from(lowered, first, 0) is Some {
        let i = text::find_from(lowered, first, 0)->0;
        assert(lowered.subrange(i, i + n + 1)[n] == '=');
        assert(lowered[i + n] == '=');
        assert(s[i + n] == '=');
    }
    let second = word.push(':');
    text::lemma_find(lowered, second, 0);
    if text::find_from(lowered, second, 0) is Some {
        let i = text::find_from(lowered, second, 0)->0;
        assert(lowered.subrange(i, i + n + 1)[n] == ':');
        assert(lowered[i + n] == ':');
        assert(s[i + n] == ':');
    }
}

/// The token of a bearer is never shown, and a text without keys and bearers is shown as it is.
pub proof fn law_bearers_are_never_shown(
    before: Seq<char>,
    secret: Seq<char>,
    behind: Seq<char>,
)
    requires
        secret.len() > 0,
        forall|i: int| 0 <= i < secret.len() ==> !ends_value(#[trigger] secret[i]),
        behind.len() == 0 || ends_value(behind[0]),
        forall|i: int|
            0 <= i < (before + "bearer "@ + secret + behind).len() ==> #[trigger] (before
                + "bearer "@ + secret + behind)[i] != '=' && (before + "bearer "@ + secret
                + behind)[i] != ':',
        forall|j: int|
            0 <= j < before.len() ==> !text::occurs_at(
                text::lower(before + "bearer "@ + secret + behind),
                "bearer "@,
                j,
            ),
    ensures
        redact_plain(before + "bearer "@ + secret + behind) == before + "bearer "@
            + "***REDACTED***"@ + redact_after(behind, "bearer "@, false),
        !text::contains(text::lower(before), "bearer "@) ==> redact_plain(before) == before,
{
    reveal_strlit("bearer ");
    let s = before + "bearer "@ + secret + behind;
    assert forall|i: int| 0 <= i < before.len() implies #[trigger] before[i] != '=' && before[i]
        != ':' by {
        assert(s[i] == before[i]);
    }
    lemma_plain_word(s, "api_key"@);
    lemma_plain_word(s, "apikey"@);
    lemma_plain_word(s, "token"@);
    lemma_plain_word(s, "secret"@);
    lemma_plain_word(s, "password"@);
    lemma_plain_word(s, "authorization"@);
    lemma_plain_word(s, "access_token"@);
    lemma_plain_word(s, "refresh_token"@);
    lemma_plain_word(before, "api_key"@);
    lemma_plain_word(before, "apikey"@);
    lemma_plain_word(before, "token"@);
    lemma_plain_word(before, "secret"@);
    lemma_plain_word(before, "password"@);
    lemma_plain_word(before, "authorization"@);
    lemma_plain_word(before, "access_token"@);
    lemma_plain_word(before, "refresh_token"@);
    assert(text::lower("bearer "@) =~= "bearer "@);
    law_secrets_behind_a_key_are_taken_out(before, "bearer "@, secret, behind);
}

/// A preview on one line keeps the words of a text, parted by single spaces, and its start where it
/// is too long.
pub proof fn law_previews_keep_the_words(
    word: Seq<char>,
    space: char,
    rest: Seq<char>,
    max_chars: int,
)
    requires
        word.len() > 0,
        forall|i: int| 0 <= i < word.len() ==> !text::is_white(#[trigger] word[i]),
        text::is_white(space),
        text::words(rest).len() > 0,
        0 <= max_chars,
    ensures
        one_line(word) == word,
        one_line(word + seq![space] + rest) == word + " "@ + one_line(rest),
        one_line(word).len() <= max_chars ==> preview_of_redacted(word, max_chars) == word,
        one_line(word).len() > max_chars ==> preview_of_redacted(word, max_chars) == word.take(
            max_chars,
        ) + "...[truncated]"@,
{
    text::law_words_are_parted_by_white_space(word, rest, space);
    text::law_joining_keeps_the_order(seq![word], text::words(rest), " "@);
}

/// Traces are numbered one after another.
pub proof fn law_traces_are_numbered(counter: &mut TraceCounter, now_ms: u64, r: String)
    requires
        call_ensures(next_trace_id, (counter, now_ms), r),
        old(counter).next < u64::MAX,
    ensures
        final(counter).next == old(counter).next + 1,
        r@ == "trc-"@ + text::decimal(now_ms as nat) + "-"@ + text::decimal(
            old(counter).next as nat,
        ),
{
}

/// Behind a key for an authorization the word for a bearer is taken out together with its token.
pub proof fn law_authorizations_are_taken_out_whole(
    before: Seq<char>,
    needle: Seq<char>,
    secret: Seq<char>,
    behind: Seq<char>,
)
    requires
        needle.len() > 0,
        text::lower(needle) == needle,
        secret.len() > 0,
        forall|i: int| 0 <= i < secret.len() ==> !ends_value(#[trigger] secret[i]),
        behind.len() == 0 || ends_value(behind[0]),
        forall|j: int|
            0 <= j < before.len() ==> !text::occurs_at(
                text::lower(before + needle + "bearer "@ + secret + behind),
                needle,
                j,
            ),
    ensures
        redact_after(before + needle + "bearer "@ + secret + behind, needle, true) == before
            + needle + "***REDACTED***"@ + redact_after(behind, needle, true),
{
    reveal_strlit("bearer ");
    let s = before + needle + "bearer "@ + secret + behind;
    let lowered = text::lower(s);
    let n = before.len() as int;
    let start = n + needle.len();
    let token = start + 7;
    let end = token + secret.len();
    assert("bearer "@.len() == 7);
    assert(lowered.subrange(n, start) =~= text::lower(needle));
    assert(text::occurs_at(lowered, needle, n));
    text::lemma_find(lowered, needle, 0);
    assert(text::find_from(lowered, needle, 0) == Some(n));
    assert(text::lower("bearer "@) =~= "bearer "@);
    assert(lowered.subrange(start, token) =~= text::lower("bearer "@));
    assert(text::occurs_at(lowered, "bearer "@, start));
    assert forall|i: int| token <= i < end implies !ends_value(#[trigger] s[i]) by {
        assert(s[i] == secret[i - token]);
    }
    if end < s.len() {
        assert(s[end] == behind[0]);
    }
    lemma_value_goes_on(s, token, end);
    assert(s.take(start) =~= before + needle);
    assert(s.skip(end) =~= behind);
}

} // verus!
