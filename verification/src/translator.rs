//! What a translation request holds and what a reply yields: prompt
//! rendering, request bodies, and the text and errors read from replies.

use vstd::prelude::*;
use crate::cache::{key_message, sha256_digest, Cache};
use crate::config::{
    distinct_keys, first_named, first_reserved_from, has_provider, is_reserved_param, ApiFormat, Config,
    ProviderConfig,
};
use crate::language::{target_for, target_language};
use vstd::utf8::encode_utf8;
use crate::json::{
    get_of, items_of, lemma_view_entries, lemma_view_items, lookup, member, member_of, text_of,
    text_of_opt, token_zero, view_entries, view_items, view_json, view_opt, view_text, zero_of,
    Json, JsonV, Number,
};
use crate::text::{
    blank, chars_of, decimal, decimal_seq, is_blank, replace_all, replace_seq, seq_eq, string_of,
    trim, trim_end_char, trim_end_matches, trim_seq,
};

verus! {

/// The prompt `template` with `{target_language}` and then `{text}` filled in.
pub open spec fn rendered(template: Seq<char>, text: Seq<char>, target: Seq<char>) -> Seq<char> {
    replace_seq(replace_seq(template, "{target_language}"@, target), "{text}"@, text)
}

/// Fills the placeholders of a prompt template: every `{target_language}`
/// becomes `target_language`, then every `{text}` becomes `text`.
pub fn render_prompt(template: &str, text: &str, target_language: &str) -> (r: String)
    ensures
        r@ == rendered(template@, text@, target_language@),
{
    proof {
        reveal_strlit("{target_language}");
        reveal_strlit("{text}");
    }
    let step = replace_all(
        &chars_of(template),
        &chars_of("{target_language}"),
        &chars_of(target_language),
    );
    let done = replace_all(&step, &chars_of("{text}"), &chars_of(text));
    string_of(&done)
}

/// The configuration name of an API format.
pub open spec fn format_name(format: ApiFormat) -> Seq<char> {
    match format {
        ApiFormat::Responses => "responses"@,
        ApiFormat::ChatCompletions => "chat_completions"@,
        ApiFormat::Completions => "completions"@,
    }
}

/// The configuration name of an API format.
pub fn api_format_name(format: ApiFormat) -> (r: &'static str)
    ensures
        r@ == format_name(format),
{
    match format {
        ApiFormat::Responses => "responses",
        ApiFormat::ChatCompletions => "chat_completions",
        ApiFormat::Completions => "completions",
    }
}

/// `es` with member `k` set to `v`: the first member named `k` takes the new
/// value, or the member is added at the end.
pub open spec fn insert_entry(es: Seq<(Seq<char>, JsonV)>, k: Seq<char>, v: JsonV) -> Seq<
    (Seq<char>, JsonV),
>
    decreases es.len(),
{
    if es.len() == 0 {
        seq![(k, v)]
    } else if es[0].0 == k {
        seq![(k, v)] + es.drop_first()
    } else {
        seq![es[0]] + insert_entry(es.drop_first(), k, v)
    }
}

/// `es` with each of `ps`, in order, set as a member.
pub open spec fn merge_all(es: Seq<(Seq<char>, JsonV)>, ps: Seq<(Seq<char>, JsonV)>) -> Seq<
    (Seq<char>, JsonV),
>
    decreases ps.len(),
{
    if ps.len() == 0 {
        es
    } else {
        merge_all(insert_entry(es, ps[0].0, ps[0].1), ps.drop_first())
    }
}

/// Setting a member replaces the first member with that name, or appends.
pub proof fn lemma_insert_entry(es: Seq<(Seq<char>, JsonV)>, k: Seq<char>, v: JsonV, idx: int)
    requires
        0 <= idx <= es.len(),
        forall|j: int| 0 <= j < idx ==> (#[trigger] es[j]).0 != k,
        idx == es.len() || es[idx].0 == k,
    ensures
        insert_entry(es, k, v) == if idx < es.len() {
            es.update(idx, (k, v))
        } else {
            es.push((k, v))
        },
    decreases idx,
{
    if idx > 0 {
        lemma_insert_entry(es.drop_first(), k, v, idx - 1);
        if idx < es.len() {
            assert(seq![es[0]] + es.drop_first().update(idx - 1, (k, v)) =~= es.update(idx, (k, v)));
        } else {
            assert(seq![es[0]] + es.drop_first().push((k, v)) =~= es.push((k, v)));
        }
    } else if idx < es.len() {
        assert(seq![(k, v)] + es.drop_first() =~= es.update(0, (k, v)));
    } else {
        assert(seq![(k, v)] =~= es.push((k, v)));
    }
}

/// Sets member `key` of an object's member list to `value`.
pub fn insert_member(entries: &mut Vec<(String, Json)>, key: String, value: Json)
    ensures
        view_entries(final(entries)@) == insert_entry(
            view_entries(old(entries)@),
            key@,
            view_json(value),
        ),
{
    let ghost before = entries@;
    proof {
        lemma_view_entries(before);
    }
    let k = chars_of(key.as_str());
    let n = entries.len();
    let mut idx: usize = 0;
    while idx < n
        invariant
            idx <= n,
            n == entries@.len(),
            entries@ == before,
            k@ == key@,
            forall|j: int| 0 <= j < idx ==> (#[trigger] view_entries(before)[j]).0 != key@,
            view_entries(before).len() == before.len(),
            forall|j: int|
                0 <= j < before.len() ==> #[trigger] view_entries(before)[j] == (
                    before[j].0@,
                    view_json(before[j].1),
                ),
        ensures
            idx == n || view_entries(before)[idx as int].0 == key@,
        decreases n - idx,
    {
        if seq_eq(&chars_of(entries[idx].0.as_str()), &k) {
            break;
        }
        idx = idx + 1;
    }
    let ghost kv = (key@, view_json(value));
    proof {
        lemma_insert_entry(view_entries(before), key@, view_json(value), idx as int);
    }
    if idx < n {
        entries.set(idx, (key, value));
        proof {
            lemma_view_entries(entries@);
            assert(view_entries(entries@) =~= view_entries(before).update(idx as int, kv));
        }
    } else {
        entries.push((key, value));
        proof {
            lemma_view_entries(entries@);
            assert(view_entries(entries@) =~= view_entries(before).push(kv));
        }
    }
}

/// The request fields that a provider's settings produce, before its extra
/// parameters are added.
pub open spec fn base_body(p: ProviderConfig, system: Seq<char>, user: Seq<char>) -> Seq<
    (Seq<char>, JsonV),
> {
    let model = ("model"@, JsonV::Str(p.model@));
    let temperature = ("temperature"@, JsonV::Num(Number::Float32(p.temperature_bits)));
    let tokens = JsonV::Num(Number::PosInt(p.max_output_tokens as u64));
    let stream = ("stream"@, JsonV::Bool(p.stream));
    match p.api_format {
        ApiFormat::Responses => seq![
            model,
            ("instructions"@, JsonV::Str(system)),
            ("input"@, JsonV::Str(user)),
            temperature,
            ("max_output_tokens"@, tokens),
            stream,
        ],
        ApiFormat::ChatCompletions => seq![
            model,
            ("messages"@, JsonV::Array(seq![
                JsonV::Object(seq![("role"@, JsonV::Str("system"@)), ("content"@, JsonV::Str(system))]),
                JsonV::Object(seq![("role"@, JsonV::Str("user"@)), ("content"@, JsonV::Str(user))]),
            ])),
            temperature,
            ("max_tokens"@, tokens),
            stream,
        ],
        ApiFormat::Completions => seq![
            model,
            ("prompt"@, JsonV::Str(system + seq!['\n', '\n'] + user)),
            temperature,
            ("max_tokens"@, tokens),
            stream,
        ],
    }
}

/// The request body: the provider's fields with its extra parameters set on top.
pub open spec fn request_body(p: ProviderConfig, system: Seq<char>, user: Seq<char>) -> JsonV {
    JsonV::Object(merge_all(base_body(p, system, user), view_entries(p.extra_params@)))
}

/// A string member.
fn text_member(key: &str, value: &str) -> (r: (String, Json))
    ensures
        r.0@ == key@,
        view_json(r.1) == JsonV::Str(value@),
{
    (key.to_owned(), Json::Str(value.to_owned()))
}

/// A chat message object.
fn message(role: &str, content: &str) -> (r: Json)
    ensures
        view_json(r) == JsonV::Object(seq![("role"@, JsonV::Str(role@)), ("content"@, JsonV::Str(content@))]),
{
    let mut es: Vec<(String, Json)> = Vec::new();
    es.push(text_member("role", role));
    es.push(text_member("content", content));
    proof {
        lemma_view_entries(es@);
        assert(view_entries(es@) =~= seq![("role"@, JsonV::Str(role@)), ("content"@, JsonV::Str(content@))]);
    }
    Json::Object(es)
}

/// The JSON request body for `provider` with the rendered prompts.
pub fn build_request_body(provider: &ProviderConfig, system_prompt: &str, user_prompt: &str) -> (r: Json)
    ensures
        view_json(r) == request_body(*provider, system_prompt@, user_prompt@),
{
    let mut es: Vec<(String, Json)> = Vec::new();
    es.push(text_member("model", provider.model.as_str()));
    let temperature = ("temperature".to_owned(), Json::Num(Number::Float32(provider.temperature_bits)));
    let tokens = Json::Num(Number::PosInt(provider.max_output_tokens as u64));
    let stream = ("stream".to_owned(), Json::Bool(provider.stream));
    match provider.api_format {
        ApiFormat::Responses => {
            es.push(text_member("instructions", system_prompt));
            es.push(text_member("input", user_prompt));
            es.push(temperature);
            es.push(("max_output_tokens".to_owned(), tokens));
            es.push(stream);
            proof {
                lemma_view_entries(es@);
                assert(view_entries(es@) =~= base_body(*provider, system_prompt@, user_prompt@));
            }
        },
        ApiFormat::ChatCompletions => {
            let mut messages: Vec<Json> = Vec::new();
            messages.push(message("system", system_prompt));
            messages.push(message("user", user_prompt));
            proof {
                lemma_view_items(messages@);
                assert(view_items(messages@) =~= seq![
                    JsonV::Object(seq![("role"@, JsonV::Str("system"@)), ("content"@, JsonV::Str(system_prompt@))]),
                    JsonV::Object(seq![("role"@, JsonV::Str("user"@)), ("content"@, JsonV::Str(user_prompt@))]),
                ]);
            }
            es.push(("messages".to_owned(), Json::Array(messages)));
            es.push(temperature);
            es.push(("max_tokens".to_owned(), tokens));
            es.push(stream);
            proof {
                lemma_view_entries(es@);
                assert(view_entries(es@) =~= base_body(*provider, system_prompt@, user_prompt@));
            }
        },
        ApiFormat::Completions => {
            let mut prompt = chars_of(system_prompt);
            prompt.push('\n');
            prompt.push('\n');
            let mut user = chars_of(user_prompt);
            prompt.append(&mut user);
            assert(prompt@ =~= system_prompt@ + seq!['\n', '\n'] + user_prompt@);
            let joined = string_of(&prompt);
            es.push(("prompt".to_owned(), Json::Str(joined)));
            es.push(temperature);
            es.push(("max_tokens".to_owned(), tokens));
            es.push(stream);
            proof {
                lemma_view_entries(es@);
                assert(view_entries(es@) =~= base_body(*provider, system_prompt@, user_prompt@));
            }
        },
    }
    let ghost params = view_entries(provider.extra_params@);
    proof {
        lemma_view_entries(provider.extra_params@);
        assert(params.skip(0) =~= params);
    }
    let n = provider.extra_params.len();
    let mut i: usize = 0;
    while i < n
        invariant
            i <= n,
            n == provider.extra_params@.len(),
            params == view_entries(provider.extra_params@),
            params.len() == n,
            forall|j: int|
                0 <= j < n ==> #[trigger] params[j] == (
                    provider.extra_params@[j].0@,
                    view_json(provider.extra_params@[j].1),
                ),
            merge_all(base_body(*provider, system_prompt@, user_prompt@), params) == merge_all(
                view_entries(es@),
                params.skip(i as int),
            ),
        decreases n - i,
    {
        let ghost rest = params.skip(i as int);
        assert(rest[0] == params[i as int]);
        assert(rest.drop_first() =~= params.skip(i + 1));
        let key = provider.extra_params[i].0.clone();
        let value = provider.extra_params[i].1.duplicate();
        insert_member(&mut es, key, value);
        i = i + 1;
    }
    assert(params.skip(n as int) =~= Seq::<(Seq<char>, JsonV)>::empty());
    Json::Object(es)
}

/// The texts of the parts that carry a string `text`.
pub open spec fn part_texts(parts: Seq<JsonV>) -> Seq<Seq<char>>
    decreases parts.len(),
{
    if parts.len() == 0 {
        Seq::empty()
    } else {
        let own = match text_of(member(parts[0], "text"@)) {
            Some(t) => seq![t],
            None => Seq::empty(),
        };
        own + part_texts(parts.drop_first())
    }
}

/// The part texts of every output item whose `content` is an array.
pub open spec fn item_texts(items: Seq<JsonV>) -> Seq<Seq<char>>
    decreases items.len(),
{
    if items.len() == 0 {
        Seq::empty()
    } else {
        let own = match items_of(member(items[0], "content"@)) {
            Some(parts) => part_texts(parts),
            None => Seq::empty(),
        };
        own + item_texts(items.drop_first())
    }
}

/// Texts joined with nothing between them.
pub open spec fn concat(ts: Seq<Seq<char>>) -> Seq<char>
    decreases ts.len(),
{
    if ts.len() == 0 {
        Seq::empty()
    } else {
        ts[0] + concat(ts.drop_first())
    }
}

/// Joining distributes over concatenation of lists.
pub proof fn lemma_concat_append(a: Seq<Seq<char>>, b: Seq<Seq<char>>)
    ensures
        concat(a + b) == concat(a) + concat(b),
    decreases a.len(),
{
    if a.len() == 0 {
        assert(a + b =~= b);
    } else {
        lemma_concat_append(a.drop_first(), b);
        assert((a + b).drop_first() =~= a.drop_first() + b);
    }
}

/// The translated text of a complete reply.
pub open spec fn output_text(format: ApiFormat, response: JsonV) -> Option<Seq<char>> {
    match format {
        ApiFormat::Responses => match text_of(member(response, "output_text"@)) {
            Some(t) => Some(t),
            None => match items_of(member(response, "output"@)) {
                Some(items) => {
                    let texts = item_texts(items);
                    if texts.len() > 0 {
                        Some(concat(texts))
                    } else {
                        None
                    }
                },
                None => None,
            },
        },
        ApiFormat::ChatCompletions => text_of(
            member_of(member_of(token_zero(member(response, "choices"@)), "message"@), "content"@),
        ),
        ApiFormat::Completions => text_of(member_of(token_zero(member(response, "choices"@)), "text"@)),
    }
}

/// The text that one streamed event adds.
pub open spec fn delta_text(format: ApiFormat, event: JsonV) -> Option<Seq<char>> {
    match format {
        ApiFormat::Responses => if text_of(member(event, "type"@)) == Some(
            "response.output_text.delta"@,
        ) {
            text_of(member(event, "delta"@))
        } else {
            None
        },
        ApiFormat::ChatCompletions => text_of(
            member_of(member_of(token_zero(member(event, "choices"@)), "delta"@), "content"@),
        ),
        ApiFormat::Completions => text_of(member_of(token_zero(member(event, "choices"@)), "text"@)),
    }
}

/// The error message that a streamed event reports: the string at `error`
/// (or at `error.message` when that member exists); else, for an event of
/// type `error`, its `message`; else `response.error.message`.
pub open spec fn event_error(event: JsonV) -> Option<Seq<char>> {
    let first = match member(event, "error"@) {
        Some(err) => text_of(
            match member(err, "message"@) {
                Some(m) => Some(m),
                None => Some(err),
            },
        ),
        None => None,
    };
    let second = if text_of(member(event, "type"@)) == Some("error"@) {
        text_of(member(event, "message"@))
    } else {
        None
    };
    if first is Some {
        first
    } else if second is Some {
        second
    } else {
        text_of(member_of(member_of(member(event, "response"@), "error"@), "message"@))
    }
}

/// Appends the texts of `parts` to `out`, returning how many there were.
fn collect_part_texts(parts: &Vec<Json>, out: &mut Vec<char>) -> (count: usize)
    ensures
        final(out)@ == old(out)@ + concat(part_texts(view_items(parts@))),
        count == part_texts(view_items(parts@)).len(),
{
    let ghost ps = view_items(parts@);
    proof {
        lemma_view_items(parts@);
        assert(ps.skip(0) =~= ps);
    }
    let ghost start = out@;
    let n = parts.len();
    let mut count: usize = 0;
    let mut i: usize = 0;
    while i < n
        invariant
            i <= n,
            n == parts@.len(),
            ps == view_items(parts@),
            ps.len() == n,
            forall|j: int| 0 <= j < n ==> #[trigger] ps[j] == view_json(parts@[j]),
            concat(part_texts(ps)) == out@.skip(start.len() as int) + concat(part_texts(ps.skip(i as int))),
            out@.take(start.len() as int) == start,
            start.len() <= out@.len(),
            part_texts(ps).len() == count + part_texts(ps.skip(i as int)).len(),
            count <= i,
        decreases n - i,
    {
        let ghost rest = ps.skip(i as int);
        assert(rest[0] == ps[i as int]);
        assert(rest.drop_first() =~= ps.skip(i + 1));
        let ghost own = match text_of(member(ps[i as int], "text"@)) {
            Some(t) => seq![t],
            None => Seq::<Seq<char>>::empty(),
        };
        proof {
            lemma_concat_append(own, part_texts(ps.skip(i + 1)));
        }
        let ghost before = out@;
        match text_of_opt(parts[i].get("text")) {
            Some(t) => {
                let mut cs = chars_of(t.as_str());
                out.append(&mut cs);
                count = count + 1;
                assert(own.len() == 1 && own[0] == t@);
                assert(own.drop_first() =~= Seq::<Seq<char>>::empty());
                assert(concat(own.drop_first()) == Seq::<char>::empty());
                assert(concat(own) == own[0] + concat(own.drop_first()));
                assert(concat(own) =~= t@);
            },
            None => {},
        }
        assert(out@.skip(start.len() as int) =~= before.skip(start.len() as int) + concat(own));
        assert(out@.take(start.len() as int) =~= start);
        i = i + 1;
    }
    assert(ps.skip(n as int) =~= Seq::<JsonV>::empty());
    assert(out@ =~= start + out@.skip(start.len() as int));
    count
}

/// The translated text of a complete reply in the given API format.
pub fn extract_output(format: ApiFormat, response: &Json) -> (r: Option<String>)
    ensures
        view_text(r) == output_text(format, view_json(*response)),
{
    match format {
        ApiFormat::Responses => {
            match text_of_opt(response.get("output_text")) {
                Some(t) => {
                    return Some(t);
                },
                None => {},
            }
            let output = response.get("output");
            match output {
                Some(Json::Array(items)) => {
                    let ghost is = view_items(items@);
                    proof {
                        lemma_view_items(items@);
                        assert(is.skip(0) =~= is);
                    }
                    let n = items.len();
                    let mut out: Vec<char> = Vec::new();
                    let mut any = false;
                    let mut i: usize = 0;
                    while i < n
                        invariant
                            i <= n,
                            n == items@.len(),
                            is == view_items(items@),
                            is.len() == n,
                            forall|j: int| 0 <= j < n ==> #[trigger] is[j] == view_json(items@[j]),
                            concat(item_texts(is)) == out@ + concat(item_texts(is.skip(i as int))),
                            (item_texts(is).len() > 0) == (any || item_texts(is.skip(i as int)).len() > 0),
                        decreases n - i,
                    {
                        let ghost rest = is.skip(i as int);
                        assert(rest[0] == is[i as int]);
                        assert(rest.drop_first() =~= is.skip(i + 1));
                        let ghost own = match items_of(member(is[i as int], "content"@)) {
                            Some(parts) => part_texts(parts),
                            None => Seq::<Seq<char>>::empty(),
                        };
                        proof {
                            lemma_concat_append(own, item_texts(is.skip(i + 1)));
                        }
                        match items[i].get("content") {
                            Some(Json::Array(parts)) => {
                                let added = collect_part_texts(parts, &mut out);
                                if added > 0 {
                                    any = true;
                                }
                            },
                            _ => {},
                        }
                        i = i + 1;
                    }
                    assert(is.skip(n as int) =~= Seq::<JsonV>::empty());
                    if any {
                        Some(string_of(&out))
                    } else {
                        None
                    }
                },
                _ => None,
            }
        },
        ApiFormat::ChatCompletions => text_of_opt(
            get_of(get_of(zero_of(response.get("choices")), "message"), "content"),
        ),
        ApiFormat::Completions => text_of_opt(get_of(zero_of(response.get("choices")), "text")),
    }
}

/// Whether an optional string value holds exactly `expected`.
fn text_is(v: Option<&Json>, expected: &str) -> (r: bool)
    ensures
        r == (text_of(view_opt(v)) == Some(expected@)),
{
    match text_of_opt(v) {
        Some(t) => seq_eq(&chars_of(t.as_str()), &chars_of(expected)),
        None => false,
    }
}

/// The text that one streamed event adds, in the given API format.
pub fn extract_stream_delta(format: ApiFormat, event: &Json) -> (r: Option<String>)
    ensures
        view_text(r) == delta_text(format, view_json(*event)),
{
    match format {
        ApiFormat::Responses => {
            if text_is(event.get("type"), "response.output_text.delta") {
                text_of_opt(event.get("delta"))
            } else {
                None
            }
        },
        ApiFormat::ChatCompletions => text_of_opt(
            get_of(get_of(zero_of(event.get("choices")), "delta"), "content"),
        ),
        ApiFormat::Completions => text_of_opt(get_of(zero_of(event.get("choices")), "text")),
    }
}

/// The error message that a streamed event reports, if any.
pub fn extract_stream_error(event: &Json) -> (r: Option<String>)
    ensures
        view_text(r) == event_error(view_json(*event)),
{
    let first = match event.get("error") {
        Some(err) => match err.get("message") {
            Some(m) => text_of_opt(Some(m)),
            None => text_of_opt(Some(err)),
        },
        None => None,
    };
    if first.is_some() {
        return first;
    }
    if text_is(event.get("type"), "error") {
        let second = text_of_opt(event.get("message"));
        if second.is_some() {
            return second;
        }
    }
    text_of_opt(get_of(get_of(event.get("response"), "error"), "message"))
}

/// What one streamed event means for the translation.
pub enum StreamEvent {
    /// The service reports an error with this message.
    Failed(String),
    /// The translation grows by this text.
    Delta(String),
    /// The event carries nothing for the translation.
    Nothing,
}

/// What one streamed event means: an error it reports wins over text it adds.
pub fn classify_stream_event(format: ApiFormat, event: &Json) -> (r: StreamEvent)
    ensures
        match event_error(view_json(*event)) {
            Some(m) => r matches StreamEvent::Failed(s) && s@ == m,
            None => match delta_text(format, view_json(*event)) {
                Some(t) => r matches StreamEvent::Delta(s) && s@ == t,
                None => r is Nothing,
            },
        },
{
    match extract_stream_error(event) {
        Some(m) => StreamEvent::Failed(m),
        None => match extract_stream_delta(format, event) {
            Some(t) => StreamEvent::Delta(t),
            None => StreamEvent::Nothing,
        },
    }
}

/// The text that event `e` adds to a translation: its delta unless it
/// reports an error, nothing otherwise.
pub open spec fn added_text(format: ApiFormat, e: JsonV) -> Seq<char> {
    match event_error(e) {
        Some(_) => Seq::empty(),
        None => match delta_text(format, e) {
            Some(t) => t,
            None => Seq::empty(),
        },
    }
}

/// One streamed event taken into the translation `translated` built so far:
/// an error is reported and leaves the text as it is; added text is appended
/// to it and handed back to be shown.
pub fn absorb_stream_event(format: ApiFormat, translated: &mut String, event: &Json) -> (r: StreamEvent)
    ensures
        match event_error(view_json(*event)) {
            Some(m) => r matches StreamEvent::Failed(s) && s@ == m,
            None => match delta_text(format, view_json(*event)) {
                Some(t) => r matches StreamEvent::Delta(s) && s@ == t,
                None => r is Nothing,
            },
        },
        final(translated)@ == old(translated)@ + added_text(format, view_json(*event)),
{
    let r = classify_stream_event(format, event);
    match &r {
        StreamEvent::Delta(t) => {
            translated.append(t.as_str());
        },
        _ => {
            assert(old(translated)@ + added_text(format, view_json(*event)) =~= old(translated)@);
        },
    }
    r
}

/// A streamed reply of `events`, taken event by event into the text `text`
/// as [`absorb_stream_event`] does: the first event that reports an error
/// ends it with that message; otherwise the text of every event is appended.
pub open spec fn stream_run(format: ApiFormat, text: Seq<char>, events: Seq<JsonV>) -> Result<Seq<char>, Seq<char>>
    decreases events.len(),
{
    if events.len() == 0 {
        Ok(text)
    } else {
        match event_error(events[0]) {
            Some(m) => Err(m),
            None => stream_run(format, text + added_text(format, events[0]), events.drop_first()),
        }
    }
}

/// The delta texts of `events`, in order (an event without one adds nothing).
pub open spec fn delta_texts(format: ApiFormat, events: Seq<JsonV>) -> Seq<char>
    decreases events.len(),
{
    if events.len() == 0 {
        Seq::empty()
    } else {
        let first = match delta_text(format, events[0]) {
            Some(t) => t,
            None => Seq::empty(),
        };
        first + delta_texts(format, events.drop_first())
    }
}

/// The message of the first of `events` that reports an error.
pub open spec fn first_error(events: Seq<JsonV>) -> Option<Seq<char>>
    decreases events.len(),
{
    if events.len() == 0 {
        None
    } else {
        match event_error(events[0]) {
            Some(m) => Some(m),
            None => first_error(events.drop_first()),
        }
    }
}

/// A streamed reply yields the concatenation of the delta texts of its
/// events in order, unless one of them reports an error: then the first such
/// error ends the translation with its message. Starting from `text`, the
/// deltas are appended to it.
pub proof fn law_stream_joins_deltas(format: ApiFormat, text: Seq<char>, events: Seq<JsonV>)
    ensures
        stream_run(format, text, events) == match first_error(events) {
            Some(m) => Err::<Seq<char>, Seq<char>>(m),
            None => Ok::<Seq<char>, Seq<char>>(text + delta_texts(format, events)),
        },
    decreases events.len(),
{
    if events.len() == 0 {
        assert(text + Seq::<char>::empty() =~= text);
    } else if event_error(events[0]) is None {
        let piece = added_text(format, events[0]);
        law_stream_joins_deltas(format, text + piece, events.drop_first());
        assert(text + piece + delta_texts(format, events.drop_first()) =~= text + delta_texts(format, events));
    }
}

/// Why a translation is not attempted or has no result.
#[derive(Clone, Copy, Debug, PartialEq, Eq, Structural)]
pub enum TranslateError {
    /// The source text is blank.
    EmptySource,
    /// The active provider has no API key.
    MissingApiKey,
    /// The service answered with blank text.
    EmptyReply,
}

/// The parts of a translation that the prompts and the cache key are made of.
pub struct TranslationPlan {
    /// The source text, trimmed.
    pub source: String,
    /// The language to translate into.
    pub target_language: String,
    /// The rendered system prompt.
    pub system_prompt: String,
    /// The rendered user prompt.
    pub user_prompt: String,
}

/// Prepares a translation of `source` with the active provider: the trimmed
/// text, its target language and both rendered prompts. Blank text is refused
/// before the provider is looked up; an active provider without an API key is
/// refused too.
pub fn plan_translation(config: &Config, source: &str) -> (r: Result<TranslationPlan, TranslateError>)
    requires
        trim_seq(source@).len() > 0 ==> has_provider(*config, config.active_provider@),
    ensures
        trim_seq(source@).len() == 0 ==> r == Err::<TranslationPlan, TranslateError>(TranslateError::EmptySource),
        trim_seq(source@).len() > 0 ==> exists|i: int| #![trigger config.providers@[i]] first_named(*config, config.active_provider@, i) && {
            let p = config.providers@[i];
            let s = trim_seq(source@);
            let target = target_for(s, config.user_language@, config.second_language@);
            &&& is_blank(p.api_key@) ==> r == Err::<TranslationPlan, TranslateError>(TranslateError::MissingApiKey)
            &&& !is_blank(p.api_key@) ==> (r matches Ok(plan) && {
                &&& plan.source@ == s
                &&& plan.target_language@ == target
                &&& plan.system_prompt@ == rendered(p.system_prompt@, s, target)
                &&& plan.user_prompt@ == rendered(p.user_prompt@, s, target)
            })
        },
{
    let trimmed = trim(&chars_of(source));
    if trimmed.len() == 0 {
        return Err(TranslateError::EmptySource);
    }
    let provider = config.active_provider();
    if blank(&chars_of(provider.api_key.as_str())) {
        return Err(TranslateError::MissingApiKey);
    }
    let text = string_of(&trimmed);
    let target = target_language(
        text.as_str(),
        config.user_language.as_str(),
        config.second_language.as_str(),
    );
    let system_prompt = render_prompt(provider.system_prompt.as_str(), text.as_str(), target);
    let user_prompt = render_prompt(provider.user_prompt.as_str(), text.as_str(), target);
    Ok(TranslationPlan { source: text, target_language: target.to_owned(), system_prompt, user_prompt })
}

/// The blank check of a finished translation: blank text is no translation.
pub fn finish_translation(translated: String) -> (r: Result<String, TranslateError>)
    ensures
        is_blank(translated@) ==> r == Err::<String, TranslateError>(TranslateError::EmptyReply),
        !is_blank(translated@) ==> r == Ok::<String, TranslateError>(translated),
{
    if blank(&chars_of(translated.as_str())) {
        Err(TranslateError::EmptyReply)
    } else {
        Ok(translated)
    }
}

/// The UTF-8 bytes of each text.
pub open spec fn utf8_parts(ps: Seq<Seq<char>>) -> Seq<Seq<u8>> {
    Seq::new(ps.len(), |i: int| encode_utf8(ps[i]))
}

/// Everything a cached translation depends on, in the order it is keyed.
pub open spec fn key_parts(
    c: Config,
    p: ProviderConfig,
    plan: TranslationPlan,
    temperature_text: Seq<char>,
    extra_params_text: Seq<char>,
) -> Seq<Seq<char>> {
    seq![
        plan.source@,
        plan.target_language@,
        c.user_language@,
        c.second_language@,
        p.name@,
        p.model@,
        format_name(p.api_format),
        plan.system_prompt@,
        plan.user_prompt@,
        trim_end_char(p.base_url@, '/'),
        temperature_text,
        decimal_seq(p.max_output_tokens as nat),
        extra_params_text,
    ]
}

/// The cache key of a planned translation with the active provider, given
/// the provider's temperature as text and its extra parameters as JSON text.
pub fn translation_key(
    config: &Config,
    plan: &TranslationPlan,
    temperature_text: &str,
    extra_params_text: &str,
) -> (r: [u8; 32])
    requires
        has_provider(*config, config.active_provider@),
    ensures
        exists|i: int| #![trigger config.providers@[i]] first_named(*config, config.active_provider@, i) && r@ == sha256_digest(
            key_message(utf8_parts(key_parts(*config, config.providers@[i], *plan, temperature_text@, extra_params_text@))),
        ),
{
    let provider = config.active_provider();
    let base_url = string_of(&trim_end_matches(&chars_of(provider.base_url.as_str()), '/'));
    let tokens = string_of(&decimal(provider.max_output_tokens));
    let mut parts: Vec<&str> = Vec::new();
    parts.push(plan.source.as_str());
    parts.push(plan.target_language.as_str());
    parts.push(config.user_language.as_str());
    parts.push(config.second_language.as_str());
    parts.push(provider.name.as_str());
    parts.push(provider.model.as_str());
    parts.push(api_format_name(provider.api_format));
    parts.push(plan.system_prompt.as_str());
    parts.push(plan.user_prompt.as_str());
    parts.push(base_url.as_str());
    parts.push(temperature_text);
    parts.push(tokens.as_str());
    parts.push(extra_params_text);
    let ghost want = key_parts(*config, *provider, *plan, temperature_text@, extra_params_text@);
    assert(crate::cache::part_bytes(parts@) =~= utf8_parts(want));
    Cache::key(parts.as_slice())
}

/// Setting member `k` makes `k` hold `v`.
pub proof fn lemma_lookup_insert_same(es: Seq<(Seq<char>, JsonV)>, k: Seq<char>, v: JsonV)
    ensures
        lookup(insert_entry(es, k, v), k) == Some(v),
    decreases es.len(),
{
    if es.len() > 0 && es[0].0 != k {
        lemma_lookup_insert_same(es.drop_first(), k, v);
        let r = insert_entry(es, k, v);
        assert(r.subrange(1, r.len() as int) =~= insert_entry(es.drop_first(), k, v));
    } else if es.len() > 0 {
        let r = insert_entry(es, k, v);
        assert(r[0] == (k, v));
    }
}

/// Setting member `k` leaves every other member as it was.
pub proof fn lemma_lookup_insert_other(
    es: Seq<(Seq<char>, JsonV)>,
    k: Seq<char>,
    v: JsonV,
    other: Seq<char>,
)
    requires
        other != k,
    ensures
        lookup(insert_entry(es, k, v), other) == lookup(es, other),
    decreases es.len(),
{
    let r = insert_entry(es, k, v);
    if es.len() == 0 {
        assert(r.subrange(1, r.len() as int) =~= Seq::<(Seq<char>, JsonV)>::empty());
        assert(lookup(r.subrange(1, r.len() as int), other) is None);
        assert(lookup(r, other) == lookup(r.subrange(1, r.len() as int), other));
    } else if es[0].0 == k {
        assert(r.subrange(1, r.len() as int) =~= es.subrange(1, es.len() as int));
        assert(lookup(r, other) == lookup(r.subrange(1, r.len() as int), other));
        assert(lookup(es, other) == lookup(es.subrange(1, es.len() as int), other));
    } else {
        lemma_lookup_insert_other(es.drop_first(), k, v, other);
        assert(r.subrange(1, r.len() as int) =~= insert_entry(es.drop_first(), k, v));
    }
}

/// Members that no parameter names keep their values through the merge.
pub proof fn lemma_merge_other(es: Seq<(Seq<char>, JsonV)>, ps: Seq<(Seq<char>, JsonV)>, k: Seq<char>)
    requires
        forall|i: int| 0 <= i < ps.len() ==> (#[trigger] ps[i]).0 != k,
    ensures
        lookup(merge_all(es, ps), k) == lookup(es, k),
    decreases ps.len(),
{
    if ps.len() > 0 {
        lemma_lookup_insert_other(es, ps[0].0, ps[0].1, k);
        assert forall|i: int| 0 <= i < ps.drop_first().len() implies (
        #[trigger] ps.drop_first()[i]).0 != k by {
            assert(ps.drop_first()[i] == ps[i + 1]);
        }
        lemma_merge_other(insert_entry(es, ps[0].0, ps[0].1), ps.drop_first(), k);
    }
}

/// With distinct names, every parameter ends up as a member with its value.
pub proof fn lemma_merge_present(es: Seq<(Seq<char>, JsonV)>, ps: Seq<(Seq<char>, JsonV)>, i: int)
    requires
        0 <= i < ps.len(),
        forall|a: int, b: int| 0 <= a < b < ps.len() ==> (#[trigger] ps[a]).0 != (#[trigger] ps[b]).0,
    ensures
        lookup(merge_all(es, ps), ps[i].0) == Some(ps[i].1),
    decreases ps.len(),
{
    let rest = ps.drop_first();
    let next = insert_entry(es, ps[0].0, ps[0].1);
    assert forall|a: int, b: int| 0 <= a < b < rest.len() implies (#[trigger] rest[a]).0 != (
    #[trigger] rest[b]).0 by {
        assert(rest[a] == ps[a + 1] && rest[b] == ps[b + 1]);
    }
    if i == 0 {
        lemma_lookup_insert_same(es, ps[0].0, ps[0].1);
        assert forall|j: int| 0 <= j < rest.len() implies (#[trigger] rest[j]).0 != ps[0].0 by {
            assert(rest[j] == ps[j + 1]);
        }
        lemma_merge_other(next, rest, ps[0].0);
    } else {
        assert(rest[i - 1] == ps[i]);
        lemma_merge_present(next, rest, i - 1);
    }
}

/// No parameter at `k` or later is reserved when the search finds none.
pub proof fn lemma_no_reserved(format: ApiFormat, params: Seq<(String, Json)>, k: int)
    requires
        0 <= k,
        first_reserved_from(format, params, k) is None,
    ensures
        forall|i: int| k <= i < params.len() ==> !is_reserved_param(format, (#[trigger] params[i]).0@),
    decreases params.len() - k,
{
    if k < params.len() {
        lemma_no_reserved(format, params, k + 1);
    }
}

/// A member found in a list is named by one of its entries.
pub proof fn lemma_lookup_found(es: Seq<(Seq<char>, JsonV)>, k: Seq<char>)
    requires
        lookup(es, k) is Some,
    ensures
        exists|i: int| 0 <= i < es.len() && (#[trigger] es[i]).0 == k,
    decreases es.len(),
{
    if es[0].0 != k {
        let rest = es.subrange(1, es.len() as int);
        lemma_lookup_found(rest, k);
        let i = choose|i: int| 0 <= i < rest.len() && (#[trigger] rest[i]).0 == k;
        assert(es[i + 1] == rest[i]);
    } else {
        assert(es[0].0 == k);
    }
}

/// Every field that a provider's settings produce is a reserved field.
pub proof fn lemma_base_fields_reserved(p: ProviderConfig, system: Seq<char>, user: Seq<char>, k: Seq<char>)
    requires
        lookup(base_body(p, system, user), k) is Some,
    ensures
        is_reserved_param(p.api_format, k),
{
    let base = base_body(p, system, user);
    lemma_lookup_found(base, k);
    let i = choose|i: int| 0 <= i < base.len() && (#[trigger] base[i]).0 == k;
    assert(base[i].0 == k);
}

/// Extra parameters never replace a field that the provider's settings
/// produce, once the provider passes the reserved-field rule; and each extra
/// parameter (their names being distinct) is sent with its own value.
pub proof fn law_extra_params_respect_generated_fields(
    p: ProviderConfig,
    system: Seq<char>,
    user: Seq<char>,
)
    requires
        first_reserved_from(p.api_format, p.extra_params@, 0) is None,
        distinct_keys(p.extra_params@),
    ensures
        forall|k: Seq<char>|
            #![trigger lookup(base_body(p, system, user), k)]
            lookup(base_body(p, system, user), k) is Some ==> member(request_body(p, system, user), k)
                == lookup(base_body(p, system, user), k),
        forall|i: int|
            0 <= i < p.extra_params@.len() ==> member(request_body(p, system, user), (
            #[trigger] p.extra_params@[i]).0@) == Some(view_json(p.extra_params@[i].1)),
{
    let base = base_body(p, system, user);
    let ps = view_entries(p.extra_params@);
    lemma_view_entries(p.extra_params@);
    lemma_no_reserved(p.api_format, p.extra_params@, 0);
    assert forall|k: Seq<char>| #[trigger] lookup(base, k) is Some implies member(
        request_body(p, system, user),
        k,
    ) == lookup(base, k) by {
        lemma_base_fields_reserved(p, system, user, k);
        assert forall|i: int| 0 <= i < ps.len() implies (#[trigger] ps[i]).0 != k by {
            assert(ps[i].0 == p.extra_params@[i].0@);
        }
        lemma_merge_other(base, ps, k);
    }
    assert forall|i: int| 0 <= i < p.extra_params@.len() implies member(
        request_body(p, system, user),
        (#[trigger] p.extra_params@[i]).0@,
    ) == Some(view_json(p.extra_params@[i].1)) by {
        assert forall|a: int, b: int| 0 <= a < b < ps.len() implies (#[trigger] ps[a]).0 != (
        #[trigger] ps[b]).0 by {
            assert(ps[a].0 == p.extra_params@[a].0@);
            assert(ps[b].0 == p.extra_params@[b].0@);
        }
        lemma_merge_present(base, ps, i);
    }
}

/// Replacing a pattern whose first character does not occur changes nothing.
proof fn lemma_replace_without_start(s: Seq<char>, p: Seq<char>, r: Seq<char>)
    requires
        p.len() > 0,
        !s.contains(p[0]),
    ensures
        replace_seq(s, p, r) == s,
    decreases s.len(),
{
    if s.len() > 0 {
        assert(s[0] != p[0]);
        assert(!crate::text::has_prefix(s, p)) by {
            if s.len() >= p.len() {
                assert(s.subrange(0, p.len() as int)[0] == s[0]);
            }
        }
        let tail = s.drop_first();
        assert forall|i: int| 0 <= i < tail.len() implies tail[i] != p[0] by {
            assert(tail[i] == s[i + 1]);
        }
        lemma_replace_without_start(tail, p, r);
        assert(seq![s[0]] + tail =~= s);
    }
}

/// The placeholder `{text}` is filled with the text exactly as given, for
/// every text and target language: a template that is only the placeholder
/// renders as the text itself.
pub proof fn law_render_inserts_text_verbatim(text: Seq<char>, target: Seq<char>)
    ensures
        rendered("{text}"@, text, target) == text,
{
    reveal_strlit("{text}");
    reveal_strlit("{target_language}");
    let t = "{text}"@;
    let tl = "{target_language}"@;
    assert(!crate::text::has_prefix(t, tl));
    let tail = t.drop_first();
    assert(!tail.contains('{')) by {
        assert forall|i: int| 0 <= i < tail.len() implies tail[i] != '{' by {
            assert(tail[i] == t[i + 1]);
        }
    }
    lemma_replace_without_start(tail, tl, target);
    assert(seq![t[0]] + tail =~= t);
    assert(replace_seq(t, tl, target) == t);
    assert(crate::text::has_prefix(t, t)) by {
        assert(t.subrange(0, t.len() as int) =~= t);
    }
    let empty = Seq::<char>::empty();
    assert(t.subrange(t.len() as int, t.len() as int) =~= empty);
    assert(replace_seq(empty, t, text) == empty);
    assert(replace_seq(t, t, text) == text + replace_seq(empty, t, text));
    assert(text + empty =~= text);
    assert(replace_seq(t, t, text) == text);
}

/// The first member named `k` is found.
proof fn lemma_lookup_at(es: Seq<(Seq<char>, JsonV)>, k: Seq<char>, i: int)
    requires
        0 <= i < es.len(),
        es[i].0 == k,
        forall|j: int| 0 <= j < i ==> (#[trigger] es[j]).0 != k,
    ensures
        lookup(es, k) == Some(es[i].1),
    decreases i,
{
    if i > 0 {
        let rest = es.subrange(1, es.len() as int);
        assert forall|j: int| 0 <= j < i - 1 implies (#[trigger] rest[j]).0 != k by {
            assert(rest[j] == es[j + 1]);
        }
        lemma_lookup_at(rest, k, i - 1);
    }
}

/// A template without placeholders (no `{` at all) is sent as it is, whatever
/// the text and target language.
pub proof fn law_render_keeps_plain_templates(template: Seq<char>, text: Seq<char>, target: Seq<char>)
    requires
        !template.contains('{'),
    ensures
        rendered(template, text, target) == template,
{
    reveal_strlit("{text}");
    reveal_strlit("{target_language}");
    assert("{target_language}"@[0] == '{');
    assert("{text}"@[0] == '{');
    lemma_replace_without_start(template, "{target_language}"@, target);
    lemma_replace_without_start(template, "{text}"@, text);
}

/// A generated field keeps the value the provider's settings give it when no
/// extra parameter is reserved.
proof fn lemma_generated_member(p: ProviderConfig, system: Seq<char>, user: Seq<char>, k: Seq<char>)
    requires
        first_reserved_from(p.api_format, p.extra_params@, 0) is None,
        is_reserved_param(p.api_format, k),
    ensures
        member(request_body(p, system, user), k) == lookup(base_body(p, system, user), k),
{
    let ps = view_entries(p.extra_params@);
    lemma_view_entries(p.extra_params@);
    lemma_no_reserved(p.api_format, p.extra_params@, 0);
    assert forall|i: int| 0 <= i < ps.len() implies (#[trigger] ps[i]).0 != k by {
        assert(ps[i].0 == p.extra_params@[i].0@);
    }
    lemma_merge_other(base_body(p, system, user), ps, k);
}

/// What the request carries, for a provider whose extra parameters set no
/// reserved field: the model and the stream switch as configured; for the
/// Responses API the system prompt as `instructions` and the user prompt as
/// `input`; for Chat Completions the messages, exactly the system message
/// with the system prompt and then the user message with the user prompt;
/// for Completions one `prompt`, the system prompt, a blank line and the
/// user prompt.
pub proof fn law_request_carries_prompts(p: ProviderConfig, system: Seq<char>, user: Seq<char>)
    requires
        first_reserved_from(p.api_format, p.extra_params@, 0) is None,
    ensures
        member(request_body(p, system, user), "model"@) == Some(JsonV::Str(p.model@)),
        member(request_body(p, system, user), "stream"@) == Some(JsonV::Bool(p.stream)),
        p.api_format == ApiFormat::Responses ==> {
            &&& member(request_body(p, system, user), "instructions"@) == Some(JsonV::Str(system))
            &&& member(request_body(p, system, user), "input"@) == Some(JsonV::Str(user))
        },
        p.api_format == ApiFormat::ChatCompletions ==> member(request_body(p, system, user), "messages"@)
            == Some(JsonV::Array(seq![
                JsonV::Object(seq![("role"@, JsonV::Str("system"@)), ("content"@, JsonV::Str(system))]),
                JsonV::Object(seq![("role"@, JsonV::Str("user"@)), ("content"@, JsonV::Str(user))]),
            ])),
        p.api_format == ApiFormat::Completions ==> member(request_body(p, system, user), "prompt"@)
            == Some(JsonV::Str(system + seq!['\n', '\n'] + user)),
{
    reveal_strlit("model");
    reveal_strlit("stream");
    reveal_strlit("instructions");
    reveal_strlit("input");
    reveal_strlit("messages");
    reveal_strlit("prompt");
    reveal_strlit("temperature");
    reveal_strlit("max_output_tokens");
    reveal_strlit("max_tokens");
    reveal_strlit("max_completion_tokens");
    let base = base_body(p, system, user);
    lemma_generated_member(p, system, user, "model"@);
    lemma_generated_member(p, system, user, "stream"@);
    lemma_lookup_at(base, "model"@, 0);
    assert("model"@ != "stream"@) by { assert("model"@[0] != "stream"@[0]); }
    assert("instructions"@ != "stream"@) by { assert("instructions"@.len() != "stream"@.len()); }
    assert("input"@ != "stream"@) by { assert("input"@.len() != "stream"@.len()); }
    assert("temperature"@ != "stream"@) by { assert("temperature"@.len() != "stream"@.len()); }
    assert("max_output_tokens"@ != "stream"@) by { assert("max_output_tokens"@.len() != "stream"@.len()); }
    assert("messages"@ != "stream"@) by { assert("messages"@.len() != "stream"@.len()); }
    assert("max_tokens"@ != "stream"@) by { assert("max_tokens"@.len() != "stream"@.len()); }
    assert("prompt"@ != "stream"@) by { assert("prompt"@[0] != "stream"@[0]); }
    assert("model"@ != "instructions"@) by { assert("model"@.len() != "instructions"@.len()); }
    assert("model"@ != "input"@) by { assert("model"@[0] != "input"@[0]); }
    assert("instructions"@ != "input"@) by { assert("instructions"@.len() != "input"@.len()); }
    assert("model"@ != "messages"@) by { assert("model"@.len() != "messages"@.len()); }
    assert("model"@ != "prompt"@) by { assert("model"@.len() != "prompt"@.len()); }
    match p.api_format {
        ApiFormat::Responses => {
            lemma_generated_member(p, system, user, "instructions"@);
            lemma_generated_member(p, system, user, "input"@);
            lemma_lookup_at(base, "instructions"@, 1);
            lemma_lookup_at(base, "input"@, 2);
            lemma_lookup_at(base, "stream"@, 5);
        },
        ApiFormat::ChatCompletions => {
            lemma_generated_member(p, system, user, "messages"@);
            lemma_lookup_at(base, "messages"@, 1);
            lemma_lookup_at(base, "stream"@, 4);
        },
        ApiFormat::Completions => {
            lemma_generated_member(p, system, user, "prompt"@);
            lemma_lookup_at(base, "prompt"@, 1);
            lemma_lookup_at(base, "stream"@, 4);
        },
    }
}

/// A streamed event reports an error only through a string it carries: the
/// message is the string at `error`, at `error.message`, at `message` of an
/// event of type `error`, or at `response.error.message`. An event with none
/// of these strings (for instance one whose `response.error` is null)
/// reports no error.
pub proof fn law_stream_error_is_a_carried_string(e: JsonV)
    ensures
        event_error(e) matches Some(m) ==> {
            ||| member(e, "error"@) == Some(JsonV::Str(m))
            ||| member_of(member(e, "error"@), "message"@) == Some(JsonV::Str(m))
            ||| (member(e, "type"@) == Some(JsonV::Str("error"@)) && member(e, "message"@) == Some(JsonV::Str(m)))
            ||| member_of(member_of(member(e, "response"@), "error"@), "message"@) == Some(JsonV::Str(m))
        },
{
}

/// Two key messages that are equal come from the same translation: the same
/// source text, target language, language settings, provider name, model,
/// API format, rendered prompts, base URL, temperature and extra parameters.
/// So a translation is requested anew whenever any of these changes (for
/// parts shorter than 2^64 bytes).
pub proof fn law_translation_key_separates(
    c1: Config,
    p1: ProviderConfig,
    plan1: TranslationPlan,
    t1: Seq<char>,
    x1: Seq<char>,
    c2: Config,
    p2: ProviderConfig,
    plan2: TranslationPlan,
    t2: Seq<char>,
    x2: Seq<char>,
)
    requires
        forall|i: int| 0 <= i < 13 ==> (#[trigger] utf8_parts(key_parts(c1, p1, plan1, t1, x1))[i]).len() <= u64::MAX,
        forall|i: int| 0 <= i < 13 ==> (#[trigger] utf8_parts(key_parts(c2, p2, plan2, t2, x2))[i]).len() <= u64::MAX,
        key_message(utf8_parts(key_parts(c1, p1, plan1, t1, x1))) == key_message(utf8_parts(key_parts(c2, p2, plan2, t2, x2))),
    ensures
        plan1.source@ == plan2.source@,
        plan1.target_language@ == plan2.target_language@,
        c1.user_language@ == c2.user_language@,
        c1.second_language@ == c2.second_language@,
        p1.name@ == p2.name@,
        p1.model@ == p2.model@,
        p1.api_format == p2.api_format,
        plan1.system_prompt@ == plan2.system_prompt@,
        plan1.user_prompt@ == plan2.user_prompt@,
        trim_end_char(p1.base_url@, '/') == trim_end_char(p2.base_url@, '/'),
        t1 == t2,
        x1 == x2,
{
    let a = key_parts(c1, p1, plan1, t1, x1);
    let b = key_parts(c2, p2, plan2, t2, x2);
    let ua = utf8_parts(a);
    let ub = utf8_parts(b);
    crate::cache::law_key_message_injective(ua, ub);
    assert forall|i: int| 0 <= i < 13 implies #[trigger] a[i] == b[i] by {
        assert(ua[i] == ub[i]);
        vstd::utf8::encode_utf8_decode_utf8(a[i]);
        vstd::utf8::encode_utf8_decode_utf8(b[i]);
    }
    assert(a[5] == b[5]);
    assert(a[6] == b[6]);
    reveal_strlit("responses");
    reveal_strlit("chat_completions");
    reveal_strlit("completions");
    assert("responses"@.len() != "chat_completions"@.len());
    assert("responses"@.len() != "completions"@.len());
    assert("completions"@.len() != "chat_completions"@.len());
    if p1.api_format != p2.api_format {
        assert(format_name(p1.api_format).len() != format_name(p2.api_format).len());
    }
}

} // verus!
