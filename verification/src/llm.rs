//! Shaping of LLM backend requests and responses.
//!
//! The transport — HTTP, environment keys, the byte stream — lives in the
//! surrounding application. This module owns what is decidable from plain
//! values: which URL and headers a model listing uses, how a backend's model
//! list is shaped, how the completion request body is composed from the
//! system prompt, the history and the user prompt, and how the streamed
//! chunks are picked apart.

use vstd::prelude::*;
use crate::json::{JsonValue, field_of, item_of, str_of, str_or_empty, arr_of};
use crate::text::{
    contains_seq, starts_with_seq, strip_prefix_rec, trim_spec, lines_of, replace_all, matches_at,
    ends_with_seq, ends_with_chars,
};

verus! {

/// One chat message.
pub struct Message {
    pub role: String,
    pub content: String,
}

/// The characters of a message's fields.
#[verifier::ext_equal]
pub struct MessageView {
    pub role: Seq<char>,
    pub content: Seq<char>,
}

impl View for Message {
    type V = MessageView;

    open spec fn view(&self) -> MessageView {
        MessageView { role: self.role@, content: self.content@ }
    }
}

impl DeepView for Message {
    type V = MessageView;

    open spec fn deep_view(&self) -> MessageView {
        self.view()
    }
}

impl Clone for Message {
    fn clone(&self) -> (r: Self)
        ensures
            r == *self,
    {
        Message { role: self.role.clone(), content: self.content.clone() }
    }
}

/// One selectable model of a backend.
pub struct Model {
    pub id: String,
    pub name: String,
}

/// The characters of a model's fields.
#[verifier::ext_equal]
pub struct ModelView {
    pub id: Seq<char>,
    pub name: Seq<char>,
}

impl View for Model {
    type V = ModelView;

    open spec fn view(&self) -> ModelView {
        ModelView { id: self.id@, name: self.name@ }
    }
}

impl DeepView for Model {
    type V = ModelView;

    open spec fn deep_view(&self) -> ModelView {
        self.view()
    }
}

// ---------------------------------------------------------------------------
// The model-listing request
// ---------------------------------------------------------------------------

/// A prepared model-listing request.
pub struct ModelsRequest {
    pub url: String,
    pub headers: Vec<(String, String)>,
}

/// The characters of a request's fields.
#[verifier::ext_equal]
pub struct ModelsRequestView {
    pub url: Seq<char>,
    pub headers: Seq<(Seq<char>, Seq<char>)>,
}

impl View for ModelsRequest {
    type V = ModelsRequestView;

    open spec fn view(&self) -> ModelsRequestView {
        ModelsRequestView {
            url: self.url@,
            headers: self.headers@.map_values(|p: (String, String)| (p.0@, p.1@)),
        }
    }
}

/// A bearer authorization value.
pub open spec fn bearer_of(key: Seq<char>) -> Seq<char> {
    "Bearer "@ + key
}

/// The URL and headers a provider's model listing uses, given the secret
/// the environment holds for it (the API key, or the local server's base
/// URL). An unknown provider, or a URL left with a dangling `key=`, yields
/// no request and an empty model list.
pub open spec fn models_request_spec(provider: Seq<char>, secret: Seq<char>) -> Option<
    ModelsRequestView,
> {
    let r = if provider == "lmstudio"@ {
        Some(ModelsRequestView { url: secret + "/models"@, headers: Seq::empty() })
    } else if provider == "openai"@ {
        Some(
            ModelsRequestView {
                url: "https://api.openai.com/v1/models"@,
                headers: seq![("Authorization"@, bearer_of(secret))],
            },
        )
    } else if provider == "openrouter"@ {
        Some(
            ModelsRequestView {
                url: "https://openrouter.ai/api/v1/models"@,
                headers: seq![("Authorization"@, bearer_of(secret))],
            },
        )
    } else if provider == "google"@ {
        Some(
            ModelsRequestView {
                url: "https://generativelanguage.googleapis.com/v1beta/models?key="@ + secret,
                headers: Seq::empty(),
            },
        )
    } else {
        None
    };
    match r {
        Some(mr) => if mr.url.len() == 0 || (contains_seq(mr.url, "key="@) && ends_with_seq(
            mr.url,
            "="@,
        )) {
            None
        } else {
            Some(mr)
        },
        None => None,
    }
}

/// Prepares the model-listing request for a provider.
pub fn models_request(provider: &str, secret: &str) -> (r: Option<ModelsRequest>)
    ensures
        match r {
            Some(mr) => models_request_spec(provider@, secret@) == Some(mr@),
            None => models_request_spec(provider@, secret@) is None,
        },
{
    let p = crate::text::str_to_chars(provider);
    let candidate: Option<ModelsRequest> = if crate::text::chars_eq_str(&p, "lmstudio") {
        let mut u: Vec<char> = Vec::new();
        crate::text::append_str(&mut u, secret);
        crate::text::append_str(&mut u, "/models");
        Some(ModelsRequest { url: crate::text::chars_to_string(&u), headers: Vec::new() })
    } else if crate::text::chars_eq_str(&p, "openai") {
        let mut h: Vec<(String, String)> = Vec::new();
        let mut b: Vec<char> = Vec::new();
        crate::text::append_str(&mut b, "Bearer ");
        crate::text::append_str(&mut b, secret);
        h.push((String::from_str("Authorization"), crate::text::chars_to_string(&b)));
        Some(
            ModelsRequest { url: String::from_str("https://api.openai.com/v1/models"), headers: h },
        )
    } else if crate::text::chars_eq_str(&p, "openrouter") {
        let mut h: Vec<(String, String)> = Vec::new();
        let mut b: Vec<char> = Vec::new();
        crate::text::append_str(&mut b, "Bearer ");
        crate::text::append_str(&mut b, secret);
        h.push((String::from_str("Authorization"), crate::text::chars_to_string(&b)));
        Some(
            ModelsRequest {
                url: String::from_str("https://openrouter.ai/api/v1/models"),
                headers: h,
            },
        )
    } else if crate::text::chars_eq_str(&p, "google") {
        let mut u: Vec<char> = Vec::new();
        crate::text::append_str(
            &mut u,
            "https://generativelanguage.googleapis.com/v1beta/models?key=",
        );
        crate::text::append_str(&mut u, secret);
        Some(ModelsRequest { url: crate::text::chars_to_string(&u), headers: Vec::new() })
    } else {
        None
    };
    match candidate {
        Some(mr) => {
            let url_chars = crate::text::string_to_chars(&mr.url);
            let key_pat = crate::text::str_to_chars("key=");
            let eq_pat = crate::text::str_to_chars("=");
            if url_chars.len() == 0 || (crate::text::contains_chars(&url_chars, &key_pat)
                && ends_with_chars(&url_chars, &eq_pat)) {
                None
            } else {
                proof {
                    assert(Some(mr@) =~~= models_request_spec(provider@, secret@));
                }
                Some(mr)
            }
        },
        None => None,
    }
}


// ---------------------------------------------------------------------------
// Shaping model lists
// ---------------------------------------------------------------------------

/// The model an OpenAI-compatible listing entry yields: id and display name
/// are both the `id` field, absent text reading as empty.
pub open spec fn plain_model_of(item: JsonValue) -> ModelView {
    ModelView { id: str_or_empty(field_of(item, "id"@)), name: str_or_empty(field_of(item, "id"@)) }
}

/// The local server's models: every entry of `data`.
pub open spec fn lmstudio_models_spec(body: JsonValue) -> Seq<ModelView> {
    match arr_of(field_of(body, "data"@)) {
        Some(items) => plain_models_of(items),
        None => Seq::<ModelView>::empty(),
    }
}

/// Every entry shaped plainly, in order.
pub open spec fn plain_models_of(items: Seq<JsonValue>) -> Seq<ModelView>
    decreases items.len(),
{
    if items.len() == 0 {
        Seq::<ModelView>::empty()
    } else {
        plain_models_of(items.drop_last()).push(plain_model_of(items.last()))
    }
}

/// An entry the OpenAI listing keeps: its id starts with `gpt` or `o1`.
pub open spec fn openai_keeps(item: JsonValue) -> bool {
    starts_with_seq(str_or_empty(field_of(item, "id"@)), "gpt"@) || starts_with_seq(
        str_or_empty(field_of(item, "id"@)),
        "o1"@,
    )
}

/// The OpenAI models: entries of `data` whose id starts with `gpt` or `o1`.
pub open spec fn openai_models_spec(body: JsonValue) -> Seq<ModelView> {
    match arr_of(field_of(body, "data"@)) {
        Some(items) => openai_models_of(items),
        None => Seq::<ModelView>::empty(),
    }
}

/// The kept OpenAI entries, in order.
pub open spec fn openai_models_of(items: Seq<JsonValue>) -> Seq<ModelView>
    decreases items.len(),
{
    if items.len() == 0 {
        Seq::<ModelView>::empty()
    } else {
        let pre = openai_models_of(items.drop_last());
        if openai_keeps(items.last()) {
            pre.push(plain_model_of(items.last()))
        } else {
            pre
        }
    }
}

/// The model an OpenRouter entry yields: the `name` field when it is text,
/// the id otherwise.
pub open spec fn openrouter_model_of(item: JsonValue) -> ModelView {
    ModelView {
        id: str_or_empty(field_of(item, "id"@)),
        name: match str_of(field_of(item, "name"@)) {
            Some(n) => n,
            None => str_or_empty(field_of(item, "id"@)),
        },
    }
}

/// The OpenRouter models: every entry of `data`, names falling back to ids.
pub open spec fn openrouter_models_spec(body: JsonValue) -> Seq<ModelView> {
    match arr_of(field_of(body, "data"@)) {
        Some(items) => openrouter_models_of(items),
        None => Seq::<ModelView>::empty(),
    }
}

/// The shaped OpenRouter entries, in order.
pub open spec fn openrouter_models_of(items: Seq<JsonValue>) -> Seq<ModelView>
    decreases items.len(),
{
    if items.len() == 0 {
        Seq::<ModelView>::empty()
    } else {
        openrouter_models_of(items.drop_last()).push(openrouter_model_of(items.last()))
    }
}

/// An entry the Google listing keeps: some supported generation method is
/// exactly the text `generateContent`.
pub open spec fn google_keeps(item: JsonValue) -> bool {
    match arr_of(field_of(item, "supportedGenerationMethods"@)) {
        Some(methods) => exists|i: int|
            0 <= i < methods.len() && str_of(#[trigger] methods[i]) == Some("generateContent"@),
        None => false,
    }
}

/// The model a Google entry yields.
pub open spec fn google_model_of(item: JsonValue) -> ModelView {
    ModelView {
        id: str_or_empty(field_of(item, "name"@)),
        name: str_or_empty(field_of(item, "displayName"@)),
    }
}

/// The Google models: entries of `models` that support content generation.
pub open spec fn google_models_spec(body: JsonValue) -> Seq<ModelView> {
    match arr_of(field_of(body, "models"@)) {
        Some(items) => google_models_of(items),
        None => Seq::<ModelView>::empty(),
    }
}

/// The kept Google entries, in order.
pub open spec fn google_models_of(items: Seq<JsonValue>) -> Seq<ModelView>
    decreases items.len(),
{
    if items.len() == 0 {
        Seq::<ModelView>::empty()
    } else {
        let pre = google_models_of(items.drop_last());
        if google_keeps(items.last()) {
            pre.push(google_model_of(items.last()))
        } else {
            pre
        }
    }
}

/// Reads a field's text, or empty text.
fn field_text(item: &JsonValue, name: &str) -> (r: String)
    ensures
        r@ == str_or_empty(field_of(*item, name@)),
{
    let n = crate::text::str_to_chars(name);
    let v = crate::json::get_field(item, &n);
    let chars = crate::json::str_or_empty_chars(v);
    crate::text::chars_to_string(&chars)
}

/// Shapes the local server's model listing.
pub fn lmstudio_models(body: &JsonValue) -> (out: Vec<Model>)
    ensures
        out.deep_view() == lmstudio_models_spec(*body),
{
    let data_name = crate::text::str_to_chars("data");
    let data = crate::json::get_field(body, &data_name);
    let items = match crate::json::as_array(data) {
        Some(items) => items,
        None => {
            let out: Vec<Model> = Vec::new();
            proof {
                assert(out.deep_view() =~= lmstudio_models_spec(*body));
            }
            return out;
        },
    };
    let n = items.len();
    let mut out: Vec<Model> = Vec::new();
    proof {
        assert(items@.take(0) =~= Seq::<JsonValue>::empty());
        assert(out.deep_view() =~= plain_models_of(items@.take(0)));
    }
    let mut k: usize = 0;
    while k < n
        invariant
            k <= n,
            n == items@.len(),
            arr_of(field_of(*body, "data"@)) == Some(items@),
            out.deep_view() == plain_models_of(items@.take(k as int)),
        decreases n - k,
    {
        proof {
            assert(items@.take(k + 1).drop_last() =~= items@.take(k as int));
            assert(items@.take(k + 1).last() == items@[k as int]);
        }
        let id = field_text(&items[k], "id");
        let name = field_text(&items[k], "id");
        let ghost old_out = out;
        out.push(Model { id, name });
        proof {
            assert(out.deep_view() =~~= old_out.deep_view().push(plain_model_of(items@[k as int])));
        }
        k += 1;
    }
    proof {
        assert(items@.take(n as int) =~= items@);
    }
    out
}

/// Shapes the OpenAI model listing, keeping ids that start with `gpt` or
/// `o1`.
pub fn openai_models(body: &JsonValue) -> (out: Vec<Model>)
    ensures
        out.deep_view() == openai_models_spec(*body),
{
    let data_name = crate::text::str_to_chars("data");
    let data = crate::json::get_field(body, &data_name);
    let items = match crate::json::as_array(data) {
        Some(items) => items,
        None => {
            let out: Vec<Model> = Vec::new();
            proof {
                assert(out.deep_view() =~= openai_models_spec(*body));
            }
            return out;
        },
    };
    let gpt = crate::text::str_to_chars("gpt");
    let o1 = crate::text::str_to_chars("o1");
    let n = items.len();
    let mut out: Vec<Model> = Vec::new();
    proof {
        assert(items@.take(0) =~= Seq::<JsonValue>::empty());
        assert(out.deep_view() =~= openai_models_of(items@.take(0)));
    }
    let mut k: usize = 0;
    while k < n
        invariant
            k <= n,
            n == items@.len(),
            gpt@ == "gpt"@,
            o1@ == "o1"@,
            arr_of(field_of(*body, "data"@)) == Some(items@),
            out.deep_view() == openai_models_of(items@.take(k as int)),
        decreases n - k,
    {
        proof {
            assert(items@.take(k + 1).drop_last() =~= items@.take(k as int));
            assert(items@.take(k + 1).last() == items@[k as int]);
        }
        let id = field_text(&items[k], "id");
        let id_chars = crate::text::string_to_chars(&id);
        if crate::text::starts_with_chars(&id_chars, &gpt) || crate::text::starts_with_chars(
            &id_chars,
            &o1,
        ) {
            let name = field_text(&items[k], "id");
            let ghost old_out = out;
            out.push(Model { id, name });
            proof {
                assert(out.deep_view() =~~= old_out.deep_view().push(
                    plain_model_of(items@[k as int]),
                ));
            }
        }
        k += 1;
    }
    proof {
        assert(items@.take(n as int) =~= items@);
    }
    out
}

/// Shapes the OpenRouter model listing, display names falling back to ids.
pub fn openrouter_models(body: &JsonValue) -> (out: Vec<Model>)
    ensures
        out.deep_view() == openrouter_models_spec(*body),
{
    let data_name = crate::text::str_to_chars("data");
    let data = crate::json::get_field(body, &data_name);
    let items = match crate::json::as_array(data) {
        Some(items) => items,
        None => {
            let out: Vec<Model> = Vec::new();
            proof {
                assert(out.deep_view() =~= openrouter_models_spec(*body));
            }
            return out;
        },
    };
    let n = items.len();
    let mut out: Vec<Model> = Vec::new();
    proof {
        assert(items@.take(0) =~= Seq::<JsonValue>::empty());
        assert(out.deep_view() =~= openrouter_models_of(items@.take(0)));
    }
    let mut k: usize = 0;
    while k < n
        invariant
            k <= n,
            n == items@.len(),
            arr_of(field_of(*body, "data"@)) == Some(items@),
            out.deep_view() == openrouter_models_of(items@.take(k as int)),
        decreases n - k,
    {
        proof {
            assert(items@.take(k + 1).drop_last() =~= items@.take(k as int));
            assert(items@.take(k + 1).last() == items@[k as int]);
        }
        let id = field_text(&items[k], "id");
        let name_field = crate::text::str_to_chars("name");
        let nv = crate::json::get_field(&items[k], &name_field);
        let name = match nv {
            JsonValue::Str(sname) => sname.clone(),
            _ => field_text(&items[k], "id"),
        };
        let ghost old_out = out;
        out.push(Model { id, name });
        proof {
            assert(out.deep_view() =~~= old_out.deep_view().push(
                openrouter_model_of(items@[k as int]),
            ));
        }
        k += 1;
    }
    proof {
        assert(items@.take(n as int) =~= items@);
    }
    out
}

/// Tests whether an entry supports content generation.
fn supports_generate(item: &JsonValue) -> (b: bool)
    ensures
        b == google_keeps(*item),
{
    let field = crate::text::str_to_chars("supportedGenerationMethods");
    let v = crate::json::get_field(item, &field);
    let methods = match crate::json::as_array(v) {
        Some(methods) => methods,
        None => {
            return false;
        },
    };
    let want = crate::text::str_to_chars("generateContent");
    let n = methods.len();
    let mut k: usize = 0;
    while k < n
        invariant
            k <= n,
            n == methods@.len(),
            want@ == "generateContent"@,
            arr_of(field_of(*item, "supportedGenerationMethods"@)) == Some(methods@),
            forall|j: int|
                0 <= j < k ==> str_of(#[trigger] methods@[j]) != Some("generateContent"@),
        decreases n - k,
    {
        match &methods[k] {
            JsonValue::Str(sv) => {
                let sv_chars = crate::text::string_to_chars(sv);
                if crate::text::chars_eq(&sv_chars, &want) {
                    proof {
                        assert(str_of(methods@[k as int]) == Some("generateContent"@));
                    }
                    return true;
                }
            },
            _ => {
            },
        }
        k += 1;
    }
    false
}

/// Shapes the Google model listing, keeping entries that support content
/// generation.
pub fn google_models(body: &JsonValue) -> (out: Vec<Model>)
    ensures
        out.deep_view() == google_models_spec(*body),
{
    let data_name = crate::text::str_to_chars("models");
    let data = crate::json::get_field(body, &data_name);
    let items = match crate::json::as_array(data) {
        Some(items) => items,
        None => {
            let out: Vec<Model> = Vec::new();
            proof {
                assert(out.deep_view() =~= google_models_spec(*body));
            }
            return out;
        },
    };
    let n = items.len();
    let mut out: Vec<Model> = Vec::new();
    proof {
        assert(items@.take(0) =~= Seq::<JsonValue>::empty());
        assert(out.deep_view() =~= google_models_of(items@.take(0)));
    }
    let mut k: usize = 0;
    while k < n
        invariant
            k <= n,
            n == items@.len(),
            arr_of(field_of(*body, "models"@)) == Some(items@),
            out.deep_view() == google_models_of(items@.take(k as int)),
        decreases n - k,
    {
        proof {
            assert(items@.take(k + 1).drop_last() =~= items@.take(k as int));
            assert(items@.take(k + 1).last() == items@[k as int]);
        }
        if supports_generate(&items[k]) {
            let id = field_text(&items[k], "name");
            let name = field_text(&items[k], "displayName");
            let ghost old_out = out;
            out.push(Model { id, name });
            proof {
                assert(out.deep_view() =~~= old_out.deep_view().push(
                    google_model_of(items@[k as int]),
                ));
            }
        }
        k += 1;
    }
    proof {
        assert(items@.take(n as int) =~= items@);
    }
    out
}


// ---------------------------------------------------------------------------
// Composing the completion request
// ---------------------------------------------------------------------------

/// The characters of each message, in order.
pub open spec fn message_views(ms: Seq<Message>) -> Seq<MessageView> {
    ms.map_values(|m: Message| m@)
}

/// The OpenAI-compatible chat roll: the system prompt, the prior history,
/// then the live user prompt.
pub open spec fn chat_messages_spec(
    system_prompt: Seq<char>,
    history: Seq<MessageView>,
    user_prompt: Seq<char>,
) -> Seq<MessageView> {
    seq![MessageView { role: "system"@, content: system_prompt }] + history + seq![
        MessageView { role: "user"@, content: user_prompt },
    ]
}

/// Builds the chat roll for an OpenAI-compatible backend.
pub fn chat_messages(system_prompt: &str, history: Vec<Message>, user_prompt: &str) -> (out: Vec<
    Message,
>)
    ensures
        out.deep_view() == chat_messages_spec(system_prompt@, history.deep_view(), user_prompt@),
{
    let ghost hist0 = history.deep_view();
    let mut out: Vec<Message> = Vec::new();
    out.push(
        Message { role: String::from_str("system"), content: String::from_str(system_prompt) },
    );
    let n = history.len();
    let mut k: usize = 0;
    proof {
        assert(out.deep_view() =~~= seq![
            MessageView { role: "system"@, content: system_prompt@ },
        ] + hist0.take(0));
    }
    while k < n
        invariant
            k <= n,
            n == history@.len(),
            hist0 == history.deep_view(),
            out.deep_view() == seq![MessageView { role: "system"@, content: system_prompt@ }]
                + hist0.take(k as int),
        decreases n - k,
    {
        let ghost old_out = out;
        let m = history[k].clone();
        out.push(m);
        proof {
            assert(out.deep_view() =~~= old_out.deep_view().push(hist0[k as int]));
            assert(out.deep_view() =~~= seq![
                MessageView { role: "system"@, content: system_prompt@ },
            ] + hist0.take(k + 1));
        }
        k += 1;
    }
    let ghost old_out = out;
    out.push(Message { role: String::from_str("user"), content: String::from_str(user_prompt) });
    proof {
        assert(hist0.take(n as int) =~= hist0);
        assert(out.deep_view() =~~= chat_messages_spec(system_prompt@, hist0, user_prompt@));
    }
    out
}

/// The body an OpenAI-compatible completion request carries: the chat roll
/// under `messages`, the model, and streaming switched on.
pub open spec fn is_chat_body(b: JsonValue, model: Seq<char>, msgs: Seq<MessageView>) -> bool {
    match b {
        JsonValue::Obj(pairs) => {
            &&& pairs@.len() == 3
            &&& pairs@[0].0@ == "messages"@
            &&& (match pairs@[0].1 {
                JsonValue::Arr(items) => {
                    &&& items@.len() == msgs.len()
                    &&& forall|i: int|
                        0 <= i < msgs.len() ==> is_message_obj(#[trigger] items@[i], msgs[i])
                },
                _ => false,
            })
            &&& pairs@[1].0@ == "model"@
            &&& (match pairs@[1].1 {
                JsonValue::Str(m) => m@ == model,
                _ => false,
            })
            &&& pairs@[2].0@ == "stream"@
            &&& pairs@[2].1 == JsonValue::Bool(true)
        },
        _ => false,
    }
}

/// One chat message as a JSON object: its role, then its content.
pub open spec fn is_message_obj(v: JsonValue, m: MessageView) -> bool {
    match v {
        JsonValue::Obj(pairs) => {
            &&& pairs@.len() == 2
            &&& pairs@[0].0@ == "role"@
            &&& (match pairs@[0].1 {
                JsonValue::Str(r) => r@ == m.role,
                _ => false,
            })
            &&& pairs@[1].0@ == "content"@
            &&& (match pairs@[1].1 {
                JsonValue::Str(c) => c@ == m.content,
                _ => false,
            })
        },
        _ => false,
    }
}

/// Builds the OpenAI-compatible completion body for a chat roll.
pub fn chat_body(model: &str, messages: Vec<Message>) -> (b: JsonValue)
    ensures
        is_chat_body(b, model@, messages.deep_view()),
{
    let ghost msgs = messages.deep_view();
    let n = messages.len();
    let mut items: Vec<JsonValue> = Vec::new();
    let mut k: usize = 0;
    while k < n
        invariant
            k <= n,
            n == messages@.len(),
            msgs == messages.deep_view(),
            items@.len() == k,
            forall|i: int| 0 <= i < k ==> is_message_obj(#[trigger] items@[i], msgs[i]),
        decreases n - k,
    {
        let mut pairs: Vec<(String, JsonValue)> = Vec::new();
        pairs.push((String::from_str("role"), JsonValue::Str(messages[k].role.clone())));
        pairs.push((String::from_str("content"), JsonValue::Str(messages[k].content.clone())));
        let obj = JsonValue::Obj(pairs);
        items.push(obj);
        k += 1;
    }
    let mut top: Vec<(String, JsonValue)> = Vec::new();
    top.push((String::from_str("messages"), JsonValue::Arr(items)));
    top.push((String::from_str("model"), JsonValue::Str(String::from_str(model))));
    top.push((String::from_str("stream"), JsonValue::Bool(true)));
    JsonValue::Obj(top)
}

/// The body a Google streaming request carries: one content with one part
/// whose text is the system prompt and the user prompt, a blank line
/// between.
pub open spec fn is_google_body(b: JsonValue, text: Seq<char>) -> bool {
    match b {
        JsonValue::Obj(pairs) => {
            &&& pairs@.len() == 1
            &&& pairs@[0].0@ == "contents"@
            &&& (match pairs@[0].1 {
                JsonValue::Arr(contents) => {
                    &&& contents@.len() == 1
                    &&& (match contents@[0] {
                        JsonValue::Obj(cp) => {
                            &&& cp@.len() == 1
                            &&& cp@[0].0@ == "parts"@
                            &&& (match cp@[0].1 {
                                JsonValue::Arr(parts) => {
                                    &&& parts@.len() == 1
                                    &&& (match parts@[0] {
                                        JsonValue::Obj(pp) => {
                                            &&& pp@.len() == 1
                                            &&& pp@[0].0@ == "text"@
                                            &&& (match pp@[0].1 {
                                                JsonValue::Str(t) => t@ == text,
                                                _ => false,
                                            })
                                        },
                                        _ => false,
                                    })
                                },
                                _ => false,
                            })
                        },
                        _ => false,
                    })
                },
                _ => false,
            })
        },
        _ => false,
    }
}

/// Builds the Google streaming body.
pub fn google_body(system_prompt: &str, user_prompt: &str) -> (b: JsonValue)
    ensures
        is_google_body(b, system_prompt@ + "\n\n"@ + user_prompt@),
{
    let mut text: Vec<char> = Vec::new();
    crate::text::append_str(&mut text, system_prompt);
    crate::text::append_str(&mut text, "\n\n");
    crate::text::append_str(&mut text, user_prompt);
    let mut pp: Vec<(String, JsonValue)> = Vec::new();
    pp.push((String::from_str("text"), JsonValue::Str(crate::text::chars_to_string(&text))));
    let mut parts: Vec<JsonValue> = Vec::new();
    parts.push(JsonValue::Obj(pp));
    let mut cp: Vec<(String, JsonValue)> = Vec::new();
    cp.push((String::from_str("parts"), JsonValue::Arr(parts)));
    let mut contents: Vec<JsonValue> = Vec::new();
    contents.push(JsonValue::Obj(cp));
    let mut top: Vec<(String, JsonValue)> = Vec::new();
    top.push((String::from_str("contents"), JsonValue::Arr(contents)));
    JsonValue::Obj(top)
}

/// The Google streaming URL: the model with any `models/` prefix removed,
/// then the key.
pub open spec fn google_url_spec(model: Seq<char>, key: Seq<char>) -> Seq<char> {
    "https://generativelanguage.googleapis.com/v1beta/models/"@ + replace_all(
        model,
        seq!['m', 'o', 'd', 'e', 'l', 's', '/'],
        Seq::<char>::empty(),
    ) + ":streamGenerateContent?key="@ + key
}

/// Builds the Google streaming URL.
pub fn google_url(model: &str, key: &str) -> (r: String)
    ensures
        r@ == google_url_spec(model@, key@),
{
    let model_chars = crate::text::str_to_chars(model);
    let mut pat: Vec<char> = Vec::new();
    pat.push('m');
    pat.push('o');
    pat.push('d');
    pat.push('e');
    pat.push('l');
    pat.push('s');
    pat.push('/');
    let empty: Vec<char> = Vec::new();
    proof {
        assert(pat@ =~= seq!['m', 'o', 'd', 'e', 'l', 's', '/']);
        assert(empty@ =~= Seq::<char>::empty());
    }
    let model_id = crate::text::replace_chars(&model_chars, &pat, &empty);
    let mut u: Vec<char> = Vec::new();
    crate::text::append_str(&mut u, "https://generativelanguage.googleapis.com/v1beta/models/");
    crate::text::append_chars(&mut u, &model_id);
    crate::text::append_str(&mut u, ":streamGenerateContent?key=");
    crate::text::append_str(&mut u, key);
    proof {
        assert(u@ =~= google_url_spec(model@, key@));
    }
    crate::text::chars_to_string(&u)
}

/// The base URL of an OpenAI-compatible backend: the fixed hosts for the
/// two hosted providers, and for anything else the configured local server,
/// or its default address when none is configured.
pub open spec fn api_base_spec(provider: Seq<char>, lmstudio_base: Option<Seq<char>>) -> Seq<
    char,
> {
    if provider == "openai"@ {
        "https://api.openai.com/v1"@
    } else if provider == "openrouter"@ {
        "https://openrouter.ai/api/v1"@
    } else {
        match lmstudio_base {
            Some(b) => b,
            None => "http://localhost:1234/v1"@,
        }
    }
}

/// Selects the API base for an OpenAI-compatible backend.
pub fn api_base_for(provider: &str, lmstudio_base: Option<&str>) -> (r: String)
    ensures
        r@ == api_base_spec(provider@, match lmstudio_base {
            Some(b) => Some(b@),
            None => None,
        }),
{
    let p = crate::text::str_to_chars(provider);
    if crate::text::chars_eq_str(&p, "openai") {
        String::from_str("https://api.openai.com/v1")
    } else if crate::text::chars_eq_str(&p, "openrouter") {
        String::from_str("https://openrouter.ai/api/v1")
    } else {
        match lmstudio_base {
            Some(b) => String::from_str(b),
            None => String::from_str("http://localhost:1234/v1"),
        }
    }
}

/// The chat completions URL under a base.
pub open spec fn chat_url_spec(base: Seq<char>) -> Seq<char> {
    base + "/chat/completions"@
}

/// Appends the chat completions route to a base URL.
pub fn chat_url(base: &str) -> (r: String)
    ensures
        r@ == chat_url_spec(base@),
{
    let mut u: Vec<char> = Vec::new();
    crate::text::append_str(&mut u, base);
    crate::text::append_str(&mut u, "/chat/completions");
    crate::text::chars_to_string(&u)
}


/// The headers an OpenAI-compatible completion request carries: the bearer
/// key, and for the hosted router also its referer and title headers.
pub open spec fn completion_headers_spec(url: Seq<char>, key: Seq<char>) -> Seq<
    (Seq<char>, Seq<char>),
> {
    if contains_seq(url, "openrouter"@) {
        seq![
            ("Authorization"@, bearer_of(key)),
            ("HTTP-Referer"@, "http://localhost:3001"@),
            ("X-Title"@, "Bplus Search"@),
        ]
    } else {
        seq![("Authorization"@, bearer_of(key))]
    }
}

/// Builds the headers of an OpenAI-compatible completion request.
pub fn completion_headers(url: &str, key: &str) -> (out: Vec<(String, String)>)
    ensures
        out@.map_values(|p: (String, String)| (p.0@, p.1@)) == completion_headers_spec(url@, key@),
{
    let mut b: Vec<char> = Vec::new();
    crate::text::append_str(&mut b, "Bearer ");
    crate::text::append_str(&mut b, key);
    let mut out: Vec<(String, String)> = Vec::new();
    out.push((String::from_str("Authorization"), crate::text::chars_to_string(&b)));
    let url_chars = crate::text::str_to_chars(url);
    let pat = crate::text::str_to_chars("openrouter");
    if crate::text::contains_chars(&url_chars, &pat) {
        out.push((String::from_str("HTTP-Referer"), String::from_str("http://localhost:3001")));
        out.push((String::from_str("X-Title"), String::from_str("Bplus Search")));
        proof {
            assert(out@.map_values(|p: (String, String)| (p.0@, p.1@)) =~~= completion_headers_spec(
                url@,
                key@,
            ));
        }
    } else {
        proof {
            assert(out@.map_values(|p: (String, String)| (p.0@, p.1@)) =~~= completion_headers_spec(
                url@,
                key@,
            ));
        }
    }
    out
}

// ---------------------------------------------------------------------------
// Picking apart streamed chunks
// ---------------------------------------------------------------------------

/// The payload a stream line carries: lines with the event-stream data
/// prefix yield what follows it, repeated prefixes removed and the rest
/// trimmed; other lines carry nothing.
pub open spec fn data_payload(line: Seq<char>) -> Option<Seq<char>> {
    if starts_with_seq(line, "data: "@) {
        Some(trim_spec(strip_prefix_rec(line, "data: "@)))
    } else {
        None
    }
}

/// The payloads of a chunk's lines, in order, stopping at the end marker.
pub open spec fn sse_payloads(lines: Seq<Seq<char>>) -> Seq<Seq<char>>
    decreases lines.len(),
{
    if lines.len() == 0 {
        Seq::<Seq<char>>::empty()
    } else {
        match data_payload(lines[0]) {
            Some(d) => if d == "[DONE]"@ {
                Seq::<Seq<char>>::empty()
            } else {
                seq![d] + sse_payloads(lines.drop_first())
            },
            None => sse_payloads(lines.drop_first()),
        }
    }
}

/// The data payloads of one transport chunk.
pub open spec fn chunk_payloads(chunk: Seq<char>) -> Seq<Seq<char>> {
    sse_payloads(lines_of(chunk))
}

/// Extracts the event-stream data payloads of one chunk, in order, stopping
/// at the end marker.
pub fn sse_data_payloads(chunk: &str) -> (out: Vec<String>)
    ensures
        out.deep_view() == chunk_payloads(chunk@),
{
    let chars = crate::text::str_to_chars(chunk);
    let lines = crate::text::lines_chars(&chars);
    let ghost lv = lines_of(chunk@);
    let prefix = crate::text::str_to_chars("data: ");
    let done = crate::text::str_to_chars("[DONE]");
    let n = lines.len();
    let mut out: Vec<String> = Vec::new();
    proof {
        assert(lines.deep_view().len() == lines@.len());
        assert(lv.skip(0) =~= lv);
        assert(out.deep_view() =~= Seq::<Seq<char>>::empty());
    }
    let mut k: usize = 0;
    while k < n
        invariant
            k <= n,
            n == lines@.len(),
            lines.deep_view() == lv,
            prefix@ == "data: "@,
            done@ == "[DONE]"@,
            chunk_payloads(chunk@) == out.deep_view() + sse_payloads(lv.skip(k as int)),
        decreases n - k,
    {
        let ghost rest = lv.skip(k as int);
        proof {
            assert(rest[0] == lv[k as int]);
            assert(rest.drop_first() =~= lv.skip(k + 1));
            assert(lines@[k as int]@ == lv[k as int]);
        }
        let line = &lines[k];
        if crate::text::starts_with_chars(line, &prefix) {
            let stripped = crate::text::strip_prefix_chars(line, &prefix);
            let trimmed = crate::text::trim_chars(&stripped);
            if crate::text::chars_eq(&trimmed, &done) {
                proof {
                    assert(sse_payloads(rest) =~~= Seq::<Seq<char>>::empty());
                    assert(out.deep_view() + sse_payloads(rest) =~~= out.deep_view());
                }
                return out;
            }
            let ghost old_out = out;
            out.push(crate::text::chars_to_string(&trimmed));
            proof {
                assert(out.deep_view() =~~= old_out.deep_view().push(trimmed@));
                assert(sse_payloads(rest) =~~= seq![trimmed@] + sse_payloads(lv.skip(k + 1)));
                assert(out.deep_view() + sse_payloads(lv.skip(k + 1)) =~~= old_out.deep_view()
                    + sse_payloads(rest));
            }
        } else {
            proof {
                assert(sse_payloads(rest) =~~= sse_payloads(lv.skip(k + 1)));
            }
        }
        k += 1;
    }
    proof {
        assert(lv.skip(n as int) =~= Seq::<Seq<char>>::empty());
        assert(out.deep_view() + sse_payloads(lv.skip(n as int)) =~~= out.deep_view());
    }
    out
}

/// The completion text one decoded stream payload carries: the content of
/// the first choice's delta, when it is text.
pub open spec fn delta_of(v: JsonValue) -> Option<Seq<char>> {
    str_of(field_of(field_of(item_of(field_of(v, "choices"@), 0), "delta"@), "content"@))
}

/// Extracts the completion text of one decoded stream payload.
pub fn delta_content(v: &JsonValue) -> (r: Option<String>)
    ensures
        match r {
            Some(t) => delta_of(*v) == Some(t@),
            None => delta_of(*v) is None,
        },
{
    let choices_name = crate::text::str_to_chars("choices");
    let delta_name = crate::text::str_to_chars("delta");
    let content_name = crate::text::str_to_chars("content");
    let choices = crate::json::get_field(v, &choices_name);
    let first = crate::json::get_item(choices, 0);
    let delta = crate::json::get_field(first, &delta_name);
    let content = crate::json::get_field(delta, &content_name);
    match content {
        JsonValue::Str(t) => Some(t.clone()),
        _ => None,
    }
}


// ---------------------------------------------------------------------------
// Google stream chunks
// ---------------------------------------------------------------------------

/// The position of the first occurrence of `needle` in `hay`.
pub open spec fn find_first(hay: Seq<char>, needle: Seq<char>) -> Option<int>
    decreases hay.len(),
{
    if needle.len() > hay.len() {
        None
    } else if hay.subrange(0, needle.len() as int) == needle {
        Some(0)
    } else if hay.len() == 0 {
        None
    } else {
        match find_first(hay.drop_first(), needle) {
            Some(i) => Some(i + 1),
            None => None,
        }
    }
}

proof fn lemma_find_first_some(hay: Seq<char>, needle: Seq<char>, i: int)
    requires
        matches_at(hay, needle, i),
        forall|j: int| 0 <= j < i ==> !matches_at(hay, needle, j),
    ensures
        find_first(hay, needle) == Some(i),
    decreases i,
{
    if i == 0 {
        assert(hay.subrange(0, needle.len() as int) == needle);
    } else {
        assert(!matches_at(hay, needle, 0));
        assert(needle.len() <= hay.len());
        assert(hay.subrange(0, needle.len() as int) != needle);
        let rest = hay.drop_first();
        assert(rest.subrange(i - 1, i - 1 + needle.len()) =~= hay.subrange(i, i + needle.len()));
        assert(matches_at(rest, needle, i - 1));
        assert forall|j: int| 0 <= j < i - 1 implies !matches_at(rest, needle, j) by {
            if matches_at(rest, needle, j) {
                assert(hay.subrange(j + 1, j + 1 + needle.len()) =~= rest.subrange(
                    j,
                    j + needle.len(),
                ));
                assert(matches_at(hay, needle, j + 1));
            }
        }
        lemma_find_first_some(rest, needle, i - 1);
    }
}

proof fn lemma_find_first_none(hay: Seq<char>, needle: Seq<char>)
    requires
        !contains_seq(hay, needle),
    ensures
        find_first(hay, needle) is None,
    decreases hay.len(),
{
    if needle.len() <= hay.len() {
        assert(!matches_at(hay, needle, 0));
        if hay.len() == 0 {
            assert(hay.subrange(0, needle.len() as int) =~= needle);
            assert(false);
        }
        assert(hay.subrange(0, needle.len() as int) != needle);
        let rest = hay.drop_first();
        assert forall|j: int| true implies !matches_at(rest, needle, j) by {
            if matches_at(rest, needle, j) {
                assert(hay.subrange(j + 1, j + 1 + needle.len()) =~= rest.subrange(
                    j,
                    j + needle.len(),
                ));
                assert(matches_at(hay, needle, j + 1));
            }
        }
        lemma_find_first_none(rest, needle);
    }
}

/// The marker a Google stream chunk carries before each text piece.
pub open spec fn google_marker() -> Seq<char> {
    seq!['"', 't', 'e', 'x', 't', '"', ':', ' ', '"']
}

/// The text piece of one Google stream chunk: what sits between the marker
/// and the next quote, its escaped newlines unescaped; chunks without a
/// complete piece carry nothing.
pub open spec fn google_text_of(s: Seq<char>) -> Option<Seq<char>> {
    match find_first(s, google_marker()) {
        Some(i) => {
            let rest = s.skip(i + 9);
            match find_first(rest, seq!['"']) {
                Some(e) => Some(replace_all(rest.take(e), seq!['\\', 'n'], seq!['\n'])),
                None => None,
            }
        },
        None => None,
    }
}

/// Extracts the text piece of one Google stream chunk.
pub fn google_chunk_text(chunk: &str) -> (r: Option<String>)
    ensures
        match r {
            Some(t) => google_text_of(chunk@) == Some(t@),
            None => google_text_of(chunk@) is None,
        },
{
    let s = crate::text::str_to_chars(chunk);
    let mut pat: Vec<char> = Vec::new();
    pat.push('"');
    pat.push('t');
    pat.push('e');
    pat.push('x');
    pat.push('t');
    pat.push('"');
    pat.push(':');
    pat.push(' ');
    pat.push('"');
    proof {
        assert(pat@ =~= google_marker());
    }
    match crate::text::find_chars(&s, &pat) {
        Some(i) => {
            proof {
                lemma_find_first_some(s@, pat@, i as int);
            }
            let n = s.len();
            let rest = crate::text::copy_range(&s, i + 9, n);
            proof {
                assert(rest@ =~= s@.skip(i + 9));
            }
            let mut quote: Vec<char> = Vec::new();
            quote.push('"');
            proof {
                assert(quote@ =~= seq!['"']);
            }
            match crate::text::find_chars(&rest, &quote) {
                Some(e) => {
                    proof {
                        lemma_find_first_some(rest@, quote@, e as int);
                    }
                    let body = crate::text::copy_range(&rest, 0, e);
                    proof {
                        assert(body@ =~= rest@.take(e as int));
                    }
                    let mut pat2: Vec<char> = Vec::new();
                    pat2.push('\\');
                    pat2.push('n');
                    let mut to: Vec<char> = Vec::new();
                    to.push('\n');
                    proof {
                        assert(pat2@ =~= seq!['\\', 'n']);
                        assert(to@ =~= seq!['\n']);
                    }
                    let rep = crate::text::replace_chars(&body, &pat2, &to);
                    Some(crate::text::chars_to_string(&rep))
                },
                None => {
                    proof {
                        lemma_find_first_none(rest@, quote@);
                    }
                    None
                },
            }
        },
        None => {
            proof {
                lemma_find_first_none(s@, pat@);
            }
            None
        },
    }
}

} // verus!
