//! Which requests are passed on, and which headers go with them.
use vstd::prelude::*;
use vstd::string::*;

use crate::api::body_peek;
use crate::api::json::{
    entry_views, item_views, json_document, json_pair, json_single, json_str, json_text,
    json_triple, lemma_items_push, render_json, with_entry, Json, JsonView,
};
use crate::api::loop_guard::cross_turn;
use crate::api::loop_guard::cross_turn::guard_request;
use crate::api::loop_guard::session::StreamSession;
use crate::config::alias::ModelAlias;
use crate::config::model::ModelConfig;
use crate::config::settings::{LoopGuardSettings, ModelExposure};
use crate::orchestrator::aliases::resolved_name;
use crate::orchestrator::engine::Orchestrator;
use crate::orchestrator::errors::LoadError;
use crate::process::manager::RequestGuard;
use crate::text::{decimal, decimal_text, lower, same_text, to_lower};

verus! {

broadcast use vstd::string::group_string_axioms;

// ----- headers -----

/// Whether a header, in small letters, belongs to one connection only.
pub open spec fn is_hop_by_hop(name: Seq<char>) -> bool {
    ||| name == "connection"@
    ||| name == "keep-alive"@
    ||| name == "proxy-authenticate"@
    ||| name == "proxy-authorization"@
    ||| name == "te"@
    ||| name == "trailer"@
    ||| name == "transfer-encoding"@
    ||| name == "upgrade"@
}

/// Whether a header, in small letters, belongs to one connection only.
pub fn hop_by_hop(name: &str) -> (r: bool)
    ensures
        r == is_hop_by_hop(name@),
{
    same_text(name, "connection") || same_text(name, "keep-alive") || same_text(
        name,
        "proxy-authenticate",
    ) || same_text(name, "proxy-authorization") || same_text(name, "te") || same_text(
        name,
        "trailer",
    ) || same_text(name, "transfer-encoding") || same_text(name, "upgrade")
}

/// Whether a header of a request is passed on.
pub fn sends_header(name: &str) -> (r: bool)
    ensures
        r == (!is_hop_by_hop(lower(name@)) && lower(name@) != "host"@ && lower(name@)
            != "content-length"@),
{
    let n = to_lower(name);
    !hop_by_hop(n.as_str()) && !same_text(n.as_str(), "host") && !same_text(
        n.as_str(),
        "content-length",
    )
}

/// Whether a header of an answer is passed on.
pub fn returns_header(name: &str) -> (r: bool)
    ensures
        r == (!is_hop_by_hop(lower(name@)) && lower(name@) != "content-length"@),
{
    let n = to_lower(name);
    !hop_by_hop(n.as_str()) && !same_text(n.as_str(), "content-length")
}

// ----- requests -----

/// Why a request is not passed on.
#[derive(Debug, Clone, Copy, PartialEq, Eq, Structural)]
pub enum Refusal {
    /// Only POST requests name a model.
    NotPost,
    /// The body names no model.
    NoModel,
}

impl Refusal {
    /// The status of the answer.
    pub open spec fn code(&self) -> u16 {
        match self {
            Refusal::NotPost => 405,
            Refusal::NoModel => 400,
        }
    }

    /// What the client is told.
    pub open spec fn told(&self) -> Seq<char> {
        match self {
            Refusal::NotPost =>
            "this path only supports POST with a JSON body containing 'model'"@,
            Refusal::NoModel => "request body must be JSON with a 'model' field"@,
        }
    }

    /// The status of the answer.
    pub fn status(&self) -> (r: u16)
        ensures
            r == self.code(),
    {
        match self {
            Refusal::NotPost => 405,
            Refusal::NoModel => 400,
        }
    }

    /// What the client is told.
    pub fn message(&self) -> (r: &'static str)
        ensures
            r@ == self.told(),
    {
        match self {
            Refusal::NotPost => "this path only supports POST with a JSON body containing 'model'",
            Refusal::NoModel => "request body must be JSON with a 'model' field",
        }
    }
}

/// Whether a request may name a model at all, by its method.
pub fn accept_method(method: &str) -> (r: Option<Refusal>)
    ensures
        r == (if method@ == "POST"@ {
            None
        } else {
            Some(Refusal::NotPost)
        }),
{
    if same_text(method, "POST") {
        None
    } else {
        Some(Refusal::NotPost)
    }
}

/// The model that a request is for, or why the request is not passed on.
pub fn accept_request(method: &str, body: &[u8]) -> (r: Result<String, Refusal>)
    ensures
        match r {
            Ok(id) => method@ == "POST"@ && json_document(body@) is Some && json_document(
                body@,
            )->0.text_at("model"@) == Some(id@),
            Err(Refusal::NotPost) => method@ != "POST"@,
            Err(Refusal::NoModel) => method@ == "POST"@ && (json_document(body@) is None
                || json_document(body@)->0.text_at("model"@) is None),
        },
{
    match accept_method(method) {
        Some(e) => Err(e),
        None => match body_peek::extract_model(body) {
            Some(id) => Ok(id),
            None => Err(Refusal::NoModel),
        },
    }
}

/// Where a request is passed on to.
pub fn upstream_url(port: u16, path_and_query: &str) -> (r: String)
    ensures
        r@ == "http://127.0.0.1:"@ + decimal(port as nat) + path_and_query@,
{
    "http://127.0.0.1:".to_owned().concat(decimal_text(port as u64).as_str()).concat(path_and_query)
}

/// A request as it is passed on.
pub struct Forward {
    pub url: String,
    pub body: Vec<u8>,
    /// How the answer is watched, where it is.
    pub session: Option<StreamSession>,
}

/// Whether `r` is how a request is passed on to an instance.
pub open spec fn forwards(
    port: u16,
    path: Seq<char>,
    path_and_query: Seq<char>,
    body: Seq<u8>,
    guards: LoopGuardSettings,
    r: Forward,
) -> bool {
    &&& r.url@ == "http://127.0.0.1:"@ + decimal(port as nat) + path_and_query
    &&& exists|g: Option<Vec<u8>>| #[trigger]
        cross_turn::guards(path, body, &guards.tool, g) && r.body@ == (match g {
            Some(v) => v@,
            None => body,
        })
    &&& StreamSession::opens(path, r.body@, guards.streaming, r.session)
}

/// Makes a request ready to be passed on to an instance. One that repeats the
/// same tool calls gets a message about that; a stream is watched.
pub fn forward(
    port: u16,
    path: &str,
    path_and_query: &str,
    body: Vec<u8>,
    guards: &LoopGuardSettings,
) -> (r: Forward)
    ensures
        forwards(port, path@, path_and_query@, body@, *guards, r),
{
    let url = upstream_url(port, path_and_query);
    let g = guard_request(path, body.as_slice(), &guards.tool);
    assert(cross_turn::guards(path@, body@, &guards.tool, g));
    let out = match g {
        Some(v) => v,
        None => body,
    };
    let session = StreamSession::new(path, out.as_slice(), &guards.streaming);
    Forward { url, body: out, session }
}

// ----- failures -----

/// The body of an answer that tells an error.
pub open spec fn error_view(message: Seq<char>) -> JsonView {
    JsonView::Object(seq![("error"@, JsonView::Str(message))])
}

/// The body of an answer that tells an error.
pub fn error_body(message: &str) -> (r: Json)
    ensures
        r@ == error_view(message@),
{
    json_single("error", json_str(message))
}

/// Why a client gets no answer from a model.
#[derive(Debug)]
pub enum ProxyFailure {
    /// The request is not one that is passed on.
    Refused(Refusal),
    /// The body is too large or cannot be read.
    TooLarge { limit: usize, why: String },
    /// No instance could be had.
    NotLoaded { model: String, error: LoadError },
    /// The instance could not be reached.
    Upstream(String),
    /// The instance did not answer and is restarted.
    Restarting(String),
}

impl ProxyFailure {
    /// The status of the answer.
    pub open spec fn code(&self) -> u16 {
        match self {
            ProxyFailure::Refused(r) => r.code(),
            ProxyFailure::TooLarge { .. } => 413,
            ProxyFailure::NotLoaded { .. } => 503,
            ProxyFailure::Upstream(_) => 502,
            ProxyFailure::Restarting(_) => 503,
        }
    }

    /// What the client is told.
    pub open spec fn told(&self) -> JsonView {
        match self {
            ProxyFailure::Refused(r) => error_view(r.told()),
            ProxyFailure::TooLarge { limit, why } => error_view(
                "request body exceeds max size of "@ + decimal(*limit as nat)
                    + " bytes or could not be read: "@ + why@,
            ),
            ProxyFailure::NotLoaded { model, error } => JsonView::Object(
                seq![("error"@, JsonView::Str(error.text())), ("model"@, JsonView::Str(model@))],
            ),
            ProxyFailure::Upstream(why) => error_view("upstream error: "@ + why@),
            ProxyFailure::Restarting(model) => JsonView::Object(
                seq![
                    (
                        "error"@,
                        JsonView::Str(
                            "model '"@ + model@
                                + "' was unresponsive and is being restarted; please retry"@,
                        ),
                    ),
                    ("model"@, JsonView::Str(model@)),
                    ("retry"@, JsonView::Bool(true)),
                ],
            ),
        }
    }

    /// The status of the answer.
    pub fn status(&self) -> (r: u16)
        ensures
            r == self.code(),
    {
        match self {
            ProxyFailure::Refused(r) => r.status(),
            ProxyFailure::TooLarge { .. } => 413,
            ProxyFailure::NotLoaded { .. } => 503,
            ProxyFailure::Upstream(_) => 502,
            ProxyFailure::Restarting(_) => 503,
        }
    }

    /// What the client is told.
    pub fn body(&self) -> (r: Json)
        ensures
            r@ == self.told(),
    {
        match self {
            ProxyFailure::Refused(r) => error_body(r.message()),
            ProxyFailure::TooLarge { limit, why } => error_body(
                "request body exceeds max size of ".to_owned().concat(
                    decimal_text(*limit as u64).as_str(),
                ).concat(" bytes or could not be read: ").concat(why.as_str()).as_str(),
            ),
            ProxyFailure::NotLoaded { model, error } => json_pair(
                "error",
                Json::Str(error.message()),
                "model",
                json_str(model.as_str()),
            ),
            ProxyFailure::Upstream(why) => error_body(
                "upstream error: ".to_owned().concat(why.as_str()).as_str(),
            ),
            ProxyFailure::Restarting(model) => json_triple(
                "error",
                Json::Str(
                    "model '".to_owned().concat(model.as_str()).concat(
                        "' was unresponsive and is being restarted; please retry",
                    ),
                ),
                "model",
                json_str(model.as_str()),
                "retry",
                Json::Bool(true),
            ),
        }
    }

    /// The text of what the client is told.
    pub fn text(&self) -> (r: String)
        ensures
            r@ == json_text(self.told()),
    {
        render_json(&self.body())
    }
}

// ----- the way of a request -----

/// A request that is passed on.
#[derive(Debug)]
pub struct Accepted {
    /// The name that the client gave.
    pub name: String,
    /// The model that the name stands for; empty where it stands for none.
    pub model: String,
}

impl Orchestrator {
    /// Finds out which model a request is for, or why it is not passed on.
    pub fn take_request(&self, method: &str, body: &[u8]) -> (r: Result<Accepted, ProxyFailure>)
        requires
            self.wf(),
        ensures
            match r {
                Ok(a) => {
                    &&& method@ == "POST"@
                    &&& json_document(body@) matches Some(doc)
                    &&& doc.text_at("model"@) == Some(a.name@)
                    &&& a.model@ == resolved_name(self.data.aliases@, a.name@)
                },
                Err(ProxyFailure::Refused(Refusal::NotPost)) => method@ != "POST"@,
                Err(ProxyFailure::Refused(Refusal::NoModel)) => method@ == "POST"@ && (
                json_document(body@) is None || json_document(body@)->0.text_at(
                    "model"@,
                ) is None),
                Err(_) => false,
            },
    {
        match accept_request(method, body) {
            Ok(name) => {
                let model = self.resolve_model_id(name.as_str());
                Ok(Accepted { name, model })
            },
            Err(e) => Err(ProxyFailure::Refused(e)),
        }
    }

    /// Passes a request on to the instance that was found for it, and notes
    /// that its model was used.
    pub fn pass_on(
        &mut self,
        model: &str,
        guard: &RequestGuard,
        path: &str,
        path_and_query: &str,
        body: Vec<u8>,
        now: u64,
    ) -> (r: Forward)
        requires
            old(self).wf(),
        ensures
            final(self).wf(),
            old(self).notes_use(final(self), model@, now),
            forwards(
                guard.port,
                path@,
                path_and_query@,
                body@,
                old(self).settings.loop_guards,
                r,
            ),
    {
        self.mark_used(model, now);
        forward(guard.port, path, path_and_query, body, &self.settings.loop_guards)
    }
}

// ----- the list of models -----

/// A model in the list.
pub open spec fn listed(id: Seq<char>) -> JsonView {
    JsonView::Object(
        seq![
            ("id"@, JsonView::Str(id)),
            ("object"@, JsonView::Str("model"@)),
            ("created"@, JsonView::Number("0"@)),
            ("owned_by"@, JsonView::Str("local"@)),
        ],
    )
}

fn listed_entry(id: &str) -> (r: Json)
    ensures
        r@ == listed(id@),
{
    let v = with_entry(
        with_entry(
            with_entry(
                with_entry(Vec::new(), "id", json_str(id)),
                "object",
                json_str("model"),
            ),
            "created",
            Json::Number("0".to_owned()),
        ),
        "owned_by",
        json_str("local"),
    );
    assert(entry_views(v@) =~= seq![
        ("id"@, JsonView::Str(id@)),
        ("object"@, JsonView::Str("model"@)),
        ("created"@, JsonView::Number("0"@)),
        ("owned_by"@, JsonView::Str("local"@)),
    ]);
    Json::Object(v)
}

/// The names in the list: those of the models, unless only aliases are told,
/// and those of the aliases.
pub open spec fn listed_names(
    models: Seq<ModelConfig>,
    aliases: Seq<ModelAlias>,
    exposure: ModelExposure,
) -> Seq<Seq<char>> {
    let names = aliases.map_values(|a: ModelAlias| a.alias@);
    match exposure {
        ModelExposure::FullList => models.map_values(|m: ModelConfig| m.id@) + names,
        ModelExposure::AliasesOnly => names,
    }
}

/// The list of models.
pub open spec fn list_view(names: Seq<Seq<char>>) -> JsonView {
    JsonView::Object(
        seq![
            ("object"@, JsonView::Str("list"@)),
            ("data"@, JsonView::Array(names.map_values(|n: Seq<char>| listed(n)))),
        ],
    )
}

fn add_listed(v: Vec<Json>, id: &str) -> (r: Vec<Json>)
    ensures
        item_views(r@) == item_views(v@).push(listed(id@)),
{
    let mut r = v;
    let e = listed_entry(id);
    proof {
        lemma_items_push(r@, e);
    }
    r.push(e);
    r
}

/// The list of models that clients are told.
pub fn list_v1_models(
    models: &Vec<ModelConfig>,
    aliases: &Vec<ModelAlias>,
    exposure: ModelExposure,
) -> (r: Json)
    ensures
        r@ == list_view(listed_names(models@, aliases@, exposure)),
{
    let ghost names = listed_names(models@, aliases@, exposure);
    let ghost all = names.map_values(|n: Seq<char>| listed(n));
    let mut data: Vec<Json> = Vec::new();
    assert(item_views(data@) =~= all.take(0));
    let ghost mut done: int = 0;
    if exposure == ModelExposure::FullList {
        let mut i: usize = 0;
        while i < models.len()
            invariant
                i <= models@.len(),
                names == listed_names(models@, aliases@, exposure),
                exposure == ModelExposure::FullList,
                all == names.map_values(|n: Seq<char>| listed(n)),
                done == i,
                item_views(data@) == all.take(done),
            decreases models@.len() - i,
        {
            assert(all[i as int] == listed(models@[i as int].id@));
            assert(all.take(i + 1) =~= all.take(i as int).push(all[i as int]));
            data = add_listed(data, models[i].id.as_str());
            i += 1;
            proof {
                done = done + 1;
            }
        }
    }
    let ghost first = done;
    let mut j: usize = 0;
    while j < aliases.len()
        invariant
            j <= aliases@.len(),
            names == listed_names(models@, aliases@, exposure),
            all == names.map_values(|n: Seq<char>| listed(n)),
            first == names.len() - aliases@.len(),
            first >= 0,
            done == first + j,
            item_views(data@) == all.take(done),
        decreases aliases@.len() - j,
    {
        assert(names[done] == aliases@[j as int].alias@);
        assert(all[done] == listed(aliases@[j as int].alias@));
        assert(all.take(done + 1) =~= all.take(done).push(all[done]));
        data = add_listed(data, aliases[j].alias.as_str());
        j += 1;
        proof {
            done = done + 1;
        }
    }
    assert(all.take(done) =~= all);
    json_pair("object", json_str("list"), "data", Json::Array(data))
}

} // verus!
