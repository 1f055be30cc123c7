//! Request scripts: lists of actions run before a request is sent (to set
//! variables, headers, body, URL and method) and after its response arrives
//! (to check it and to extract variables from it).
//!
//! What one action does is stated by `pre_step` and `post_step`; what a
//! script does is the fold `pre_run` / `post_run`, which stops at the first
//! failing action.
use vstd::prelude::*;

use crate::error::AppError;
use crate::http::{method_parsed, HttpMethod, HttpRequest, HttpResponse};
use crate::json::{extract_json_path, json_compact, json_compact_of, json_path_value};
use crate::strmap::{insert_entry, Entries, StrMap};
use crate::text::{
    byte_prefix, byte_prefix_chars, chars_eq, chars_of, contains, contains_chars, copy_strings, dec,
    eq_ignore_ascii_case, eq_ignore_case, opt_view, pairs_view, push_chars, push_dec, push_str,
    replace_all, replace_chars, string_of, strings_view,
};

verus! {

// ---------------------------------------------------------------------------
// Actions and scripts.
// ---------------------------------------------------------------------------

/// One step of a script.
#[derive(Debug, Clone)]
pub enum ScriptAction {
    SetVariable { name: String, value: String },
    SetHeader { key: String, value: String },
    RemoveHeader { key: String },
    SetBody { body: String },
    SetUrl { url: String },
    SetMethod { method: String },
    AssertStatus { expected: u16 },
    AssertHeader { key: String, contains: Option<String>, equals: Option<String> },
    AssertBody { contains: Option<String>, equals: Option<String> },
    ExtractJson { variable: String, path: String },
    ExtractHeader { variable: String, header: String },
    Log { message: String },
    Delay { ms: u64 },
}

/// A list of actions run in order.
#[derive(Debug, Clone)]
pub struct Script {
    pub actions: Vec<ScriptAction>,
}

impl Default for Script {
    /// The empty script.
    fn default() -> (r: Self)
        ensures
            r.actions@.len() == 0,
    {
        Script { actions: Vec::new() }
    }
}

/// The scripts attached to a request.
#[derive(Debug, Clone)]
pub struct RequestScripts {
    pub pre_request: Script,
    pub post_response: Script,
}

impl Default for RequestScripts {
    /// Two empty scripts.
    fn default() -> (r: Self)
        ensures
            r.pre_request.actions@.len() == 0,
            r.post_response.actions@.len() == 0,
    {
        RequestScripts { pre_request: Script::default(), post_response: Script::default() }
    }
}

/// The text shown for an action.
pub open spec fn action_text(a: ScriptAction) -> Seq<char> {
    match a {
        ScriptAction::SetVariable { name, value } => "set_var("@ + name@ + "="@ + value@ + ")"@,
        ScriptAction::SetHeader { key, value } => "set_header("@ + key@ + ": "@ + value@ + ")"@,
        ScriptAction::RemoveHeader { key } => "remove_header("@ + key@ + ")"@,
        ScriptAction::SetBody { body } => "set_body("@ + body@.take(
            if body@.len() < 30 {
                body@.len() as int
            } else {
                30
            },
        ) + "...)"@,
        ScriptAction::SetUrl { url } => "set_url("@ + url@ + ")"@,
        ScriptAction::SetMethod { method } => "set_method("@ + method@ + ")"@,
        ScriptAction::AssertStatus { expected } => "assert_status("@ + dec(expected as nat) + ")"@,
        ScriptAction::AssertHeader { key, .. } => "assert_header("@ + key@ + ")"@,
        ScriptAction::AssertBody { .. } => "assert_body(...)"@,
        ScriptAction::ExtractJson { variable, path } => "extract_json("@ + variable@ + " from "@
            + path@ + ")"@,
        ScriptAction::ExtractHeader { variable, header } => "extract_header("@ + variable@
            + " from "@ + header@ + ")"@,
        ScriptAction::Log { message } => "log("@ + message@ + ")"@,
        ScriptAction::Delay { ms } => "delay("@ + dec(ms as nat) + "ms)"@,
    }
}

impl ScriptAction {
    /// The text shown for the action (see `action_text`); a body is shown by
    /// its first thirty characters.
    pub fn to_string(&self) -> (r: String)
        ensures
            r@ == action_text(*self),
    {
        let mut out: Vec<char> = Vec::new();
        match self {
            ScriptAction::SetVariable { name, value } => {
                push_str(&mut out, "set_var(");
                push_str(&mut out, name.as_str());
                push_str(&mut out, "=");
                push_str(&mut out, value.as_str());
                push_str(&mut out, ")");
            },
            ScriptAction::SetHeader { key, value } => {
                push_str(&mut out, "set_header(");
                push_str(&mut out, key.as_str());
                push_str(&mut out, ": ");
                push_str(&mut out, value.as_str());
                push_str(&mut out, ")");
            },
            ScriptAction::RemoveHeader { key } => {
                push_str(&mut out, "remove_header(");
                push_str(&mut out, key.as_str());
                push_str(&mut out, ")");
            },
            ScriptAction::SetBody { body } => {
                push_str(&mut out, "set_body(");
                let b = chars_of(body.as_str());
                let n: usize = if b.len() < 30 {
                    b.len()
                } else {
                    30
                };
                let preview = crate::text::sub_chars(&b, 0, n);
                proof {
                    assert(preview@ =~= body@.take(n as int));
                }
                push_chars(&mut out, &preview);
                push_str(&mut out, "...)");
            },
            ScriptAction::SetUrl { url } => {
                push_str(&mut out, "set_url(");
                push_str(&mut out, url.as_str());
                push_str(&mut out, ")");
            },
            ScriptAction::SetMethod { method } => {
                push_str(&mut out, "set_method(");
                push_str(&mut out, method.as_str());
                push_str(&mut out, ")");
            },
            ScriptAction::AssertStatus { expected } => {
                push_str(&mut out, "assert_status(");
                push_dec(&mut out, *expected as u64);
                push_str(&mut out, ")");
            },
            ScriptAction::AssertHeader { key, .. } => {
                push_str(&mut out, "assert_header(");
                push_str(&mut out, key.as_str());
                push_str(&mut out, ")");
            },
            ScriptAction::AssertBody { .. } => {
                push_str(&mut out, "assert_body(...)");
            },
            ScriptAction::ExtractJson { variable, path } => {
                push_str(&mut out, "extract_json(");
                push_str(&mut out, variable.as_str());
                push_str(&mut out, " from ");
                push_str(&mut out, path.as_str());
                push_str(&mut out, ")");
            },
            ScriptAction::ExtractHeader { variable, header } => {
                push_str(&mut out, "extract_header(");
                push_str(&mut out, variable.as_str());
                push_str(&mut out, " from ");
                push_str(&mut out, header.as_str());
                push_str(&mut out, ")");
            },
            ScriptAction::Log { message } => {
                push_str(&mut out, "log(");
                push_str(&mut out, message.as_str());
                push_str(&mut out, ")");
            },
            ScriptAction::Delay { ms } => {
                push_str(&mut out, "delay(");
                push_dec(&mut out, *ms);
                push_str(&mut out, "ms)");
            },
        }
        proof {
            assert(out@ =~= action_text(*self));
        }
        string_of(&out)
    }
}

// ---------------------------------------------------------------------------
// Variables.
// ---------------------------------------------------------------------------

/// The placeholder that stands for variable `k` in a text: `{{k}}`.
pub open spec fn placeholder(k: Seq<char>) -> Seq<char> {
    seq!['{', '{'] + k + seq!['}', '}']
}

/// `s` with the placeholder of each variable replaced by its value, one
/// variable after another in the order of `vars`.
pub open spec fn resolve_with(vars: Entries, s: Seq<char>) -> Seq<char>
    decreases vars.len(),
{
    if vars.len() == 0 {
        s
    } else {
        replace_all(resolve_with(vars.drop_last(), s), placeholder(vars.last().0), vars.last().1)
    }
}

/// What a script has gathered so far: its variables, log lines and errors.
pub struct CtxView {
    pub vars: Entries,
    pub logs: Seq<Seq<char>>,
    pub errors: Seq<Seq<char>>,
}

/// The state scripts read and write: variables (kept in insertion order),
/// log lines and assertion errors.
pub struct ScriptContext {
    pub variables: StrMap,
    pub logs: Vec<String>,
    pub errors: Vec<String>,
}

impl View for ScriptContext {
    type V = CtxView;

    open spec fn view(&self) -> CtxView {
        CtxView {
            vars: self.variables@,
            logs: strings_view(self.logs@),
            errors: strings_view(self.errors@),
        }
    }
}

impl ScriptContext {
    /// A context with no variables, logs or errors.
    pub fn new() -> (r: Self)
        ensures
            r@.vars.len() == 0,
            r@.logs.len() == 0,
            r@.errors.len() == 0,
    {
        ScriptContext { variables: StrMap::new(), logs: Vec::new(), errors: Vec::new() }
    }

    /// A copy of the context.
    pub fn copy(&self) -> (r: Self)
        ensures
            r@ == self@,
    {
        ScriptContext {
            variables: self.variables.copy(),
            logs: copy_strings(&self.logs),
            errors: copy_strings(&self.errors),
        }
    }

    /// `input` with every `{{name}}` replaced by the value of variable
    /// `name`, variable by variable in insertion order.
    pub fn resolve_variables(&self, input: &str) -> (r: String)
        ensures
            r@ == resolve_with(self@.vars, input@),
    {
        let pairs = self.variables.pairs();
        let mut out = chars_of(input);
        let mut i: usize = 0;
        proof {
            assert(pairs_view(pairs@).take(0) =~= Seq::<(Seq<char>, Seq<char>)>::empty());
        }
        while i < pairs.len()
            invariant
                i <= pairs@.len(),
                pairs_view(pairs@) == self@.vars,
                out@ == resolve_with(pairs_view(pairs@).take(i as int), input@),
            decreases pairs.len() - i,
        {
            let mut ph: Vec<char> = Vec::new();
            ph.push('{');
            ph.push('{');
            push_str(&mut ph, pairs[i].0.as_str());
            ph.push('}');
            ph.push('}');
            let v = chars_of(pairs[i].1.as_str());
            proof {
                let t = pairs_view(pairs@).take(i as int + 1);
                assert(t.drop_last() =~= pairs_view(pairs@).take(i as int));
                assert(t.last() == (pairs@[i as int].0@, pairs@[i as int].1@));
                assert(ph@ =~= placeholder(pairs@[i as int].0@));
            }
            out = replace_chars(&out, &ph, &v);
            i = i + 1;
        }
        proof {
            assert(pairs_view(pairs@).take(i as int) =~= pairs_view(pairs@));
        }
        string_of(&out)
    }
}

// ---------------------------------------------------------------------------
// Headers.
// ---------------------------------------------------------------------------

/// The headers whose name is not `k`, ignoring ASCII case, in order.
pub open spec fn drop_header(h: Seq<(Seq<char>, Seq<char>)>, k: Seq<char>) -> Seq<(Seq<char>, Seq<char>)>
    decreases h.len(),
{
    if h.len() == 0 {
        h
    } else if eq_ignore_case(h.last().0, k) {
        drop_header(h.drop_last(), k)
    } else {
        drop_header(h.drop_last(), k).push(h.last())
    }
}

/// The value of the first header named `k`, ignoring ASCII case.
pub open spec fn header_value(h: Seq<(Seq<char>, Seq<char>)>, k: Seq<char>) -> Option<Seq<char>>
    decreases h.len(),
{
    if h.len() == 0 {
        None
    } else if eq_ignore_case(h[0].0, k) {
        Some(h[0].1)
    } else {
        header_value(h.drop_first(), k)
    }
}

/// The headers not named `key` (ignoring ASCII case).
fn without_header(headers: &Vec<(String, String)>, key: &[char]) -> (r: Vec<(String, String)>)
    ensures
        pairs_view(r@) == drop_header(pairs_view(headers@), key@),
{
    let mut out: Vec<(String, String)> = Vec::new();
    let mut i: usize = 0;
    proof {
        assert(pairs_view(headers@).take(0) =~= Seq::<(Seq<char>, Seq<char>)>::empty());
        assert(pairs_view(out@) =~= Seq::<(Seq<char>, Seq<char>)>::empty());
    }
    while i < headers.len()
        invariant
            i <= headers@.len(),
            pairs_view(out@) == drop_header(pairs_view(headers@).take(i as int), key@),
        decreases headers.len() - i,
    {
        let k = chars_of(headers[i].0.as_str());
        proof {
            let t = pairs_view(headers@).take(i as int + 1);
            assert(t.drop_last() =~= pairs_view(headers@).take(i as int));
            assert(t.last() == (headers@[i as int].0@, headers@[i as int].1@));
        }
        if !eq_ignore_ascii_case(&k, key) {
            let a = headers[i].0.clone();
            let b = headers[i].1.clone();
            let ghost before = out@;
            out.push((a, b));
            proof {
                assert(pairs_view(out@) =~= pairs_view(before).push(
                    (headers@[i as int].0@, headers@[i as int].1@),
                ));
            }
        }
        i = i + 1;
    }
    proof {
        assert(pairs_view(headers@).take(i as int) =~= pairs_view(headers@));
    }
    out
}

/// The value of the first header named `key` (ignoring ASCII case).
pub(crate) fn find_header<'a>(headers: &'a Vec<(String, String)>, key: &[char]) -> (r: Option<&'a String>)
    ensures
        match r {
            Some(v) => header_value(pairs_view(headers@), key@) == Some(v@),
            None => header_value(pairs_view(headers@), key@) is None,
        },
{
    let mut i: usize = 0;
    proof {
        assert(pairs_view(headers@).skip(0) =~= pairs_view(headers@));
    }
    while i < headers.len()
        invariant
            i <= headers@.len(),
            header_value(pairs_view(headers@), key@) == header_value(
                pairs_view(headers@).skip(i as int),
                key@,
            ),
        decreases headers.len() - i,
    {
        let k = chars_of(headers[i].0.as_str());
        proof {
            let t = pairs_view(headers@).skip(i as int);
            assert(t[0] == (headers@[i as int].0@, headers@[i as int].1@));
            assert(t.drop_first() =~= pairs_view(headers@).skip(i + 1));
        }
        if eq_ignore_ascii_case(&k, key) {
            return Some(&headers[i].1);
        }
        i = i + 1;
    }
    None
}

// ---------------------------------------------------------------------------
// Messages.
// ---------------------------------------------------------------------------

/// The error of a `SetMethod` whose text names no method.
pub open spec fn invalid_method_msg(m: Seq<char>) -> Seq<char> {
    "Invalid HTTP method: "@ + m
}

/// The error of a failed status check.
pub open spec fn status_msg(expected: u16, got: u16) -> Seq<char> {
    "Assertion failed: expected status "@ + dec(expected as nat) + ", got "@ + dec(got as nat)
}

/// The error of a header check on a missing header.
pub open spec fn header_missing_msg(k: Seq<char>) -> Seq<char> {
    "Assertion failed: header '"@ + k + "' not found"@
}

/// The error of a header check whose value differs from the expected one.
pub open spec fn header_unequal_msg(k: Seq<char>, expected: Seq<char>, got: Seq<char>) -> Seq<char> {
    "Assertion failed: header '"@ + k + "' expected '"@ + expected + "', got '"@ + got + "'"@
}

/// The error of a header check whose value lacks the expected text.
pub open spec fn header_lacks_msg(k: Seq<char>, expected: Seq<char>, got: Seq<char>) -> Seq<char> {
    "Assertion failed: header '"@ + k + "' should contain '"@ + expected + "', got '"@ + got
        + "'"@
}

/// The error of a body check whose body differs from the expected one; the
/// body is shown by its first hundred bytes.
pub open spec fn body_unequal_msg(expected: Seq<char>, shown: Seq<char>) -> Seq<char> {
    "Assertion failed: body expected '"@ + expected + "', got '"@ + shown + "'"@
}

/// The error of a body check whose body lacks the expected text.
pub open spec fn body_lacks_msg(expected: Seq<char>) -> Seq<char> {
    "Assertion failed: body should contain '"@ + expected + "'"@
}

/// The error recorded when a JSON path finds nothing.
pub open spec fn path_missing_msg(p: Seq<char>) -> Seq<char> {
    "JSON path '"@ + p + "' not found"@
}

// ---------------------------------------------------------------------------
// Before the request.
// ---------------------------------------------------------------------------

/// The parts of a request that scripts change.
pub struct ReqView {
    pub method: HttpMethod,
    pub url: Seq<char>,
    pub headers: Seq<(Seq<char>, Seq<char>)>,
    pub body: Option<Seq<char>>,
}

/// The parts of `r` that scripts change.
pub open spec fn request_view(r: HttpRequest) -> ReqView {
    ReqView { method: r.method, url: r.url@, headers: pairs_view(r.headers@), body: opt_view(r.body) }
}

/// The outcome of one action before the request: the next request and
/// context, or a stop with an error message and nothing changed.
pub enum PreStep {
    Next(ReqView, CtxView),
    Stop(Seq<char>),
}

/// What one action does before the request. Placeholders in the action's
/// texts are resolved against the variables first; assertions, extractions
/// and delays do nothing here.
pub open spec fn pre_step(a: ScriptAction, r: ReqView, c: CtxView) -> PreStep {
    match a {
        ScriptAction::SetVariable { name, value } => PreStep::Next(
            r,
            CtxView {
                vars: insert_entry(c.vars, name@, resolve_with(c.vars, value@)),
                logs: c.logs,
                errors: c.errors,
            },
        ),
        ScriptAction::SetHeader { key, value } => {
            let k = resolve_with(c.vars, key@);
            PreStep::Next(
                ReqView {
                    method: r.method,
                    url: r.url,
                    headers: drop_header(r.headers, k).push((k, resolve_with(c.vars, value@))),
                    body: r.body,
                },
                c,
            )
        },
        ScriptAction::RemoveHeader { key } => PreStep::Next(
            ReqView {
                method: r.method,
                url: r.url,
                headers: drop_header(r.headers, resolve_with(c.vars, key@)),
                body: r.body,
            },
            c,
        ),
        ScriptAction::SetBody { body } => PreStep::Next(
            ReqView {
                method: r.method,
                url: r.url,
                headers: r.headers,
                body: Some(resolve_with(c.vars, body@)),
            },
            c,
        ),
        ScriptAction::SetUrl { url } => PreStep::Next(
            ReqView {
                method: r.method,
                url: resolve_with(c.vars, url@),
                headers: r.headers,
                body: r.body,
            },
            c,
        ),
        ScriptAction::SetMethod { method } => {
            let m = resolve_with(c.vars, method@);
            match method_parsed(m) {
                Some(parsed) => PreStep::Next(
                    ReqView { method: parsed, url: r.url, headers: r.headers, body: r.body },
                    c,
                ),
                None => PreStep::Stop(invalid_method_msg(m)),
            }
        },
        ScriptAction::Log { message } => PreStep::Next(
            r,
            CtxView {
                vars: c.vars,
                logs: c.logs.push(resolve_with(c.vars, message@)),
                errors: c.errors,
            },
        ),
        _ => PreStep::Next(r, c),
    }
}

/// Runs the actions in order until one stops: the request and context after
/// the last action that ran, and the stopping error, if any.
pub open spec fn pre_run(acts: Seq<ScriptAction>, r: ReqView, c: CtxView) -> (
    ReqView,
    CtxView,
    Option<Seq<char>>,
)
    decreases acts.len(),
{
    if acts.len() == 0 {
        (r, c, None)
    } else {
        match pre_step(acts[0], r, c) {
            PreStep::Next(r2, c2) => pre_run(acts.drop_first(), r2, c2),
            PreStep::Stop(m) => (r, c, Some(m)),
        }
    }
}

// ---------------------------------------------------------------------------
// After the response.
// ---------------------------------------------------------------------------

/// The outcome of one action after the response: the next context, a stop
/// (with the error recorded in the context and returned), or a panic of the
/// body check's message on a body cut inside a character.
pub enum PostStep {
    Next(CtxView),
    Stop(CtxView, Seq<char>),
    Panic,
}

/// `c` with the error `m` recorded, stopping there.
pub open spec fn fail(c: CtxView, m: Seq<char>) -> PostStep {
    PostStep::Stop(CtxView { vars: c.vars, logs: c.logs, errors: c.errors.push(m) }, m)
}

/// An optional text with its placeholders resolved.
pub open spec fn opt_resolved(vars: Entries, o: Option<String>) -> Option<Seq<char>> {
    match o {
        Some(e) => Some(resolve_with(vars, e@)),
        None => None,
    }
}

/// What one action does after the response with the given status, headers
/// and body. Request-changing actions and delays do nothing here.
pub open spec fn post_step(
    a: ScriptAction,
    status: u16,
    headers: Seq<(Seq<char>, Seq<char>)>,
    body: Seq<char>,
    c: CtxView,
) -> PostStep {
    match a {
        ScriptAction::AssertStatus { expected } => if status != expected {
            fail(c, status_msg(expected, status))
        } else {
            PostStep::Next(c)
        },
        ScriptAction::AssertHeader { key, contains: ct, equals: eq } => match header_value(
            headers,
            key@,
        ) {
            None => fail(c, header_missing_msg(key@)),
            Some(val) => {
                let e = opt_resolved(c.vars, eq);
                let s = opt_resolved(c.vars, ct);
                if e is Some && e->0 != val {
                    fail(c, header_unequal_msg(key@, e->0, val))
                } else if s is Some && !contains(val, s->0) {
                    fail(c, header_lacks_msg(key@, s->0, val))
                } else {
                    PostStep::Next(c)
                }
            },
        },
        ScriptAction::AssertBody { contains: ct, equals: eq } => {
            let e = opt_resolved(c.vars, eq);
            let s = opt_resolved(c.vars, ct);
            if e is Some && e->0 != body {
                match byte_prefix(body, 100) {
                    Some(shown) => fail(c, body_unequal_msg(e->0, shown)),
                    None => PostStep::Panic,
                }
            } else if s is Some && !contains(body, s->0) {
                fail(c, body_lacks_msg(s->0))
            } else {
                PostStep::Next(c)
            }
        },
        ScriptAction::ExtractJson { variable, path } => {
            let p = resolve_with(c.vars, path@);
            match json_compact_of(body) {
                None => PostStep::Next(c),
                Some(doc) => match json_path_value(doc, p) {
                    Some(v) => PostStep::Next(
                        CtxView {
                            vars: insert_entry(c.vars, variable@, v),
                            logs: c.logs,
                            errors: c.errors,
                        },
                    ),
                    None => PostStep::Next(
                        CtxView {
                            vars: c.vars,
                            logs: c.logs,
                            errors: c.errors.push(path_missing_msg(p)),
                        },
                    ),
                },
            }
        },
        ScriptAction::ExtractHeader { variable, header } => match header_value(
            headers,
            resolve_with(c.vars, header@),
        ) {
            Some(v) => PostStep::Next(
                CtxView { vars: insert_entry(c.vars, variable@, v), logs: c.logs, errors: c.errors },
            ),
            None => PostStep::Next(c),
        },
        ScriptAction::Log { message } => PostStep::Next(
            CtxView {
                vars: c.vars,
                logs: c.logs.push(resolve_with(c.vars, message@)),
                errors: c.errors,
            },
        ),
        ScriptAction::SetVariable { name, value } => PostStep::Next(
            CtxView {
                vars: insert_entry(c.vars, name@, resolve_with(c.vars, value@)),
                logs: c.logs,
                errors: c.errors,
            },
        ),
        _ => PostStep::Next(c),
    }
}

/// The outcome of a script after the response.
pub enum PostRun {
    /// Every action ran; the final context.
    Done(CtxView),
    /// An action failed; the context then (with its error recorded) and the
    /// error.
    Failed(CtxView, Seq<char>),
    /// A body check would cut the body inside a character.
    Panicked,
}

/// Runs the actions in order until one stops.
pub open spec fn post_run(
    acts: Seq<ScriptAction>,
    status: u16,
    headers: Seq<(Seq<char>, Seq<char>)>,
    body: Seq<char>,
    c: CtxView,
) -> PostRun
    decreases acts.len(),
{
    if acts.len() == 0 {
        PostRun::Done(c)
    } else {
        match post_step(acts[0], status, headers, body, c) {
            PostStep::Next(c2) => post_run(acts.drop_first(), status, headers, body, c2),
            PostStep::Stop(c2, m) => PostRun::Failed(c2, m),
            PostStep::Panic => PostRun::Panicked,
        }
    }
}

/// What a script does after `resp`, from context `c`.
pub open spec fn post_outcome(acts: Seq<ScriptAction>, resp: HttpResponse, c: CtxView) -> PostRun {
    post_run(acts, resp.status, pairs_view(resp.headers@), resp.body@, c)
}

/// The result of one action after the response: go on, a failed check with
/// its error, or a body check that would cut the body inside a character.
pub enum PostResult {
    Continue,
    Failed(AppError),
    WouldPanic,
}

/// Runs scripts against requests and responses.
pub struct ScriptEngine;

fn message(parts: &Vec<char>) -> (r: AppError)
    ensures
        r matches AppError::Validation(s) && s@ == parts@,
{
    AppError::Validation(string_of(parts))
}

impl ScriptEngine {
    /// Runs the script before a request: each action in order, stopping at
    /// the first error. Request and context end as `pre_run` says, and the
    /// result is an error exactly when an action stopped, carrying its
    /// message; the request's settings and multipart fields stay as they were.
    pub fn execute_pre_request(
        script: &Script,
        request: &mut HttpRequest,
        context: &mut ScriptContext,
    ) -> (r: Result<(), AppError>)
        ensures
            ({
                let (r2, c2, err) = pre_run(
                    script.actions@,
                    request_view(*old(request)),
                    old(context)@,
                );
                &&& request_view(*final(request)) == r2
                &&& final(context)@ == c2
                &&& (r is Ok <==> err is None)
                &&& (r matches Err(AppError::Validation(s)) ==> err == Some(s@))
                &&& (r matches Err(e) ==> e is Validation)
            }),
            final(request).config == old(request).config,
            final(request).multipart_fields == old(request).multipart_fields,
            final(request).auth == old(request).auth,
    {
        let ghost acts = script.actions@;
        let ghost r0 = request_view(*request);
        let ghost c0 = context@;
        let mut i: usize = 0;
        proof {
            assert(acts.skip(0) =~= acts);
        }
        while i < script.actions.len()
            invariant
                i <= acts.len(),
                acts == script.actions@,
                r0 == request_view(*old(request)),
                c0 == old(context)@,
                pre_run(acts, r0, c0) == pre_run(acts.skip(i as int), request_view(*request), context@),
                request.config == old(request).config,
                request.multipart_fields == old(request).multipart_fields,
                request.auth == old(request).auth,
            decreases script.actions.len() - i,
        {
            proof {
                assert(acts.skip(i as int)[0] == acts[i as int]);
                assert(acts.skip(i as int).drop_first() =~= acts.skip(i + 1));
            }
            let ghost rb = request_view(*request);
            let ghost cb = context@;
            let res = Self::execute_action_pre(&script.actions[i], request, context);
            match res {
                Ok(()) => {},
                Err(e) => {
                    proof {
                        assert(pre_step(acts[i as int], rb, cb) is Stop);
                        assert(pre_run(acts.skip(i as int), rb, cb) == (rb, cb, Some(
                            pre_step(acts[i as int], rb, cb)->Stop_0,
                        )));
                    }
                    return Err(e);
                },
            }
            i = i + 1;
        }
        Ok(())
    }

    /// Runs one action before a request (see `pre_step`). Only a method that
    /// names no HTTP method stops; a delay changes nothing and does not wait.
    pub fn execute_action_pre(
        action: &ScriptAction,
        request: &mut HttpRequest,
        context: &mut ScriptContext,
    ) -> (r: Result<(), AppError>)
        ensures
            *action is Delay ==> r is Ok && request_view(*final(request)) == request_view(
                *old(request),
            ) && final(context)@ == old(context)@,
            r is Err ==> *action is SetMethod,
            match pre_step(*action, request_view(*old(request)), old(context)@) {
                PreStep::Next(r2, c2) => r is Ok && request_view(*final(request)) == r2
                    && final(context)@ == c2,
                PreStep::Stop(m) => (r matches Err(AppError::Validation(s)) && s@ == m)
                    && request_view(*final(request)) == request_view(*old(request))
                    && final(context)@ == old(context)@,
            },
            final(request).config == old(request).config,
            final(request).multipart_fields == old(request).multipart_fields,
            final(request).auth == old(request).auth,
    {
        proof {
            lemma_delay_step(*action, request_view(*request), context@);
        }
        match action {
            ScriptAction::SetVariable { name, value } => {
                let resolved = context.resolve_variables(value.as_str());
                context.variables.insert(name.clone(), resolved);
            },
            ScriptAction::SetHeader { key, value } => {
                let resolved_key = context.resolve_variables(key.as_str());
                let resolved_value = context.resolve_variables(value.as_str());
                let k = chars_of(resolved_key.as_str());
                let mut headers = without_header(&request.headers, &k);
                let ghost kept = headers@;
                headers.push((resolved_key, resolved_value));
                proof {
                    assert(pairs_view(headers@) =~= pairs_view(kept).push(
                        (k@, resolve_with(context@.vars, value@)),
                    ));
                }
                request.headers = headers;
            },
            ScriptAction::RemoveHeader { key } => {
                let resolved = context.resolve_variables(key.as_str());
                let k = chars_of(resolved.as_str());
                let headers = without_header(&request.headers, &k);
                request.headers = headers;
            },
            ScriptAction::SetBody { body } => {
                let resolved = context.resolve_variables(body.as_str());
                request.body = Some(resolved);
            },
            ScriptAction::SetUrl { url } => {
                let resolved = context.resolve_variables(url.as_str());
                request.url = resolved;
            },
            ScriptAction::SetMethod { method } => {
                let resolved = context.resolve_variables(method.as_str());
                match HttpMethod::parse(resolved.as_str()) {
                    Some(m) => {
                        request.method = m;
                    },
                    None => {
                        let mut out: Vec<char> = Vec::new();
                        push_str(&mut out, "Invalid HTTP method: ");
                        push_str(&mut out, resolved.as_str());
                        return Err(message(&out));
                    },
                }
            },
            ScriptAction::Log { message } => {
                let resolved = context.resolve_variables(message.as_str());
                context.logs.push(resolved);
                proof {
                    assert(strings_view(context.logs@) =~= strings_view(old(context).logs@).push(
                        resolve_with(old(context)@.vars, message@),
                    ));
                }
            },
            _ => {},
        }
        Ok(())
    }

    /// Whether running the script after `response` from `context` would
    /// panic: a body check whose message cuts the body inside a character.
    pub fn post_response_panics(
        script: &Script,
        response: &HttpResponse,
        context: &ScriptContext,
    ) -> (r: bool)
        ensures
            r == (post_outcome(script.actions@, *response, context@) is Panicked),
    {
        let mut scratch = context.copy();
        let ghost acts = script.actions@;
        let mut i: usize = 0;
        proof {
            assert(acts.skip(0) =~= acts);
        }
        while i < script.actions.len()
            invariant
                i <= acts.len(),
                acts == script.actions@,
                post_outcome(acts, *response, context@) == post_outcome(
                    acts.skip(i as int),
                    *response,
                    scratch@,
                ),
            decreases script.actions.len() - i,
        {
            proof {
                assert(acts.skip(i as int)[0] == acts[i as int]);
                assert(acts.skip(i as int).drop_first() =~= acts.skip(i + 1));
            }
            match Self::execute_action_post(&script.actions[i], response, &mut scratch) {
                PostResult::Continue => {},
                PostResult::Failed(_) => {
                    return false;
                },
                PostResult::WouldPanic => {
                    return true;
                },
            }
            i = i + 1;
        }
        false
    }

    /// Runs the script after a response: each action in order, stopping at
    /// the first failed check. The context ends as `post_run` says; the
    /// result is an error exactly when a check failed, carrying its message,
    /// which is also recorded among the context's errors. Scripts with a body
    /// check whose message would cut the body inside a character are
    /// excluded (see `post_response_panics`).
    pub fn execute_post_response(
        script: &Script,
        response: &HttpResponse,
        context: &mut ScriptContext,
    ) -> (r: Result<(), AppError>)
        requires
            !(post_outcome(script.actions@, *response, old(context)@) is Panicked),
        ensures
            match post_outcome(script.actions@, *response, old(context)@) {
                PostRun::Done(c2) => r is Ok && final(context)@ == c2,
                PostRun::Failed(c2, m) => (r matches Err(AppError::Validation(s)) && s@ == m)
                    && final(context)@ == c2,
                PostRun::Panicked => false,
            },
    {
        let ghost acts = script.actions@;
        let ghost c0 = context@;
        let mut i: usize = 0;
        proof {
            assert(acts.skip(0) =~= acts);
        }
        while i < script.actions.len()
            invariant
                i <= acts.len(),
                acts == script.actions@,
                c0 == old(context)@,
                post_outcome(acts, *response, c0) == post_outcome(
                    acts.skip(i as int),
                    *response,
                    context@,
                ),
                !(post_outcome(acts, *response, c0) is Panicked),
            decreases script.actions.len() - i,
        {
            proof {
                assert(acts.skip(i as int)[0] == acts[i as int]);
                assert(acts.skip(i as int).drop_first() =~= acts.skip(i + 1));
            }
            let ghost cb = context@;
            match Self::execute_action_post(&script.actions[i], response, context) {
                PostResult::Continue => {},
                PostResult::Failed(e) => {
                    proof {
                        let st = post_step(
                            acts[i as int],
                            response.status,
                            pairs_view(response.headers@),
                            response.body@,
                            cb,
                        );
                        assert(st is Stop);
                        assert(post_outcome(acts.skip(i as int), *response, cb) == PostRun::Failed(
                            st->Stop_0,
                            st->Stop_1,
                        ));
                    }
                    return Err(e);
                },
                PostResult::WouldPanic => {
                    proof {
                        assert(false);
                    }
                    return Ok(());
                },
            }
            i = i + 1;
        }
        Ok(())
    }

    /// Runs one action after the response (see `post_step`). Only checks
    /// fail: a failing check records exactly its error and changes nothing
    /// else, a passing check changes nothing, every other action goes on.
    pub fn execute_action_post(
        action: &ScriptAction,
        response: &HttpResponse,
        context: &mut ScriptContext,
    ) -> (r: PostResult)
        ensures
            r matches PostResult::Failed(e) ==> {
                &&& (*action is AssertStatus || *action is AssertHeader || *action is AssertBody)
                &&& e matches AppError::Validation(s) && final(context)@ == (CtxView {
                    vars: old(context)@.vars,
                    logs: old(context)@.logs,
                    errors: old(context)@.errors.push(s@),
                })
            },
            (*action is AssertStatus || *action is AssertHeader || *action is AssertBody) ==> (
            r is Continue ==> final(context)@ == old(context)@),
            !(*action is AssertStatus || *action is AssertHeader || *action is AssertBody)
                ==> r is Continue,
            match post_step(
                *action,
                response.status,
                pairs_view(response.headers@),
                response.body@,
                old(context)@,
            ) {
                PostStep::Next(c2) => r is Continue && final(context)@ == c2,
                PostStep::Stop(c2, m) => (r matches PostResult::Failed(AppError::Validation(s))
                    && s@ == m) && final(context)@ == c2,
                PostStep::Panic => r is WouldPanic && final(context)@ == old(context)@,
            },
    {
        proof {
            lemma_post_step_shape(
                *action,
                response.status,
                pairs_view(response.headers@),
                response.body@,
                context@,
            );
        }
        match action {
            ScriptAction::AssertStatus { expected } => {
                if response.status != *expected {
                    let mut out: Vec<char> = Vec::new();
                    push_str(&mut out, "Assertion failed: expected status ");
                    push_dec(&mut out, *expected as u64);
                    push_str(&mut out, ", got ");
                    push_dec(&mut out, response.status as u64);
                    proof {
                        assert(out@ =~= status_msg(*expected, response.status));
                    }
                    return Self::record_failure(context, &out);
                }
                PostResult::Continue
            },
            ScriptAction::AssertHeader { key, contains: ct, equals: eq } => {
                let kc = chars_of(key.as_str());
                match find_header(&response.headers, &kc) {
                    None => {
                        let mut out: Vec<char> = Vec::new();
                        push_str(&mut out, "Assertion failed: header '");
                        push_str(&mut out, key.as_str());
                        push_str(&mut out, "' not found");
                        proof {
                            assert(out@ =~= header_missing_msg(key@));
                        }
                        Self::record_failure(context, &out)
                    },
                    Some(val) => {
                        let vc = chars_of(val.as_str());
                        match eq {
                            Some(expected) => {
                                let resolved = context.resolve_variables(expected.as_str());
                                let rc = chars_of(resolved.as_str());
                                if !chars_eq(&vc, &rc) {
                                    let mut out: Vec<char> = Vec::new();
                                    push_str(&mut out, "Assertion failed: header '");
                                    push_str(&mut out, key.as_str());
                                    push_str(&mut out, "' expected '");
                                    push_chars(&mut out, &rc);
                                    push_str(&mut out, "', got '");
                                    push_chars(&mut out, &vc);
                                    push_str(&mut out, "'");
                                    proof {
                                        assert(out@ =~= header_unequal_msg(key@, rc@, vc@));
                                    }
                                    return Self::record_failure(context, &out);
                                }
                            },
                            None => {},
                        }
                        match ct {
                            Some(expected) => {
                                let resolved = context.resolve_variables(expected.as_str());
                                let rc = chars_of(resolved.as_str());
                                if !contains_chars(&vc, &rc) {
                                    let mut out: Vec<char> = Vec::new();
                                    push_str(&mut out, "Assertion failed: header '");
                                    push_str(&mut out, key.as_str());
                                    push_str(&mut out, "' should contain '");
                                    push_chars(&mut out, &rc);
                                    push_str(&mut out, "', got '");
                                    push_chars(&mut out, &vc);
                                    push_str(&mut out, "'");
                                    proof {
                                        assert(out@ =~= header_lacks_msg(key@, rc@, vc@));
                                    }
                                    return Self::record_failure(context, &out);
                                }
                            },
                            None => {},
                        }
                        PostResult::Continue
                    },
                }
            },
            ScriptAction::AssertBody { contains: ct, equals: eq } => {
                let body = chars_of(response.body.as_str());
                match eq {
                    Some(expected) => {
                        let resolved = context.resolve_variables(expected.as_str());
                        let rc = chars_of(resolved.as_str());
                        if !chars_eq(&body, &rc) {
                            match byte_prefix_chars(&body, 100) {
                                Some(shown) => {
                                    let mut out: Vec<char> = Vec::new();
                                    push_str(&mut out, "Assertion failed: body expected '");
                                    push_chars(&mut out, &rc);
                                    push_str(&mut out, "', got '");
                                    push_chars(&mut out, &shown);
                                    push_str(&mut out, "'");
                                    proof {
                                        assert(out@ =~= body_unequal_msg(rc@, shown@));
                                    }
                                    return Self::record_failure(context, &out);
                                },
                                None => {
                                    return PostResult::WouldPanic;
                                },
                            }
                        }
                    },
                    None => {},
                }
                match ct {
                    Some(expected) => {
                        let resolved = context.resolve_variables(expected.as_str());
                        let rc = chars_of(resolved.as_str());
                        if !contains_chars(&body, &rc) {
                            let mut out: Vec<char> = Vec::new();
                            push_str(&mut out, "Assertion failed: body should contain '");
                            push_chars(&mut out, &rc);
                            push_str(&mut out, "'");
                            proof {
                                assert(out@ =~= body_lacks_msg(rc@));
                            }
                            return Self::record_failure(context, &out);
                        }
                    },
                    None => {},
                }
                PostResult::Continue
            },
            ScriptAction::ExtractJson { variable, path } => {
                let resolved_path = context.resolve_variables(path.as_str());
                match json_compact(response.body.as_str()) {
                    Some(doc) => match extract_json_path(doc.as_str(), resolved_path.as_str()) {
                        Some(val) => {
                            context.variables.insert(variable.clone(), val);
                        },
                        None => {
                            let mut out: Vec<char> = Vec::new();
                            push_str(&mut out, "JSON path '");
                            push_str(&mut out, resolved_path.as_str());
                            push_str(&mut out, "' not found");
                            proof {
                                assert(out@ =~= path_missing_msg(resolved_path@));
                            }
                            let ghost before = context.errors@;
                            context.errors.push(string_of(&out));
                            proof {
                                assert(strings_view(context.errors@) =~= strings_view(before).push(
                                    out@,
                                ));
                            }
                        },
                    },
                    None => {},
                }
                PostResult::Continue
            },
            ScriptAction::ExtractHeader { variable, header } => {
                let resolved = context.resolve_variables(header.as_str());
                let hc = chars_of(resolved.as_str());
                match find_header(&response.headers, &hc) {
                    Some(v) => {
                        context.variables.insert(variable.clone(), v.clone());
                    },
                    None => {},
                }
                PostResult::Continue
            },
            ScriptAction::Log { message } => {
                let resolved = context.resolve_variables(message.as_str());
                let ghost before = context.logs@;
                context.logs.push(resolved);
                proof {
                    assert(strings_view(context.logs@) =~= strings_view(before).push(
                        resolve_with(old(context)@.vars, message@),
                    ));
                }
                PostResult::Continue
            },
            ScriptAction::SetVariable { name, value } => {
                let resolved = context.resolve_variables(value.as_str());
                context.variables.insert(name.clone(), resolved);
                PostResult::Continue
            },
            _ => PostResult::Continue,
        }
    }

    /// Records the error `m` in the context and reports the failure.
    fn record_failure(context: &mut ScriptContext, m: &Vec<char>) -> (r: PostResult)
        ensures
            r matches PostResult::Failed(AppError::Validation(s)) && s@ == m@,
            final(context)@ == (CtxView {
                vars: old(context)@.vars,
                logs: old(context)@.logs,
                errors: old(context)@.errors.push(m@),
            }),
    {
        let ghost before = context.errors@;
        context.errors.push(string_of(m));
        proof {
            assert(strings_view(context.errors@) =~= strings_view(before).push(m@));
        }
        PostResult::Failed(message(m))
    }
}

// ---------------------------------------------------------------------------
// Laws.
// ---------------------------------------------------------------------------

/// After a header is dropped by name, no remaining header has that name
/// (ignoring ASCII case), and every remaining header was there before.
pub proof fn lemma_drop_header_removes(h: Seq<(Seq<char>, Seq<char>)>, k: Seq<char>)
    ensures
        forall|i: int|
            0 <= i < drop_header(h, k).len() ==> !eq_ignore_case(#[trigger] drop_header(h, k)[i].0, k),
        forall|i: int| 0 <= i < drop_header(h, k).len() ==> h.contains(#[trigger] drop_header(h, k)[i]),
        drop_header(h, k).len() <= h.len(),
    decreases h.len(),
{
    if h.len() > 0 {
        lemma_drop_header_removes(h.drop_last(), k);
        let d = drop_header(h.drop_last(), k);
        assert forall|i: int| 0 <= i < d.len() implies h.contains(#[trigger] d[i]) by {
            let j = choose|j: int| 0 <= j < h.drop_last().len() && h.drop_last()[j] == d[i];
            assert(h[j] == d[i]);
        }
        if !eq_ignore_case(h.last().0, k) {
            assert(h[h.len() - 1] == h.last());
        }
    }
}

/// Setting a header before the request leaves exactly one header of that
/// name (ignoring ASCII case): the last one, holding the resolved value.
pub proof fn lemma_set_header_single(key: String, value: String, r: ReqView, c: CtxView)
    ensures
        ({
            let k = resolve_with(c.vars, key@);
            let h = pre_step(ScriptAction::SetHeader { key, value }, r, c)->Next_0.headers;
            &&& h.len() >= 1
            &&& h.last() == (k, resolve_with(c.vars, value@))
            &&& forall|i: int| 0 <= i < h.len() - 1 ==> !eq_ignore_case(#[trigger] h[i].0, k)
            &&& header_value(h, k) == Some(resolve_with(c.vars, value@))
        }),
{
    let k = resolve_with(c.vars, key@);
    let v = resolve_with(c.vars, value@);
    let d = drop_header(r.headers, k);
    lemma_drop_header_removes(r.headers, k);
    let h = d.push((k, v));
    assert forall|i: int| 0 <= i < h.len() - 1 implies !eq_ignore_case(#[trigger] h[i].0, k) by {
        assert(h[i] == d[i]);
    }
    lemma_header_value_after(d, k, v);
}

/// Looking a header up finds a pushed header when no earlier one has its
/// name.
proof fn lemma_header_value_after(d: Seq<(Seq<char>, Seq<char>)>, k: Seq<char>, v: Seq<char>)
    requires
        forall|i: int| 0 <= i < d.len() ==> !eq_ignore_case(#[trigger] d[i].0, k),
    ensures
        header_value(d.push((k, v)), k) == Some(v),
    decreases d.len(),
{
    assert(eq_ignore_case(k, k));
    if d.len() > 0 {
        assert(!eq_ignore_case(d[0].0, k));
        assert(d.push((k, v)).drop_first() =~= d.drop_first().push((k, v)));
        assert forall|i: int| 0 <= i < d.drop_first().len() implies !eq_ignore_case(
            #[trigger] d.drop_first()[i].0,
            k,
        ) by {
            assert(d.drop_first()[i] == d[i + 1]);
        }
        lemma_header_value_after(d.drop_first(), k, v);
    }
}

/// Removing a header before the request leaves no header of that name.
pub proof fn lemma_remove_header_gone(key: String, r: ReqView, c: CtxView)
    ensures
        header_value(
            pre_step(ScriptAction::RemoveHeader { key }, r, c)->Next_0.headers,
            resolve_with(c.vars, key@),
        ) is None,
{
    let k = resolve_with(c.vars, key@);
    lemma_drop_header_removes(r.headers, k);
    lemma_header_value_none(drop_header(r.headers, k), k);
}

proof fn lemma_header_value_none(h: Seq<(Seq<char>, Seq<char>)>, k: Seq<char>)
    requires
        forall|i: int| 0 <= i < h.len() ==> !eq_ignore_case(#[trigger] h[i].0, k),
    ensures
        header_value(h, k) is None,
    decreases h.len(),
{
    if h.len() > 0 {
        assert(!eq_ignore_case(h[0].0, k));
        assert forall|i: int| 0 <= i < h.drop_first().len() implies !eq_ignore_case(
            #[trigger] h.drop_first()[i].0,
            k,
        ) by {
            assert(h.drop_first()[i] == h[i + 1]);
        }
        lemma_header_value_none(h.drop_first(), k);
    }
}

/// Scripts run before the request record no errors: the context's errors
/// are the same after the run, whether it stopped or not.
pub proof fn lemma_pre_run_keeps_errors(acts: Seq<ScriptAction>, r: ReqView, c: CtxView)
    ensures
        pre_run(acts, r, c).1.errors == c.errors,
    decreases acts.len(),
{
    if acts.len() > 0 {
        match pre_step(acts[0], r, c) {
            PreStep::Next(r2, c2) => {
                lemma_pre_run_keeps_errors(acts.drop_first(), r2, c2);
            },
            PreStep::Stop(m) => {},
        }
    }
}

/// A failed check after the response is both returned and recorded: the
/// last error of the final context is the returned message, and the errors
/// recorded before the run are kept as they were.
pub proof fn lemma_post_failure_recorded(
    acts: Seq<ScriptAction>,
    status: u16,
    headers: Seq<(Seq<char>, Seq<char>)>,
    body: Seq<char>,
    c: CtxView,
)
    ensures
        post_run(acts, status, headers, body, c) matches PostRun::Failed(c2, m) ==> {
            &&& c2.errors.len() >= c.errors.len() + 1
            &&& c2.errors.last() == m
            &&& c2.errors.take(c.errors.len() as int) == c.errors
        },
        post_run(acts, status, headers, body, c) matches PostRun::Done(c2) ==> {
            &&& c2.errors.len() >= c.errors.len()
            &&& c2.errors.take(c.errors.len() as int) == c.errors
        },
    decreases acts.len(),
{
    if acts.len() > 0 {
        match post_step(acts[0], status, headers, body, c) {
            PostStep::Next(c2) => {
                lemma_post_failure_recorded(acts.drop_first(), status, headers, body, c2);
                assert(c2.errors.take(c.errors.len() as int) =~= c.errors);
                match post_run(acts, status, headers, body, c) {
                    PostRun::Failed(c3, m) => {
                        assert(c3.errors.take(c.errors.len() as int) =~= c3.errors.take(
                            c2.errors.len() as int,
                        ).take(c.errors.len() as int));
                    },
                    PostRun::Done(c3) => {
                        assert(c3.errors.take(c.errors.len() as int) =~= c3.errors.take(
                            c2.errors.len() as int,
                        ).take(c.errors.len() as int));
                    },
                    PostRun::Panicked => {},
                }
            },
            PostStep::Stop(c2, m) => {
                assert(c2.errors.take(c.errors.len() as int) =~= c.errors);
            },
            PostStep::Panic => {},
        }
    } else {
        assert(c.errors.take(c.errors.len() as int) =~= c.errors);
    }
}

/// After the response only checks fail: a failing check records exactly its
/// error and changes nothing else, a passing check changes nothing, and
/// every other action goes on.
pub proof fn lemma_post_step_shape(
    a: ScriptAction,
    status: u16,
    headers: Seq<(Seq<char>, Seq<char>)>,
    body: Seq<char>,
    c: CtxView,
)
    ensures
        post_step(a, status, headers, body, c) matches PostStep::Stop(c2, m) ==> {
            &&& (a is AssertStatus || a is AssertHeader || a is AssertBody)
            &&& c2 == (CtxView { vars: c.vars, logs: c.logs, errors: c.errors.push(m) })
        },
        (a is AssertStatus || a is AssertHeader || a is AssertBody) ==> (post_step(
            a,
            status,
            headers,
            body,
            c,
        ) matches PostStep::Next(c2) ==> c2 == c),
        !(a is AssertStatus || a is AssertHeader || a is AssertBody) ==> post_step(
            a,
            status,
            headers,
            body,
            c,
        ) is Next,
{
}

proof fn lemma_delay_step(a: ScriptAction, r: ReqView, c: CtxView)
    ensures
        a is Delay ==> pre_step(a, r, c) == PreStep::Next(r, c),
        pre_step(a, r, c) is Stop ==> a is SetMethod,
{
}

/// A delay does nothing, before the request or after the response.
pub proof fn lemma_delay_does_nothing(
    ms: u64,
    r: ReqView,
    c: CtxView,
    status: u16,
    headers: Seq<(Seq<char>, Seq<char>)>,
    body: Seq<char>,
)
    ensures
        pre_step(ScriptAction::Delay { ms }, r, c) == PreStep::Next(r, c),
        post_step(ScriptAction::Delay { ms }, status, headers, body, c) == PostStep::Next(c),
{
}

/// Running two lists of actions one after the other before a request: the
/// second starts where the first ended, and a stop in the first ends the
/// run there with nothing of the second applied.
pub proof fn lemma_pre_run_concat(a: Seq<ScriptAction>, b: Seq<ScriptAction>, r: ReqView, c: CtxView)
    ensures
        pre_run(a + b, r, c) == match pre_run(a, r, c) {
            (r1, c1, None) => pre_run(b, r1, c1),
            stopped => stopped,
        },
    decreases a.len(),
{
    if a.len() == 0 {
        assert(a + b =~= b);
    } else {
        assert((a + b)[0] == a[0]);
        assert((a + b).drop_first() =~= a.drop_first() + b);
        match pre_step(a[0], r, c) {
            PreStep::Next(r2, c2) => {
                lemma_pre_run_concat(a.drop_first(), b, r2, c2);
            },
            PreStep::Stop(m) => {},
        }
    }
}

/// The run before a request stops at the first failing action: the request
/// and context are those left by the actions before it, and the actions
/// after it are not applied.
pub proof fn lemma_pre_run_stops_at_first_failure(acts: Seq<ScriptAction>, i: int, r: ReqView, c: CtxView)
    requires
        0 <= i < acts.len(),
        pre_run(acts.take(i), r, c).2 is None,
        pre_step(acts[i], pre_run(acts.take(i), r, c).0, pre_run(acts.take(i), r, c).1) is Stop,
    ensures
        pre_run(acts, r, c) == (
            pre_run(acts.take(i), r, c).0,
            pre_run(acts.take(i), r, c).1,
            Some(
                pre_step(
                    acts[i],
                    pre_run(acts.take(i), r, c).0,
                    pre_run(acts.take(i), r, c).1,
                )->Stop_0,
            ),
        ),
{
    assert(acts =~= acts.take(i) + acts.skip(i));
    lemma_pre_run_concat(acts.take(i), acts.skip(i), r, c);
    assert(acts.skip(i)[0] == acts[i]);
}

/// Running two lists of actions one after the other after the response: the
/// second starts from the context the first left, and a failure (or panic)
/// in the first ends the run there with nothing of the second applied.
pub proof fn lemma_post_run_concat(
    a: Seq<ScriptAction>,
    b: Seq<ScriptAction>,
    status: u16,
    headers: Seq<(Seq<char>, Seq<char>)>,
    body: Seq<char>,
    c: CtxView,
)
    ensures
        post_run(a + b, status, headers, body, c) == match post_run(a, status, headers, body, c) {
            PostRun::Done(c1) => post_run(b, status, headers, body, c1),
            other => other,
        },
    decreases a.len(),
{
    if a.len() == 0 {
        assert(a + b =~= b);
    } else {
        assert((a + b)[0] == a[0]);
        assert((a + b).drop_first() =~= a.drop_first() + b);
        match post_step(a[0], status, headers, body, c) {
            PostStep::Next(c2) => {
                lemma_post_run_concat(a.drop_first(), b, status, headers, body, c2);
            },
            _ => {},
        }
    }
}

/// The run after the response stops at the first failing check: its context
/// is the one left by the actions before it with that one error recorded,
/// and the actions after it have no effect.
pub proof fn lemma_post_run_stops_at_first_failure(
    acts: Seq<ScriptAction>,
    i: int,
    status: u16,
    headers: Seq<(Seq<char>, Seq<char>)>,
    body: Seq<char>,
    c: CtxView,
)
    requires
        0 <= i < acts.len(),
        post_run(acts.take(i), status, headers, body, c) is Done,
        post_step(
            acts[i],
            status,
            headers,
            body,
            post_run(acts.take(i), status, headers, body, c)->Done_0,
        ) is Stop,
    ensures
        ({
            let c1 = post_run(acts.take(i), status, headers, body, c)->Done_0;
            let m = post_step(acts[i], status, headers, body, c1)->Stop_1;
            post_run(acts, status, headers, body, c) == PostRun::Failed(
                CtxView { vars: c1.vars, logs: c1.logs, errors: c1.errors.push(m) },
                m,
            )
        }),
{
    assert(acts =~= acts.take(i) + acts.skip(i));
    lemma_post_run_concat(acts.take(i), acts.skip(i), status, headers, body, c);
    assert(acts.skip(i)[0] == acts[i]);
    let c1 = post_run(acts.take(i), status, headers, body, c)->Done_0;
    lemma_post_step_shape(acts[i], status, headers, body, c1);
}

} // verus!
