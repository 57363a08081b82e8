//! The script execution broker's state machine.
//!
//! A single worker owns the engine; everything it decides — which execution
//! context a call addresses, when a handle has been invalidated by a reload,
//! how an engine outcome becomes a response — is modeled here as functions
//! from state and event to new state and action, each with an exact
//! contract. The worker loop itself only performs the engine work these
//! functions ask for and feeds the outcome back.

use vstd::prelude::*;
use crate::contract::{ApiRequest, JsResponse, Verb, spec_verb_name};

verus! {

/// The view of one script's load state.
#[verifier::ext_equal]
pub enum StatusView {
    Ready,
    Broken(Seq<char>),
}

/// The view of one script's entry: its path, the generation of its current
/// execution context, and whether that context is usable.
#[verifier::ext_equal]
pub struct EntryView {
    pub path: Seq<char>,
    pub generation: u64,
    pub status: StatusView,
}

/// The view of a handle: which script it addresses and the generation of the
/// context it was issued for.
#[verifier::ext_equal]
pub struct HandleView {
    pub script: Seq<char>,
    pub generation: u64,
}

/// Whether one script's execution context is usable: `Broken` carries the
/// diagnostic of the failed load.
pub enum ScriptStatus {
    Ready,
    Broken(String),
}

impl View for ScriptStatus {
    type V = StatusView;

    open spec fn view(&self) -> StatusView {
        match self {
            ScriptStatus::Ready => StatusView::Ready,
            ScriptStatus::Broken(d) => StatusView::Broken(d@),
        }
    }
}

/// One script known to the broker.
pub struct ScriptEntry {
    pub path: String,
    pub generation: u64,
    pub status: ScriptStatus,
}

impl View for ScriptEntry {
    type V = EntryView;

    open spec fn view(&self) -> EntryView {
        EntryView { path: self.path@, generation: self.generation, status: self.status@ }
    }
}

/// An opaque reference to one loaded execution context. A handle addresses
/// exactly one script and only the context generation it was issued for; a
/// reload of the script invalidates it.
#[derive(Clone, Debug)]
pub struct Handle {
    pub script: String,
    pub generation: u64,
}

impl View for Handle {
    type V = HandleView;

    open spec fn view(&self) -> HandleView {
        HandleView { script: self.script@, generation: self.generation }
    }
}

/// What the engine reported for a load: the script's top-level code either
/// evaluated, or failed with a diagnostic.
pub enum LoadOutcome {
    Loaded,
    Failed(String),
}

/// The load state a load outcome leaves a script in.
pub open spec fn status_of_load(outcome: LoadOutcome) -> StatusView {
    match outcome {
        LoadOutcome::Loaded => StatusView::Ready,
        LoadOutcome::Failed(d) => StatusView::Broken(d@),
    }
}

/// The entry of the script at this path: the first entry whose path matches.
pub open spec fn find_entry(s: Seq<EntryView>, path: Seq<char>) -> Option<EntryView>
    decreases s.len(),
{
    if s.len() == 0 {
        None
    } else if s[0].path == path {
        Some(s[0])
    } else {
        find_entry(s.drop_first(), path)
    }
}

/// The generation after a reload. The counter keeps its last value once it
/// is exhausted; the invalidation laws hold below that point.
pub open spec fn next_gen(g: u64) -> u64 {
    if g == u64::MAX {
        g
    } else {
        (g + 1) as u64
    }
}

/// The generation a fresh load of this path receives.
pub open spec fn load_generation(s: Seq<EntryView>, path: Seq<char>) -> u64 {
    match find_entry(s, path) {
        None => 0,
        Some(e) => next_gen(e.generation),
    }
}

/// The broker state after a load of `path` settles with status `st`: the
/// script's entry moves to a fresh generation with that status — prior
/// handles for it are thereby invalidated — and a first load appends a new
/// entry. No other entry changes.
pub open spec fn load_step(s: Seq<EntryView>, path: Seq<char>, st: StatusView) -> Seq<EntryView>
    decreases s.len(),
{
    if s.len() == 0 {
        seq![EntryView { path: path, generation: 0, status: st }]
    } else if s[0].path == path {
        seq![
            EntryView { path: s[0].path, generation: next_gen(s[0].generation), status: st },
        ] + s.drop_first()
    } else {
        seq![s[0]] + load_step(s.drop_first(), path, st)
    }
}

/// How the broker admits a call on a handle: the script must be known, the
/// handle must address the current context generation, and the context must
/// have loaded cleanly.
pub open spec fn admission_of(s: Seq<EntryView>, h: HandleView) -> AdmissionView {
    match find_entry(s, h.script) {
        None => AdmissionView::NotLoaded,
        Some(e) => if e.generation != h.generation {
            AdmissionView::Invalidated
        } else {
            match e.status {
                StatusView::Ready => AdmissionView::Proceed,
                StatusView::Broken(d) => AdmissionView::Broken(d),
            }
        },
    }
}

/// The view of a call admission.
#[verifier::ext_equal]
pub enum AdmissionView {
    Proceed,
    NotLoaded,
    Invalidated,
    Broken(Seq<char>),
}

/// The broker's admission of a call on a handle; `Broken` carries the load
/// diagnostic of the script's current context.
pub enum CallAdmission {
    Proceed,
    NotLoaded,
    Invalidated,
    Broken(String),
}

impl View for CallAdmission {
    type V = AdmissionView;

    open spec fn view(&self) -> AdmissionView {
        match self {
            CallAdmission::Proceed => AdmissionView::Proceed,
            CallAdmission::NotLoaded => AdmissionView::NotLoaded,
            CallAdmission::Invalidated => AdmissionView::Invalidated,
            CallAdmission::Broken(d) => AdmissionView::Broken(d@),
        }
    }
}

/// A first-match scan that stops at `j` finds the entry at `j`.
proof fn lemma_find_entry_at(s: Seq<EntryView>, path: Seq<char>, j: int)
    requires
        0 <= j < s.len(),
        s[j].path == path,
        forall|k: int| 0 <= k < j ==> s[k].path != path,
    ensures
        find_entry(s, path) == Some(s[j]),
    decreases j,
{
    if j > 0 {
        lemma_find_entry_at(s.drop_first(), path, j - 1);
    }
}

/// A scan that matches nowhere finds nothing.
proof fn lemma_find_entry_missing(s: Seq<EntryView>, path: Seq<char>)
    requires
        forall|k: int| 0 <= k < s.len() ==> s[k].path != path,
    ensures
        find_entry(s, path) is None,
    decreases s.len(),
{
    if s.len() > 0 {
        lemma_find_entry_missing(s.drop_first(), path);
    }
}

/// When the script is known, a settled load updates its entry in place.
proof fn lemma_load_step_found(s: Seq<EntryView>, path: Seq<char>, st: StatusView, j: int)
    requires
        0 <= j < s.len(),
        s[j].path == path,
        forall|k: int| 0 <= k < j ==> s[k].path != path,
    ensures
        load_step(s, path, st) =~~= s.update(
            j,
            EntryView { path: s[j].path, generation: next_gen(s[j].generation), status: st },
        ),
    decreases j,
{
    if j == 0 {
    } else {
        lemma_load_step_found(s.drop_first(), path, st, j - 1);
        assert(load_step(s, path, st) =~~= seq![s[0]] + load_step(s.drop_first(), path, st));
    }
}

/// When the script is new, a settled load appends its entry.
proof fn lemma_load_step_missing(s: Seq<EntryView>, path: Seq<char>, st: StatusView)
    requires
        forall|k: int| 0 <= k < s.len() ==> s[k].path != path,
    ensures
        load_step(s, path, st) =~~= s.push(EntryView { path: path, generation: 0, status: st }),
    decreases s.len(),
{
    if s.len() > 0 {
        lemma_load_step_missing(s.drop_first(), path, st);
    }
}

/// After a load of a script settles, its entry carries the fresh generation
/// and the load's status.
pub proof fn lemma_load_lookup(s: Seq<EntryView>, path: Seq<char>, st: StatusView)
    ensures
        find_entry(load_step(s, path, st), path) == Some(
            EntryView { path: path, generation: load_generation(s, path), status: st },
        ),
    decreases s.len(),
{
    if s.len() == 0 {
    } else if s[0].path == path {
        assert(load_step(s, path, st)[0].path == path);
    } else {
        lemma_load_lookup(s.drop_first(), path, st);
        assert(load_step(s, path, st).drop_first() =~~= load_step(s.drop_first(), path, st));
    }
}

/// Loading one script leaves every other script's entry untouched.
pub proof fn lemma_load_frame(s: Seq<EntryView>, path: Seq<char>, st: StatusView, other: Seq<char>)
    requires
        other != path,
    ensures
        find_entry(load_step(s, path, st), other) == find_entry(s, other),
    decreases s.len(),
{
    let x = load_step(s, path, st);
    if s.len() == 0 {
        assert(x[0].path == path);
        assert(x.drop_first().len() == 0);
        assert(find_entry(x.drop_first(), other) is None);
        assert(find_entry(x, other) is None);
    } else if s[0].path == path {
        assert(x[0].path == path);
        assert(x.drop_first() =~~= s.drop_first());
        assert(find_entry(x, other) == find_entry(s.drop_first(), other));
        assert(find_entry(s, other) == find_entry(s.drop_first(), other));
    } else {
        assert(x[0] == s[0]);
        if s[0].path == other {
            assert(find_entry(x, other) == Some(s[0]));
            assert(find_entry(s, other) == Some(s[0]));
        } else {
            lemma_load_frame(s.drop_first(), path, st, other);
            assert(x.drop_first() =~~= load_step(s.drop_first(), path, st));
            assert(find_entry(x, other) == find_entry(s.drop_first(), other));
            assert(find_entry(s, other) == find_entry(s.drop_first(), other));
        }
    }
}

/// The broker's script table: one entry per script path.
pub struct BrokerState {
    pub entries: Vec<ScriptEntry>,
}

impl View for BrokerState {
    type V = Seq<EntryView>;

    open spec fn view(&self) -> Seq<EntryView> {
        self.entries@.map_values(|e: ScriptEntry| e@)
    }
}

impl BrokerState {
    /// One entry per script path.
    pub open spec fn wf(&self) -> bool {
        forall|i: int, j: int|
            0 <= i < j < self@.len() ==> self@[i].path != self@[j].path
    }

    /// The broker starts with no script loaded.
    pub fn new() -> (r: BrokerState)
        ensures
            r@ =~= Seq::<EntryView>::empty(),
            r.wf(),
    {
        BrokerState { entries: Vec::new() }
    }

    /// Settle a load of `path` with the engine's outcome. The script's entry
    /// moves to a fresh generation — invalidating every handle issued before,
    /// whether the load succeeded or not — and records the outcome. A clean
    /// load yields the handle for the new context; a failed one yields the
    /// load error and leaves the route marked broken, never crashing the
    /// broker. No other script's entry is touched.
    #[verifier::loop_isolation(false)]
    pub fn settle_load(&mut self, path: &String, outcome: LoadOutcome) -> (r: Result<
        Handle,
        BrokerError,
    >)
        requires
            old(self).wf(),
        ensures
            final(self).wf(),
            final(self)@ =~~= load_step(old(self)@, path@, status_of_load(outcome)),
            (r matches Ok(h) ==> outcome is Loaded && h@ == HandleView {
                script: path@,
                generation: load_generation(old(self)@, path@),
            }),
            (r matches Err(e) ==> (outcome matches LoadOutcome::Failed(d) && e@
                == ErrorView::Load(d@))),
            ((r is Ok) <==> (outcome is Loaded)),
    {
        let ghost s0 = self@;
        let (status, diag): (ScriptStatus, Option<String>) = match outcome {
            LoadOutcome::Loaded => (ScriptStatus::Ready, None),
            LoadOutcome::Failed(d) => {
                let copy = d.clone();
                (ScriptStatus::Broken(copy), Some(d))
            },
        };
        let ghost st = status@;
        let n: usize = self.entries.len();
        let mut j: usize = 0;
        while j < n
            invariant
                j <= n,
                n == self.entries@.len(),
                self@ == s0,
                forall|k: int| 0 <= k < j ==> s0[k].path != path@,
        decreases n - j,
        {
            if self.entries[j].path == *path {
                let g: u64 = self.entries[j].generation;
                let g2: u64 = if g == u64::MAX {
                    g
                } else {
                    g + 1
                };
                self.entries[j] = ScriptEntry { path: path.clone(), generation: g2, status };
                proof {
                    lemma_find_entry_at(s0, path@, j as int);
                    lemma_load_step_found(s0, path@, st, j as int);
                    assert(self@ =~~= load_step(s0, path@, st));
                    assert forall|a: int, b: int|
                        0 <= a < b < self@.len() implies self@[a].path != self@[b].path by {
                        assert(self@[a].path == s0[a].path);
                        assert(self@[b].path == s0[b].path);
                    }
                }
                return match diag {
                    None => Ok(Handle { script: path.clone(), generation: g2 }),
                    Some(d) => Err(BrokerError::Load(d)),
                };
            }
            j = j + 1;
        }
        self.entries.push(ScriptEntry { path: path.clone(), generation: 0, status });
        proof {
            lemma_find_entry_missing(s0, path@);
            lemma_load_step_missing(s0, path@, st);
            assert(self@ =~~= load_step(s0, path@, st));
            assert forall|a: int, b: int|
                0 <= a < b < self@.len() implies self@[a].path != self@[b].path by {
                assert(self@[a].path == s0[a].path);
                if b < s0.len() {
                    assert(self@[b].path == s0[b].path);
                } else {
                    assert(self@[b].path == path@);
                }
            }
        }
        match diag {
            None => Ok(Handle { script: path.clone(), generation: 0 }),
            Some(d) => Err(BrokerError::Load(d)),
        }
    }

    /// How a call on this handle is admitted. A call never changes the
    /// broker's state, so one script's call cannot disturb another's entry.
    pub fn check_call(&self, h: &Handle) -> (r: CallAdmission)
        ensures
            r@ == admission_of(self@, h@),
    {
        let n: usize = self.entries.len();
        let mut j: usize = 0;
        while j < n
            invariant
                j <= n,
                n == self.entries@.len(),
                forall|k: int| 0 <= k < j ==> self@[k].path != h.script@,
            decreases n - j,
        {
            if self.entries[j].path == h.script {
                proof {
                    lemma_find_entry_at(self@, h.script@, j as int);
                }
                if self.entries[j].generation != h.generation {
                    return CallAdmission::Invalidated;
                }
                return match &self.entries[j].status {
                    ScriptStatus::Ready => CallAdmission::Proceed,
                    ScriptStatus::Broken(d) => CallAdmission::Broken(d.clone()),
                };
            }
            j = j + 1;
        }
        proof {
            lemma_find_entry_missing(self@, h.script@);
        }
        CallAdmission::NotLoaded
    }
}

/// The broker's error taxonomy; every script-originated failure is contained
/// here, never allowed to terminate the worker.
#[derive(Debug)]
pub enum BrokerError {
    /// The script's top-level code failed to compile or evaluate.
    Load(String),
    /// A call addressed a script no load was ever settled for.
    ScriptNotLoaded(String),
    /// A call raced a reload of its script and addressed the stale context.
    HandleInvalidated,
    /// The handler function threw while executing.
    Call(String),
    /// The handler's return value did not fit the response contract.
    Serialization(String),
    /// The worker terminated; fatal for the whole service.
    Disconnected,
}

/// The view of a broker error.
pub enum ErrorView {
    Load(Seq<char>),
    ScriptNotLoaded(Seq<char>),
    HandleInvalidated,
    Call(Seq<char>),
    Serialization(Seq<char>),
    Disconnected,
}

impl View for BrokerError {
    type V = ErrorView;

    open spec fn view(&self) -> ErrorView {
        match self {
            BrokerError::Load(d) => ErrorView::Load(d@),
            BrokerError::ScriptNotLoaded(p) => ErrorView::ScriptNotLoaded(p@),
            BrokerError::HandleInvalidated => ErrorView::HandleInvalidated,
            BrokerError::Call(d) => ErrorView::Call(d@),
            BrokerError::Serialization(d) => ErrorView::Serialization(d@),
            BrokerError::Disconnected => ErrorView::Disconnected,
        }
    }
}


/// The diagnostic text a broker error carries to the transport.
pub open spec fn spec_error_message(e: ErrorView) -> Seq<char> {
    match e {
        ErrorView::Load(d) => "load error: "@ + d,
        ErrorView::ScriptNotLoaded(p) => "script not loaded: "@ + p,
        ErrorView::HandleInvalidated => "handle invalidated by reload"@,
        ErrorView::Call(d) => "handler call failed: "@ + d,
        ErrorView::Serialization(d) => "reply did not fit the response contract: "@ + d,
        ErrorView::Disconnected => "engine worker disconnected"@,
    }
}

impl BrokerError {
    /// The diagnostic text written into an error reply.
    pub fn message(&self) -> (r: String)
        ensures
            r@ == spec_error_message(self@),
    {
        match self {
            BrokerError::Load(d) => {
                let mut m = String::from_str("load error: ");
                m.append(d.as_str());
                m
            },
            BrokerError::ScriptNotLoaded(p) => {
                let mut m = String::from_str("script not loaded: ");
                m.append(p.as_str());
                m
            },
            BrokerError::HandleInvalidated => String::from_str("handle invalidated by reload"),
            BrokerError::Call(d) => {
                let mut m = String::from_str("handler call failed: ");
                m.append(d.as_str());
                m
            },
            BrokerError::Serialization(d) => {
                let mut m = String::from_str("reply did not fit the response contract: ");
                m.append(d.as_str());
                m
            },
            BrokerError::Disconnected => String::from_str("engine worker disconnected"),
        }
    }
}

/// What the engine reported for an admitted call: the handler's return value
/// as JSON text, a thrown error's diagnostic, or that the script exports no
/// function under the verb's name.
pub enum EngineOutcome {
    Returned(String),
    Threw(String),
    MissingFunction,
}

/// The view of an engine outcome.
pub enum OutcomeView {
    Returned(Seq<char>),
    Threw(Seq<char>),
    MissingFunction,
}

impl View for EngineOutcome {
    type V = OutcomeView;

    open spec fn view(&self) -> OutcomeView {
        match self {
            EngineOutcome::Returned(t) => OutcomeView::Returned(t@),
            EngineOutcome::Threw(d) => OutcomeView::Threw(d@),
            EngineOutcome::MissingFunction => OutcomeView::MissingFunction,
        }
    }
}

/// The body of the structured reply for a verb no handler is exported for.
pub open spec fn spec_method_not_allowed_body(v: Verb) -> Seq<char> {
    crate::json::spec_error_body("Method "@ + spec_verb_name(v) + " not allowed"@)
}

/// Write the reply body for a verb no handler is exported for.
fn method_not_allowed_body(verb: Verb) -> (r: String)
    ensures
        r@ == spec_method_not_allowed_body(verb),
{
    let mut msg = String::from_str("Method ");
    msg.append(verb.name().as_str());
    msg.append(" not allowed");
    crate::json::error_body(msg.as_str())
}

/// Turn the engine's outcome for an admitted call into the call's result.
/// A script without a handler for the verb gets the structured 405 reply —
/// a normal result, not an error. A thrown handler error is contained as a
/// call error. A returned reply succeeds exactly when it decodes — JSON for
/// an object whose `status` is an unsigned integer fitting a status code —
/// and then carries that status and the reply's body text; anything else is
/// a serialization error, never a crash.
pub fn settle_call(verb: Verb, outcome: EngineOutcome) -> (r: Result<JsResponse, BrokerError>)
    ensures
        (outcome is MissingFunction ==> (r matches Ok(resp) && resp.status == 405 && resp.body@
            == spec_method_not_allowed_body(verb))),
        (outcome matches EngineOutcome::Threw(d) ==> (r matches Err(e) && e@ == ErrorView::Call(
            d@,
        ))),
        (outcome matches EngineOutcome::Returned(t) ==> ((r is Ok) <==> (
        crate::engine::json_wellformed(t@) && (crate::engine::reply_status_of(t@) matches Some(n)
            && n <= 65535)))),
        (outcome matches EngineOutcome::Returned(t) ==> (r matches Ok(resp) ==> (Some(
            resp.status as u64,
        ) == crate::engine::reply_status_of(t@) && resp.body@ == crate::engine::reply_body_text(
            t@,
        )))),
        (outcome matches EngineOutcome::Returned(t) ==> (r matches Err(e) ==> e@
            is Serialization)),
{
    match outcome {
        EngineOutcome::MissingFunction => Ok(
            JsResponse { status: 405, body: method_not_allowed_body(verb) },
        ),
        EngineOutcome::Threw(d) => Err(BrokerError::Call(d)),
        EngineOutcome::Returned(t) => match crate::engine::decode_response(t.as_str()) {
            Ok(resp) => Ok(resp),
            Err(m) => Err(BrokerError::Serialization(m)),
        },
    }
}

/// What the worker does with a call command: invoke the named exported
/// function with the framed request, or refuse without touching the engine.
pub enum CallDecision {
    Invoke(String, String),
    Refuse(BrokerError),
}

impl BrokerState {
    /// Decide a call command. An admitted call invokes the function named
    /// after the verb with the request's JSON framing; anything else is
    /// refused with the matching error and never reaches the engine.
    pub fn decide_call(&self, h: &Handle, verb: Verb, request: &ApiRequest) -> (r: CallDecision)
        ensures
            (admission_of(self@, h@) is Proceed ==> (r matches CallDecision::Invoke(f, j) && f@
                == spec_verb_name(verb) && j@ == crate::json::spec_request_json(
                request.url@,
                request.headers.deep_view(),
                request.method@,
                request.body.deep_view(),
                request.params.deep_view(),
                request.query.deep_view(),
            ))),
            (admission_of(self@, h@) is NotLoaded ==> (r matches CallDecision::Refuse(e) && e@
                == ErrorView::ScriptNotLoaded(h.script@))),
            (admission_of(self@, h@) is Invalidated ==> (r matches CallDecision::Refuse(e) && e@
                == ErrorView::HandleInvalidated)),
            (admission_of(self@, h@) matches AdmissionView::Broken(d) ==> (r
                matches CallDecision::Refuse(e) && e@ == ErrorView::Load(d))),
    {
        match self.check_call(h) {
            CallAdmission::Proceed => CallDecision::Invoke(
                verb.name(),
                crate::json::request_json(request),
            ),
            CallAdmission::NotLoaded => CallDecision::Refuse(
                BrokerError::ScriptNotLoaded(h.script.clone()),
            ),
            CallAdmission::Invalidated => CallDecision::Refuse(BrokerError::HandleInvalidated),
            CallAdmission::Broken(d) => CallDecision::Refuse(BrokerError::Load(d)),
        }
    }
}

/// Reloading a script invalidates the handle issued for its prior context,
/// whether the new load succeeded or failed.
pub proof fn lemma_reload_invalidates(s: Seq<EntryView>, h: HandleView, st: StatusView)
    requires
        (find_entry(s, h.script) matches Some(e) && e.generation == h.generation),
        h.generation < u64::MAX,
    ensures
        admission_of(load_step(s, h.script, st), h) == AdmissionView::Invalidated,
{
    lemma_load_lookup(s, h.script, st);
}

/// Loading or reloading one script never changes how calls on any other
/// script are admitted: scripts are isolated in the broker's state.
pub proof fn lemma_load_isolation(s: Seq<EntryView>, path: Seq<char>, st: StatusView, h: HandleView)
    requires
        h.script != path,
    ensures
        admission_of(load_step(s, path, st), h) == admission_of(s, h),
{
    lemma_load_frame(s, path, st, h.script);
}

/// A call's admission depends on its own script's entry alone: two states
/// agreeing on that entry admit the call the same way, whatever the other
/// scripts hold.
pub proof fn lemma_admission_local(s1: Seq<EntryView>, s2: Seq<EntryView>, h: HandleView)
    requires
        find_entry(s1, h.script) == find_entry(s2, h.script),
    ensures
        admission_of(s1, h) == admission_of(s2, h),
{
}


/// At most one handle per script is live at any time: two handles for one
/// script that are both admitted past the staleness check carry the same
/// generation.
pub proof fn lemma_one_live_handle(s: Seq<EntryView>, h1: HandleView, h2: HandleView)
    requires
        h1.script == h2.script,
        admission_of(s, h1) != AdmissionView::NotLoaded,
        admission_of(s, h1) != AdmissionView::Invalidated,
        admission_of(s, h2) != AdmissionView::NotLoaded,
        admission_of(s, h2) != AdmissionView::Invalidated,
    ensures
        h1.generation == h2.generation,
{
}

/// A handle that a reload has invalidated never becomes valid again: any
/// further load of its script moves the entry to a still larger generation.
pub proof fn lemma_stale_stays_invalid(s: Seq<EntryView>, h: HandleView, st: StatusView)
    requires
        (find_entry(s, h.script) matches Some(e) && h.generation < e.generation),
    ensures
        admission_of(load_step(s, h.script, st), h) == AdmissionView::Invalidated,
        (find_entry(load_step(s, h.script, st), h.script) matches Some(e) && h.generation
            < e.generation),
{
    lemma_load_lookup(s, h.script, st);
}

} // verus!
