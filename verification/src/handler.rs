//! The handler capability and the continuation-based chain semantics.
//!
//! A handler is anything a route or middleware stage can do with a request,
//! the current response value, and a continuation that runs the remainder
//! of the chain. Handlers are tagged values interpreted by the engine: a
//! stage either short-circuits with a response of its own, or invokes its
//! continuation once and may post-process the result. Two composed shapes
//! exist: a route chain, which on running past its last stage returns the
//! current response as is and never invokes the outer continuation, and a
//! pipeline, which on running past its last stage defers to the outer
//! continuation (the listener supplies the fixed 500 fallback there).

use vstd::prelude::*;
use crate::headers::lookup_pair;
use crate::request::{Request, RequestModel};
use crate::response::{
    Response, ResponseModel, fresh_response, with_body, with_header, with_status,
};

verus! {

broadcast use vstd::seq::group_seq_axioms, vstd::std_specs::vec::group_vec_axioms;

/// A unit of request processing: a leaf that answers, a middleware that
/// guards or post-processes, or a composed chain of other handlers.
pub enum Handler {
    /// A leaf: answer with this status and body, ignoring the continuation.
    Respond { status: u16, body: String },
    /// Middleware: invoke the continuation, then set each header on its
    /// result, in order.
    AddHeaders { headers: Vec<(String, String)> },
    /// Middleware: invoke the continuation and return its result unchanged.
    PassThrough,
    /// Middleware: if the request carries the header (with the expected
    /// value, when one is given), invoke the continuation; otherwise
    /// short-circuit with this status and body.
    RequireHeader { name: String, expected: Option<String>, status: u16, body: String },
    /// A composed route chain: run the stages in order; running past the
    /// last stage yields the current response, never the continuation.
    Chain(Vec<Handler>),
    /// A composed global chain: run the stages in order; running past the
    /// last stage defers to the continuation.
    Pipeline(Vec<Handler>),
}

/// The mathematical value of a handler.
pub enum HandlerModel {
    Respond { status: u16, body: Seq<char> },
    AddHeaders { headers: Seq<(Seq<char>, Seq<char>)> },
    PassThrough,
    RequireHeader { name: Seq<char>, expected: Option<Seq<char>>, status: u16, body: Seq<char> },
    Chain(Seq<HandlerModel>),
    Pipeline(Seq<HandlerModel>),
}

/// The views of a sequence of string pairs.
pub open spec fn pairs_view(v: Seq<(String, String)>) -> Seq<(Seq<char>, Seq<char>)> {
    Seq::new(v.len(), |i: int| (v[i].0@, v[i].1@))
}

/// The mathematical value of a handler.
pub open spec fn handler_view(h: Handler) -> HandlerModel
    decreases h, 0int,
{
    match h {
        Handler::Respond { status, body } => HandlerModel::Respond { status, body: body@ },
        Handler::AddHeaders { headers } => HandlerModel::AddHeaders {
            headers: pairs_view(headers@),
        },
        Handler::PassThrough => HandlerModel::PassThrough,
        Handler::RequireHeader { name, expected, status, body } => HandlerModel::RequireHeader {
            name: name@,
            expected: match expected {
                Some(e) => Some(e@),
                None => None,
            },
            status,
            body: body@,
        },
        Handler::Chain(v) => HandlerModel::Chain(handlers_view(v@)),
        Handler::Pipeline(v) => HandlerModel::Pipeline(handlers_view(v@)),
    }
}

/// The mathematical values of a sequence of handlers.
pub open spec fn handlers_view(s: Seq<Handler>) -> Seq<HandlerModel>
    decreases s, 0int,
{
    if s.len() == 0 {
        Seq::empty()
    } else {
        seq![handler_view(s[0])] + handlers_view(s.drop_first())
    }
}

impl View for Handler {
    type V = HandlerModel;

    open spec fn view(&self) -> HandlerModel {
        handler_view(*self)
    }
}

/// The view of a handler sequence is pointwise.
pub proof fn lemma_handlers_view(s: Seq<Handler>)
    ensures
        handlers_view(s).len() == s.len(),
        forall|i: int| 0 <= i < s.len() ==> handlers_view(s)[i] == handler_view(s[i]),
    decreases s.len(),
{
    if s.len() > 0 {
        lemma_handlers_view(s.drop_first());
    }
}

/// Does the request satisfy a header guard?
pub open spec fn guard_passes(
    req: RequestModel,
    name: Seq<char>,
    expected: Option<Seq<char>>,
) -> bool {
    match expected {
        None => lookup_pair(req.headers, name) is Some,
        Some(v) => lookup_pair(req.headers, name) == Some(v),
    }
}

/// A short-circuit answer: the incoming response with a status and body set.
pub open spec fn respond_model(res: ResponseModel, status: u16, body: Seq<char>) -> ResponseModel {
    with_body(with_status(res, status), body)
}

/// Set each header on a response, in order, from position `i` on.
pub open spec fn add_headers_model(
    res: ResponseModel,
    hs: Seq<(Seq<char>, Seq<char>)>,
    i: int,
) -> ResponseModel
    decreases hs.len() - i,
{
    if i < 0 || i >= hs.len() {
        res
    } else {
        add_headers_model(with_header(res, hs[i].0, hs[i].1), hs, i + 1)
    }
}

/// The fixed fallback response the listener supplies as the absolute
/// terminal continuation: status 500, a generic error body.
pub open spec fn fallback_response() -> ResponseModel {
    with_body(with_status(fresh_response(), 500), "Internal Error"@)
}

/// What a handler yields, given the request, the current response value,
/// and the response its continuation would produce if invoked.
pub open spec fn run_handler(
    h: HandlerModel,
    req: RequestModel,
    res: ResponseModel,
    next: ResponseModel,
) -> ResponseModel
    decreases h, 0int,
{
    match h {
        HandlerModel::Respond { status, body } => respond_model(res, status, body),
        HandlerModel::AddHeaders { headers } => add_headers_model(next, headers, 0),
        HandlerModel::PassThrough => next,
        HandlerModel::RequireHeader { name, expected, status, body } => if guard_passes(
            req,
            name,
            expected,
        ) {
            next
        } else {
            respond_model(res, status, body)
        },
        HandlerModel::Chain(hs) => run_handlers(hs, 0, req, res, res),
        HandlerModel::Pipeline(hs) => run_handlers(hs, 0, req, res, next),
    }
}

/// Run the stages of a list from position `i` on: each stage's continuation
/// runs the rest of the list, and running past the end yields `tail`.
pub open spec fn run_handlers(
    hs: Seq<HandlerModel>,
    i: int,
    req: RequestModel,
    res: ResponseModel,
    tail: ResponseModel,
) -> ResponseModel
    decreases hs, hs.len() - i,
{
    if i < 0 || i >= hs.len() {
        tail
    } else {
        run_handler(hs[i], req, res, run_handlers(hs, i + 1, req, res, tail))
    }
}

/// Does this stage invoke its continuation, for this request?
pub open spec fn calls_next(h: HandlerModel, req: RequestModel) -> bool
    decreases h, 0int,
{
    match h {
        HandlerModel::Respond { .. } => false,
        HandlerModel::AddHeaders { .. } => true,
        HandlerModel::PassThrough => true,
        HandlerModel::RequireHeader { name, expected, .. } => guard_passes(req, name, expected),
        HandlerModel::Chain(_) => false,
        HandlerModel::Pipeline(hs) => all_call_next(hs, 0, req),
    }
}

/// Do all stages from position `i` on invoke their continuations?
pub open spec fn all_call_next(hs: Seq<HandlerModel>, i: int, req: RequestModel) -> bool
    decreases hs, hs.len() - i,
{
    if i < 0 || i >= hs.len() {
        true
    } else {
        calls_next(hs[i], req) && all_call_next(hs, i + 1, req)
    }
}

/// The positions of the list entries that execute, in execution order:
/// each stage that invokes its continuation hands control to the next.
pub open spec fn run_trace(hs: Seq<HandlerModel>, i: int, req: RequestModel) -> Seq<int>
    decreases hs.len() - i,
{
    if i < 0 || i >= hs.len() {
        Seq::empty()
    } else if calls_next(hs[i], req) {
        seq![i] + run_trace(hs, i + 1, req)
    } else {
        seq![i]
    }
}

/// What a stage that never invokes its continuation returns on its own.
pub open spec fn own_response(h: HandlerModel, req: RequestModel, res: ResponseModel) -> ResponseModel {
    run_handler(h, req, res, res)
}

/// A stage that invokes its continuation and hands its result back
/// unchanged, for this request and response.
pub open spec fn transparent(h: HandlerModel, req: RequestModel, res: ResponseModel) -> bool {
    calls_next(h, req) && forall|x: ResponseModel| #[trigger] run_handler(h, req, res, x) == x
}

/// A stage that invokes its continuation and keeps its result's status and
/// body, whatever else it does (headers may change).
pub open spec fn keeps_status_body(h: HandlerModel, req: RequestModel, res: ResponseModel) -> bool {
    calls_next(h, req) && forall|x: ResponseModel|
        (#[trigger] run_handler(h, req, res, x)).status == x.status && run_handler(
            h,
            req,
            res,
            x,
        ).body == x.body
}

/// A stage that does not invoke its continuation yields the same response
/// whatever the continuation would have produced.
pub proof fn lemma_next_irrelevant(
    h: HandlerModel,
    req: RequestModel,
    res: ResponseModel,
    n1: ResponseModel,
    n2: ResponseModel,
)
    requires
        !calls_next(h, req),
    ensures
        run_handler(h, req, res, n1) == run_handler(h, req, res, n2),
    decreases h, 0int,
{
    match h {
        HandlerModel::Pipeline(hs) => {
            lemma_run_handlers_next_irrelevant(hs, 0, req, res, n1, n2);
        },
        _ => {},
    }
}

/// A list with a stage that does not invoke its continuation yields the
/// same response whatever its tail would have been.
proof fn lemma_run_handlers_next_irrelevant(
    hs: Seq<HandlerModel>,
    i: int,
    req: RequestModel,
    res: ResponseModel,
    n1: ResponseModel,
    n2: ResponseModel,
)
    requires
        !all_call_next(hs, i, req),
    ensures
        run_handlers(hs, i, req, res, n1) == run_handlers(hs, i, req, res, n2),
    decreases hs, hs.len() - i,
{
    if calls_next(hs[i], req) {
        lemma_run_handlers_next_irrelevant(hs, i + 1, req, res, n1, n2);
    } else {
        lemma_next_irrelevant(
            hs[i],
            req,
            res,
            run_handlers(hs, i + 1, req, res, n1),
            run_handlers(hs, i + 1, req, res, n2),
        );
    }
}

/// Law: in a chain whose stages before `k` hand their continuation's result
/// back unchanged, if stage `k` never invokes its continuation, the whole
/// chain's result is stage `k`'s own response, whatever tail was supplied.
pub proof fn lemma_chain_short_circuit(
    hs: Seq<HandlerModel>,
    k: int,
    req: RequestModel,
    res: ResponseModel,
    tail: ResponseModel,
)
    requires
        0 <= k < hs.len(),
        !calls_next(hs[k], req),
        forall|j: int| 0 <= j < k ==> transparent(#[trigger] hs[j], req, res),
    ensures
        run_handlers(hs, 0, req, res, tail) == own_response(hs[k], req, res),
{
    lemma_chain_short_circuit_from(hs, 0, k, req, res, tail);
}

proof fn lemma_chain_short_circuit_from(
    hs: Seq<HandlerModel>,
    i: int,
    k: int,
    req: RequestModel,
    res: ResponseModel,
    tail: ResponseModel,
)
    requires
        0 <= i <= k < hs.len(),
        !calls_next(hs[k], req),
        forall|j: int| i <= j < k ==> transparent(#[trigger] hs[j], req, res),
    ensures
        run_handlers(hs, i, req, res, tail) == own_response(hs[k], req, res),
    decreases k - i,
{
    if i == k {
        lemma_next_irrelevant(hs[k], req, res, run_handlers(hs, k + 1, req, res, tail), res);
    } else {
        lemma_chain_short_circuit_from(hs, i + 1, k, req, res, tail);
        assert(run_handler(hs[i], req, res, run_handlers(hs, i + 1, req, res, tail))
            == run_handlers(hs, i + 1, req, res, tail));
    }
}

/// Law: in a chain whose stages before the last hand their continuation's
/// result back unchanged, if every stage invokes its continuation, the
/// chain's result is the last stage's result, whose own continuation
/// yields the supplied tail.
pub proof fn lemma_chain_runs_to_last(
    hs: Seq<HandlerModel>,
    req: RequestModel,
    res: ResponseModel,
    tail: ResponseModel,
)
    requires
        hs.len() > 0,
        forall|j: int| 0 <= j < hs.len() ==> calls_next(#[trigger] hs[j], req),
        forall|j: int| 0 <= j < hs.len() - 1 ==> transparent(#[trigger] hs[j], req, res),
    ensures
        run_handlers(hs, 0, req, res, tail) == run_handler(hs[hs.len() - 1], req, res, tail),
{
    lemma_chain_runs_to_last_from(hs, 0, req, res, tail);
}

proof fn lemma_chain_runs_to_last_from(
    hs: Seq<HandlerModel>,
    i: int,
    req: RequestModel,
    res: ResponseModel,
    tail: ResponseModel,
)
    requires
        hs.len() > 0,
        0 <= i <= hs.len() - 1,
        forall|j: int| 0 <= j < hs.len() ==> calls_next(#[trigger] hs[j], req),
        forall|j: int| i <= j < hs.len() - 1 ==> transparent(#[trigger] hs[j], req, res),
    ensures
        run_handlers(hs, i, req, res, tail) == run_handler(hs[hs.len() - 1], req, res, tail),
    decreases hs.len() - i,
{
    if i < hs.len() - 1 {
        lemma_chain_runs_to_last_from(hs, i + 1, req, res, tail);
        assert(run_handler(hs[i], req, res, run_handlers(hs, i + 1, req, res, tail))
            == run_handlers(hs, i + 1, req, res, tail));
    }
}

/// Law: in a composed route handler whose stages before `k` hand their
/// continuation's result back unchanged, if stage `k` never invokes its
/// continuation, the composed handler's result is stage `k`'s own response,
/// whatever continuation the composed handler itself was handed.
pub proof fn lemma_route_chain_short_circuit(
    hs: Seq<HandlerModel>,
    k: int,
    req: RequestModel,
    res: ResponseModel,
    next: ResponseModel,
)
    requires
        0 <= k < hs.len(),
        !calls_next(hs[k], req),
        forall|j: int| 0 <= j < k ==> transparent(#[trigger] hs[j], req, res),
    ensures
        run_handler(HandlerModel::Chain(hs), req, res, next) == own_response(hs[k], req, res),
{
    lemma_chain_short_circuit(hs, k, req, res, res);
}

/// Law: in a composed route handler whose stages before the last hand
/// their continuation's result back unchanged, if every stage invokes its
/// continuation, the composed handler's result is the last stage's result —
/// and the last stage's continuation yields the current response, never the
/// continuation the composed handler itself was handed.
pub proof fn lemma_route_chain_runs_to_last(
    hs: Seq<HandlerModel>,
    req: RequestModel,
    res: ResponseModel,
    next: ResponseModel,
)
    requires
        hs.len() > 0,
        forall|j: int| 0 <= j < hs.len() ==> calls_next(#[trigger] hs[j], req),
        forall|j: int| 0 <= j < hs.len() - 1 ==> transparent(#[trigger] hs[j], req, res),
    ensures
        run_handler(HandlerModel::Chain(hs), req, res, next) == run_handler(
            hs[hs.len() - 1],
            req,
            res,
            res,
        ),
{
    lemma_chain_runs_to_last(hs, req, res, res);
}

/// The execution order is the position order: from `i`, every stage up to
/// the first that does not invoke its continuation runs, and nothing after.
pub proof fn lemma_trace_from(hs: Seq<HandlerModel>, i: int, m: int, req: RequestModel)
    requires
        0 <= i <= m <= hs.len(),
        forall|j: int| i <= j < m ==> calls_next(#[trigger] hs[j], req),
        m < hs.len() ==> !calls_next(hs[m], req),
    ensures
        run_trace(hs, i, req) =~= Seq::new(
            (if m < hs.len() {
                m + 1 - i
            } else {
                m - i
            }) as nat,
            |t: int| i + t,
        ),
    decreases m - i,
{
    if i < m {
        lemma_trace_from(hs, i + 1, m, req);
    }
}

/// Law: if the stages before `k` invoke their continuations and stage `k`
/// does not, exactly the stages up to and including `k` execute, in
/// position order, and no later stage is ever invoked.
pub proof fn lemma_trace_short_circuit(hs: Seq<HandlerModel>, k: int, req: RequestModel)
    requires
        0 <= k < hs.len(),
        !calls_next(hs[k], req),
        forall|j: int| 0 <= j < k ==> calls_next(#[trigger] hs[j], req),
    ensures
        run_trace(hs, 0, req) =~= Seq::new((k + 1) as nat, |t: int| t),
        forall|j: int| j > k ==> !run_trace(hs, 0, req).contains(j),
{
    lemma_trace_from(hs, 0, k, req);
    assert forall|j: int| j > k implies !run_trace(hs, 0, req).contains(j) by {
        assert(forall|t: int|
            0 <= t < run_trace(hs, 0, req).len() ==> #[trigger] run_trace(hs, 0, req)[t] <= k);
    }
}

/// Law: if every stage invokes its continuation, every stage executes, in
/// position order.
pub proof fn lemma_trace_all(hs: Seq<HandlerModel>, req: RequestModel)
    requires
        forall|j: int| 0 <= j < hs.len() ==> calls_next(#[trigger] hs[j], req),
    ensures
        run_trace(hs, 0, req) =~= Seq::new(hs.len(), |t: int| t),
{
    lemma_trace_from(hs, 0, hs.len() as int, req);
}

/// Pass-through middleware is transparent.
pub proof fn lemma_pass_through_transparent(req: RequestModel, res: ResponseModel)
    ensures
        transparent(HandlerModel::PassThrough, req, res),
{
}

/// A guard whose condition the request satisfies is transparent.
pub proof fn lemma_guard_transparent(
    name: Seq<char>,
    expected: Option<Seq<char>>,
    status: u16,
    body: Seq<char>,
    req: RequestModel,
    res: ResponseModel,
)
    requires
        guard_passes(req, name, expected),
    ensures
        transparent(HandlerModel::RequireHeader { name, expected, status, body }, req, res),
{
}

/// Setting headers never changes a response's status or body.
proof fn lemma_add_headers_model_keeps(
    res: ResponseModel,
    hs: Seq<(Seq<char>, Seq<char>)>,
    i: int,
)
    ensures
        add_headers_model(res, hs, i).status == res.status,
        add_headers_model(res, hs, i).body == res.body,
    decreases hs.len() - i,
{
    if 0 <= i < hs.len() {
        lemma_add_headers_model_keeps(with_header(res, hs[i].0, hs[i].1), hs, i + 1);
    }
}

/// Header-adding middleware keeps the status and body of what its
/// continuation produced.
pub proof fn lemma_add_headers_keeps_status_body(
    headers: Seq<(Seq<char>, Seq<char>)>,
    req: RequestModel,
    res: ResponseModel,
)
    ensures
        keeps_status_body(HandlerModel::AddHeaders { headers }, req, res),
{
    assert forall|x: ResponseModel|
        (#[trigger] run_handler(HandlerModel::AddHeaders { headers }, req, res, x)).status
            == x.status && run_handler(HandlerModel::AddHeaders { headers }, req, res, x).body
            == x.body by {
        lemma_add_headers_model_keeps(x, headers, 0);
    }
}

/// Law: a header-adding middleware really adds its headers. After it
/// post-processes its continuation's result, each name it set that no later
/// pair of its own re-sets carries that value, and every other name keeps
/// whatever the continuation's result held.
pub proof fn lemma_added_headers_present(
    hs: Seq<(Seq<char>, Seq<char>)>,
    req: RequestModel,
    res: ResponseModel,
    x: ResponseModel,
    n: int,
)
    requires
        0 <= n < hs.len(),
        forall|j: int| n < j < hs.len() ==> (#[trigger] hs[j]).0 != hs[n].0,
    ensures
        lookup_pair(run_handler(HandlerModel::AddHeaders { headers: hs }, req, res, x).headers, hs[n].0)
            == Some(hs[n].1),
        forall|o: Seq<char>|
            (forall|j: int| 0 <= j < hs.len() ==> (#[trigger] hs[j]).0 != o) ==> #[trigger] lookup_pair(
                run_handler(HandlerModel::AddHeaders { headers: hs }, req, res, x).headers,
                o,
            ) == lookup_pair(x.headers, o),
{
    lemma_added_headers_present_from(hs, x, 0, n);
    assert forall|o: Seq<char>|
        (forall|j: int| 0 <= j < hs.len() ==> (#[trigger] hs[j]).0 != o) implies #[trigger] lookup_pair(
        run_handler(HandlerModel::AddHeaders { headers: hs }, req, res, x).headers,
        o,
    ) == lookup_pair(x.headers, o) by {
        lemma_untouched_header_kept(hs, x, 0, o);
    }
}

/// From position `i` on, the pair at `n` lands in the table and is never
/// re-set by a later pair.
proof fn lemma_added_headers_present_from(
    hs: Seq<(Seq<char>, Seq<char>)>,
    r: ResponseModel,
    i: int,
    n: int,
)
    requires
        0 <= i <= n < hs.len(),
        forall|j: int| n < j < hs.len() ==> (#[trigger] hs[j]).0 != hs[n].0,
    ensures
        lookup_pair(add_headers_model(r, hs, i).headers, hs[n].0) == Some(hs[n].1),
    decreases hs.len() - i,
{
    if i == n {
        crate::headers::lemma_lookup_after_set(r.headers, hs[n].0, hs[n].1);
        lemma_untouched_header_kept(hs, with_header(r, hs[n].0, hs[n].1), n + 1, hs[n].0);
    } else {
        lemma_added_headers_present_from(hs, with_header(r, hs[i].0, hs[i].1), i + 1, n);
    }
}

/// A name that no pair from position `i` on carries keeps its value.
proof fn lemma_untouched_header_kept(
    hs: Seq<(Seq<char>, Seq<char>)>,
    r: ResponseModel,
    i: int,
    o: Seq<char>,
)
    requires
        forall|j: int| i <= j < hs.len() ==> (#[trigger] hs[j]).0 != o,
    ensures
        lookup_pair(add_headers_model(r, hs, i).headers, o) == lookup_pair(r.headers, o),
    decreases hs.len() - i,
{
    if 0 <= i < hs.len() {
        lemma_untouched_header_kept(hs, with_header(r, hs[i].0, hs[i].1), i + 1, o);
        crate::headers::lemma_lookup_after_set_other(r.headers, hs[i].0, hs[i].1, o);
    }
}

/// A transparent stage keeps status and body.
pub proof fn lemma_transparent_keeps(h: HandlerModel, req: RequestModel, res: ResponseModel)
    requires
        transparent(h, req, res),
    ensures
        keeps_status_body(h, req, res),
{
    assert forall|x: ResponseModel|
        (#[trigger] run_handler(h, req, res, x)).status == x.status && run_handler(
            h,
            req,
            res,
            x,
        ).body == x.body by {
        assert(run_handler(h, req, res, x) == x);
    }
}

/// Law: a list of stages that all keep status and body yields the tail's
/// status and body.
pub proof fn lemma_preserving_chain(
    hs: Seq<HandlerModel>,
    i: int,
    req: RequestModel,
    res: ResponseModel,
    tail: ResponseModel,
)
    requires
        forall|j: int| i <= j < hs.len() ==> keeps_status_body(#[trigger] hs[j], req, res),
    ensures
        run_handlers(hs, i, req, res, tail).status == tail.status,
        run_handlers(hs, i, req, res, tail).body == tail.body,
    decreases hs.len() - i,
{
    if 0 <= i < hs.len() {
        lemma_preserving_chain(hs, i + 1, req, res, tail);
        assert((run_handler(hs[i], req, res, run_handlers(hs, i + 1, req, res, tail))).status
            == run_handlers(hs, i + 1, req, res, tail).status);
    }
}

/// Law: a list of transparent stages hands its tail through unchanged.
pub proof fn lemma_transparent_chain(
    hs: Seq<HandlerModel>,
    i: int,
    req: RequestModel,
    res: ResponseModel,
    tail: ResponseModel,
)
    requires
        forall|j: int| i <= j < hs.len() ==> transparent(#[trigger] hs[j], req, res),
    ensures
        run_handlers(hs, i, req, res, tail) == tail,
    decreases hs.len() - i,
{
    if 0 <= i < hs.len() {
        lemma_transparent_chain(hs, i + 1, req, res, tail);
        assert(run_handler(hs[i], req, res, run_handlers(hs, i + 1, req, res, tail))
            == run_handlers(hs, i + 1, req, res, tail));
    }
}

/// Running a list with one more stage appended equals running the list
/// with the appended stage's result as the tail.
pub proof fn lemma_run_handlers_push(
    s: Seq<HandlerModel>,
    t: HandlerModel,
    i: int,
    req: RequestModel,
    res: ResponseModel,
    fb: ResponseModel,
)
    requires
        0 <= i <= s.len(),
    ensures
        run_handlers(s.push(t), i, req, res, fb) == run_handlers(
            s,
            i,
            req,
            res,
            run_handler(t, req, res, fb),
        ),
    decreases s.len() - i,
{
    if i == s.len() {
        assert(s.push(t)[i] == t);
        assert(run_handlers(s.push(t), i + 1, req, res, fb) == fb);
    } else {
        lemma_run_handlers_push(s, t, i + 1, req, res, fb);
        assert(s.push(t)[i] == s[i]);
    }
}

/// Lift a value into the handler capability.
pub trait IntoHandler: Sized {
    /// The mathematical value of the handler this lifts to.
    spec fn handler_model(self) -> HandlerModel;

    /// Lift into a handler.
    fn into_handler(self) -> (h: Handler)
        ensures
            h@ == self.handler_model(),
    ;
}

impl IntoHandler for Handler {
    open spec fn handler_model(self) -> HandlerModel {
        self@
    }

    fn into_handler(self) -> (h: Handler) {
        self
    }
}

/// Lift an ordered group of stages into one composed route handler.
pub trait IntoHandlers: Sized {
    /// The mathematical values of the stages, in order.
    spec fn handler_models(self) -> Seq<HandlerModel>;

    /// The stages as a list, in order.
    fn into_handler_vec(self) -> (v: Vec<Handler>)
        ensures
            handlers_view(v@) == self.handler_models(),
    ;

    /// The stages composed into a single route chain: it runs them in
    /// order, and running past the last stage returns the current response
    /// as is, never invoking the outer continuation.
    fn into_chained_handler(self) -> (h: Handler)
        ensures
            h@ == HandlerModel::Chain(self.handler_models()),
    {
        Handler::Chain(self.into_handler_vec())
    }
}

impl<A: IntoHandler> IntoHandlers for (A,) {
    open spec fn handler_models(self) -> Seq<HandlerModel> {
        seq![self.0.handler_model()]
    }

    fn into_handler_vec(self) -> (v: Vec<Handler>) {
        let mut v: Vec<Handler> = Vec::new();
        v.push(self.0.into_handler());
        proof {
            lemma_handlers_view(v@);
            assert(handlers_view(v@) =~= self.handler_models());
        }
        v
    }
}

impl<A: IntoHandler, B: IntoHandler> IntoHandlers for (A, B) {
    open spec fn handler_models(self) -> Seq<HandlerModel> {
        seq![self.0.handler_model(), self.1.handler_model()]
    }

    fn into_handler_vec(self) -> (v: Vec<Handler>) {
        let mut v: Vec<Handler> = Vec::new();
        v.push(self.0.into_handler());
        v.push(self.1.into_handler());
        proof {
            lemma_handlers_view(v@);
            assert(handlers_view(v@) =~= self.handler_models());
        }
        v
    }
}

impl<A: IntoHandler, B: IntoHandler, C: IntoHandler> IntoHandlers for (A, B, C) {
    open spec fn handler_models(self) -> Seq<HandlerModel> {
        seq![self.0.handler_model(), self.1.handler_model(), self.2.handler_model()]
    }

    fn into_handler_vec(self) -> (v: Vec<Handler>) {
        let mut v: Vec<Handler> = Vec::new();
        v.push(self.0.into_handler());
        v.push(self.1.into_handler());
        v.push(self.2.into_handler());
        proof {
            lemma_handlers_view(v@);
            assert(handlers_view(v@) =~= self.handler_models());
        }
        v
    }
}

impl<A: IntoHandler, B: IntoHandler, C: IntoHandler, D: IntoHandler> IntoHandlers for (A, B, C, D) {
    open spec fn handler_models(self) -> Seq<HandlerModel> {
        seq![
            self.0.handler_model(),
            self.1.handler_model(),
            self.2.handler_model(),
            self.3.handler_model(),
        ]
    }

    fn into_handler_vec(self) -> (v: Vec<Handler>) {
        let mut v: Vec<Handler> = Vec::new();
        v.push(self.0.into_handler());
        v.push(self.1.into_handler());
        v.push(self.2.into_handler());
        v.push(self.3.into_handler());
        proof {
            lemma_handlers_view(v@);
            assert(handlers_view(v@) =~= self.handler_models());
        }
        v
    }
}

impl<A: IntoHandler, B: IntoHandler, C: IntoHandler, D: IntoHandler, E: IntoHandler> IntoHandlers for (A, B, C, D, E) {
    open spec fn handler_models(self) -> Seq<HandlerModel> {
        seq![
            self.0.handler_model(),
            self.1.handler_model(),
            self.2.handler_model(),
            self.3.handler_model(),
            self.4.handler_model(),
        ]
    }

    fn into_handler_vec(self) -> (v: Vec<Handler>) {
        let mut v: Vec<Handler> = Vec::new();
        v.push(self.0.into_handler());
        v.push(self.1.into_handler());
        v.push(self.2.into_handler());
        v.push(self.3.into_handler());
        v.push(self.4.into_handler());
        proof {
            lemma_handlers_view(v@);
            assert(handlers_view(v@) =~= self.handler_models());
        }
        v
    }
}

impl<A: IntoHandler, B: IntoHandler, C: IntoHandler, D: IntoHandler, E: IntoHandler, F: IntoHandler> IntoHandlers for (A, B, C, D, E, F) {
    open spec fn handler_models(self) -> Seq<HandlerModel> {
        seq![
            self.0.handler_model(),
            self.1.handler_model(),
            self.2.handler_model(),
            self.3.handler_model(),
            self.4.handler_model(),
            self.5.handler_model(),
        ]
    }

    fn into_handler_vec(self) -> (v: Vec<Handler>) {
        let mut v: Vec<Handler> = Vec::new();
        v.push(self.0.into_handler());
        v.push(self.1.into_handler());
        v.push(self.2.into_handler());
        v.push(self.3.into_handler());
        v.push(self.4.into_handler());
        v.push(self.5.into_handler());
        proof {
            lemma_handlers_view(v@);
            assert(handlers_view(v@) =~= self.handler_models());
        }
        v
    }
}

impl<A: IntoHandler, B: IntoHandler, C: IntoHandler, D: IntoHandler, E: IntoHandler, F: IntoHandler, G: IntoHandler> IntoHandlers for (A, B, C, D, E, F, G) {
    open spec fn handler_models(self) -> Seq<HandlerModel> {
        seq![
            self.0.handler_model(),
            self.1.handler_model(),
            self.2.handler_model(),
            self.3.handler_model(),
            self.4.handler_model(),
            self.5.handler_model(),
            self.6.handler_model(),
        ]
    }

    fn into_handler_vec(self) -> (v: Vec<Handler>) {
        let mut v: Vec<Handler> = Vec::new();
        v.push(self.0.into_handler());
        v.push(self.1.into_handler());
        v.push(self.2.into_handler());
        v.push(self.3.into_handler());
        v.push(self.4.into_handler());
        v.push(self.5.into_handler());
        v.push(self.6.into_handler());
        proof {
            lemma_handlers_view(v@);
            assert(handlers_view(v@) =~= self.handler_models());
        }
        v
    }
}

impl<A: IntoHandler, B: IntoHandler, C: IntoHandler, D: IntoHandler, E: IntoHandler, F: IntoHandler, G: IntoHandler, H: IntoHandler> IntoHandlers for (A, B, C, D, E, F, G, H) {
    open spec fn handler_models(self) -> Seq<HandlerModel> {
        seq![
            self.0.handler_model(),
            self.1.handler_model(),
            self.2.handler_model(),
            self.3.handler_model(),
            self.4.handler_model(),
            self.5.handler_model(),
            self.6.handler_model(),
            self.7.handler_model(),
        ]
    }

    fn into_handler_vec(self) -> (v: Vec<Handler>) {
        let mut v: Vec<Handler> = Vec::new();
        v.push(self.0.into_handler());
        v.push(self.1.into_handler());
        v.push(self.2.into_handler());
        v.push(self.3.into_handler());
        v.push(self.4.into_handler());
        v.push(self.5.into_handler());
        v.push(self.6.into_handler());
        v.push(self.7.into_handler());
        proof {
            lemma_handlers_view(v@);
            assert(handlers_view(v@) =~= self.handler_models());
        }
        v
    }
}

impl Handler {
    /// A copy with the same mathematical value.
    pub fn duplicate(&self) -> (r: Handler)
        ensures
            r@ == self@,
        decreases self,
    {
        match self {
            Handler::Respond { status, body } => Handler::Respond {
                status: *status,
                body: body.clone(),
            },
            Handler::AddHeaders { headers } => Handler::AddHeaders {
                headers: clone_pairs(headers),
            },
            Handler::PassThrough => Handler::PassThrough,
            Handler::RequireHeader { name, expected, status, body } => Handler::RequireHeader {
                name: name.clone(),
                expected: match expected {
                    Some(e) => Some(e.clone()),
                    None => None,
                },
                status: *status,
                body: body.clone(),
            },
            Handler::Chain(v) => Handler::Chain(clone_handlers(v)),
            Handler::Pipeline(v) => Handler::Pipeline(clone_handlers(v)),
        }
    }
}

/// A copy of a pair list with the same views.
fn clone_pairs(v: &Vec<(String, String)>) -> (r: Vec<(String, String)>)
    ensures
        pairs_view(r@) == pairs_view(v@),
{
    let n = v.len();
    let mut out: Vec<(String, String)> = Vec::new();
    let mut i: usize = 0;
    while i < n
        invariant
            n == v@.len(),
            i <= n,
            out@.len() == i,
            forall|j: int| 0 <= j < i ==> (#[trigger] out@[j]).0@ == v@[j].0@ && out@[j].1@
                == v@[j].1@,
        decreases n - i,
    {
        let p = &v[i];
        out.push((p.0.clone(), p.1.clone()));
        i += 1;
    }
    proof {
        assert(pairs_view(out@) =~= pairs_view(v@));
    }
    out
}

/// A copy of a handler list with the same mathematical values.
pub(crate) fn clone_handlers(v: &Vec<Handler>) -> (r: Vec<Handler>)
    ensures
        handlers_view(r@) == handlers_view(v@),
    decreases v,
{
    let n = v.len();
    let mut out: Vec<Handler> = Vec::new();
    let mut i: usize = 0;
    while i < n
        invariant
            n == v@.len(),
            i <= n,
            out@.len() == i,
            forall|j: int| 0 <= j < i ==> handler_view(#[trigger] out@[j]) == handler_view(v@[j]),
        decreases n - i,
    {
        let h = v[i].duplicate();
        out.push(h);
        i += 1;
    }
    proof {
        lemma_handlers_view(out@);
        lemma_handlers_view(v@);
        assert(handlers_view(out@) =~= handlers_view(v@));
    }
    out
}

/// The fixed fallback response: status 500, a generic error body.
pub fn fallback() -> (r: Response)
    ensures
        r@ == fallback_response(),
{
    Response::new().status(500).send("Internal Error")
}

/// Does the request satisfy a header guard?
fn guard_check(req: &Request, name: &String, expected: &Option<String>) -> (r: bool)
    ensures
        r == guard_passes(
            req@,
            name@,
            match *expected {
                Some(e) => Some(e@),
                None => None::<Seq<char>>,
            },
        ),
{
    match req.header(name.as_str()) {
        None => false,
        Some(v) => match expected {
            None => true,
            Some(e) => v.eq(e),
        },
    }
}

/// A short-circuit answer: the incoming response with a status and body set.
fn respond_exec(res: &Response, status: u16, body: &String) -> (r: Response)
    ensures
        r@ == respond_model(res@, status, body@),
{
    res.duplicate().status(status).send(body.as_str())
}

/// Set each header on a response, in order.
fn add_headers_exec(res: Response, hs: &Vec<(String, String)>) -> (r: Response)
    ensures
        r@ == add_headers_model(res@, pairs_view(hs@), 0),
{
    let ghost orig = res@;
    let n = hs.len();
    let mut out = res;
    let mut i: usize = 0;
    while i < n
        invariant
            n == hs@.len(),
            i <= n,
            add_headers_model(orig, pairs_view(hs@), 0) == add_headers_model(
                out@,
                pairs_view(hs@),
                i as int,
            ),
        decreases n - i,
    {
        let p = &hs[i];
        out = out.set_header(p.0.as_str(), p.1.as_str());
        i += 1;
    }
    out
}

/// Run the stages of a list from position `i` on, lazily: a stage that
/// short-circuits keeps the rest of the list from ever running.
fn run_handlers_exec(
    hs: &Vec<Handler>,
    i: usize,
    req: &Request,
    res: &Response,
    tail: Response,
) -> (r: Response)
    requires
        i <= hs@.len(),
    ensures
        r@ == run_handlers(handlers_view(hs@), i as int, req@, res@, tail@),
    decreases hs, hs@.len() - i,
{
    proof {
        lemma_handlers_view(hs@);
    }
    if i == hs.len() {
        return tail;
    }
    let ghost hv = handlers_view(hs@);
    let ghost goal = run_handlers(hv, i as int, req@, res@, tail@);
    proof {
        assert(hv[i as int] == handler_view(hs@[i as int]));
        assert(goal == run_handler(hv[i as int], req@, res@, run_handlers(
            hv,
            i as int + 1,
            req@,
            res@,
            tail@,
        )));
    }
    match &hs[i] {
        Handler::Respond { status, body } => {
            let r = respond_exec(res, *status, body);
            proof {
                assert(r@ == goal);
            }
            r
        },
        Handler::AddHeaders { headers } => {
            let inner = run_handlers_exec(hs, i + 1, req, res, tail);
            let r = add_headers_exec(inner, headers);
            proof {
                assert(r@ == goal);
            }
            r
        },
        Handler::PassThrough => run_handlers_exec(hs, i + 1, req, res, tail),
        Handler::RequireHeader { name, expected, status, body } => {
            if guard_check(req, name, expected) {
                run_handlers_exec(hs, i + 1, req, res, tail)
            } else {
                respond_exec(res, *status, body)
            }
        },
        Handler::Chain(sub) => {
            let subtail = res.duplicate();
            let r = run_handlers_exec(sub, 0, req, res, subtail);
            proof {
                assert(r@ == goal);
            }
            r
        },
        Handler::Pipeline(sub) => {
            let subtail = run_handlers_exec(hs, i + 1, req, res, tail);
            let r = run_handlers_exec(sub, 0, req, res, subtail);
            proof {
                assert(r@ == goal);
            }
            r
        },
    }
}

/// Invoke a handler the way the listener does: with the current response
/// value and the fixed 500 fallback as the absolute terminal continuation.
pub fn invoke(h: &Handler, req: &Request, res: &Response) -> (r: Response)
    ensures
        r@ == run_handler(h@, req@, res@, fallback_response()),
{
    match h {
        Handler::Respond { status, body } => respond_exec(res, *status, body),
        Handler::AddHeaders { headers } => add_headers_exec(fallback(), headers),
        Handler::PassThrough => fallback(),
        Handler::RequireHeader { name, expected, status, body } => {
            if guard_check(req, name, expected) {
                fallback()
            } else {
                respond_exec(res, *status, body)
            }
        },
        Handler::Chain(sub) => {
            let subtail = res.duplicate();
            run_handlers_exec(sub, 0, req, res, subtail)
        },
        Handler::Pipeline(sub) => {
            let subtail = fallback();
            run_handlers_exec(sub, 0, req, res, subtail)
        },
    }
}

} // verus!
