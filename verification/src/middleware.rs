//! Global middleware: an ordered list of handlers that wraps every route.
//!
//! Middlewares run in registration order — the first registered is the
//! outermost — each one's continuation leading to the next, and the last
//! one's continuation leading into the terminal handler. The terminal
//! handler's own continuation is whatever the caller of the composed chain
//! supplies (the listener supplies the fixed 500 fallback).

use vstd::prelude::*;
use crate::handler::{
    Handler, HandlerModel, calls_next, clone_handlers, handler_view, handlers_view,
    lemma_handlers_view, lemma_run_handlers_push, lemma_trace_from, lemma_transparent_chain,
    run_handler, run_handlers, run_trace, transparent,
};
use crate::request::RequestModel;
use crate::response::ResponseModel;

verus! {

broadcast use vstd::seq::group_seq_axioms, vstd::std_specs::vec::group_vec_axioms;

/// The ordered list of global middleware.
pub struct MiddlewareManager {
    middlewares: Vec<Handler>,
}

impl View for MiddlewareManager {
    type V = Seq<HandlerModel>;

    closed spec fn view(&self) -> Seq<HandlerModel> {
        handlers_view(self.middlewares@)
    }
}

impl MiddlewareManager {
    /// An empty middleware list.
    pub fn new() -> (r: MiddlewareManager)
        ensures
            r@ == Seq::<HandlerModel>::empty(),
    {
        MiddlewareManager { middlewares: Vec::new() }
    }

    /// Append a middleware; it will run after all earlier ones.
    pub fn add(&mut self, middleware: Handler)
        ensures
            final(self)@ == old(self)@.push(middleware@),
    {
        let ghost old_list = self.middlewares@;
        let ghost mh = middleware;
        self.middlewares.push(middleware);
        proof {
            lemma_handlers_view(old_list);
            lemma_handlers_view(self.middlewares@);
            assert(self.middlewares@ == old_list.push(mh));
            assert(handlers_view(self.middlewares@) =~= handlers_view(old_list).push(
                handler_view(mh),
            ));
        }
    }

    /// How many middlewares are registered.
    pub fn count(&self) -> (n: usize)
        ensures
            n == self@.len(),
    {
        proof {
            lemma_handlers_view(self.middlewares@);
        }
        self.middlewares.len()
    }

    /// Compose the middleware list around a terminal handler: the result
    /// runs the middlewares in registration order, the last one's
    /// continuation leads into the terminal handler, and the terminal
    /// handler's continuation is the composed chain's own continuation.
    pub fn build_chain(&self, final_handler: Handler) -> (h: Handler)
        ensures
            h@ == HandlerModel::Pipeline(self@.push(final_handler@)),
    {
        let ghost m = final_handler@;
        let mut list = clone_handlers(&self.middlewares);
        let ghost cloned = list@;
        list.push(final_handler);
        proof {
            lemma_handlers_view(cloned);
            lemma_handlers_view(self.middlewares@);
            lemma_handlers_view(list@);
            assert(handlers_view(list@) =~= self@.push(m));
        }
        Handler::Pipeline(list)
    }
}

impl Default for MiddlewareManager {
    /// An empty middleware list.
    fn default() -> (r: MiddlewareManager)
        ensures
            r@ == Seq::<HandlerModel>::empty(),
    {
        MiddlewareManager::new()
    }
}

/// Law: under a composed global chain, if every middleware invokes its
/// continuation, every middleware and then the terminal handler execute,
/// in registration order.
pub proof fn lemma_global_order(mws: Seq<HandlerModel>, t: HandlerModel, req: RequestModel)
    requires
        forall|j: int| 0 <= j < mws.len() ==> calls_next(#[trigger] mws[j], req),
    ensures
        run_trace(mws.push(t), 0, req) =~= Seq::new(mws.len() + 1, |i: int| i),
{
    let list = mws.push(t);
    if calls_next(t, req) {
        lemma_trace_from(list, 0, list.len() as int, req);
    } else {
        lemma_trace_from(list, 0, mws.len() as int, req);
    }
}

/// Law: under a composed global chain whose middlewares all hand their
/// continuation's result back unchanged, the result is the terminal
/// handler's result on the chain's own continuation.
pub proof fn lemma_global_reaches_terminal(
    mws: Seq<HandlerModel>,
    t: HandlerModel,
    req: RequestModel,
    res: ResponseModel,
    fb: ResponseModel,
)
    requires
        forall|j: int| 0 <= j < mws.len() ==> transparent(#[trigger] mws[j], req, res),
    ensures
        run_handlers(mws.push(t), 0, req, res, fb) == run_handler(t, req, res, fb),
{
    lemma_run_handlers_push(mws, t, 0, req, res, fb);
    lemma_transparent_chain(mws, 0, req, res, run_handler(t, req, res, fb));
}

} // verus!
