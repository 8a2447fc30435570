//! The request pipeline's stages: Parse → Route → App → Encode → NetOut (NetIn
//! accepts connections). Each batch-processing stage takes up to 100 ids from its
//! input queue per round; the "multi" forms process one connection at a time for
//! an executor that does the queueing.
//!
//! Reading from and writing to the network is not done here: for Parse and
//! NetOut the caller does the I/O between taking an id (`next`) and finishing it
//! (`finish`).
use vstd::prelude::*;
use vstd::string::StringExecFns;
use crate::buf::{bytes_mut_view, bm_clear, bm_len};
use crate::conn::{ConnId, ConnLifecycle, ConnSlab, ConnState, ConnV, RouteId, SlabV, opt_text};
use crate::queue::{RingQueue, after_push, after_pop, push_refused, popped};
use crate::metrics::{MetricsCollector, CollectorV, StageUpdate, update_named, inc, dec, find_stage};
use crate::metrics::StageMetricsSnapshot;
use crate::handlers::{handle_hello, handle_json, handle_not_found, hello_response, json_response,
    not_found_response, API_BODY};
use crate::http::response::response_bytes;
use crate::http::parser::{HttpParser, ParseError, ParseV, parse_spec, parse_result_matches};
use crate::text::str_eq;

verus! {

/// Up to this many ids are taken from the input queue per round.
pub const BATCH: usize = 100;

/// The route of a request path: "/" is route 0, "/api/test" route 1, anything
/// else (or no path) route 999.
pub open spec fn route_of(path: Option<Seq<char>>) -> RouteId {
    match path {
        Some(p) => if p == "/"@ {
            RouteId(0)
        } else if p == "/api/test"@ {
            RouteId(1)
        } else {
            RouteId(999)
        },
        None => RouteId(999),
    }
}

/// The route of a request path.
fn route_for(path: &Option<String>) -> (r: RouteId)
    ensures
        r == route_of(opt_text(*path)),
{
    match path {
        Some(p) => if str_eq(p.as_str(), "/") {
            RouteId(0)
        } else if str_eq(p.as_str(), "/api/test") {
            RouteId(1)
        } else {
            RouteId(999)
        },
        None => RouteId(999),
    }
}

/// A connection after routing: its route set, and on to processing.
pub open spec fn routed<S>(c: ConnV<S>) -> ConnV<S> {
    ConnV { route_id: Some(route_of(c.request_path)), state: ConnLifecycle::Processing, ..c }
}

/// Whether slot `id` holds a connection.
pub open spec fn occupied<S>(slab: SlabV<S>, id: usize) -> bool {
    id < slab.slots.len() && slab.slots[id as int] is Some
}

/// The connection in slot `id`.
pub open spec fn conn_at<S>(slab: SlabV<S>, id: usize) -> ConnV<S> {
    slab.slots[id as int]->0
}

/// The slab with the connection in slot `id` replaced.
pub open spec fn with_conn<S>(slab: SlabV<S>, id: usize, c: ConnV<S>) -> SlabV<S> {
    SlabV { slots: slab.slots.update(id as int, Some(c)), ..slab }
}

/// What a batch-processing stage works on: its input and output queues (the
/// contents), the slab and the metrics.
pub struct PipeV<S> {
    pub input: Seq<usize>,
    pub output: Seq<usize>,
    pub slab: SlabV<S>,
    pub metrics: CollectorV,
}

/// The stage names the metrics know.
pub open spec fn name_route() -> Seq<char> { "route"@ }
pub open spec fn name_app() -> Seq<char> { "app"@ }
pub open spec fn name_parse() -> Seq<char> { "parse"@ }
pub open spec fn name_net_out() -> Seq<char> { "net_out"@ }

/// Taking the next id from the input queue: `None` (and the round ends) when the
/// queue is empty or the slot held no id.
pub open spec fn take_input<S>(p: PipeV<S>) -> (PipeV<S>, Option<ConnId>) {
    (PipeV { input: after_pop(p.input), ..p }, popped(p.input))
}

/// Pushes an id onto the output queue, counting it in the named stage's queue
/// length when the queue takes it.
pub open spec fn forward<S>(p: PipeV<S>, out_cap: nat, id: usize, name: Seq<char>) -> PipeV<S> {
    PipeV {
        output: after_push(p.output, out_cap, id),
        metrics: if push_refused(p.output, out_cap) { p.metrics } else {
            update_named(p.metrics, name, StageUpdate::QueueUp)
        },
        ..p
    }
}

/// One id through the route stage: its queue count goes down; a connection in
/// the slab is routed and forwarded to the app stage.
pub open spec fn route_step<S>(p: PipeV<S>, out_cap: nat) -> (PipeV<S>, bool) {
    let (p1, got) = take_input(p);
    match got {
        None => (p1, false),
        Some(id) => {
            let p2 = PipeV { metrics: update_named(p1.metrics, name_route(), StageUpdate::QueueDown), ..p1 };
            if occupied(p2.slab, id.0) {
                let p3 = PipeV { slab: with_conn(p2.slab, id.0, routed(conn_at(p2.slab, id.0))), ..p2 };
                (forward(p3, out_cap, id.0, name_app()), true)
            } else {
                (p2, true)
            }
        },
    }
}

/// Up to `n` rounds of the route stage, ending early when the input runs dry.
pub open spec fn route_rounds<S>(p: PipeV<S>, out_cap: nat, n: nat) -> PipeV<S>
    decreases n,
{
    if n == 0 {
        p
    } else {
        let (p1, go) = route_step(p, out_cap);
        if go { route_rounds(p1, out_cap, (n - 1) as nat) } else { p1 }
    }
}

/// The stage state of queues, slab and metrics.
pub open spec fn pipe<S>(input: &RingQueue, output: &RingQueue, slab: &ConnSlab<S>, metrics: &MetricsCollector) -> PipeV<S> {
    PipeV { input: input.view(), output: output.view(), slab: slab@, metrics: metrics@ }
}

/// Pops the next id, or `None`.
fn take_next(input: &mut RingQueue) -> (res: Option<ConnId>)
    requires
        old(input).wf(),
    ensures
        final(input).wf(),
        final(input).spec_capacity() == old(input).spec_capacity(),
        final(input).view() == after_pop(old(input).view()),
        res == popped(old(input).view()),
{
    input.pop()
}

/// Pushes an id onto the output queue and counts it for the named stage when taken.
fn forward_id(output: &mut RingQueue, metrics: &mut MetricsCollector, id: ConnId, name: &str)
    requires
        old(output).wf(),
        old(output).spec_capacity() > 0,
    ensures
        final(output).wf(),
        final(output).spec_capacity() == old(output).spec_capacity(),
        final(output).view() == after_push(old(output).view(), old(output).spec_capacity(), id.0),
        final(metrics)@ == if push_refused(old(output).view(), old(output).spec_capacity()) {
            old(metrics)@
        } else {
            update_named(old(metrics)@, name@, StageUpdate::QueueUp)
        },
{
    if output.push(id).is_ok() {
        metrics.inc_queue_len(name);
    }
}

/// The route stage.
pub struct RouteStage;

impl RouteStage {
    /// The route stage.
    pub fn new() -> (s: Self) {
        RouteStage
    }

    /// The stage's name in the metrics.
    pub fn name(&self) -> (n: &'static str)
        ensures
            n@ == name_route(),
    {
        "route"
    }

    /// One round: up to `BATCH` ids from `input`, each routed (see `route_step`).
    pub fn process<S>(&mut self, input: &mut RingQueue, output: &mut RingQueue, slab: &mut ConnSlab<S>,
        metrics: &mut MetricsCollector)
        requires
            old(input).wf(),
            old(output).wf(),
            old(output).spec_capacity() > 0,
        ensures
            final(input).wf(),
            final(output).wf(),
            final(input).spec_capacity() == old(input).spec_capacity(),
            final(output).spec_capacity() == old(output).spec_capacity(),
            pipe(final(input), final(output), final(slab), final(metrics))
                == route_rounds(pipe(old(input), old(output), old(slab), old(metrics)), old(output).spec_capacity(), 100),
            final(slab).wf() == old(slab).wf(),
    {
        let ghost target = route_rounds(pipe(input, output, slab, metrics), output.spec_capacity(), 100);
        let ghost out_cap = output.spec_capacity();
        let mut i: usize = 0;
        while i < BATCH
            invariant_except_break
                route_rounds(pipe(input, output, slab, metrics), out_cap, (100 - i) as nat) == target,
            invariant
                i <= 100,
                input.wf(),
                output.wf(),
                input.spec_capacity() == old(input).spec_capacity(),
                output.spec_capacity() == out_cap,
                out_cap > 0,
                slab.wf() == old(slab).wf(),
            ensures
                pipe(input, output, slab, metrics) == target,
            decreases 100 - i,
        {
            let ghost p = pipe(input, output, slab, metrics);
            let id = match take_next(input) {
                Some(id) => id,
                None => {
                    assert(pipe(input, output, slab, metrics) == route_step(p, out_cap).0);
                    assert(route_rounds(p, out_cap, (100 - i) as nat) == route_step(p, out_cap).0);
                    break;
                },
            };
            metrics.dec_queue_len("route");
            proof { reveal_strlit("route"); }
            match slab.get_mut(id) {
                Some(conn) => {
                    let route = route_for(&conn.request_path);
                    conn.route_id = Some(route);
                    conn.state = ConnLifecycle::Processing;
                },
                None => {
                    i = i + 1;
                    continue;
                },
            }
            forward_id(output, metrics, id, "app");
            i = i + 1;
        }
    }
}

/// The response the app stage writes for a route: the landing page for route 0,
/// the JSON status for route 1, else 404.
pub open spec fn app_response(route: Option<RouteId>) -> crate::http::response::ResponseV {
    if route == Some(RouteId(0)) {
        hello_response()
    } else if route == Some(RouteId(1)) {
        json_response(API_BODY)
    } else {
        not_found_response()
    }
}

/// A connection after the app stage: its response appended to the output buffer,
/// and on to sending.
pub open spec fn served<S>(c: ConnV<S>) -> ConnV<S> {
    ConnV {
        write_buf: c.write_buf + response_bytes(app_response(c.route_id)),
        state: ConnLifecycle::Sending,
        ..c
    }
}

/// Routes the connection in slot `id`, if there is one.
fn route_conn<S>(slab: &mut ConnSlab<S>, id: ConnId) -> (found: bool)
    ensures
        found == occupied(old(slab)@, id.0),
        final(slab)@ == if found { with_conn(old(slab)@, id.0, routed(conn_at(old(slab)@, id.0))) } else { old(slab)@ },
        final(slab).wf() == old(slab).wf(),
{
    match slab.get_mut(id) {
        Some(conn) => {
            let route = route_for(&conn.request_path);
            conn.route_id = Some(route);
            conn.state = ConnLifecycle::Processing;
            true
        },
        None => false,
    }
}

/// Runs the handler for the connection in slot `id`, if there is one.
fn serve_conn<S>(slab: &mut ConnSlab<S>, id: ConnId) -> (found: bool)
    ensures
        found == occupied(old(slab)@, id.0),
        final(slab)@ == if found { with_conn(old(slab)@, id.0, served(conn_at(old(slab)@, id.0))) } else { old(slab)@ },
        final(slab).wf() == old(slab).wf(),
{
    match slab.get_mut(id) {
        Some(conn) => {
            match conn.route_id {
                Some(RouteId(0)) => handle_hello(conn),
                Some(RouteId(1)) => handle_json(conn),
                _ => handle_not_found(conn),
            }
            conn.state = ConnLifecycle::Sending;
            true
        },
        None => false,
    }
}

/// One id through the app stage: its queue count goes down; a connection in the
/// slab gets its response, counts as a request, and is forwarded to net_out.
pub open spec fn app_step<S>(p: PipeV<S>, out_cap: nat) -> (PipeV<S>, bool) {
    let (p1, got) = take_input(p);
    match got {
        None => (p1, false),
        Some(id) => {
            let p2 = PipeV { metrics: update_named(p1.metrics, name_app(), StageUpdate::QueueDown), ..p1 };
            if occupied(p2.slab, id.0) {
                let p3 = PipeV {
                    slab: with_conn(p2.slab, id.0, served(conn_at(p2.slab, id.0))),
                    metrics: CollectorV { total_requests: inc(p2.metrics.total_requests), ..p2.metrics },
                    ..p2
                };
                (forward(p3, out_cap, id.0, name_net_out()), true)
            } else {
                (p2, true)
            }
        },
    }
}

/// Up to `n` rounds of the app stage, ending early when the input runs dry.
pub open spec fn app_rounds<S>(p: PipeV<S>, out_cap: nat, n: nat) -> PipeV<S>
    decreases n,
{
    if n == 0 {
        p
    } else {
        let (p1, go) = app_step(p, out_cap);
        if go { app_rounds(p1, out_cap, (n - 1) as nat) } else { p1 }
    }
}

/// The app stage.
pub struct AppStage;

impl AppStage {
    /// The app stage.
    pub fn new() -> (s: Self) {
        AppStage
    }

    /// The stage's name in the metrics.
    pub fn name(&self) -> (n: &'static str)
        ensures
            n@ == name_app(),
    {
        "app"
    }

    /// One round: up to `BATCH` ids from `input`, each served (see `app_step`).
    pub fn process<S>(&mut self, input: &mut RingQueue, output: &mut RingQueue, slab: &mut ConnSlab<S>,
        metrics: &mut MetricsCollector)
        requires
            old(input).wf(),
            old(output).wf(),
            old(output).spec_capacity() > 0,
        ensures
            final(input).wf(),
            final(output).wf(),
            final(input).spec_capacity() == old(input).spec_capacity(),
            final(output).spec_capacity() == old(output).spec_capacity(),
            pipe(final(input), final(output), final(slab), final(metrics))
                == app_rounds(pipe(old(input), old(output), old(slab), old(metrics)), old(output).spec_capacity(), 100),
            final(slab).wf() == old(slab).wf(),
    {
        let ghost target = app_rounds(pipe(input, output, slab, metrics), output.spec_capacity(), 100);
        let ghost out_cap = output.spec_capacity();
        let mut i: usize = 0;
        while i < BATCH
            invariant_except_break
                app_rounds(pipe(input, output, slab, metrics), out_cap, (100 - i) as nat) == target,
            invariant
                i <= 100,
                input.wf(),
                output.wf(),
                input.spec_capacity() == old(input).spec_capacity(),
                output.spec_capacity() == out_cap,
                out_cap > 0,
                slab.wf() == old(slab).wf(),
            ensures
                pipe(input, output, slab, metrics) == target,
            decreases 100 - i,
        {
            let ghost p = pipe(input, output, slab, metrics);
            let id = match take_next(input) {
                Some(id) => id,
                None => {
                    assert(app_rounds(p, out_cap, (100 - i) as nat) == app_step(p, out_cap).0);
                    break;
                },
            };
            metrics.dec_queue_len("app");
            proof { reveal_strlit("app"); }
            if !serve_conn(slab, id) {
                i = i + 1;
                continue;
            }
            metrics.inc_total_requests();
            forward_id(output, metrics, id, "net_out");
            proof { reveal_strlit("net_out"); }
            i = i + 1;
        }
    }
}

/// One id through the encode stage (a pass-through): forwarded as it is.
pub open spec fn encode_step(input: Seq<usize>, output: Seq<usize>, out_cap: nat) -> (Seq<usize>, Seq<usize>, bool) {
    match popped(input) {
        None => (after_pop(input), output, false),
        Some(id) => (after_pop(input), after_push(output, out_cap, id.0), true),
    }
}

/// Up to `n` rounds of the encode stage.
pub open spec fn encode_rounds(input: Seq<usize>, output: Seq<usize>, out_cap: nat, n: nat) -> (Seq<usize>, Seq<usize>)
    decreases n,
{
    if n == 0 {
        (input, output)
    } else {
        let (i1, o1, go) = encode_step(input, output, out_cap);
        if go { encode_rounds(i1, o1, out_cap, (n - 1) as nat) } else { (i1, o1) }
    }
}

/// The encode stage: it passes ids on unchanged.
pub struct EncodeStage;

impl EncodeStage {
    /// The encode stage.
    pub fn new() -> (s: Self) {
        EncodeStage
    }

    /// The stage's name in the metrics.
    pub fn name(&self) -> (n: &'static str)
        ensures
            n@ == "encode"@,
    {
        "encode"
    }

    /// One round: up to `BATCH` ids moved from `input` to `output` (ids the output
    /// refuses are dropped).
    pub fn process(&mut self, input: &mut RingQueue, output: &mut RingQueue)
        requires
            old(input).wf(),
            old(output).wf(),
            old(output).spec_capacity() > 0,
        ensures
            final(input).wf(),
            final(output).wf(),
            final(input).spec_capacity() == old(input).spec_capacity(),
            final(output).spec_capacity() == old(output).spec_capacity(),
            (final(input).view(), final(output).view())
                == encode_rounds(old(input).view(), old(output).view(), old(output).spec_capacity(), 100),
    {
        let ghost target = encode_rounds(input.view(), output.view(), output.spec_capacity(), 100);
        let ghost out_cap = output.spec_capacity();
        let mut i: usize = 0;
        while i < BATCH
            invariant_except_break
                encode_rounds(input.view(), output.view(), out_cap, (100 - i) as nat) == target,
            invariant
                i <= 100,
                input.wf(),
                output.wf(),
                input.spec_capacity() == old(input).spec_capacity(),
                output.spec_capacity() == out_cap,
                out_cap > 0,
            ensures
                (input.view(), output.view()) == target,
            decreases 100 - i,
        {
            let ghost iv = input.view();
            let ghost ov = output.view();
            let id = match take_next(input) {
                Some(id) => id,
                None => {
                    assert(encode_rounds(iv, ov, out_cap, (100 - i) as nat) == (input.view(), output.view()));
                    break;
                },
            };
            let _ = output.push(id);
            i = i + 1;
        }
    }
}

/// The slab with slot `id` emptied and put on the free stack (ids past the
/// capacity are ignored).
pub open spec fn removed<S>(slab: SlabV<S>, id: usize) -> SlabV<S> {
    if id < slab.capacity {
        SlabV { slots: slab.slots.update(id as int, None), free: slab.free.push(id), capacity: slab.capacity }
    } else {
        slab
    }
}

/// A connection whose request parsed: method and path kept, input buffer
/// emptied, on to routing.
pub open spec fn parsed<S>(c: ConnV<S>, req: crate::http::parser::RequestV) -> ConnV<S> {
    ConnV {
        request_method: Some(req.method),
        request_path: Some(req.path),
        state: ConnLifecycle::Routed,
        read_buf: Seq::empty(),
        ..c
    }
}

/// A connection closed.
pub open spec fn closed<S>(c: ConnV<S>) -> ConnV<S> {
    ConnV { state: ConnLifecycle::Closed, ..c }
}

/// What parsing the input buffer of the connection in slot `id` does, once the
/// caller has read what arrived: a request goes on to routing, an incomplete one
/// back to the parse queue, anything else closes the connection and counts as a
/// parse error (a body length past `usize` included). An empty slot is skipped.
pub open spec fn parse_finish<S>(p: PipeV<S>, in_cap: nat, out_cap: nat, id: usize) -> PipeV<S> {
    if !occupied(p.slab, id) {
        p
    } else {
        let c = conn_at(p.slab, id);
        match parse_spec(c.read_buf) {
            ParseV::Done { req, .. } => forward(
                PipeV { slab: with_conn(p.slab, id, parsed(c, req)), ..p },
                out_cap,
                id,
                name_route(),
            ),
            ParseV::Incomplete => PipeV {
                input: after_push(p.input, in_cap, id),
                metrics: if push_refused(p.input, in_cap) { p.metrics } else {
                    update_named(p.metrics, name_parse(), StageUpdate::QueueUp)
                },
                ..p
            },
            _ => PipeV {
                slab: with_conn(p.slab, id, closed(c)),
                metrics: update_named(p.metrics, name_parse(), StageUpdate::Error),
                ..p
            },
        }
    }
}

/// How parsing the connection's buffer went.
enum ParseOutcome {
    Parsed,
    Incomplete,
    Failed,
}

/// Parses the input buffer of the connection in slot `id`, if there is one, and
/// updates the connection (see `parse_finish`).
fn parse_conn<S>(parser: &mut HttpParser, slab: &mut ConnSlab<S>, id: ConnId) -> (res: Option<ParseOutcome>)
    ensures
        final(slab).wf() == old(slab).wf(),
        !occupied(old(slab)@, id.0) ==> res is None && final(slab)@ == old(slab)@,
        occupied(old(slab)@, id.0) ==> ({
            let c = conn_at(old(slab)@, id.0);
            match parse_spec(c.read_buf) {
                ParseV::Done { req, .. } => res == Some(ParseOutcome::Parsed)
                    && final(slab)@ == with_conn(old(slab)@, id.0, parsed(c, req)),
                ParseV::Incomplete => res == Some(ParseOutcome::Incomplete) && final(slab)@ == old(slab)@,
                _ => res == Some(ParseOutcome::Failed) && final(slab)@ == with_conn(old(slab)@, id.0, closed(c)),
            }
        }),
{
    let ghost s0 = slab@;
    let res = match slab.get_mut(id) {
        None => None,
        Some(conn) => {
            let ghost b = bytes_mut_view(conn.read_buf);
            let ghost c0 = conn@;
            match parser.parse_checked(&conn.read_buf) {
                Some(Ok((request, _))) => {
                    let ghost rq = request@;
                    assert(parse_spec(b) matches ParseV::Done { req, .. } && req == rq);
                    conn.request_method = Some(request.method);
                    conn.request_path = Some(request.path);
                    conn.state = ConnLifecycle::Routed;
                    bm_clear(&mut conn.read_buf);
                    assert(conn@ == parsed(c0, rq));
                    Some(ParseOutcome::Parsed)
                },
                Some(Err(ParseError::Incomplete)) => {
                    assert(parse_spec(b) is Incomplete);
                    Some(ParseOutcome::Incomplete)
                },
                _ => {
                    assert(!(parse_spec(b) is Incomplete) && !(parse_spec(b) is Done));
                    conn.state = ConnLifecycle::Closed;
                    assert(conn@ == closed(c0));
                    Some(ParseOutcome::Failed)
                },
            }
        },
    };
    if let Some(ParseOutcome::Incomplete) = res {
        assert(slab@.slots =~= s0.slots);
    }
    res
}

/// The parse stage. The caller reads from each connection between `next` and `finish`.
pub struct ParseStage {
    parser: HttpParser,
    /// Ids taken in the current round.
    taken: usize,
}

impl ParseStage {
    /// The stage's HTTP parser.
    pub closed spec fn parser(&self) -> HttpParser {
        self.parser
    }

    /// Ids taken in the current round.
    pub closed spec fn taken(&self) -> nat {
        self.taken as nat
    }

    /// The parse stage, with a fresh parser, at the start of a round.
    pub fn new() -> (s: Self)
        ensures
            s.parser().wanted() == 16,
            s.taken() == 0,
    {
        ParseStage { parser: HttpParser::new(), taken: 0 }
    }

    /// The stage's name in the metrics.
    pub fn name(&self) -> (n: &'static str)
        ensures
            n@ == name_parse(),
    {
        "parse"
    }

    /// Starts a round: up to `BATCH` ids may be taken in it.
    pub fn start_round(&mut self)
        ensures
            final(self).taken() == 0,
            final(self).parser() == old(self).parser(),
    {
        self.taken = 0;
    }

    /// Takes the next id from the parse queue (counting it off the queue and
    /// in the round), or `None` when the round is over: once `BATCH` ids were
    /// taken in it (the queue then untouched), or when the queue gives none.
    pub fn next(&mut self, input: &mut RingQueue, metrics: &mut MetricsCollector) -> (res: Option<ConnId>)
        requires
            old(input).wf(),
        ensures
            final(input).wf(),
            final(input).spec_capacity() == old(input).spec_capacity(),
            final(self).parser() == old(self).parser(),
            old(self).taken() >= BATCH ==> res is None && final(input).view() == old(input).view()
                && final(metrics)@ == old(metrics)@ && final(self).taken() == old(self).taken(),
            old(self).taken() < BATCH ==> ({
                &&& res == popped(old(input).view())
                &&& final(input).view() == after_pop(old(input).view())
                &&& final(metrics)@ == if res is Some {
                    update_named(old(metrics)@, name_parse(), StageUpdate::QueueDown)
                } else {
                    old(metrics)@
                }
                &&& final(self).taken() == old(self).taken() + if res is Some { 1int } else { 0int }
            }),
    {
        if self.taken >= BATCH {
            return None;
        }
        let id = take_next(input);
        if id.is_some() {
            self.taken = self.taken + 1;
        }
        if id.is_some() {
            metrics.dec_queue_len("parse");
            proof { reveal_strlit("parse"); }
        }
        id
    }

    /// Parses what connection `id` has read (see `parse_finish`).
    pub fn finish<S>(&mut self, id: ConnId, input: &mut RingQueue, output: &mut RingQueue, slab: &mut ConnSlab<S>,
        metrics: &mut MetricsCollector)
        requires
            old(input).wf(),
            old(output).wf(),
            old(input).spec_capacity() > 0,
            old(output).spec_capacity() > 0,
        ensures
            final(input).wf(),
            final(output).wf(),
            final(input).spec_capacity() == old(input).spec_capacity(),
            final(output).spec_capacity() == old(output).spec_capacity(),
            pipe(final(input), final(output), final(slab), final(metrics)) == parse_finish(
                pipe(old(input), old(output), old(slab), old(metrics)),
                old(input).spec_capacity(),
                old(output).spec_capacity(),
                id.0,
            ),
            final(slab).wf() == old(slab).wf(),
            final(self).taken() == old(self).taken(),
    {
        match parse_conn(&mut self.parser, slab, id) {
            None => {},
            Some(ParseOutcome::Parsed) => {
                forward_id(output, metrics, id, "route");
                proof { reveal_strlit("route"); }
            },
            Some(ParseOutcome::Incomplete) => {
                forward_id(input, metrics, id, "parse");
                proof { reveal_strlit("parse"); }
            },
            Some(ParseOutcome::Failed) => {
                metrics.inc_stage_errors("parse");
                proof { reveal_strlit("parse"); }
            },
        }
    }
}

/// What writing to a connection gave.
#[derive(Debug, Clone, Copy, PartialEq, Eq, Structural)]
pub enum WriteOutcome {
    /// This many more bytes of the output buffer were sent.
    Written(usize),
    /// The write failed.
    Failed,
    /// The connection has no stream.
    NoStream,
}

/// What net_out does with connection `id` after the caller's write: a fully sent
/// response closes and frees the connection (one connection fewer); a partly sent
/// one goes back to the net_out queue; a failed write closes and frees it and
/// counts an error; without a stream the slot is freed. An empty slot is skipped.
pub open spec fn net_out_finish<S>(p: PipeV<S>, in_cap: nat, id: usize, outcome: WriteOutcome) -> PipeV<S> {
    if !occupied(p.slab, id) {
        p
    } else {
        let c = conn_at(p.slab, id);
        match outcome {
            WriteOutcome::Written(n) => {
                let c1 = ConnV { bytes_written: (c.bytes_written + n) as usize, ..c };
                if c.bytes_written + n >= c.write_buf.len() {
                    PipeV {
                        slab: removed(p.slab, id),
                        metrics: CollectorV { total_conns: dec(p.metrics.total_conns), ..p.metrics },
                        ..p
                    }
                } else {
                    PipeV {
                        slab: with_conn(p.slab, id, c1),
                        input: after_push(p.input, in_cap, id),
                        metrics: if push_refused(p.input, in_cap) { p.metrics } else {
                            update_named(p.metrics, name_net_out(), StageUpdate::QueueUp)
                        },
                        ..p
                    }
                }
            },
            WriteOutcome::Failed => PipeV {
                slab: removed(p.slab, id),
                metrics: update_named(
                    CollectorV { total_conns: dec(p.metrics.total_conns), ..p.metrics },
                    name_net_out(),
                    StageUpdate::Error,
                ),
                ..p
            },
            WriteOutcome::NoStream => PipeV { slab: removed(p.slab, id), ..p },
        }
    }
}

/// The net_out stage. The caller writes to each connection between `next` and `finish`.
pub struct NetOutStage {
    /// Ids taken in the current round.
    taken: usize,
}

impl NetOutStage {
    /// Ids taken in the current round.
    pub closed spec fn taken(&self) -> nat {
        self.taken as nat
    }

    /// The net_out stage, at the start of a round.
    pub fn new() -> (s: Self)
        ensures
            s.taken() == 0,
    {
        NetOutStage { taken: 0 }
    }

    /// The stage's name in the metrics.
    pub fn name(&self) -> (n: &'static str)
        ensures
            n@ == name_net_out(),
    {
        "net_out"
    }

    /// Starts a round: up to `BATCH` ids may be taken in it.
    pub fn start_round(&mut self)
        ensures
            final(self).taken() == 0,
    {
        self.taken = 0;
    }

    /// Takes the next id from the net_out queue (counting it off the queue and
    /// in the round), or `None` when the round is over: once `BATCH` ids were
    /// taken in it (the queue then untouched), or when the queue gives none.
    pub fn next(&mut self, input: &mut RingQueue, metrics: &mut MetricsCollector) -> (res: Option<ConnId>)
        requires
            old(input).wf(),
        ensures
            final(input).wf(),
            final(input).spec_capacity() == old(input).spec_capacity(),
            old(self).taken() >= BATCH ==> res is None && final(input).view() == old(input).view()
                && final(metrics)@ == old(metrics)@ && final(self).taken() == old(self).taken(),
            old(self).taken() < BATCH ==> ({
                &&& res == popped(old(input).view())
                &&& final(input).view() == after_pop(old(input).view())
                &&& final(metrics)@ == if res is Some {
                    update_named(old(metrics)@, name_net_out(), StageUpdate::QueueDown)
                } else {
                    old(metrics)@
                }
                &&& final(self).taken() == old(self).taken() + if res is Some { 1int } else { 0int }
            }),
    {
        if self.taken >= BATCH {
            return None;
        }
        let id = take_next(input);
        if id.is_some() {
            self.taken = self.taken + 1;
        }
        if id.is_some() {
            metrics.dec_queue_len("net_out");
            proof { reveal_strlit("net_out"); }
        }
        id
    }

    /// Settles connection `id` after a write (see `net_out_finish`).
    pub fn finish<S>(&mut self, id: ConnId, outcome: WriteOutcome, input: &mut RingQueue, slab: &mut ConnSlab<S>,
        metrics: &mut MetricsCollector)
        requires
            old(input).wf(),
            old(input).spec_capacity() > 0,
            old(slab).wf(),
            outcome matches WriteOutcome::Written(n) ==> (occupied(old(slab)@, id.0)
                ==> conn_at(old(slab)@, id.0).bytes_written + n <= usize::MAX),
        ensures
            final(input).wf(),
            final(input).spec_capacity() == old(input).spec_capacity(),
            ({
                let p = net_out_finish(
                    PipeV { input: old(input).view(), output: Seq::empty(), slab: old(slab)@, metrics: old(metrics)@ },
                    old(input).spec_capacity(),
                    id.0,
                    outcome,
                );
                &&& final(input).view() == p.input
                &&& final(slab)@ == p.slab
                &&& final(metrics)@ == p.metrics
            }),
            final(slab).wf(),
            final(self).taken() == old(self).taken(),
    {
        let ghost s0 = slab@;
        proof { slab.lemma_wf(); }
        let fully = match slab.get_mut(id) {
            None => return,
            Some(conn) => match outcome {
                WriteOutcome::Written(n) => {
                    conn.bytes_written = conn.bytes_written + n;
                    let len = bm_len(&conn.write_buf);
                    if conn.bytes_written >= len {
                        conn.state = ConnLifecycle::Closed;
                        true
                    } else {
                        false
                    }
                },
                WriteOutcome::Failed => {
                    conn.state = ConnLifecycle::Closed;
                    true
                },
                WriteOutcome::NoStream => true,
            },
        };
        match outcome {
            WriteOutcome::Written(_) => {
                if fully {
                    metrics.dec_total_conns();
                    slab.remove(id);
                    assert(slab@.slots =~= removed(s0, id.0).slots);
                } else {
                    forward_id(input, metrics, id, "net_out");
                    proof { reveal_strlit("net_out"); }
                }
            },
            WriteOutcome::Failed => {
                metrics.dec_total_conns();
                metrics.inc_stage_errors("net_out");
                proof { reveal_strlit("net_out"); }
                slab.remove(id);
                assert(slab@.slots =~= removed(s0, id.0).slots);
            },
            WriteOutcome::NoStream => {
                slab.remove(id);
                assert(slab@.slots =~= removed(s0, id.0).slots);
            },
        }
    }
}

/// Takes a newly accepted stream into the slab and queues it for parsing: a
/// stored connection counts as one more connection, and as queued for parse when
/// the queue takes it. With the slab full the stream is dropped.
pub fn accept_conn<S>(stream: S, slab: &mut ConnSlab<S>, parse_queue: &mut RingQueue, metrics: &mut MetricsCollector)
    -> (res: Option<ConnId>)
    requires
        old(slab).wf(),
        old(parse_queue).wf(),
        old(parse_queue).spec_capacity() > 0,
    ensures
        final(slab).wf(),
        final(parse_queue).wf(),
        final(parse_queue).spec_capacity() == old(parse_queue).spec_capacity(),
        old(slab)@.free.len() == 0 ==> res is None && final(slab)@ == old(slab)@
            && final(parse_queue).view() == old(parse_queue).view() && final(metrics)@ == old(metrics)@,
        old(slab)@.free.len() > 0 ==> ({
            let id = old(slab)@.free.last();
            let m1 = CollectorV { total_conns: inc(old(metrics)@.total_conns), ..old(metrics)@ };
            &&& res == Some(ConnId(id))
            &&& final(slab)@.slots[id as int] matches Some(c) && is_fresh_with(c, stream)
            &&& final(slab)@.slots == old(slab)@.slots.update(id as int, final(slab)@.slots[id as int])
            &&& final(slab)@.free == old(slab)@.free.drop_last()
            &&& final(parse_queue).view() == after_push(old(parse_queue).view(), old(parse_queue).spec_capacity(), id)
            &&& final(metrics)@ == if push_refused(old(parse_queue).view(), old(parse_queue).spec_capacity()) {
                m1
            } else {
                update_named(m1, name_parse(), StageUpdate::QueueUp)
            }
        }),
{
    proof { slab.lemma_wf(); }
    let conn = ConnState::new(stream);
    match slab.insert(conn) {
        Some(id) => {
            metrics.inc_total_conns();
            forward_id(parse_queue, metrics, id, "parse");
            proof { reveal_strlit("parse"); }
            Some(id)
        },
        None => None,
    }
}

/// A fresh connection on this stream.
pub open spec fn is_fresh_with<S>(c: ConnV<S>, stream: S) -> bool {
    crate::conn::is_fresh(c) && c.stream == Some(stream)
}

/// Takes a newly accepted stream into the slab, for an executor: a stored
/// connection counts as one more connection and its id is returned; with the slab
/// full the stream is dropped.
pub fn accept_conn_one<S>(stream: S, slab: &mut ConnSlab<S>, metrics: &mut MetricsCollector) -> (res: Option<ConnId>)
    requires
        old(slab).wf(),
    ensures
        final(slab).wf(),
        old(slab)@.free.len() == 0 ==> res is None && final(slab)@ == old(slab)@ && final(metrics)@ == old(metrics)@,
        old(slab)@.free.len() > 0 ==> ({
            let id = old(slab)@.free.last();
            &&& res == Some(ConnId(id))
            &&& final(slab)@.slots[id as int] matches Some(c) && is_fresh_with(c, stream)
            &&& final(slab)@.slots == old(slab)@.slots.update(id as int, final(slab)@.slots[id as int])
            &&& final(slab)@.free == old(slab)@.free.drop_last()
            &&& final(metrics)@ == (CollectorV { total_conns: inc(old(metrics)@.total_conns), ..old(metrics)@ })
        }),
{
    proof { slab.lemma_wf(); }
    let conn = ConnState::new(stream);
    match slab.insert(conn) {
        Some(id) => {
            metrics.inc_total_conns();
            Some(id)
        },
        None => None,
    }
}

/// The parse stage for an executor: one connection at a time.
pub struct ParseStageMulti {
    parser: HttpParser,
}

impl ParseStageMulti {
    /// The stage's HTTP parser.
    pub closed spec fn parser(&self) -> HttpParser {
        self.parser
    }

    /// The parse stage, with a fresh parser.
    pub fn new() -> (s: Self)
        ensures
            s.parser().wanted() == 16,
    {
        ParseStageMulti { parser: HttpParser::new() }
    }

    /// The stage's name in the metrics.
    pub fn name(&self) -> (n: &'static str)
        ensures
            n@ == name_parse(),
    {
        "parse"
    }

    /// Parses what connection `id` has read, once the caller has read it: a
    /// request is kept on the connection, which goes on to routing (its id is
    /// returned); an incomplete one returns `None`; anything else closes the
    /// connection and counts a parse error. An empty slot returns `None`.
    pub fn process_one<S>(&mut self, id: ConnId, slab: &mut ConnSlab<S>, metrics: &mut MetricsCollector)
        -> (res: Option<ConnId>)
        ensures
            final(slab).wf() == old(slab).wf(),
            ({
                let p = parse_finish(
                    PipeV { input: Seq::empty(), output: Seq::empty(), slab: old(slab)@, metrics: old(metrics)@ },
                    0,
                    0,
                    id.0,
                );
                &&& final(slab)@ == p.slab
                &&& res == if occupied(old(slab)@, id.0) && parse_spec(conn_at(old(slab)@, id.0).read_buf) is Done {
                    Some(id)
                } else {
                    None
                }
                &&& final(metrics)@ == if occupied(old(slab)@, id.0) && !(parse_spec(
                    conn_at(old(slab)@, id.0).read_buf,
                ) is Done) && !(parse_spec(conn_at(old(slab)@, id.0).read_buf) is Incomplete) {
                    update_named(old(metrics)@, name_parse(), StageUpdate::Error)
                } else {
                    old(metrics)@
                }
            }),
    {
        match parse_conn(&mut self.parser, slab, id) {
            Some(ParseOutcome::Parsed) => Some(id),
            Some(ParseOutcome::Incomplete) => None,
            Some(ParseOutcome::Failed) => {
                metrics.inc_stage_errors("parse");
                proof { reveal_strlit("parse"); }
                None
            },
            None => None,
        }
    }
}

impl Default for ParseStageMulti {
    /// The parse stage.
    fn default() -> (s: Self) {
        ParseStageMulti::new()
    }
}

/// The route stage for an executor.
pub struct RouteStageMulti;

impl RouteStageMulti {
    /// The route stage.
    pub fn new() -> (s: Self) {
        RouteStageMulti
    }

    /// The stage's name in the metrics.
    pub fn name(&self) -> (n: &'static str)
        ensures
            n@ == name_route(),
    {
        "route"
    }

    /// Routes connection `id` (see `routed`) and returns its id; an empty slot returns `None`.
    pub fn process_one<S>(&mut self, id: ConnId, slab: &mut ConnSlab<S>) -> (res: Option<ConnId>)
        ensures
            final(slab).wf() == old(slab).wf(),
            res == if occupied(old(slab)@, id.0) { Some(id) } else { None },
            final(slab)@ == if occupied(old(slab)@, id.0) {
                with_conn(old(slab)@, id.0, routed(conn_at(old(slab)@, id.0)))
            } else {
                old(slab)@
            },
    {
        if route_conn(slab, id) { Some(id) } else { None }
    }
}

impl Default for RouteStageMulti {
    /// The route stage.
    fn default() -> (s: Self) {
        RouteStageMulti::new()
    }
}

/// The app stage for an executor.
pub struct AppStageMulti;

impl AppStageMulti {
    /// The app stage.
    pub fn new() -> (s: Self) {
        AppStageMulti
    }

    /// The stage's name in the metrics.
    pub fn name(&self) -> (n: &'static str)
        ensures
            n@ == name_app(),
    {
        "app"
    }

    /// Serves connection `id` (see `served`), counts one more request and returns
    /// its id; an empty slot returns `None`.
    pub fn process_one<S>(&mut self, id: ConnId, slab: &mut ConnSlab<S>, metrics: &mut MetricsCollector)
        -> (res: Option<ConnId>)
        ensures
            final(slab).wf() == old(slab).wf(),
            res == if occupied(old(slab)@, id.0) { Some(id) } else { None },
            final(slab)@ == if occupied(old(slab)@, id.0) {
                with_conn(old(slab)@, id.0, served(conn_at(old(slab)@, id.0)))
            } else {
                old(slab)@
            },
            final(metrics)@ == if occupied(old(slab)@, id.0) {
                CollectorV { total_requests: inc(old(metrics)@.total_requests), ..old(metrics)@ }
            } else {
                old(metrics)@
            },
    {
        if serve_conn(slab, id) {
            metrics.inc_total_requests();
            Some(id)
        } else {
            None
        }
    }
}

impl Default for AppStageMulti {
    /// The app stage.
    fn default() -> (s: Self) {
        AppStageMulti::new()
    }
}

/// The encode stage for an executor: a pass-through.
pub struct EncodeStageMulti;

impl EncodeStageMulti {
    /// The encode stage.
    pub fn new() -> (s: Self) {
        EncodeStageMulti
    }

    /// The stage's name in the metrics.
    pub fn name(&self) -> (n: &'static str)
        ensures
            n@ == "encode"@,
    {
        "encode"
    }

    /// Passes the id on.
    pub fn process_one(&mut self, id: ConnId) -> (res: Option<ConnId>)
        ensures
            res == Some(id),
    {
        Some(id)
    }
}

impl Default for EncodeStageMulti {
    /// The encode stage.
    fn default() -> (s: Self) {
        EncodeStageMulti::new()
    }
}

/// The net_out stage for an executor.
pub struct NetOutStageMulti;

impl NetOutStageMulti {
    /// The net_out stage.
    pub fn new() -> (s: Self) {
        NetOutStageMulti
    }

    /// The stage's name in the metrics.
    pub fn name(&self) -> (n: &'static str)
        ensures
            n@ == name_net_out(),
    {
        "net_out"
    }

    /// Settles connection `id` after the caller's write; nothing goes on. A fully
    /// sent response, or a failed write, closes and frees the connection (one
    /// connection fewer; a failure also counts a net_out error); a partly sent one
    /// just records the bytes sent; without a stream nothing changes.
    pub fn process_one<S>(&mut self, id: ConnId, outcome: WriteOutcome, slab: &mut ConnSlab<S>,
        metrics: &mut MetricsCollector) -> (res: Option<ConnId>)
        requires
            old(slab).wf(),
            outcome matches WriteOutcome::Written(n) ==> (occupied(old(slab)@, id.0)
                ==> conn_at(old(slab)@, id.0).bytes_written + n <= usize::MAX),
        ensures
            res is None,
            final(slab).wf(),
            (final(slab)@, final(metrics)@) == net_out_one(old(slab)@, old(metrics)@, id.0, outcome),
    {
        let ghost s0 = slab@;
        proof { slab.lemma_wf(); }
        let fully = match slab.get_mut(id) {
            None => return None,
            Some(conn) => match outcome {
                WriteOutcome::Written(n) => {
                    conn.bytes_written = conn.bytes_written + n;
                    let len = bm_len(&conn.write_buf);
                    if conn.bytes_written >= len {
                        conn.state = ConnLifecycle::Closed;
                        true
                    } else {
                        false
                    }
                },
                WriteOutcome::Failed => {
                    conn.state = ConnLifecycle::Closed;
                    true
                },
                WriteOutcome::NoStream => false,
            },
        };
        if fully {
            metrics.dec_total_conns();
            if outcome == WriteOutcome::Failed {
                metrics.inc_stage_errors("net_out");
                proof { reveal_strlit("net_out"); }
            }
            slab.remove(id);
            assert(slab@.slots =~= removed(s0, id.0).slots);
        } else if outcome == WriteOutcome::NoStream {
            assert(slab@.slots =~= s0.slots);
        }
        None
    }
}

impl Default for NetOutStageMulti {
    /// The net_out stage.
    fn default() -> (s: Self) {
        NetOutStageMulti::new()
    }
}

/// What the executor form of net_out does to the slab and metrics (see
/// `NetOutStageMulti::process_one`).
pub open spec fn net_out_one<S>(slab: SlabV<S>, m: CollectorV, id: usize, outcome: WriteOutcome) -> (SlabV<S>, CollectorV) {
    if !occupied(slab, id) {
        (slab, m)
    } else {
        let c = conn_at(slab, id);
        let m1 = CollectorV { total_conns: dec(m.total_conns), ..m };
        match outcome {
            WriteOutcome::Written(n) => if c.bytes_written + n >= c.write_buf.len() {
                (removed(slab, id), m1)
            } else {
                (with_conn(slab, id, ConnV { bytes_written: (c.bytes_written + n) as usize, ..c }), m)
            },
            WriteOutcome::Failed => (removed(slab, id), update_named(m1, name_net_out(), StageUpdate::Error)),
            WriteOutcome::NoStream => (slab, m),
        }
    }
}

/// Routing answers each request by its path: "/" is route 0 and is answered
/// with the landing page, "/api/test" is route 1 and is answered with the JSON
/// status, and any other path, or none, is route 999 and is answered with 404.
/// The response is appended to what the connection had to send.
pub proof fn law_routes_answer_by_path<S>(c: ConnV<S>)
    ensures
        c.request_path == Some("/"@) ==> routed(c).route_id == Some(RouteId(0))
            && served(routed(c)).write_buf == c.write_buf + response_bytes(hello_response()),
        c.request_path == Some("/api/test"@) ==> routed(c).route_id == Some(RouteId(1))
            && served(routed(c)).write_buf == c.write_buf + response_bytes(json_response(API_BODY)),
        c.request_path != Some("/"@) && c.request_path != Some("/api/test"@) ==>
            routed(c).route_id == Some(RouteId(999))
            && served(routed(c)).write_buf == c.write_buf + response_bytes(not_found_response()),
{
    reveal_strlit("/");
    reveal_strlit("/api/test");
    assert("/"@ != "/api/test"@) by {
        assert("/"@.len() != "/api/test"@.len());
    }
}

} // verus!
