//! The decisions of the concurrency pipeline, free of I/O: what the
//! protocol task does with each raw chunk, and what the engine task does
//! with each event. The surrounding tasks only move messages.

use vstd::prelude::*;

use crate::device::{
    apply_rel, box_inv, st_active, st_progress, tick_changed, tick_rel, TestBox, TestBoxState,
    SELF_TEST_STEP_MS,
};
use crate::framing::{frame_feed, FrameDecoder};
use crate::protocol::{spec_decode, spec_encode, Request, Response};

verus! {

/// What one completed candidate line asks of the pipeline: forward the
/// decoded request to the engine, or reply at once with an encoded
/// protocol-error response.
pub enum LineOutcome {
    Forward(Request),
    Reply(Vec<u8>),
}

/// The outcome one candidate line yields.
pub open spec fn spec_line_outcome(line: Seq<u8>, out: LineOutcome) -> bool {
    match spec_decode(line) {
        Ok(req) => out matches LineOutcome::Forward(r) && r == req,
        Err(e) => out matches LineOutcome::Reply(b) && b@ == spec_encode(Response::Error(e)),
    }
}

/// Runs one raw chunk through the framer and the codec: every candidate
/// line completed by the chunk becomes, in order, a forwarded request or
/// an immediate error reply.
pub fn handle_chunk(dec: &mut FrameDecoder, chunk: &[u8]) -> (outs: Vec<LineOutcome>)
    requires
        old(dec).wf(),
    ensures
        final(dec).wf(),
        final(dec).capacity() == old(dec).capacity(),
        final(dec).buffer() == frame_feed(old(dec).buffer(), chunk@, old(dec).capacity()).1,
        outs@.len() == frame_feed(old(dec).buffer(), chunk@, old(dec).capacity()).0.len(),
        forall|i: int| 0 <= i < outs@.len() ==> spec_line_outcome(
            frame_feed(old(dec).buffer(), chunk@, old(dec).capacity()).0[i],
            outs@[i],
        ),
{
    let lines = dec.feed(chunk);
    let ghost line_seqs = frame_feed(old(dec).buffer(), chunk@, old(dec).capacity()).0;
    let mut outs: Vec<LineOutcome> = Vec::new();
    let n = lines.len();
    let mut i: usize = 0;
    while i < n
        invariant
            0 <= i <= n,
            n == lines@.len(),
            line_seqs == lines@.map_values(|l: Vec<u8>| l@),
            outs@.len() == i,
            forall|j: int| 0 <= j < i ==> spec_line_outcome(line_seqs[j], outs@[j]),
        decreases n - i,
    {
        let line = &lines[i];
        let out = match Request::decode(line.as_slice()) {
            Ok(req) => LineOutcome::Forward(req),
            Err(e) => LineOutcome::Reply(Response::Error(e).encode()),
        };
        outs.push(out);
        i += 1;
        proof {
            assert(line_seqs[i - 1] == lines@[i - 1]@);
        }
    }
    outs
}

/// An event the engine task reacts to: the periodic timer, or one
/// decoded client request.
pub enum EngineEvent {
    TimerTick,
    ClientRequest(Request),
}

/// What the engine task hands back for one event: at most one response
/// for the client, and a fresh snapshot whenever the state may have
/// changed.
pub struct EngineOutput {
    pub response: Option<Response>,
    pub snapshot: Option<TestBoxState>,
}

/// Handles one engine event, the only place device state changes: a
/// timer tick advances the simulation and publishes a snapshot only when
/// something changed; a client request is applied, answered, and always
/// followed by a snapshot.
pub fn engine_step(tbox: &mut TestBox, event: EngineEvent, now: u64) -> (out: EngineOutput)
    requires
        box_inv(old(tbox)@),
        now <= u64::MAX - SELF_TEST_STEP_MS,
    ensures
        box_inv(final(tbox)@),
        match event {
            EngineEvent::TimerTick => {
                &&& out.response is None
                &&& (out.snapshot is Some <==> tick_changed(old(tbox)@, now as int))
                &&& tick_rel(old(tbox)@, now as int, final(tbox)@)
            },
            EngineEvent::ClientRequest(req) => {
                &&& out.snapshot is Some
                &&& out.response matches Some(resp) && apply_rel(
                    old(tbox)@,
                    req,
                    now as int,
                    final(tbox)@,
                    resp,
                )
            },
        },
        out.snapshot matches Some(s) ==> s.red_led.value as int == final(tbox)@.red.value
            && s.yellow_led.value as int == final(tbox)@.yellow.value && s.green_led.value as int
            == final(tbox)@.green.value && s.servo.value as int == final(tbox)@.servo.value
            && s.sensor.status@ == final(tbox)@.sensor.status && s.sensor.temperature as int
            == final(tbox)@.sensor.temp && s.sensor.humidity as int == final(tbox)@.sensor.hum
            && s.self_test.active == st_active(final(tbox)@) && s.self_test.progress as int
            == st_progress(final(tbox)@),
{
    match event {
        EngineEvent::TimerTick => {
            let changed = tbox.tick(now);
            let snapshot = if changed {
                Some(tbox.get())
            } else {
                None
            };
            EngineOutput { response: None, snapshot }
        },
        EngineEvent::ClientRequest(req) => {
            let resp = tbox.apply(req, now);
            let snap = tbox.get();
            EngineOutput { response: Some(resp), snapshot: Some(snap) }
        },
    }
}

} // verus!
