//! Events reduced to what the user sees of them.
use vstd::prelude::*;
use crate::events::AgentEvent;
use crate::text::chars::{lemma_views_push, views};
use crate::tui::render::{compact_retry, compact_tool_result, event_text, result_line, retry_line, verbose_event};
use crate::tui::state::{TuiState, TuiView};

verus! {

impl TuiView {
    /// The screen after what is left of the answer was shown.
    pub open spec fn flushed(self) -> TuiView {
        TuiView { live: self.live.flush(true), ..self }
    }

    /// The screen and the lines after an event, as far as the answer is
    /// concerned.
    pub open spec fn track(self, e: AgentEvent, now: u128) -> (TuiView, Seq<Seq<char>>) {
        match e {
            AgentEvent::TurnStarted { turn_id, .. } => (self.begin(turn_id, now), Seq::empty()),
            AgentEvent::AssistantDelta { delta, offset, .. } => if self.live.counts(
                delta@,
                offset,
            ) {
                (
                    TuiView { live: self.live.extended(delta@, offset).flush(false), ..self },
                    self.live.extended(delta@, offset).shown(false),
                )
            } else {
                (self, Seq::empty())
            },
            AgentEvent::ToolCallStarted { call_id, name, .. } => (
                TuiView {
                    live: self.live.flush(true).restarted(),
                    tool_names: self.tool_names.insert(call_id@, name@),
                    ..self
                },
                self.live.shown(true),
            ),
            AgentEvent::StepCompleted { .. } => (self.flushed(), self.live.shown(true)),
            AgentEvent::StepRetrying { .. } => (
                TuiView { live: self.live.flush(true).restarted(), ..self },
                self.live.shown(true),
            ),
            AgentEvent::TurnCompleted { turn_id, .. } => (
                self.flushed().complete(turn_id, now),
                self.live.shown(true),
            ),
            AgentEvent::TurnCancelled { turn_id } => (
                self.flushed().clear(turn_id),
                self.live.shown(true),
            ),
            AgentEvent::TurnFailed { turn_id, .. } => (
                self.flushed().clear(turn_id),
                self.live.shown(true),
            ),
            _ => (self, Seq::empty()),
        }
    }

    /// The screen and the lines after an event. With details, every event but
    /// the parts of an answer has its own line; without, only the ends of
    /// tools and retries have.
    pub open spec fn reduce(self, e: AgentEvent, now: u128, seconds: Seq<char>) -> (
        TuiView,
        Seq<Seq<char>>,
    ) {
        let (s, lines) = self.track(e, now);
        if s.verbose && !(e is AssistantDelta) {
            (s, lines.push(event_text(e)))
        } else {
            match e {
                AgentEvent::ToolResult { call_id, is_error, duration_ms, .. } => {
                    let name = if s.tool_names.contains_key(call_id@) {
                        s.tool_names[call_id@]
                    } else {
                        "unknown_tool"@
                    };
                    (
                        TuiView { tool_names: s.tool_names.remove(call_id@), ..s },
                        lines.push(result_line(name, is_error, duration_ms, seconds)),
                    )
                },
                AgentEvent::StepRetrying { step, next_attempt, max_attempts, delay_ms, .. } => (
                    s,
                    lines.push(retry_line(step, next_attempt, max_attempts, delay_ms, seconds)),
                ),
                _ => (s, lines),
            }
        }
    }
}

fn track(state: &mut TuiState, event: &AgentEvent, now: u128) -> (r: Vec<String>)
    ensures
        (final(state)@, views(r@)) == old(state)@.track(*event, now),
{
    let none: Vec<String> = Vec::new();
    assert(views(none@) =~= Seq::empty());
    match event {
        AgentEvent::TurnStarted { turn_id, input: _ } => {
            state.begin_turn(*turn_id, now);
            none
        },
        AgentEvent::AssistantDelta { turn_id: _, step: _, delta, offset } => {
            let lines = state.live.append(delta, *offset);
            if lines.len() == 0 {
                assert(views(lines@) =~= Seq::empty());
            }
            lines
        },
        AgentEvent::ToolCallStarted { turn_id: _, call_id, name } => {
            let lines = state.live.flush(true);
            state.live.begin_generation();
            state.tool_names.insert(call_id.clone(), name.clone());
            lines
        },
        AgentEvent::StepCompleted { turn_id: _, step: _, usage: _ } => state.live.flush(true),
        AgentEvent::StepRetrying {
            turn_id: _,
            step: _,
            failed_attempt: _,
            next_attempt: _,
            max_attempts: _,
            delay_ms: _,
        } => {
            let lines = state.live.flush(true);
            state.live.begin_generation();
            lines
        },
        AgentEvent::TurnCompleted { turn_id, steps: _ } => {
            let lines = state.live.flush(true);
            state.complete_turn(*turn_id, now);
            lines
        },
        AgentEvent::TurnCancelled { turn_id } => {
            let lines = state.live.flush(true);
            state.clear_turn(*turn_id);
            lines
        },
        AgentEvent::TurnFailed { turn_id, message: _ } => {
            let lines = state.live.flush(true);
            state.clear_turn(*turn_id);
            lines
        },
        _ => none,
    }
}

/// The lines to be shown after an event that happens now. `seconds` is the
/// span of the event in seconds with one decimal, where it has one.
pub fn reduce(state: &mut TuiState, event: &AgentEvent, now: u128, seconds: &str) -> (r: Vec<String>)
    ensures
        (final(state)@, views(r@)) == old(state)@.reduce(*event, now, seconds@),
{
    let mut lines = track(state, event, now);
    let is_delta = event.is_volatile();
    if state.verbose && !is_delta {
        let line = verbose_event(event);
        proof {
            lemma_views_push(lines@, line);
        }
        lines.push(line);
        return lines;
    }
    match event {
        AgentEvent::ToolResult { turn_id: _, call_id, is_error, duration_ms } => {
            let name = match state.tool_names.remove(call_id) {
                Some(n) => n,
                None => "unknown_tool".to_owned(),
            };
            let line = compact_tool_result(&name, *is_error, *duration_ms, seconds);
            proof {
                lemma_views_push(lines@, line);
            }
            lines.push(line);
        },
        AgentEvent::StepRetrying {
            turn_id: _,
            step,
            failed_attempt: _,
            next_attempt,
            max_attempts,
            delay_ms,
        } => {
            let line = compact_retry(*step, *next_attempt, *max_attempts, *delay_ms, seconds);
            proof {
                lemma_views_push(lines@, line);
            }
            lines.push(line);
        },
        _ => {},
    }
    lines
}

} // verus!
