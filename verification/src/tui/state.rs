//! What is on the screen at the moment. Nothing of it is kept.
use vstd::prelude::*;
use std::collections::HashMap;
use crate::namemap::NameMap;
use crate::retry::Duration;
use crate::text::chars::{byte_len, copy_texts, lemma_views_push, utf8_len, views};
use crate::text::pieces::{pieces, split_at_class, without_return, CharClass};

verus! {

broadcast use vstd::std_specs::hash::group_hash_axioms;

/// How many characters are collected before they are shown without a line
/// feed.
pub const LIVE_FLUSH_CHARS: usize = 80;

/// An answer as it arrives: whether something of it was shown, whether its
/// heading was, what has not been shown yet, and how many bytes have come.
pub struct LiveAnswer {
    pub streamed: bool,
    pub header_shown: bool,
    pub buffer: String,
    pub next_offset: usize,
}

#[verifier::ext_equal]
pub struct LiveView {
    pub streamed: bool,
    pub header_shown: bool,
    pub buffer: Seq<char>,
    pub next_offset: usize,
}

impl View for LiveAnswer {
    type V = LiveView;

    open spec fn view(&self) -> LiveView {
        LiveView {
            streamed: self.streamed,
            header_shown: self.header_shown,
            buffer: self.buffer@,
            next_offset: self.next_offset,
        }
    }
}

pub open spec fn no_answer() -> LiveView {
    LiveView { streamed: false, header_shown: false, buffer: Seq::empty(), next_offset: 0 }
}

/// The complete lines of a text, each without a carriage return at its end.
pub open spec fn complete_lines(text: Seq<char>) -> Seq<Seq<char>> {
    pieces(text, CharClass::Only('\n')).drop_last().map_values(
        |p: Seq<char>| without_return(p),
    )
}

/// What follows the last line feed of a text.
pub open spec fn last_line(text: Seq<char>) -> Seq<char> {
    pieces(text, CharClass::Only('\n')).last()
}

impl LiveView {
    /// Whether what follows the last line feed is shown too.
    pub open spec fn shows_rest(self, force: bool) -> bool {
        let rest = last_line(self.buffer);
        rest.len() > 0 && (force || rest.len() >= LIVE_FLUSH_CHARS)
    }

    /// The lines that are due.
    pub open spec fn due(self, force: bool) -> Seq<Seq<char>> {
        if self.shows_rest(force) {
            complete_lines(self.buffer).push(last_line(self.buffer))
        } else {
            complete_lines(self.buffer)
        }
    }

    /// The answer after what is due was shown.
    pub open spec fn flush(self, force: bool) -> LiveView {
        let any = self.due(force).len() > 0;
        LiveView {
            streamed: self.streamed || any,
            header_shown: self.header_shown || any,
            buffer: if self.shows_rest(force) {
                Seq::empty()
            } else {
                last_line(self.buffer)
            },
            next_offset: self.next_offset,
        }
    }

    /// The lines that are shown: those that are due, behind a heading where
    /// it was not shown yet.
    pub open spec fn shown(self, force: bool) -> Seq<Seq<char>> {
        let due = self.due(force);
        if due.len() == 0 || self.header_shown {
            due
        } else {
            seq!["Asteria"@] + due
        }
    }

    /// Whether a part of the answer counts: it is not empty, and not one that
    /// has come before.
    pub open spec fn counts(self, delta: Seq<char>, offset: usize) -> bool {
        delta.len() > 0 && offset >= self.next_offset
    }

    /// The answer with a part added, before anything of it is shown.
    pub open spec fn extended(self, delta: Seq<char>, offset: usize) -> LiveView {
        LiveView {
            next_offset: offset.saturating_add(byte_len(delta) as usize),
            buffer: self.buffer + delta,
            ..self
        }
    }

    /// The answer before another generation.
    pub open spec fn restarted(self) -> LiveView {
        LiveView { header_shown: false, buffer: Seq::empty(), next_offset: 0, ..self }
    }
}

impl LiveAnswer {
    /// No answer.
    pub fn new() -> (r: LiveAnswer)
        ensures
            r@ == no_answer(),
    {
        let r = LiveAnswer {
            streamed: false,
            header_shown: false,
            buffer: String::new(),
            next_offset: 0,
        };
        assert(r@.buffer =~= Seq::empty());
        r
    }

    /// Forgets the answer.
    pub fn reset(&mut self)
        ensures
            final(self)@ == no_answer(),
    {
        *self = LiveAnswer::new();
    }

    /// Prepares for another generation, which gets its own heading.
    pub fn begin_generation(&mut self)
        ensures
            final(self)@ == old(self)@.restarted(),
    {
        self.header_shown = false;
        self.buffer = String::new();
        self.next_offset = 0;
        assert(self.buffer@ =~= Seq::empty());
    }

    /// Adds a part of the answer, and returns the lines to be shown.
    pub fn append(&mut self, delta: &str, offset: usize) -> (r: Vec<String>)
        ensures
            if old(self)@.counts(delta@, offset) {
                final(self)@ == old(self)@.extended(delta@, offset).flush(false) && views(r@)
                    == old(self)@.extended(delta@, offset).shown(false)
            } else {
                final(self)@ == old(self)@ && r@.len() == 0
            },
    {
        if delta.unicode_len() == 0 || offset < self.next_offset {
            return Vec::new();
        }
        self.next_offset = offset.saturating_add(utf8_len(delta));
        self.buffer.append(delta);
        self.flush(false)
    }

    /// Returns the lines to be shown: the complete ones and, where it is
    /// forced or long enough, what follows them.
    pub fn flush(&mut self, force: bool) -> (r: Vec<String>)
        ensures
            final(self)@ == old(self)@.flush(force),
            views(r@) == old(self)@.shown(force),
    {
        let ghost start = self@;
        let parts = split_at_class(&self.buffer, CharClass::Only('\n'));
        let ghost all = views(parts@);
        let ghost f = |p: Seq<char>| without_return(p);
        let last: usize = parts.len() - 1;
        let mut due: Vec<String> = Vec::new();
        assert(views(due@) =~= all.take(0).map_values(f));
        for i in 0..last
            invariant
                last == parts@.len() - 1,
                all == views(parts@),
                f == (|p: Seq<char>| without_return(p)),
                self@ == start,
                views(due@) == all.take(i as int).map_values(f),
        {
            let line = strip_return(&parts[i]);
            proof {
                lemma_views_push(due@, line);
                assert(all.take(i + 1).map_values(f) =~= all.take(i as int).map_values(f).push(
                    line@,
                ));
            }
            due.push(line);
        }
        proof {
            assert(all.take(last as int) =~= all.drop_last());
            assert(all.last() == parts@[last as int]@);
        }
        let rest = parts[last].clone();
        let length: usize = rest.as_str().unicode_len();
        if length > 0 && (force || length >= LIVE_FLUSH_CHARS) {
            proof {
                lemma_views_push(due@, rest);
            }
            due.push(rest);
            self.buffer = String::new();
            assert(self.buffer@ =~= Seq::empty());
        } else {
            self.buffer = rest;
        }
        assert(views(due@) == start.due(force));
        assert(views(due@).len() == due@.len());
        if due.len() == 0 {
            return due;
        }
        self.streamed = true;
        if self.header_shown {
            return due;
        }
        self.header_shown = true;
        let mut lines: Vec<String> = Vec::new();
        lines.push("Asteria".to_owned());
        let ghost content = views(due@);
        let mut more = copy_texts(&due);
        assert(views(lines@ + more@) =~= seq!["Asteria"@] + views(more@));
        lines.append(&mut more);
        lines
    }
}

fn strip_return(line: &str) -> (r: String)
    ensures
        r@ == without_return(line@),
{
    let c = crate::text::chars::chars_of(line);
    let n: usize = c.len();
    if n > 0 && c[n - 1] == '\r' {
        let r = crate::text::chars::text_between(&c, 0, n - 1);
        assert(r@ =~= line@.drop_last());
        r
    } else {
        line.to_owned()
    }
}

/// A forced flush leaves nothing unshown.
pub proof fn law_forced_flush_leaves_nothing(l: LiveView)
    ensures
        l.flush(true).buffer.len() == 0,
{
}

/// What is on the screen at the moment.
pub struct TuiState {
    pub verbose: bool,
    pub tool_names: NameMap,
    pub live: LiveAnswer,
    pub started: HashMap<u64, u128>,
    pub elapsed: HashMap<u64, u128>,
}

#[verifier::ext_equal]
pub struct TuiView {
    pub verbose: bool,
    pub tool_names: Map<Seq<char>, Seq<char>>,
    pub live: LiveView,
    /// When turns began, in nanoseconds of some clock.
    pub started: Map<u64, u128>,
    /// How long turns took.
    pub elapsed: Map<u64, u128>,
}

impl View for TuiState {
    type V = TuiView;

    open spec fn view(&self) -> TuiView {
        TuiView {
            verbose: self.verbose,
            tool_names: self.tool_names@,
            live: self.live@,
            started: self.started@,
            elapsed: self.elapsed@,
        }
    }
}

pub open spec fn empty_screen() -> TuiView {
    TuiView {
        verbose: false,
        tool_names: Map::empty(),
        live: no_answer(),
        started: Map::empty(),
        elapsed: Map::empty(),
    }
}

impl TuiView {
    pub open spec fn begin(self, turn_id: u64, now: u128) -> TuiView {
        TuiView { live: no_answer(), started: self.started.insert(turn_id, now), ..self }
    }

    pub open spec fn complete(self, turn_id: u64, now: u128) -> TuiView {
        TuiView {
            tool_names: Map::empty(),
            started: self.started.remove(turn_id),
            elapsed: if self.started.contains_key(turn_id) {
                self.elapsed.insert(turn_id, now.saturating_sub(self.started[turn_id]))
            } else {
                self.elapsed
            },
            ..self
        }
    }

    pub open spec fn clear(self, turn_id: u64) -> TuiView {
        TuiView {
            tool_names: Map::empty(),
            started: self.started.remove(turn_id),
            ..self
        }
    }
}

impl TuiState {
    /// An empty screen.
    pub fn new() -> (r: TuiState)
        ensures
            r@ == empty_screen(),
    {
        let r = TuiState {
            verbose: false,
            tool_names: NameMap::new(),
            live: LiveAnswer::new(),
            started: HashMap::new(),
            elapsed: HashMap::new(),
        };
        assert(r@ =~= empty_screen());
        r
    }

    /// A turn begins now.
    pub fn begin_turn(&mut self, turn_id: u64, now: u128)
        ensures
            final(self)@ == old(self)@.begin(turn_id, now),
    {
        self.live.reset();
        self.started.insert(turn_id, now);
    }

    /// A turn is complete now.
    pub fn complete_turn(&mut self, turn_id: u64, now: u128)
        ensures
            final(self)@ == old(self)@.complete(turn_id, now),
    {
        match self.started.remove(&turn_id) {
            Some(began) => {
                self.elapsed.insert(turn_id, now.saturating_sub(began));
            },
            None => {
                assert(self.started@ =~= old(self).started@.remove(turn_id));
            },
        }
        self.tool_names.clear();
    }

    /// How long a complete turn took; asked for once.
    pub fn take_elapsed(&mut self, turn_id: u64) -> (r: Option<Duration>)
        ensures
            final(self)@ == (TuiView { elapsed: old(self)@.elapsed.remove(turn_id), ..old(self)@ }),
            r == if old(self)@.elapsed.contains_key(turn_id) {
                Some(Duration { nanos: old(self)@.elapsed[turn_id] })
            } else {
                None
            },
    {
        match self.elapsed.remove(&turn_id) {
            Some(n) => Some(Duration { nanos: n }),
            None => {
                assert(self.elapsed@ =~= old(self).elapsed@.remove(turn_id));
                None
            },
        }
    }

    /// Whether something of the answer was shown; asked for once.
    pub fn take_answer_streamed(&mut self) -> (r: bool)
        ensures
            r == old(self)@.live.streamed,
            final(self)@ == (TuiView {
                live: LiveView { streamed: false, ..old(self)@.live },
                ..old(self)@
            }),
    {
        let r = self.live.streamed;
        self.live.streamed = false;
        r
    }

    /// A turn has ended without an answer.
    pub fn clear_turn(&mut self, turn_id: u64)
        ensures
            final(self)@ == old(self)@.clear(turn_id),
    {
        let _began = self.started.remove(&turn_id);
        self.tool_names.clear();
        assert(self.started@ =~= old(self).started@.remove(turn_id));
    }
}

/// An empty screen.
pub fn new_state() -> (r: TuiState)
    ensures
        r@ == empty_screen(),
{
    TuiState::new()
}

/// Switches details on or off, and returns what is said of it.
pub fn set_verbose(state: &mut TuiState, enabled: bool) -> (r: String)
    ensures
        final(state)@ == (TuiView { verbose: enabled, ..old(state)@ }),
        r@ == "[界面] 详细事件输出已"@ + (if enabled {
            "开启"@
        } else {
            "关闭"@
        }) + "。"@,
{
    state.verbose = enabled;
    let mut t = "[界面] 详细事件输出已".to_owned();
    t.append(
        if enabled {
            "开启"
        } else {
            "关闭"
        },
    );
    t.append("。");
    t
}

/// Whether details are shown.
pub fn is_verbose(state: &TuiState) -> (r: bool)
    ensures
        r == state@.verbose,
{
    state.verbose
}

/// How long a complete turn took; asked for once.
pub fn take_turn_elapsed(state: &mut TuiState, turn_id: u64) -> (r: Option<Duration>)
    ensures
        final(state)@ == (TuiView { elapsed: old(state)@.elapsed.remove(turn_id), ..old(state)@ }),
        r == if old(state)@.elapsed.contains_key(turn_id) {
            Some(Duration { nanos: old(state)@.elapsed[turn_id] })
        } else {
            None
        },
{
    state.take_elapsed(turn_id)
}

/// Whether something of the answer was shown; asked for once.
pub fn take_answer_streamed(state: &mut TuiState) -> (r: bool)
    ensures
        r == old(state)@.live.streamed,
        final(state)@ == (TuiView {
            live: LiveView { streamed: false, ..old(state)@.live },
            ..old(state)@
        }),
{
    state.take_answer_streamed()
}

} // verus!
