//! The mirror painter's discrete bookkeeping: the ghost writer that types,
//! holds and deletes its lines, and the painter's reaction to commands from
//! the game. Animation time, blink phase, glitch strength and the writer's
//! typing cadence are floating-point and belong to the application, which
//! asks these functions what to do and applies the timing they call for.

use vstd::prelude::*;
use std::collections::VecDeque;
use crate::mirror::{Act, strings_view, watching_script, watching_script_spec, rush_script, rush_script_spec,
    goodbye_message, goodbye_message_spec, echo_terminal_char, ECHO_MAX};
use crate::text::{char_prefix, prefix_spec, pop_char};

verus! {

/// What the ghost writer is doing.
#[derive(Clone, Copy, Debug, PartialEq, Eq, Structural)]
pub enum WriterMode {
    Sleeping,
    Typing,
    Holding,
    Deleting,
}

/// Types its queued lines one character at a time, holds each, then deletes
/// it; a message set to be held forever is never deleted.
pub struct GhostWriter {
    pub mode: WriterMode,
    /// Lines still to type, the next one first.
    pub script: VecDeque<String>,
    pub current: String,
    /// How many characters of `current` are on screen.
    pub shown: usize,
    pub hold_forever: bool,
}

/// Two writers in the same state.
pub open spec fn writer_same(a: GhostWriter, b: GhostWriter) -> bool {
    &&& a.mode == b.mode
    &&& a.script@ == b.script@
    &&& a.current@ == b.current@
    &&& a.shown == b.shown
    &&& a.hold_forever == b.hold_forever
}

impl GhostWriter {
    /// At most the whole line is shown, and a writer holding its message
    /// forever has nothing queued and is typing or holding it.
    pub open spec fn wf(&self) -> bool {
        &&& self.shown <= self.current@.len()
        &&& self.hold_forever ==> self.script@.len() == 0
            && (self.mode == WriterMode::Typing || self.mode == WriterMode::Holding)
    }

    /// The queued lines.
    pub open spec fn queued(&self) -> Seq<Seq<char>> {
        strings_view(self.script@)
    }

    /// A sleeping writer with nothing to say.
    pub fn new() -> (r: Self)
        ensures
            r.wf(),
            r.mode == WriterMode::Sleeping,
            r.queued() == Seq::<Seq<char>>::empty(),
            r.current@ == Seq::<char>::empty(),
            r.shown == 0,
            !r.hold_forever,
    {
        let r = GhostWriter {
            mode: WriterMode::Sleeping,
            script: VecDeque::new(),
            current: String::new(),
            shown: 0,
            hold_forever: false,
        };
        assert(r.queued() =~= Seq::<Seq<char>>::empty());
        r
    }

    /// Queues `msgs` and puts the writer to sleep until the first is due;
    /// what is on screen stays until then.
    pub fn set_script(&mut self, msgs: Vec<String>)
        requires
            old(self).wf(),
        ensures
            final(self).wf(),
            final(self).queued() == strings_view(msgs@),
            final(self).mode == WriterMode::Sleeping,
            !final(self).hold_forever,
            final(self).current@ == old(self).current@,
            final(self).shown == old(self).shown,
    {
        let mut msgs = msgs;
        let mut queue: VecDeque<String> = VecDeque::new();
        let ghost all = msgs@;
        while msgs.len() > 0
            invariant
                queue@ + msgs@ == all,
            decreases msgs@.len(),
        {
            let m = msgs.remove(0);
            queue.push_back(m);
            assert(queue@ + msgs@ =~= all);
        }
        assert(queue@ =~= all);
        self.script = queue;
        self.hold_forever = false;
        self.mode = WriterMode::Sleeping;
    }

    /// Starts typing `msg` at once, to be held on screen forever.
    pub fn set_single_held(&mut self, msg: String)
        requires
            old(self).wf(),
        ensures
            final(self).wf(),
            final(self).queued() == Seq::<Seq<char>>::empty(),
            final(self).current@ == msg@,
            final(self).shown == 0,
            final(self).hold_forever,
            final(self).mode == WriterMode::Typing,
    {
        self.script = VecDeque::new();
        self.current = msg;
        self.shown = 0;
        self.hold_forever = true;
        self.mode = WriterMode::Typing;
        assert(self.queued() =~= Seq::<Seq<char>>::empty());
    }

    /// A sleeping writer's alarm went off: it takes the next queued line
    /// and starts typing it (`true`), or, with nothing queued, sleeps on
    /// (`false`). A writer that is not sleeping is left as it is.
    pub fn wake(&mut self) -> (r: bool)
        requires
            old(self).wf(),
        ensures
            final(self).wf(),
            r == (old(self).mode == WriterMode::Sleeping && old(self).queued().len() > 0),
            r ==> {
                &&& final(self).current@ == old(self).queued()[0]
                &&& final(self).queued() == old(self).queued().drop_first()
                &&& final(self).shown == 0
                &&& final(self).mode == WriterMode::Typing
                &&& final(self).hold_forever == old(self).hold_forever
            },
            !r ==> writer_same(*final(self), *old(self)),
    {
        if self.mode != WriterMode::Sleeping {
            return false;
        }
        let ghost q = self.queued();
        match self.script.pop_front() {
            Some(m) => {
                assert(self.queued() =~= q.drop_first());
                self.current = m;
                self.shown = 0;
                self.mode = WriterMode::Typing;
                true
            },
            None => false,
        }
    }

    /// The typing alarm went off: one more character appears. When that
    /// completes the line the writer starts holding it and `true` is
    /// returned. A writer that is not typing, or has typed everything, is
    /// left as it is.
    pub fn type_one(&mut self) -> (r: bool)
        requires
            old(self).wf(),
        ensures
            final(self).wf(),
            old(self).mode == WriterMode::Typing && old(self).shown < old(self).current@.len() ==> {
                &&& final(self).shown == old(self).shown + 1
                &&& r == (old(self).shown + 1 == old(self).current@.len())
                &&& final(self).mode == (if r { WriterMode::Holding } else { WriterMode::Typing })
                &&& final(self).script@ == old(self).script@
                &&& final(self).current@ == old(self).current@
                &&& final(self).hold_forever == old(self).hold_forever
            },
            !(old(self).mode == WriterMode::Typing && old(self).shown < old(self).current@.len()) ==> {
                &&& !r
                &&& writer_same(*final(self), *old(self))
            },
    {
        if self.mode == WriterMode::Typing && self.shown < self.current.as_str().unicode_len() {
            self.shown = self.shown + 1;
            if self.shown == self.current.as_str().unicode_len() {
                self.mode = WriterMode::Holding;
                true
            } else {
                false
            }
        } else {
            false
        }
    }

    /// The holding alarm went off: the line starts being deleted, unless it
    /// is to be held forever. A writer that is not holding is left as it is.
    pub fn start_deleting(&mut self)
        requires
            old(self).wf(),
        ensures
            final(self).wf(),
            old(self).mode == WriterMode::Holding && !old(self).hold_forever ==> {
                &&& final(self).mode == WriterMode::Deleting
                &&& final(self).script@ == old(self).script@
                &&& final(self).current@ == old(self).current@
                &&& final(self).shown == old(self).shown
                &&& final(self).hold_forever == old(self).hold_forever
            },
            !(old(self).mode == WriterMode::Holding && !old(self).hold_forever) ==> writer_same(*final(self), *old(self)),
    {
        if self.mode == WriterMode::Holding && !self.hold_forever {
            self.mode = WriterMode::Deleting;
        }
    }

    /// The deleting alarm went off: one character disappears. A writer
    /// that is not deleting, or shows nothing, is left as it is.
    pub fn delete_one(&mut self)
        requires
            old(self).wf(),
        ensures
            final(self).wf(),
            old(self).mode == WriterMode::Deleting && old(self).shown > 0 ==> {
                &&& final(self).shown == old(self).shown - 1
                &&& final(self).mode == old(self).mode
                &&& final(self).script@ == old(self).script@
                &&& final(self).current@ == old(self).current@
                &&& final(self).hold_forever == old(self).hold_forever
            },
            !(old(self).mode == WriterMode::Deleting && old(self).shown > 0) ==> writer_same(*final(self), *old(self)),
    {
        if self.mode == WriterMode::Deleting && self.shown > 0 {
            self.shown = self.shown - 1;
        }
    }

    /// A deleting writer that shows nothing goes back to sleep (`true`);
    /// any other is left as it is (`false`).
    pub fn settle(&mut self) -> (r: bool)
        requires
            old(self).wf(),
        ensures
            final(self).wf(),
            r == (old(self).mode == WriterMode::Deleting && old(self).shown == 0),
            r ==> {
                &&& final(self).mode == WriterMode::Sleeping
                &&& final(self).script@ == old(self).script@
                &&& final(self).current@ == old(self).current@
                &&& final(self).shown == old(self).shown
                &&& final(self).hold_forever == old(self).hold_forever
            },
            !r ==> writer_same(*final(self), *old(self)),
    {
        if self.mode == WriterMode::Deleting && self.shown == 0 {
            self.mode = WriterMode::Sleeping;
            true
        } else {
            false
        }
    }

    /// The part of the line on screen: its first `shown` characters.
    pub fn visible(&self) -> (r: String)
        requires
            self.wf(),
        ensures
            r@ == self.current@.take(self.shown as int),
            r@.len() == self.shown,
            r@.len() <= self.current@.len(),
    {
        let r = char_prefix(self.current.as_str(), self.shown);
        assert(prefix_spec(self.current@, self.shown as int) =~= self.current@.take(self.shown as int));
        r
    }

    /// Whether the writer is doing anything but sleeping.
    pub fn is_awake(&self) -> (r: bool)
        ensures
            r == (self.mode != WriterMode::Sleeping),
    {
        self.mode != WriterMode::Sleeping
    }
}

/// What is on screen is always the beginning of the current line: a prefix
/// of it, and no longer than it.
pub proof fn lemma_visible_is_prefix(w: GhostWriter)
    requires
        w.wf(),
    ensures
        w.current@.take(w.shown as int).len() <= w.current@.len(),
        w.current@.take(w.shown as int).is_prefix_of(w.current@),
{
    assert(w.current@.take(w.shown as int) =~= w.current@.subrange(0, w.shown as int));
}

/// A message held forever is never deleted: such a writer is typing or
/// holding it, the holding alarm leaves it holding, and deleting steps
/// leave it as it is.
pub proof fn lemma_held_message_stays(w: GhostWriter)
    requires
        w.wf(),
        w.hold_forever,
    ensures
        w.mode == WriterMode::Typing || w.mode == WriterMode::Holding,
        w.mode != WriterMode::Deleting,
{
}

/// Commands from the game to the painter.
pub enum PainterCmd {
    SetName(String),
    BeginTerminal,
    TerminalChar(char),
    TerminalBackspace,
    TerminalSubmitted,
    BeginWatching,
    BeginRush,
    BeginGoodbye,
}

/// What happens to the glitch strength.
#[derive(Clone, Copy, Debug, PartialEq, Eq, Structural)]
pub enum GlitchCue {
    Keep,
    /// Raise it to at least the rush's starting strength.
    AtLeastRush,
    /// Full strength.
    Full,
}

/// How the writer's alarm is reset.
#[derive(Clone, Copy, Debug, PartialEq, Eq, Structural)]
pub enum WriterAlarm {
    Keep,
    /// A new script is queued: first line after the scripted pause.
    Scripted,
    /// A held message starts after the held pause.
    Held,
}

/// The timing side of a command, carried out by the application.
#[derive(Clone, Copy, Debug, PartialEq, Eq, Structural)]
pub struct PainterAction {
    /// Restart the act's animation clock.
    pub reset_clock: bool,
    pub glitch: GlitchCue,
    pub alarm: WriterAlarm,
}

/// The painter's discrete state.
pub struct PainterState {
    pub name: String,
    pub act: Act,
    pub terminal: String,
    pub writer: GhostWriter,
}

pub open spec fn no_action() -> PainterAction {
    PainterAction { reset_clock: false, glitch: GlitchCue::Keep, alarm: WriterAlarm::Keep }
}

pub open spec fn act_action(glitch: GlitchCue, alarm: WriterAlarm) -> PainterAction {
    PainterAction { reset_clock: true, glitch, alarm }
}

/// The name, terminal echo and writer are as before.
pub open spec fn painter_keeps_text(a: &PainterState, b: &PainterState) -> bool {
    &&& a.name@ == b.name@
    &&& a.terminal@ == b.terminal@
    &&& writer_same(a.writer, b.writer)
}

/// The writer was handed a new script `lines`: it sleeps with them queued,
/// keeping what is on screen until the first is due.
pub open spec fn writer_scripted(a: GhostWriter, b: GhostWriter, lines: Seq<Seq<char>>) -> bool {
    &&& a.queued() == lines
    &&& a.mode == WriterMode::Sleeping
    &&& !a.hold_forever
    &&& a.current@ == b.current@
    &&& a.shown == b.shown
}

impl PainterState {
    /// The painter before any command: act `Boot`, name "OPERATOR".
    pub fn new() -> (r: Self)
        ensures
            r.act == Act::Boot,
            r.name@ == "OPERATOR"@,
            r.terminal@ == Seq::<char>::empty(),
            r.writer.wf(),
            r.writer.mode == WriterMode::Sleeping,
            r.writer.queued() == Seq::<Seq<char>>::empty(),
    {
        PainterState {
            name: String::from_str("OPERATOR"),
            act: Act::Boot,
            terminal: String::new(),
            writer: GhostWriter::new(),
        }
    }
}

/// Applies one command to the painter and says what the application must do
/// with the clock, the glitch and the writer's alarm.
pub fn painter_step(st: &mut PainterState, cmd: PainterCmd) -> (r: PainterAction)
    requires
        old(st).writer.wf(),
    ensures
        final(st).writer.wf(),
        cmd matches PainterCmd::SetName(n) ==> {
            &&& final(st).name@ == n@
            &&& final(st).act == old(st).act
            &&& final(st).terminal@ == old(st).terminal@
            &&& writer_same(final(st).writer, old(st).writer)
            &&& r == no_action()
        },
        cmd matches PainterCmd::BeginTerminal ==> {
            &&& final(st).act == Act::Terminal
            &&& painter_keeps_text(&*final(st), &*old(st))
            &&& r == act_action(GlitchCue::Keep, WriterAlarm::Keep)
        },
        cmd matches PainterCmd::TerminalChar(c) ==> {
            &&& final(st).terminal@ == (if old(st).terminal@.len() < ECHO_MAX { old(st).terminal@.push(c) } else { old(st).terminal@ })
            &&& final(st).act == old(st).act
            &&& final(st).name@ == old(st).name@
            &&& writer_same(final(st).writer, old(st).writer)
            &&& r == no_action()
        },
        cmd matches PainterCmd::TerminalBackspace ==> {
            &&& final(st).terminal@ == (if old(st).terminal@.len() > 0 { old(st).terminal@.drop_last() } else { old(st).terminal@ })
            &&& final(st).act == old(st).act
            &&& final(st).name@ == old(st).name@
            &&& writer_same(final(st).writer, old(st).writer)
            &&& r == no_action()
        },
        (cmd matches PainterCmd::TerminalSubmitted || cmd matches PainterCmd::BeginWatching) ==> {
            &&& final(st).act == Act::Watching
            &&& final(st).name@ == old(st).name@
            &&& final(st).terminal@ == old(st).terminal@
            &&& writer_scripted(final(st).writer, old(st).writer, watching_script_spec(old(st).name@))
            &&& r == act_action(GlitchCue::Keep, WriterAlarm::Scripted)
        },
        cmd matches PainterCmd::BeginRush ==> {
            &&& final(st).act == Act::Rush
            &&& final(st).name@ == old(st).name@
            &&& final(st).terminal@ == old(st).terminal@
            &&& writer_scripted(final(st).writer, old(st).writer, rush_script_spec())
            &&& r == act_action(GlitchCue::AtLeastRush, WriterAlarm::Scripted)
        },
        cmd matches PainterCmd::BeginGoodbye ==> {
            &&& final(st).act == Act::Goodbye
            &&& final(st).name@ == old(st).name@
            &&& final(st).terminal@ == old(st).terminal@
            &&& final(st).writer.current@ == goodbye_message_spec(old(st).name@)
            &&& final(st).writer.queued() == Seq::<Seq<char>>::empty()
            &&& final(st).writer.shown == 0
            &&& final(st).writer.hold_forever
            &&& final(st).writer.mode == WriterMode::Typing
            &&& r == act_action(GlitchCue::Full, WriterAlarm::Held)
        },
{
    match cmd {
        PainterCmd::SetName(n) => {
            st.name = n;
            PainterAction { reset_clock: false, glitch: GlitchCue::Keep, alarm: WriterAlarm::Keep }
        },
        PainterCmd::BeginTerminal => {
            st.act = Act::Terminal;
            PainterAction { reset_clock: true, glitch: GlitchCue::Keep, alarm: WriterAlarm::Keep }
        },
        PainterCmd::TerminalChar(c) => {
            echo_terminal_char(&mut st.terminal, c);
            PainterAction { reset_clock: false, glitch: GlitchCue::Keep, alarm: WriterAlarm::Keep }
        },
        PainterCmd::TerminalBackspace => {
            pop_char(&mut st.terminal);
            PainterAction { reset_clock: false, glitch: GlitchCue::Keep, alarm: WriterAlarm::Keep }
        },
        PainterCmd::TerminalSubmitted | PainterCmd::BeginWatching => {
            st.act = Act::Watching;
            let script = watching_script(st.name.as_str());
            st.writer.set_script(script);
            PainterAction { reset_clock: true, glitch: GlitchCue::Keep, alarm: WriterAlarm::Scripted }
        },
        PainterCmd::BeginRush => {
            st.act = Act::Rush;
            st.writer.set_script(rush_script());
            PainterAction { reset_clock: true, glitch: GlitchCue::AtLeastRush, alarm: WriterAlarm::Scripted }
        },
        PainterCmd::BeginGoodbye => {
            st.act = Act::Goodbye;
            let msg = goodbye_message(st.name.as_str());
            st.writer.set_single_held(msg);
            PainterAction { reset_clock: true, glitch: GlitchCue::Full, alarm: WriterAlarm::Held }
        },
    }
}

} // verus!
