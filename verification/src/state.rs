//! The game's phase machine: what a key press, a loss of focus or the
//! passing of a phase's time does to the session, and which effects on the
//! mirror painter, the audio engine and the console it asks for. The
//! application measures time, reads the keyboard and carries the effects
//! out.

use vstd::prelude::*;
use crate::identity::{PlayerIdentity, NameSource, sanitize, sanitize_spec, describe_spec};
use crate::text::{str_chars, str_to_uppercase, to_uppercase, pop_char};

verus! {

#[derive(Clone, Copy, Debug, PartialEq, Eq, Structural)]
pub enum Phase {
    /// Consent gate. Nothing personal happens until a key is pressed.
    Boot,
    /// In-game terminal fallback for identity acquisition.
    Terminal,
    /// Calm investigation. The mirror learns your name.
    Watching,
    /// The entity is coming. Rising distortion, mild shaking.
    Rush,
    /// The glitched window snap has fired. Everything, at once.
    Seizure,
    /// Shutdown requested.
    Terminated,
}

/// Position of a phase in the story; the story only moves forward.
pub open spec fn phase_rank(p: Phase) -> int {
    match p {
        Phase::Boot => 0,
        Phase::Terminal => 1,
        Phase::Watching => 2,
        Phase::Rush => 3,
        Phase::Seizure => 4,
        Phase::Terminated => 5,
    }
}

/// Longest name the terminal prompt accepts, in characters.
pub const TERMINAL_MAX: usize = 16;

/// Duration of the rush voice, in milliseconds.
pub const RUSH_MS: u64 = 5200;

/// Duration of the static screech, in milliseconds.
pub const SCREECH_MS: u64 = 4200;

/// Glitch level the mirror jumps to when the rush begins, in percent.
pub const RUSH_GLITCH_PERCENT: u8 = 35;

/// A pressed key, as far as the game distinguishes keys.
#[derive(Clone, Debug, PartialEq, Eq)]
pub enum KeyPress {
    Escape,
    Backspace,
    Enter,
    Space,
    /// Key(s) producing text.
    Text(String),
    Other,
}

pub enum KeyModel {
    Escape,
    Backspace,
    Enter,
    Space,
    Text(Seq<char>),
    Other,
}

impl View for KeyPress {
    type V = KeyModel;

    open spec fn view(&self) -> KeyModel {
        match self {
            KeyPress::Escape => KeyModel::Escape,
            KeyPress::Backspace => KeyModel::Backspace,
            KeyPress::Enter => KeyModel::Enter,
            KeyPress::Space => KeyModel::Space,
            KeyPress::Text(s) => KeyModel::Text(s@),
            KeyPress::Other => KeyModel::Other,
        }
    }
}

/// Something the session asks the outside world to do, in order.
#[derive(Clone, Debug, PartialEq, Eq)]
pub enum Effect {
    /// Print a line on the console.
    Log(String),
    MirrorSetName(String),
    MirrorBeginTerminal,
    MirrorBeginWatching,
    MirrorTerminalChar(char),
    MirrorTerminalBackspace,
    MirrorTerminalSubmitted,
    MirrorBeginRush,
    MirrorBeginGoodbye,
    /// Set the mirror's glitch level to this many percent.
    MirrorSetGlitchPercent(u8),
    AudioBegin,
    /// Start the rush voice for this many milliseconds.
    AudioTriggerRush(u64),
    AudioKillAmbient,
    /// Full-scale static for this many milliseconds.
    AudioStaticScreech(u64),
    AudioFadeOut,
}

pub enum EffectModel {
    Log(Seq<char>),
    MirrorSetName(Seq<char>),
    MirrorBeginTerminal,
    MirrorBeginWatching,
    MirrorTerminalChar(char),
    MirrorTerminalBackspace,
    MirrorTerminalSubmitted,
    MirrorBeginRush,
    MirrorBeginGoodbye,
    MirrorSetGlitchPercent(u8),
    AudioBegin,
    AudioTriggerRush(u64),
    AudioKillAmbient,
    AudioStaticScreech(u64),
    AudioFadeOut,
}

impl View for Effect {
    type V = EffectModel;

    open spec fn view(&self) -> EffectModel {
        match self {
            Effect::Log(s) => EffectModel::Log(s@),
            Effect::MirrorSetName(s) => EffectModel::MirrorSetName(s@),
            Effect::MirrorBeginTerminal => EffectModel::MirrorBeginTerminal,
            Effect::MirrorBeginWatching => EffectModel::MirrorBeginWatching,
            Effect::MirrorTerminalChar(c) => EffectModel::MirrorTerminalChar(*c),
            Effect::MirrorTerminalBackspace => EffectModel::MirrorTerminalBackspace,
            Effect::MirrorTerminalSubmitted => EffectModel::MirrorTerminalSubmitted,
            Effect::MirrorBeginRush => EffectModel::MirrorBeginRush,
            Effect::MirrorBeginGoodbye => EffectModel::MirrorBeginGoodbye,
            Effect::MirrorSetGlitchPercent(p) => EffectModel::MirrorSetGlitchPercent(*p),
            Effect::AudioBegin => EffectModel::AudioBegin,
            Effect::AudioTriggerRush(d) => EffectModel::AudioTriggerRush(*d),
            Effect::AudioKillAmbient => EffectModel::AudioKillAmbient,
            Effect::AudioStaticScreech(d) => EffectModel::AudioStaticScreech(*d),
            Effect::AudioFadeOut => EffectModel::AudioFadeOut,
        }
    }
}

pub open spec fn effects_view(v: Seq<Effect>) -> Seq<EffectModel> {
    v.map_values(|e: Effect| e@)
}

/// The session state that drives the story (the float-valued clocks and
/// glitch level live with the application).
pub struct Session {
    pub phase: Phase,
    pub identity: Option<PlayerIdentity>,
    pub terminal: String,
    pub wants_monster: bool,
    pub pending_exit: bool,
    pub title_request: Option<String>,
}

pub struct SessionModel {
    pub phase: Phase,
    pub identity: Option<(Seq<char>, NameSource)>,
    pub terminal: Seq<char>,
    pub wants_monster: bool,
    pub pending_exit: bool,
    pub title_request: Option<Seq<char>>,
}

impl View for Session {
    type V = SessionModel;

    open spec fn view(&self) -> SessionModel {
        SessionModel {
            phase: self.phase,
            identity: match self.identity {
                Some(id) => Some((id.display_name@, id.source)),
                None => None,
            },
            terminal: self.terminal@,
            wants_monster: self.wants_monster,
            pending_exit: self.pending_exit,
            title_request: match self.title_request {
                Some(t) => Some(t@),
                None => None,
            },
        }
    }
}

// ----------------------------------------------------------------------
// The phase machine, as mathematics
// ----------------------------------------------------------------------

/// Console line announcing a name found by reconnaissance.
pub open spec fn announce_found(name: Seq<char>, src: NameSource) -> Seq<char> {
    "[phantasm] identity acquired: \""@ + name + "\" via "@ + describe_spec(src)
}

/// Console line announcing a name typed at the terminal.
pub open spec fn announce_typed(name: Seq<char>) -> Seq<char> {
    "[phantasm] identity acquired: \""@ + name + "\" via terminal fallback"@
}

/// Characters the terminal prompt echoes: printable ASCII and space.
pub open spec fn terminal_char_ok(c: char) -> bool {
    ('!' <= c <= '~') || c == ' '
}

/// Typing `chars` into terminal buffer `term`: each acceptable character is
/// kept (and echoed to the mirror) while the buffer is below `TERMINAL_MAX`.
pub open spec fn type_chars(term: Seq<char>, chars: Seq<char>) -> (Seq<char>, Seq<EffectModel>)
    decreases chars.len(),
{
    if chars.len() == 0 {
        (term, Seq::empty())
    } else {
        let c = chars[0];
        let took = term.len() < TERMINAL_MAX && terminal_char_ok(c);
        let t1 = if took { term.push(c) } else { term };
        let e1 = if took { seq![EffectModel::MirrorTerminalChar(c)] } else { Seq::empty() };
        let rest = type_chars(t1, chars.drop_first());
        (rest.0, e1 + rest.1)
    }
}

pub open spec fn with_phase(m: SessionModel, p: Phase) -> SessionModel {
    SessionModel { phase: p, ..m }
}

/// The approach begins.
pub open spec fn rush_step(m: SessionModel) -> (SessionModel, Seq<EffectModel>) {
    (
        with_phase(m, Phase::Rush),
        seq![
            EffectModel::AudioTriggerRush(RUSH_MS),
            EffectModel::MirrorBeginRush,
            EffectModel::MirrorSetGlitchPercent(RUSH_GLITCH_PERCENT),
        ],
    )
}

/// Name used for the player when none is known.
pub open spec fn display_name_or_default(m: SessionModel) -> Seq<char> {
    match m.identity {
        Some((n, _)) => n,
        None => "PLAYER"@,
    }
}

/// The glitched window snap: ambience dies, the screech starts, the
/// mirror says goodbye, the monster is summoned and the window retitled.
pub open spec fn seizure_step(m: SessionModel) -> (SessionModel, Seq<EffectModel>) {
    (
        SessionModel {
            phase: Phase::Seizure,
            wants_monster: true,
            title_request: Some("GOODBYE, "@ + str_to_uppercase(display_name_or_default(m))),
            ..m
        },
        seq![
            EffectModel::AudioKillAmbient,
            EffectModel::AudioStaticScreech(SCREECH_MS),
            EffectModel::MirrorBeginGoodbye,
        ],
    )
}

/// The engine ends: the master fades and the process is asked to exit.
pub open spec fn terminate_step(m: SessionModel) -> (SessionModel, Seq<EffectModel>) {
    (
        SessionModel { phase: Phase::Terminated, pending_exit: true, ..m },
        seq![EffectModel::AudioFadeOut],
    )
}

/// Enter at the terminal: the typed name (sanitised, or `PLAYER`) becomes
/// the identity and watching begins.
pub open spec fn submit_step(m: SessionModel) -> (SessionModel, Seq<EffectModel>) {
    let name = match sanitize_spec(m.terminal) {
        Some(n) => n,
        None => "PLAYER"@,
    };
    (
        SessionModel {
            phase: Phase::Watching,
            terminal: Seq::empty(),
            identity: Some((name, NameSource::TerminalPrompt)),
            ..m
        },
        seq![
            EffectModel::Log(announce_typed(name)),
            EffectModel::MirrorSetName(name),
            EffectModel::MirrorTerminalSubmitted,
            EffectModel::AudioBegin,
        ],
    )
}

/// What one key event does. Released keys do nothing; Escape always
/// requests exit; otherwise the current phase decides.
pub open spec fn key_step(m: SessionModel, k: KeyModel, pressed: bool) -> (SessionModel, Seq<EffectModel>) {
    if !pressed {
        (m, Seq::empty())
    } else if k is Escape {
        (SessionModel { pending_exit: true, ..m }, Seq::empty())
    } else {
        match m.phase {
            Phase::Boot => match m.identity {
                Some((n, src)) => (
                    with_phase(m, Phase::Watching),
                    seq![
                        EffectModel::Log(announce_found(n, src)),
                        EffectModel::MirrorSetName(n),
                        EffectModel::MirrorBeginWatching,
                        EffectModel::AudioBegin,
                    ],
                ),
                None => (with_phase(m, Phase::Terminal), seq![EffectModel::MirrorBeginTerminal]),
            },
            Phase::Terminal => match k {
                KeyModel::Text(s) => {
                    let r = type_chars(m.terminal, s);
                    (SessionModel { terminal: r.0, ..m }, r.1)
                },
                KeyModel::Backspace => if m.terminal.len() > 0 {
                    (SessionModel { terminal: m.terminal.drop_last(), ..m }, seq![EffectModel::MirrorTerminalBackspace])
                } else {
                    (m, Seq::empty())
                },
                KeyModel::Enter => submit_step(m),
                _ => (m, Seq::empty()),
            },
            Phase::Watching => if k is Space { rush_step(m) } else { (m, Seq::empty()) },
            _ => (m, Seq::empty()),
        }
    }
}

/// How long, in seconds, a phase lasts before the story moves on by itself.
pub open spec fn phase_deadline_spec(p: Phase) -> Option<u32> {
    match p {
        Phase::Watching => Some(13u32),
        Phase::Rush => Some(5u32),
        Phase::Seizure => Some(8u32),
        _ => None,
    }
}

/// What happens when the current phase's time is up: watching gives way to
/// the rush, the rush to the seizure, the seizure to termination.
pub open spec fn timeout_step(m: SessionModel) -> (SessionModel, Seq<EffectModel>) {
    match m.phase {
        Phase::Watching => rush_step(m),
        Phase::Rush => seizure_step(m),
        Phase::Seizure => terminate_step(m),
        _ => (m, Seq::empty()),
    }
}

/// Losing focus during the rush escalates immediately.
pub open spec fn focus_loss_step(m: SessionModel) -> (SessionModel, Seq<EffectModel>) {
    if m.phase == Phase::Rush { seizure_step(m) } else { (m, Seq::empty()) }
}

// ----------------------------------------------------------------------
// The phase machine, executable
// ----------------------------------------------------------------------

proof fn lemma_view_push(v: Seq<Effect>, e: Effect)
    ensures
        effects_view(v.push(e)) == effects_view(v).push(e@),
{
    assert(effects_view(v.push(e)) =~= effects_view(v).push(e@));
}

fn concat3(a: &str, b: &str, c: &str) -> (r: String)
    ensures
        r@ == a@ + b@ + c@,
{
    let mut s = String::from_str(a);
    s.append(b);
    s.append(c);
    s
}

impl Session {
    pub fn new(identity: Option<PlayerIdentity>) -> (r: Self)
        ensures
            r@ == (SessionModel {
                phase: Phase::Boot,
                identity: match identity { Some(id) => Some((id.display_name@, id.source)), None => None },
                terminal: Seq::empty(),
                wants_monster: false,
                pending_exit: false,
                title_request: None,
            }),
    {
        Session {
            phase: Phase::Boot,
            identity,
            terminal: String::new(),
            wants_monster: false,
            pending_exit: false,
            title_request: None,
        }
    }

    /// Takes the pending window-title change, if any.
    pub fn take_title(&mut self) -> (r: Option<String>)
        ensures
            final(self)@ == (SessionModel { title_request: None, ..old(self)@ }),
            match r { Some(t) => old(self)@.title_request == Some(t@), None => old(self)@.title_request is None },
    {
        self.title_request.take()
    }

    pub fn enter_rush(&mut self) -> (r: Vec<Effect>)
        ensures
            (final(self)@, effects_view(r@)) == rush_step(old(self)@),
    {
        let mut fx: Vec<Effect> = Vec::new();
        fx.push(Effect::AudioTriggerRush(RUSH_MS));
        fx.push(Effect::MirrorBeginRush);
        fx.push(Effect::MirrorSetGlitchPercent(RUSH_GLITCH_PERCENT));
        self.phase = Phase::Rush;
        assert(effects_view(fx@) =~= rush_step(old(self)@).1);
        fx
    }

    pub fn enter_seizure(&mut self) -> (r: Vec<Effect>)
        ensures
            (final(self)@, effects_view(r@)) == seizure_step(old(self)@),
    {
        let mut fx: Vec<Effect> = Vec::new();
        fx.push(Effect::AudioKillAmbient);
        fx.push(Effect::AudioStaticScreech(SCREECH_MS));
        fx.push(Effect::MirrorBeginGoodbye);
        self.wants_monster = true;
        let upper = match &self.identity {
            Some(id) => to_uppercase(id.display_name.as_str()),
            None => to_uppercase("PLAYER"),
        };
        let mut title = String::from_str("GOODBYE, ");
        title.append(upper.as_str());
        self.title_request = Some(title);
        self.phase = Phase::Seizure;
        assert(effects_view(fx@) =~= seizure_step(old(self)@).1);
        fx
    }

    pub fn enter_terminated(&mut self) -> (r: Vec<Effect>)
        ensures
            (final(self)@, effects_view(r@)) == terminate_step(old(self)@),
    {
        let mut fx: Vec<Effect> = Vec::new();
        fx.push(Effect::AudioFadeOut);
        self.phase = Phase::Terminated;
        self.pending_exit = true;
        assert(effects_view(fx@) =~= terminate_step(old(self)@).1);
        fx
    }

    /// Seconds the phase lasts before `advance_on_timeout` applies (none for
    /// phases that wait on the player or have ended).
    pub fn phase_deadline(p: Phase) -> (r: Option<u32>)
        ensures
            r == phase_deadline_spec(p),
    {
        match p {
            Phase::Watching => Some(13),
            Phase::Rush => Some(5),
            Phase::Seizure => Some(8),
            _ => None,
        }
    }

    /// The current phase's time is up: moves the story on.
    pub fn advance_on_timeout(&mut self) -> (r: Vec<Effect>)
        ensures
            (final(self)@, effects_view(r@)) == timeout_step(old(self)@),
    {
        match self.phase {
            Phase::Watching => self.enter_rush(),
            Phase::Rush => self.enter_seizure(),
            Phase::Seizure => self.enter_terminated(),
            _ => {
                let fx: Vec<Effect> = Vec::new();
                assert(effects_view(fx@) =~= Seq::<EffectModel>::empty());
                fx
            },
        }
    }

    /// Looking away during the rush escalates immediately. It knows.
    pub fn escalate_on_focus_loss(&mut self) -> (r: Vec<Effect>)
        ensures
            (final(self)@, effects_view(r@)) == focus_loss_step(old(self)@),
            old(self).phase != Phase::Rush ==> final(self)@ == old(self)@ && r@.len() == 0,
            old(self).phase == Phase::Rush ==> final(self).phase == Phase::Seizure && final(self).wants_monster,
    {
        if self.phase == Phase::Rush {
            self.enter_seizure()
        } else {
            let fx: Vec<Effect> = Vec::new();
            assert(effects_view(fx@) =~= Seq::<EffectModel>::empty());
            fx
        }
    }

    fn submit_terminal(&mut self) -> (r: Vec<Effect>)
        ensures
            (final(self)@, effects_view(r@)) == submit_step(old(self)@),
    {
        let mut raw = String::new();
        std::mem::swap(&mut raw, &mut self.terminal);
        let name = match sanitize(raw.as_str()) {
            Some(n) => n,
            None => String::from_str("PLAYER"),
        };
        let mut fx: Vec<Effect> = Vec::new();
        fx.push(Effect::Log(concat3("[phantasm] identity acquired: \"", name.as_str(), "\" via terminal fallback")));
        fx.push(Effect::MirrorSetName(name.clone()));
        fx.push(Effect::MirrorTerminalSubmitted);
        fx.push(Effect::AudioBegin);
        self.identity = Some(PlayerIdentity { display_name: name, source: NameSource::TerminalPrompt });
        self.phase = Phase::Watching;
        assert(effects_view(fx@) =~= submit_step(old(self)@).1);
        fx
    }

    fn type_text(&mut self, s: &str) -> (r: Vec<Effect>)
        ensures
            final(self)@ == (SessionModel { terminal: type_chars(old(self)@.terminal, s@).0, ..old(self)@ }),
            effects_view(r@) == type_chars(old(self)@.terminal, s@).1,
    {
        let chars = str_chars(s);
        let ghost t0 = self.terminal@;
        let ghost goal = type_chars(t0, s@);
        let mut fx: Vec<Effect> = Vec::new();
        let mut count = self.terminal.as_str().unicode_len();
        let mut i: usize = 0;
        assert(chars@.skip(0) =~= chars@);
        while i < chars.len()
            invariant
                chars@ == s@,
                0 <= i <= chars@.len(),
                count == self.terminal@.len(),
                self@ == (SessionModel { terminal: self.terminal@, ..old(self)@ }),
                type_chars(self.terminal@, chars@.skip(i as int)).0 == goal.0,
                effects_view(fx@) + type_chars(self.terminal@, chars@.skip(i as int)).1 == goal.1,
            decreases chars@.len() - i,
        {
            let ch = chars[i];
            let ghost rest = chars@.skip(i as int);
            let ghost tb = self.terminal@;
            let ghost fb = effects_view(fx@);
            assert(rest[0] == ch);
            assert(rest.drop_first() =~= chars@.skip(i + 1));
            if count < TERMINAL_MAX && (('!' <= ch && ch <= '~') || ch == ' ') {
                crate::text::push_char(&mut self.terminal, ch);
                count += 1;
                let ghost fxv = fx@;
                fx.push(Effect::MirrorTerminalChar(ch));
                proof {
                    lemma_view_push(fxv, Effect::MirrorTerminalChar(ch));
                }
                assert(effects_view(fx@) =~= fb + seq![EffectModel::MirrorTerminalChar(ch)]);
                assert(effects_view(fx@) + type_chars(self.terminal@, chars@.skip(i + 1)).1
                    =~= fb + type_chars(tb, rest).1);
            } else {
                assert(type_chars(tb, rest).1 =~= Seq::<EffectModel>::empty() + type_chars(tb, chars@.skip(i + 1)).1);
            }
            i += 1;
        }
        assert(chars@.skip(i as int) =~= Seq::<char>::empty());
        assert(effects_view(fx@) =~= goal.1);
        fx
    }

    /// Reacts to one key event (`pressed` is false for a release).
    pub fn handle_key(&mut self, key: &KeyPress, pressed: bool) -> (r: Vec<Effect>)
        ensures
            (final(self)@, effects_view(r@)) == key_step(old(self)@, key@, pressed),
    {
        let empty: Vec<Effect> = Vec::new();
        assert(effects_view(empty@) =~= Seq::<EffectModel>::empty());
        if !pressed {
            return empty;
        }
        if let KeyPress::Escape = key {
            self.pending_exit = true;
            return empty;
        }
        match self.phase {
            Phase::Boot => {
                match &self.identity {
                    Some(id) => {
                        let name = id.display_name.clone();
                        let via = id.source.describe();
                        let mut fx: Vec<Effect> = Vec::new();
                        let mut line = concat3("[phantasm] identity acquired: \"", name.as_str(), "\" via ");
                        line.append(via.as_str());
                        fx.push(Effect::Log(line));
                        fx.push(Effect::MirrorSetName(name));
                        fx.push(Effect::MirrorBeginWatching);
                        fx.push(Effect::AudioBegin);
                        self.phase = Phase::Watching;
                        assert(effects_view(fx@) =~= key_step(old(self)@, key@, pressed).1);
                        fx
                    },
                    None => {
                        let mut fx: Vec<Effect> = Vec::new();
                        fx.push(Effect::MirrorBeginTerminal);
                        self.phase = Phase::Terminal;
                        assert(effects_view(fx@) =~= key_step(old(self)@, key@, pressed).1);
                        fx
                    },
                }
            },
            Phase::Terminal => match key {
                KeyPress::Text(s) => self.type_text(s.as_str()),
                KeyPress::Backspace => {
                    if self.terminal.as_str().unicode_len() > 0 {
                        pop_char(&mut self.terminal);
                        let mut fx: Vec<Effect> = Vec::new();
                        fx.push(Effect::MirrorTerminalBackspace);
                        assert(effects_view(fx@) =~= key_step(old(self)@, key@, pressed).1);
                        fx
                    } else {
                        empty
                    }
                },
                KeyPress::Enter => self.submit_terminal(),
                _ => empty,
            },
            Phase::Watching => {
                if let KeyPress::Space = key {
                    self.enter_rush()
                } else {
                    empty
                }
            },
            _ => empty,
        }
    }
}

// ----------------------------------------------------------------------
// Laws of the phase machine
// ----------------------------------------------------------------------

/// Escape always requests exit, whatever the phase, and changes nothing else.
pub proof fn lemma_escape_exits(m: SessionModel)
    ensures
        key_step(m, KeyModel::Escape, true).0 == (SessionModel { pending_exit: true, ..m }),
        key_step(m, KeyModel::Escape, true).1.len() == 0,
{
}

/// The consent gate: at boot nothing happens — no name is shown, no sound
/// starts — until a key other than Escape is pressed.
pub proof fn lemma_consent_gate(m: SessionModel, k: KeyModel, pressed: bool)
    requires
        m.phase == Phase::Boot,
        !pressed || k is Escape,
    ensures
        key_step(m, k, pressed).1.len() == 0,
        key_step(m, k, pressed).0.phase == Phase::Boot,
        focus_loss_step(m) == (m, Seq::<EffectModel>::empty()),
{
}

/// Key releases are ignored.
pub proof fn lemma_release_ignored(m: SessionModel, k: KeyModel)
    ensures
        key_step(m, k, false) == (m, Seq::<EffectModel>::empty()),
{
}

/// Once requested, exit stays requested.
pub proof fn lemma_exit_sticks(m: SessionModel, k: KeyModel, pressed: bool)
    requires
        m.pending_exit,
    ensures
        key_step(m, k, pressed).0.pending_exit,
        focus_loss_step(m).0.pending_exit,
        rush_step(m).0.pending_exit,
        seizure_step(m).0.pending_exit,
        terminate_step(m).0.pending_exit,
{
}

/// The story never moves backward: no key and no loss of focus returns to
/// an earlier phase, and the timed transitions each advance one act.
pub proof fn lemma_story_moves_forward(m: SessionModel, k: KeyModel, pressed: bool)
    ensures
        phase_rank(key_step(m, k, pressed).0.phase) >= phase_rank(m.phase),
        phase_rank(focus_loss_step(m).0.phase) >= phase_rank(m.phase),
        phase_deadline_spec(m.phase) is Some ==> phase_rank(timeout_step(m).0.phase) == phase_rank(m.phase) + 1,
        phase_deadline_spec(m.phase) is None ==> timeout_step(m) == (m, Seq::<EffectModel>::empty()),
        m.phase == Phase::Watching ==> rush_step(m).0.phase == Phase::Rush,
        m.phase == Phase::Rush ==> seizure_step(m).0.phase == Phase::Seizure,
        m.phase == Phase::Seizure ==> terminate_step(m).0.phase == Phase::Terminated,
{
}

/// Typing never grows the terminal buffer past `TERMINAL_MAX`, and every
/// character it keeps is echoed to the mirror exactly once.
pub proof fn lemma_type_chars_bounded(term: Seq<char>, chars: Seq<char>)
    requires
        term.len() <= TERMINAL_MAX,
    ensures
        type_chars(term, chars).0.len() <= TERMINAL_MAX,
        type_chars(term, chars).0.len() == term.len() + type_chars(term, chars).1.len(),
        type_chars(term, chars).0.subrange(0, term.len() as int) == term,
    decreases chars.len(),
{
    if chars.len() > 0 {
        let c = chars[0];
        let took = term.len() < TERMINAL_MAX && terminal_char_ok(c);
        let t1 = if took { term.push(c) } else { term };
        lemma_type_chars_bounded(t1, chars.drop_first());
        let r = type_chars(t1, chars.drop_first());
        assert(r.0.subrange(0, term.len() as int) =~= r.0.subrange(0, t1.len() as int).subrange(0, term.len() as int));
        assert(t1.subrange(0, term.len() as int) =~= term);
    }
}

/// The terminal buffer never holds more than `TERMINAL_MAX` characters.
pub proof fn lemma_terminal_bounded(m: SessionModel, k: KeyModel, pressed: bool)
    requires
        m.terminal.len() <= TERMINAL_MAX,
    ensures
        key_step(m, k, pressed).0.terminal.len() <= TERMINAL_MAX,
{
    if let KeyModel::Text(s) = k {
        lemma_type_chars_bounded(m.terminal, s);
    }
}

/// The mirror only starts watching once the player has a name.
pub proof fn lemma_named_before_watching(m: SessionModel, k: KeyModel, pressed: bool)
    requires
        m.phase != Phase::Watching,
        key_step(m, k, pressed).0.phase == Phase::Watching,
    ensures
        key_step(m, k, pressed).0.identity is Some,
{
}

/// A terminated session has always asked to exit.
pub proof fn lemma_terminated_exits(m: SessionModel)
    ensures
        terminate_step(m).0.pending_exit,
        terminate_step(m).0.phase == Phase::Terminated,
{
}

/// Looking away matters only during the rush: in every other phase losing
/// focus leaves the session as it is and requests nothing, while during the
/// rush it starts the seizure at once, summoning the monster.
pub proof fn lemma_focus_loss_only_in_rush(m: SessionModel)
    ensures
        m.phase != Phase::Rush ==> focus_loss_step(m).0 == m && focus_loss_step(m).1.len() == 0,
        m.phase == Phase::Rush ==> {
            &&& focus_loss_step(m).0.phase == Phase::Seizure
            &&& focus_loss_step(m).0.wants_monster
            &&& focus_loss_step(m).1.contains(EffectModel::MirrorBeginGoodbye)
        },
{
    if m.phase == Phase::Rush {
        assert(focus_loss_step(m).1[2] == EffectModel::MirrorBeginGoodbye);
    }
}

} // verus!