use phantasm::identity::{NameSource, PlayerIdentity};
use phantasm::state::{Effect, KeyPress, Phase, Session, TERMINAL_MAX};

fn named(name: &str) -> Session {
    Session::new(Some(PlayerIdentity { display_name: name.to_string(), source: NameSource::EnvironmentVariable("USER") }))
}

fn text(s: &str) -> KeyPress {
    KeyPress::Text(s.to_string())
}

#[test]
fn boot_with_identity_starts_watching() {
    let mut s = named("Alice");
    let fx = s.handle_key(&KeyPress::Other, true);
    assert_eq!(s.phase, Phase::Watching);
    assert_eq!(fx, vec![
        Effect::Log("[phantasm] identity acquired: \"Alice\" via $USER".to_string()),
        Effect::MirrorSetName("Alice".to_string()),
        Effect::MirrorBeginWatching,
        Effect::AudioBegin,
    ]);
}

#[test]
fn boot_without_identity_opens_terminal() {
    let mut s = Session::new(None);
    let fx = s.handle_key(&text("x"), true);
    assert_eq!(s.phase, Phase::Terminal);
    assert_eq!(fx, vec![Effect::MirrorBeginTerminal]);
    assert_eq!(s.terminal, "");
}

#[test]
fn terminal_typing_backspace_and_submit() {
    let mut s = Session::new(None);
    s.handle_key(&KeyPress::Enter, true);
    let fx = s.handle_key(&text("bo\u{e9}b"), true);
    assert_eq!(fx, vec![Effect::MirrorTerminalChar('b'), Effect::MirrorTerminalChar('o'), Effect::MirrorTerminalChar('b')]);
    assert_eq!(s.terminal, "bob");
    let fx = s.handle_key(&KeyPress::Backspace, true);
    assert_eq!(fx, vec![Effect::MirrorTerminalBackspace]);
    assert_eq!(s.terminal, "bo");
    assert_eq!(s.handle_key(&KeyPress::Space, true), vec![]);
    s.handle_key(&text("b"), true);
    let fx = s.handle_key(&KeyPress::Enter, true);
    assert_eq!(s.phase, Phase::Watching);
    assert_eq!(s.terminal, "");
    let id = s.identity.clone().unwrap();
    assert_eq!(id.display_name, "Bob");
    assert_eq!(id.source, NameSource::TerminalPrompt);
    assert_eq!(fx, vec![
        Effect::Log("[phantasm] identity acquired: \"Bob\" via terminal fallback".to_string()),
        Effect::MirrorSetName("Bob".to_string()),
        Effect::MirrorTerminalSubmitted,
        Effect::AudioBegin,
    ]);
}

#[test]
fn terminal_submit_of_nothing_is_player() {
    let mut s = Session::new(None);
    s.handle_key(&KeyPress::Other, true);
    assert_eq!(s.handle_key(&KeyPress::Backspace, true), vec![]);
    s.handle_key(&KeyPress::Enter, true);
    assert_eq!(s.identity.clone().unwrap().display_name, "PLAYER");
}

#[test]
fn terminal_buffer_is_capped() {
    let mut s = Session::new(None);
    s.handle_key(&KeyPress::Other, true);
    let fx = s.handle_key(&text("abcdefghijklmnopqrstuvwxyz"), true);
    assert_eq!(fx.len(), TERMINAL_MAX);
    assert_eq!(s.terminal, "abcdefghijklmnop");
    assert_eq!(s.handle_key(&text("z"), true), vec![]);
}

#[test]
fn escape_always_exits_and_releases_are_ignored() {
    let mut s = named("A");
    assert_eq!(s.handle_key(&KeyPress::Other, false), vec![]);
    assert_eq!(s.phase, Phase::Boot);
    assert_eq!(s.handle_key(&KeyPress::Escape, false), vec![]);
    assert!(!s.pending_exit);
    assert_eq!(s.handle_key(&KeyPress::Escape, true), vec![]);
    assert!(s.pending_exit);
    assert_eq!(s.phase, Phase::Boot);
}

#[test]
fn space_while_watching_starts_the_rush() {
    let mut s = named("A");
    s.handle_key(&KeyPress::Other, true);
    assert_eq!(s.handle_key(&text(" "), true), vec![]);
    let fx = s.handle_key(&KeyPress::Space, true);
    assert_eq!(s.phase, Phase::Rush);
    assert_eq!(fx, vec![Effect::AudioTriggerRush(5200), Effect::MirrorBeginRush, Effect::MirrorSetGlitchPercent(35)]);
}

#[test]
fn focus_loss_escalates_only_during_rush() {
    let mut s = named("Zo\u{eb}");
    assert_eq!(s.escalate_on_focus_loss(), vec![]);
    assert_eq!(s.phase, Phase::Boot);
    s.handle_key(&KeyPress::Other, true);
    s.enter_rush();
    let fx = s.escalate_on_focus_loss();
    assert_eq!(fx, vec![Effect::AudioKillAmbient, Effect::AudioStaticScreech(4200), Effect::MirrorBeginGoodbye]);
    assert_eq!(s.phase, Phase::Seizure);
    assert!(s.wants_monster);
    assert_eq!(s.take_title(), Some("GOODBYE, ZO\u{cb}".to_string()));
    assert_eq!(s.take_title(), None);
}

#[test]
fn seizure_without_identity_says_player() {
    let mut s = Session::new(None);
    s.enter_seizure();
    assert_eq!(s.take_title(), Some("GOODBYE, PLAYER".to_string()));
}

#[test]
fn termination_requests_exit() {
    let mut s = named("A");
    let fx = s.enter_terminated();
    assert_eq!(fx, vec![Effect::AudioFadeOut]);
    assert_eq!(s.phase, Phase::Terminated);
    assert!(s.pending_exit);
}

#[test]
fn phases_never_move_backward_under_keys() {
    let rank = |p: Phase| match p {
        Phase::Boot => 0,
        Phase::Terminal => 1,
        Phase::Watching => 2,
        Phase::Rush => 3,
        Phase::Seizure => 4,
        Phase::Terminated => 5,
    };
    let keys = [KeyPress::Escape, KeyPress::Backspace, KeyPress::Enter, KeyPress::Space, text("ab"), KeyPress::Other];
    let mut s = Session::new(None);
    for round in 0..4 {
        for k in keys.iter() {
            let before = rank(s.phase);
            s.handle_key(k, round % 2 == 0);
            assert!(rank(s.phase) >= before);
        }
    }
}

#[test]
fn exit_request_sticks() {
    let mut s = named("A");
    s.handle_key(&KeyPress::Escape, true);
    for k in [KeyPress::Other, KeyPress::Space, KeyPress::Enter, text("q")] {
        s.handle_key(&k, true);
        assert!(s.pending_exit);
    }
    s.enter_rush();
    s.escalate_on_focus_loss();
    assert!(s.pending_exit);
}

#[test]
fn timed_phases_advance_one_act() {
    assert_eq!(Session::phase_deadline(Phase::Boot), None);
    assert_eq!(Session::phase_deadline(Phase::Terminal), None);
    assert_eq!(Session::phase_deadline(Phase::Watching), Some(13));
    assert_eq!(Session::phase_deadline(Phase::Rush), Some(5));
    assert_eq!(Session::phase_deadline(Phase::Seizure), Some(8));
    assert_eq!(Session::phase_deadline(Phase::Terminated), None);
    let mut s = named("Ann");
    assert_eq!(s.advance_on_timeout(), vec![]);
    assert_eq!(s.phase, Phase::Boot);
    s.handle_key(&KeyPress::Other, true);
    assert_eq!(s.advance_on_timeout(), vec![Effect::AudioTriggerRush(5200), Effect::MirrorBeginRush, Effect::MirrorSetGlitchPercent(35)]);
    assert_eq!(s.phase, Phase::Rush);
    s.advance_on_timeout();
    assert_eq!(s.phase, Phase::Seizure);
    assert_eq!(s.take_title(), Some("GOODBYE, ANN".to_string()));
    assert_eq!(s.advance_on_timeout(), vec![Effect::AudioFadeOut]);
    assert_eq!(s.phase, Phase::Terminated);
    assert!(s.pending_exit);
    assert_eq!(s.advance_on_timeout(), vec![]);
}
