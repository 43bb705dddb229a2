use phantasm::mirror::Act;
use phantasm::painter::{
    painter_step, GhostWriter, GlitchCue, PainterAction, PainterCmd, PainterState, WriterAlarm, WriterMode,
};

fn idle() -> PainterAction {
    PainterAction { reset_clock: false, glitch: GlitchCue::Keep, alarm: WriterAlarm::Keep }
}

#[test]
fn painter_starts_booting_as_operator() {
    let st = PainterState::new();
    assert_eq!(st.act, Act::Boot);
    assert_eq!(st.name, "OPERATOR");
    assert!(st.terminal.is_empty());
    assert!(!st.writer.is_awake());
}

#[test]
fn painter_name_and_terminal_commands() {
    let mut st = PainterState::new();
    assert_eq!(painter_step(&mut st, PainterCmd::SetName("Ada".to_string())), idle());
    assert_eq!(st.name, "Ada");
    let a = painter_step(&mut st, PainterCmd::BeginTerminal);
    assert_eq!(a, PainterAction { reset_clock: true, glitch: GlitchCue::Keep, alarm: WriterAlarm::Keep });
    assert_eq!(st.act, Act::Terminal);
    for c in "abcdefghijklmnopqrst".chars() {
        assert_eq!(painter_step(&mut st, PainterCmd::TerminalChar(c)), idle());
    }
    assert_eq!(st.terminal, "abcdefghijklmnop");
    painter_step(&mut st, PainterCmd::TerminalBackspace);
    assert_eq!(st.terminal, "abcdefghijklmno");
    let mut empty = PainterState::new();
    painter_step(&mut empty, PainterCmd::TerminalBackspace);
    assert!(empty.terminal.is_empty());
}

#[test]
fn painter_acts_queue_their_scripts() {
    let mut st = PainterState::new();
    painter_step(&mut st, PainterCmd::SetName("Ada".to_string()));
    let a = painter_step(&mut st, PainterCmd::TerminalSubmitted);
    assert_eq!(a, PainterAction { reset_clock: true, glitch: GlitchCue::Keep, alarm: WriterAlarm::Scripted });
    assert_eq!(st.act, Act::Watching);
    assert_eq!(st.writer.script, vec!["hello, ada.", "i can see through your desktop.", "do not look away."]);
    assert_eq!(st.writer.mode, WriterMode::Sleeping);

    let a = painter_step(&mut st, PainterCmd::BeginRush);
    assert_eq!(a, PainterAction { reset_clock: true, glitch: GlitchCue::AtLeastRush, alarm: WriterAlarm::Scripted });
    assert_eq!(st.act, Act::Rush);
    assert_eq!(st.writer.script, vec!["IT IS TOO LATE.", "BEHIND YOU."]);

    let a = painter_step(&mut st, PainterCmd::BeginGoodbye);
    assert_eq!(a, PainterAction { reset_clock: true, glitch: GlitchCue::Full, alarm: WriterAlarm::Held });
    assert_eq!(st.act, Act::Goodbye);
    assert_eq!(st.writer.current, "THIS IS MINE NOW.\nYOU ARE UNNECESSARY.\nGOODBYE, ADA.");
    assert!(st.writer.hold_forever);
    assert_eq!(st.writer.mode, WriterMode::Typing);
    assert!(st.writer.script.is_empty());

    let mut w = PainterState::new();
    painter_step(&mut w, PainterCmd::BeginWatching);
    assert_eq!(w.act, Act::Watching);
    assert_eq!(w.writer.script[0], "hello, operator.");
}

#[test]
fn writer_types_holds_and_deletes_a_line() {
    let mut w = GhostWriter::new();
    assert!(!w.wake());
    w.set_script(vec!["hey".to_string(), "you".to_string()]);
    assert!(!w.is_awake());
    assert!(w.wake());
    assert_eq!(w.current, "hey");
    assert_eq!(w.script, vec!["you"]);
    assert_eq!(w.visible(), "");
    assert!(!w.type_one());
    assert_eq!(w.visible(), "h");
    assert!(!w.type_one());
    assert!(w.type_one());
    assert_eq!(w.mode, WriterMode::Holding);
    assert_eq!(w.visible(), "hey");
    assert!(!w.type_one());
    w.start_deleting();
    assert_eq!(w.mode, WriterMode::Deleting);
    assert!(!w.settle());
    w.delete_one();
    assert_eq!(w.visible(), "he");
    w.delete_one();
    w.delete_one();
    w.delete_one();
    assert_eq!(w.shown, 0);
    assert!(w.settle());
    assert_eq!(w.mode, WriterMode::Sleeping);
    assert!(w.wake());
    assert_eq!(w.current, "you");
    assert!(!w.wake());
}

#[test]
fn held_message_is_never_deleted() {
    let mut w = GhostWriter::new();
    w.set_single_held("BYE".to_string());
    assert!(w.is_awake());
    assert!(!w.wake());
    w.type_one();
    w.type_one();
    assert!(w.type_one());
    assert_eq!(w.mode, WriterMode::Holding);
    for _ in 0..5 {
        w.start_deleting();
        w.delete_one();
        assert!(!w.settle());
    }
    assert_eq!(w.mode, WriterMode::Holding);
    assert_eq!(w.visible(), "BYE");
}

#[test]
fn writer_visible_counts_characters() {
    let mut w = GhostWriter::new();
    w.set_single_held("\u{e9}t\u{e9}".to_string());
    w.type_one();
    w.type_one();
    assert_eq!(w.visible(), "\u{e9}t");
}
