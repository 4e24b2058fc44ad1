use kafka_toy::ui::{draw_title, handle_event, on_key, on_tick, Action, Event, RenderState};

#[test]
fn quit_keys_emit_quit() {
    assert_eq!(on_key('q'), Some(Event::Quit));
    assert_eq!(on_key('Q'), Some(Event::Quit));
}

#[test]
fn other_keys_are_ignored() {
    assert_eq!(on_key('x'), None);
    assert_eq!(on_key(' '), None);
}

#[test]
fn tick_redraws_without_changing_state() {
    on_tick();
    let (state, action) = handle_event(RenderState::Running, Event::Tick);
    assert_eq!(state, RenderState::Running);
    assert_eq!(action, Action::Redraw);
}

#[test]
fn quit_key_then_quit_event_terminates() {
    // KeyPress('q') asks for a Quit event; the Quit event, the very next one
    // processed, releases the display and terminates. Afterwards no event
    // ever asks for a redraw again.
    let (state, action) = handle_event(RenderState::Running, Event::Input('q'));
    assert_eq!(state, RenderState::Running);
    assert_eq!(action, Action::EmitQuit);

    let (state, action) = handle_event(state, Event::Quit);
    assert_eq!(state, RenderState::Terminated);
    assert_eq!(action, Action::Release);

    for event in [Event::Input('a'), Event::Tick, Event::Quit] {
        let (after, action) = handle_event(state, event);
        assert_eq!(after, RenderState::Terminated);
        assert_ne!(action, Action::Redraw);
    }
}

#[test]
fn ordinary_keys_keep_the_loop_running() {
    let (state, action) = handle_event(RenderState::Running, Event::Input('k'));
    assert_eq!(state, RenderState::Running);
    assert_eq!(action, Action::Redraw);
}

#[test]
fn title_names_topic_and_filter() {
    assert_eq!(
        draw_title("events", ".level == \"error\""),
        "Topic: events, Filter: .level == \"error\""
    );
}
