use lumatone_viz::events::{parse_live_event, passthrough_step, LiveEvent};
use lumatone_viz::midi::{
    port_name_or_placeholder, ConnectAttempt, ConnectError, InputClient, InputConn, InputPortId,
    MidiState, OutputClient, OutputConn, OutputPortId, ReadyMidiState,
};
use lumatone_viz::tracker::PressedKeys;

#[test]
fn live_event_decoding_is_exact() {
    assert_eq!(
        parse_live_event(&[0x90, 60, 100]),
        Some(LiveEvent::NoteOn { channel: 0, key: 60, vel: 100 })
    );
    assert_eq!(
        parse_live_event(&[0x9f, 0, 127]),
        Some(LiveEvent::NoteOn { channel: 15, key: 0, vel: 127 })
    );
    assert_eq!(
        parse_live_event(&[0x85, 60, 0]),
        Some(LiveEvent::NoteOff { channel: 5, key: 60, vel: 0 })
    );
    // other channel-voice messages are recognized and ignored
    assert_eq!(parse_live_event(&[0xb0, 7, 100]), Some(LiveEvent::Other));
    assert_eq!(parse_live_event(&[0xc3, 12]), Some(LiveEvent::Other));
    assert_eq!(parse_live_event(&[0xf8]), Some(LiveEvent::Other));
    // system common and exclusive messages are recognized and ignored
    assert_eq!(parse_live_event(&[0xf6]), Some(LiveEvent::Other));
    assert_eq!(parse_live_event(&[0xf1, 5]), Some(LiveEvent::Other));
    assert_eq!(parse_live_event(&[0xf3, 5]), Some(LiveEvent::Other));
    assert_eq!(parse_live_event(&[0xf2, 1, 2]), Some(LiveEvent::Other));
    assert_eq!(parse_live_event(&[0xf0, 1, 2, 3, 0xf7]), Some(LiveEvent::Other));
    assert_eq!(parse_live_event(&[0xf0, 0xf7]), Some(LiveEvent::Other));
    // malformed messages decode to nothing
    assert_eq!(parse_live_event(&[]), None);
    assert_eq!(parse_live_event(&[0xf0]), None);
    assert_eq!(parse_live_event(&[0xf0, 0x80, 0xf7]), None);
    assert_eq!(parse_live_event(&[0xf0, 1, 2]), None);
    assert_eq!(parse_live_event(&[0xf4]), None);
    assert_eq!(parse_live_event(&[60, 60, 60]), None);
    assert_eq!(parse_live_event(&[0x90, 0x80, 100]), None);
    assert_eq!(parse_live_event(&[0x90, 60]), None);
    assert_eq!(parse_live_event(&[0x90, 60, 100, 0]), None);
}

#[test]
fn passthrough_is_byte_exact() {
    // the bytes observed on the output equal the bytes received on the input
    let raw = [0x90u8, 60, 100];
    let act = passthrough_step(&raw);
    assert_eq!(act.forward, raw.to_vec());
    assert_eq!(act.event, Some(LiveEvent::NoteOn { channel: 0, key: 60, vel: 100 }));
    // even for bytes that decode to nothing
    let junk = [1u8, 2, 3, 4];
    let act = passthrough_step(&junk);
    assert_eq!(act.forward, junk.to_vec());
    assert_eq!(act.event, None);
}

#[test]
fn note_events_drive_the_pressed_set() {
    // a synthetic NoteOn fed to a connected listener presses (0, 60)
    let mut pressed = PressedKeys::new();
    let on = passthrough_step(&[0x90, 60, 100]).event.unwrap();
    pressed.apply(on);
    assert!(pressed.contains(0, 60));
    assert!(!pressed.contains(0, 61));
    assert!(!pressed.contains(1, 60));
    // a following NoteOff removes it
    let off = passthrough_step(&[0x80, 60, 0]).event.unwrap();
    pressed.apply(off);
    assert!(!pressed.contains(0, 60));
    // other events change nothing
    pressed.apply(LiveEvent::NoteOn { channel: 2, key: 3, vel: 9 });
    pressed.apply(LiveEvent::Other);
    assert!(pressed.contains(2, 3));
    // disconnecting before the NoteOff clears the set regardless
    pressed.clear();
    assert!(!pressed.contains(2, 3));
    assert!(pressed.pairs().is_empty());
}

#[test]
fn pressed_set_deduplicates_and_removes_cleanly() {
    let mut pressed = PressedKeys::new();
    pressed.note_on(1, 10);
    pressed.note_on(1, 10);
    pressed.note_on(1, 11);
    assert_eq!(pressed.pairs().len(), 2);
    pressed.note_off(1, 10);
    assert!(!pressed.contains(1, 10));
    assert!(pressed.contains(1, 11));
    pressed.note_off(9, 9);
    assert!(pressed.contains(1, 11));
}

fn two_ports() -> (InputPortId, OutputPortId) {
    (InputPortId { id: 7 }, OutputPortId { id: 8 })
}

#[test]
fn lifecycle_reaches_connected_without_aliasing_ports() {
    // from Uninitialized, initialize then connect with two fixed ports
    let mut m = MidiState::default();
    assert!(matches!(m, MidiState::Uninit(None)));
    m.init(Ok(ReadyMidiState::new(InputClient { id: 1 }, OutputClient { id: 2 })));
    let (ip, op) = two_ports();
    m.select_input(Some(ip));
    m.select_output(Some(op));
    let (state, input_port, output_port) = match m {
        MidiState::Ready { state, input_port, output_port } => (state, input_port, output_port),
        _ => panic!("not ready"),
    };
    // the transition consumes the Ready variant; the ports move into the
    // Connected variant and exist nowhere else afterwards
    let attempt = ConnectAttempt::Opened {
        output: OutputConn { id: 30 },
        input: InputConn { id: 31 },
    };
    let c = state
        .connect(
            input_port.unwrap(),
            "in".to_string(),
            output_port.unwrap(),
            "out".to_string(),
            attempt,
        )
        .unwrap();
    assert_eq!(c.input_port().0, ip);
    assert_eq!(c.input_port().1, "in");
    assert_eq!(c.output_port().0, op);
    assert_eq!(c.output_port().1, "out");
    assert_eq!(c.input_connection, InputConn { id: 31 });
    assert_eq!(c.output_connection, OutputConn { id: 30 });
    assert_eq!(c.input_client, InputClient { id: 1 });
    assert_eq!(c.output_client, OutputClient { id: 2 });
}

#[test]
fn failed_connects_release_what_they_opened() {
    let (ip, op) = two_ports();
    let ready = ReadyMidiState::new(InputClient { id: 1 }, OutputClient { id: 2 });
    match ready.connect(
        ip,
        "in".to_string(),
        op,
        "out".to_string(),
        ConnectAttempt::OutputFailed("no device".to_string()),
    ) {
        Err(ConnectError::Output { error }) => assert_eq!(error, "no device"),
        _ => panic!("expected output failure"),
    }
    // when the input open fails, the already-open output connection comes
    // back so it can be closed: nothing is retained by the machine
    let ready = ReadyMidiState::new(InputClient { id: 1 }, OutputClient { id: 2 });
    match ready.connect(
        ip,
        "in".to_string(),
        op,
        "out".to_string(),
        ConnectAttempt::InputFailed { error: "busy".to_string(), output: OutputConn { id: 40 } },
    ) {
        Err(ConnectError::Input { error, released_output }) => {
            assert_eq!(error, "busy");
            assert_eq!(released_output, OutputConn { id: 40 });
        },
        _ => panic!("expected input failure"),
    }
}

#[test]
fn hundred_connect_disconnect_cycles_leak_nothing() {
    let (ip, op) = two_ports();
    let mut ready = ReadyMidiState::new(InputClient { id: 1 }, OutputClient { id: 2 });
    for cycle in 0..100u64 {
        let attempt = ConnectAttempt::Opened {
            output: OutputConn { id: 100 + cycle },
            input: InputConn { id: 200 + cycle },
        };
        let connected = ready
            .connect(ip, "in".to_string(), op, "out".to_string(), attempt)
            .unwrap();
        let (back, in_conn, out_conn) = connected.disconnect();
        // exactly the two connections of this cycle come back to be closed,
        // and the same subsystem clients return to Ready: no handle leaks
        // and no handle is reachable twice
        assert_eq!(in_conn, InputConn { id: 200 + cycle });
        assert_eq!(out_conn, OutputConn { id: 100 + cycle });
        assert_eq!(back.input, InputClient { id: 1 });
        assert_eq!(back.output, OutputClient { id: 2 });
        ready = back;
    }
}

#[test]
fn machine_level_disconnect_returns_to_unselected_ready() {
    let (ip, op) = two_ports();
    let ready = ReadyMidiState::new(InputClient { id: 1 }, OutputClient { id: 2 });
    let connected = ready
        .connect(
            ip,
            "in".to_string(),
            op,
            "out".to_string(),
            ConnectAttempt::Opened { output: OutputConn { id: 5 }, input: InputConn { id: 6 } },
        )
        .unwrap();
    let mut m = MidiState::Connected(connected);
    let (in_conn, out_conn) = m.disconnect();
    assert_eq!(in_conn, InputConn { id: 6 });
    assert_eq!(out_conn, OutputConn { id: 5 });
    match m {
        MidiState::Ready { state, input_port, output_port } => {
            assert_eq!(state.input, InputClient { id: 1 });
            assert_eq!(state.output, OutputClient { id: 2 });
            assert_eq!(input_port, None);
            assert_eq!(output_port, None);
        },
        _ => panic!("expected Ready"),
    }
}

#[test]
fn uninit_hands_back_open_connections() {
    let (ip, op) = two_ports();
    let ready = ReadyMidiState::new(InputClient { id: 1 }, OutputClient { id: 2 });
    let connected = ready
        .connect(
            ip,
            "in".to_string(),
            op,
            "out".to_string(),
            ConnectAttempt::Opened { output: OutputConn { id: 5 }, input: InputConn { id: 6 } },
        )
        .unwrap();
    let mut m = MidiState::Connected(connected);
    let released = m.uninit();
    assert_eq!(released, Some((InputConn { id: 6 }, OutputConn { id: 5 })));
    assert!(matches!(m, MidiState::Uninit(None)));
    // from Ready or Uninit there is nothing to release
    let mut m = MidiState::default();
    assert_eq!(m.uninit(), None);
    m.init(Err("no subsystem".to_string()));
    match &m {
        MidiState::Uninit(Some(e)) => assert_eq!(e, "no subsystem"),
        _ => panic!("expected retained error"),
    }
}

#[test]
fn port_names_fall_back_to_a_placeholder() {
    assert_eq!(port_name_or_placeholder(Some("Synth 1".to_string())), "Synth 1");
    assert_eq!(port_name_or_placeholder(None), "<error>");
}
