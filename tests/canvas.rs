use arduino_place_server::led_array::{CanvasError, Color, LedArray, LED_COUNT, LED_MAX_INDEX};
use arduino_place_server::session::{SessionAction, SessionEvent, SessionState, PENDING_LIMIT};
use arduino_place_server::ws::WsPayload;
use arduino_place_server::BroadcastMessage;
use SessionAction::{Resync, SendSnapshot, SendUpdate, Stop};

fn rgb(red: u8, green: u8, blue: u8) -> Color {
    Color { red, green, blue }
}

#[test]
fn default_canvas_is_black() {
    let a = LedArray::default();
    assert_eq!(a.len(), LED_COUNT);
    for i in 0..LED_COUNT {
        assert_eq!(a.get(i), Some(rgb(0, 0, 0)));
    }
    assert_eq!(Color::default(), rgb(0, 0, 0));
}

#[test]
fn set_then_get_returns_color() {
    let mut a = LedArray::default();
    assert_eq!(a.set(7, rgb(1, 2, 3)), Ok(()));
    assert_eq!(a.get(7), Some(rgb(1, 2, 3)));
    assert_eq!(a.get(6), Some(rgb(0, 0, 0)));
    assert_eq!(a.get(8), Some(rgb(0, 0, 0)));
    assert_eq!(a.set(LED_MAX_INDEX, rgb(9, 9, 9)), Ok(()));
    assert_eq!(a.get(LED_MAX_INDEX), Some(rgb(9, 9, 9)));
    assert_eq!(a.set(0, rgb(4, 5, 6)), Ok(()));
    assert_eq!(a.get(0), Some(rgb(4, 5, 6)));
}

#[test]
fn out_of_range_is_refused() {
    let mut a = LedArray::default();
    a.set(3, rgb(1, 1, 1)).unwrap();
    assert_eq!(a.get(LED_COUNT), None);
    assert_eq!(a.get(usize::MAX), None);
    assert_eq!(
        a.set(LED_COUNT, rgb(5, 5, 5)),
        Err(CanvasError::OutOfRange { index: LED_COUNT })
    );
    assert_eq!(a.to_colors().len(), LED_COUNT);
    for i in 0..LED_COUNT {
        let want = if i == 3 { rgb(1, 1, 1) } else { rgb(0, 0, 0) };
        assert_eq!(a.get(i), Some(want));
    }
}

#[test]
fn to_bytes_layout() {
    let mut a = LedArray::default();
    a.set(0, rgb(1, 2, 3)).unwrap();
    a.set(1, rgb(4, 5, 6)).unwrap();
    a.set(LED_MAX_INDEX, rgb(7, 8, 9)).unwrap();
    let b = a.to_bytes();
    assert_eq!(b.len(), 3 * LED_COUNT);
    assert_eq!(&b[0..6], &[1, 2, 3, 4, 5, 6]);
    assert_eq!(&b[6..9], &[0, 0, 0]);
    assert_eq!(&b[3 * LED_COUNT - 3..], &[7, 8, 9]);
}

#[test]
fn bytes_round_trip() {
    let mut a = LedArray::default();
    for i in 0..LED_COUNT {
        a.set(i, rgb(i as u8, (2 * i) as u8, 255 - i as u8)).unwrap();
    }
    let back = LedArray::from_bytes(&a.to_bytes()).unwrap();
    assert_eq!(back.to_colors(), a.to_colors());
}

#[test]
fn from_bytes_rejects_wrong_length() {
    for len in [0usize, 3, 4, 3 * LED_COUNT - 1, 3 * LED_COUNT + 1, 6 * LED_COUNT] {
        let bytes = vec![0u8; len];
        assert!(matches!(
            LedArray::from_bytes(&bytes),
            Err(CanvasError::WrongLength { len: l }) if l == len
        ));
    }
    assert!(LedArray::from_bytes(&vec![0u8; 3 * LED_COUNT]).is_ok());
}

#[test]
fn from_colors_checks_length() {
    let colors = vec![rgb(1, 2, 3); LED_COUNT];
    let a = LedArray::from_colors(colors.clone()).unwrap();
    assert_eq!(a.to_colors(), colors);
    assert!(matches!(
        LedArray::from_colors(vec![rgb(1, 2, 3); LED_COUNT - 1]),
        Err(CanvasError::WrongLength { len }) if len == LED_COUNT - 1
    ));
    assert!(LedArray::from_colors(Vec::new()).is_err());
}

#[test]
fn load_falls_back_to_blank() {
    let blank = LedArray::default().to_colors();
    assert_eq!(LedArray::from_persisted(None).to_colors(), blank);
    assert_eq!(
        LedArray::from_persisted(Some(vec![rgb(1, 1, 1); 3])).to_colors(),
        blank
    );
    let stored = vec![rgb(7, 7, 7); LED_COUNT];
    assert_eq!(LedArray::from_persisted(Some(stored.clone())).to_colors(), stored);
}

#[test]
fn from_persisted_gives_back_stored_cells() {
    let mut a = LedArray::default();
    a.set(1, rgb(1, 1, 1)).unwrap();
    a.set(2, rgb(2, 2, 2)).unwrap();
    let record = a.to_colors();
    let loaded = LedArray::from_persisted(Some(record.clone()));
    assert_eq!(loaded.to_colors(), record);
    assert_eq!(loaded.get(2), Some(rgb(2, 2, 2)));
}

#[test]
fn payload_bytes() {
    let one = WsPayload::SyncOne { index: 2, color: rgb(10, 20, 30) };
    assert_eq!(one.into_bytes(), vec![2, 10, 20, 30]);
    let wide = WsPayload::SyncOne { index: 300, color: rgb(1, 2, 3) };
    assert_eq!(wide.into_bytes(), vec![44, 1, 2, 3]);
    let mut a = LedArray::default();
    a.set(5, rgb(5, 6, 7)).unwrap();
    let all = WsPayload::SyncAll(Box::new(a.duplicate()));
    assert_eq!(all.into_bytes(), a.to_bytes());
}

#[test]
fn session_sends_one_initial_snapshot_first() {
    let mut s = SessionState::new();
    let m = BroadcastMessage::LedUpdated { index: 1, color: rgb(1, 1, 1) };
    assert_eq!(s.step(SessionEvent::Broadcast(m)), vec![]);
    assert_eq!(s.step(SessionEvent::Lagged), vec![]);
    assert_eq!(s.step(SessionEvent::ClientFrame), vec![SendSnapshot]);
    assert_eq!(s.step(SessionEvent::ClientFrame), vec![]);
    assert_eq!(
        s.step(SessionEvent::Broadcast(m)),
        vec![SendUpdate { index: 1, color: rgb(1, 1, 1) }]
    );
    assert_eq!(s.step(SessionEvent::ClientFrame), vec![]);
}

#[test]
fn changes_before_first_frame_are_held_back_in_order() {
    let mut s = SessionState::new();
    let mut expected = vec![SendSnapshot];
    for i in 0..5usize {
        let m = BroadcastMessage::LedUpdated { index: i, color: rgb(i as u8, 1, 2) };
        assert_eq!(s.step(SessionEvent::Broadcast(m)), vec![]);
        expected.push(SendUpdate { index: i, color: rgb(i as u8, 1, 2) });
    }
    assert_eq!(s.step(SessionEvent::ClientFrame), expected);
    let m = BroadcastMessage::LedUpdated { index: 9, color: rgb(9, 9, 9) };
    assert_eq!(s.step(SessionEvent::Broadcast(m)), vec![SendUpdate { index: 9, color: rgb(9, 9, 9) }]);
}

#[test]
fn lag_before_first_frame_drops_held_back_changes() {
    let mut s = SessionState::new();
    let mut store = LedArray::default();
    let mut client = LedArray::default();
    // A change to cell 0 is held back, then a newer change to cell 0 is lost
    // on the bus.
    store.set(0, rgb(1, 1, 1)).unwrap();
    let held = BroadcastMessage::LedUpdated { index: 0, color: rgb(1, 1, 1) };
    assert_eq!(s.step(SessionEvent::Broadcast(held)), vec![]);
    store.set(0, rgb(2, 2, 2)).unwrap();
    assert_eq!(s.step(SessionEvent::Lagged), vec![]);
    for action in s.step(SessionEvent::ClientFrame) {
        match action {
            SendSnapshot | Resync => client = store.duplicate(),
            SendUpdate { index, color } => client.set(index, color).unwrap(),
            Stop => panic!("session stopped"),
        }
    }
    assert_eq!(client.to_colors(), store.to_colors());
    assert_eq!(client.get(0), Some(rgb(2, 2, 2)));
}

#[test]
fn held_back_overflow_leaves_only_the_snapshot() {
    let mut s = SessionState::new();
    for i in 0..=PENDING_LIMIT {
        let m = BroadcastMessage::LedUpdated { index: i, color: rgb(1, 1, 1) };
        assert_eq!(s.step(SessionEvent::Broadcast(m)), vec![]);
    }
    assert_eq!(s.step(SessionEvent::ClientFrame), vec![SendSnapshot]);
}

#[test]
fn session_forwards_updates_in_order() {
    let mut s = SessionState::new();
    s.step(SessionEvent::ClientFrame);
    let mut frames = Vec::new();
    for i in 0..4usize {
        let m = BroadcastMessage::LedUpdated { index: i, color: rgb(i as u8, 0, 9) };
        for a in s.step(SessionEvent::Broadcast(m)) {
            frames.push(a.update_frame().unwrap());
        }
    }
    assert_eq!(
        frames,
        vec![vec![0, 0, 0, 9], vec![1, 1, 0, 9], vec![2, 2, 0, 9], vec![3, 3, 0, 9]]
    );
}

#[test]
fn session_resyncs_after_lag() {
    let mut s = SessionState::new();
    s.step(SessionEvent::ClientFrame);
    let mut canvas = LedArray::default();
    canvas.set(4, rgb(4, 4, 4)).unwrap();
    let a = s.step(SessionEvent::Lagged);
    assert_eq!(a, vec![Resync]);
    assert!(a[0].is_snapshot());
    let frame = a[0].frame(&canvas).unwrap();
    assert_eq!(frame.len(), 3 * LED_COUNT);
    assert_eq!(frame, canvas.to_bytes());
}

#[test]
fn session_stops_on_close() {
    for close in [SessionEvent::ClientClose, SessionEvent::ClientError, SessionEvent::ClientEnd] {
        let mut s = SessionState::new();
        s.step(SessionEvent::ClientFrame);
        assert_eq!(s.step(close), vec![Stop]);
        let m = BroadcastMessage::LedUpdated { index: 0, color: rgb(1, 1, 1) };
        assert_eq!(s.step(SessionEvent::Broadcast(m)), vec![Stop]);
        assert_eq!(s.step(SessionEvent::Lagged), vec![Stop]);
        assert_eq!(s.step(SessionEvent::ClientFrame), vec![Stop]);
    }
    let mut s = SessionState::new();
    assert_eq!(s.step(SessionEvent::BusClosed), vec![Stop]);
    let mut s = SessionState::new();
    assert_eq!(s.step(SessionEvent::SendFailed), vec![Stop]);
}

#[test]
fn frames_of_actions() {
    let canvas = LedArray::default();
    assert_eq!(Stop.frame(&canvas), None);
    assert_eq!(Stop.update_frame(), None);
    assert_eq!(SendSnapshot.update_frame(), None);
    assert!(!Stop.is_snapshot());
    assert!(!SendUpdate { index: 0, color: rgb(0, 0, 0) }.is_snapshot());
    assert_eq!(SendSnapshot.frame(&canvas), Some(canvas.to_bytes()));
    assert_eq!(
        SendUpdate { index: 3, color: rgb(4, 5, 6) }.frame(&canvas),
        Some(vec![3, 4, 5, 6])
    );
}

#[test]
fn write_then_read_and_sync_scenario() {
    let mut canvas = LedArray::default();
    let mut s = SessionState::new();
    assert_eq!(s.step(SessionEvent::ClientFrame), vec![SendSnapshot]);
    let color = rgb(10, 20, 30);
    canvas.set(2, color).unwrap();
    let m = BroadcastMessage::LedUpdated { index: 2, color };
    assert_eq!(canvas.get(2), Some(rgb(10, 20, 30)));
    let a = s.step(SessionEvent::Broadcast(m));
    assert_eq!(a.len(), 1);
    assert_eq!(a[0].frame(&canvas), Some(vec![2, 10, 20, 30]));
    let all = canvas.to_colors();
    assert_eq!(&all[0..4], &[rgb(0, 0, 0), rgb(0, 0, 0), rgb(10, 20, 30), rgb(0, 0, 0)]);
}

#[test]
fn conversions_into_bytes() {
    let mut a = LedArray::default();
    a.set(1, rgb(3, 4, 5)).unwrap();
    let copy = a.clone();
    assert_eq!(copy.to_colors(), a.to_colors());
    let expected = a.to_bytes();
    assert_eq!(Vec::<u8>::from(copy), expected);
    assert_eq!(&expected[3..6], &[3, 4, 5]);
    let p = WsPayload::SyncOne { index: 9, color: rgb(7, 8, 9) };
    assert_eq!(Vec::<u8>::from(p.clone()), vec![9, 7, 8, 9]);
    assert_eq!(Vec::<u8>::from(WsPayload::SyncAll(Box::new(a))), expected);
}

#[test]
fn as_slice_lists_cells() {
    let mut a = LedArray::default();
    a.set(LED_MAX_INDEX, rgb(1, 0, 1)).unwrap();
    let s = a.as_slice();
    assert_eq!(s.len(), LED_COUNT);
    assert_eq!(s[LED_MAX_INDEX], rgb(1, 0, 1));
    assert_eq!(s[0], rgb(0, 0, 0));
}
