use lanchat::commands::{connect_to_peer, send_message_to_peer, ws_listen_address};
use lanchat::error::ChatError;
use lanchat::event::{ws_event_name, WsEvent};
use lanchat::frame::{encode_frame, FrameDecoder};
use lanchat::transport::{ConnectPlan, WsManager};
use lanchat::wire::{append_block, read_block, read_blocks, Block, MAX_TEXT_LEN};

fn addr() -> String {
    "10.0.0.5:6767".to_string()
}

#[test]
fn send_without_connection_is_unreachable() {
    let mut ws = WsManager::new();
    assert_eq!(
        ws.send_message(&addr(), "hi"),
        Err(ChatError::PeerUnreachable { addr: addr() })
    );
    assert_eq!(
        send_message_to_peer(addr(), "hi".to_string(), &mut ws),
        Err("No connection to 10.0.0.5:6767".to_string())
    );
    assert!(!ws.is_connected(&addr()));
    assert_eq!(ws.connection_count(), 0);
    assert_eq!(ws.next_outbound(&addr()), None);
}

#[test]
fn connect_send_and_remote_close() {
    let mut ws = WsManager::new();
    let mut events: Vec<WsEvent> = Vec::new();
    assert_eq!(ws.plan_connect(&addr()), ConnectPlan::Dial);
    events.extend(connect_to_peer(addr(), &mut ws, Ok(())).unwrap());
    assert_eq!(send_message_to_peer(addr(), "hi".to_string(), &mut ws), Ok(()));
    assert_eq!(ws.next_outbound(&addr()), Some(vec![0, 0, 0, 2, 104, 105]));
    assert_eq!(ws.next_outbound(&addr()), None);
    events.extend(ws.close(&addr()));
    events.extend(ws.close(&addr()));
    assert_eq!(
        events,
        vec![WsEvent::Connected { addr: addr() }, WsEvent::Disconnected { addr: addr() }]
    );
    assert!(ws.receive(&addr(), &[0, 0, 0, 1, 65]).is_empty());
}

#[test]
fn messages_are_received_only_for_what_the_remote_sent() {
    let mut ws = WsManager::new();
    ws.open(addr());
    ws.send_message(&addr(), "hi").unwrap();
    assert!(ws.receive(&addr(), &[]).is_empty());
    let mut stream = encode_frame("hello").unwrap();
    stream.extend(encode_frame("wörld").unwrap());
    assert_eq!(
        ws.receive(&addr(), &stream),
        vec![
            WsEvent::MessageReceived { addr: addr(), message: "hello".to_string() },
            WsEvent::MessageReceived { addr: addr(), message: "wörld".to_string() },
        ]
    );
    assert_eq!(ws.close(&addr()), Some(WsEvent::Disconnected { addr: addr() }));
}

#[test]
fn connecting_twice_reuses_the_connection() {
    let mut ws = WsManager::new();
    assert_eq!(
        connect_to_peer(addr(), &mut ws, Ok(())),
        Ok(Some(WsEvent::Connected { addr: addr() }))
    );
    ws.send_message(&addr(), "kept").unwrap();
    assert_eq!(ws.plan_connect(&addr()), ConnectPlan::Reuse);
    assert_eq!(connect_to_peer(addr(), &mut ws, Ok(())), Ok(None));
    assert_eq!(ws.connection_count(), 1);
    assert_eq!(ws.next_outbound(&addr()), Some(encode_frame("kept").unwrap()));
}

#[test]
fn failed_dial_leaves_the_table_alone() {
    let mut ws = WsManager::new();
    assert_eq!(
        connect_to_peer(addr(), &mut ws, Err("connection refused".to_string())),
        Err("Network error: connection refused".to_string())
    );
    assert!(!ws.is_connected(&addr()));
}

#[test]
fn outbound_frames_leave_in_order() {
    let mut ws = WsManager::new();
    ws.open(addr());
    ws.open("10.0.0.6:6767".to_string());
    ws.send_message(&addr(), "one").unwrap();
    ws.send_message(&"10.0.0.6:6767".to_string(), "other").unwrap();
    ws.send_message(&addr(), "two").unwrap();
    assert_eq!(ws.next_outbound(&addr()), Some(encode_frame("one").unwrap()));
    assert_eq!(ws.next_outbound(&addr()), Some(encode_frame("two").unwrap()));
    assert_eq!(ws.next_outbound(&addr()), None);
    assert_eq!(
        ws.next_outbound(&"10.0.0.6:6767".to_string()),
        Some(encode_frame("other").unwrap())
    );
}

#[test]
fn closing_drops_the_queue() {
    let mut ws = WsManager::new();
    ws.open(addr());
    ws.send_message(&addr(), "lost").unwrap();
    ws.close(&addr());
    ws.open(addr());
    assert_eq!(ws.next_outbound(&addr()), None);
}

#[test]
fn partial_frames_are_buffered_across_chunks() {
    let mut ws = WsManager::new();
    ws.open(addr());
    let mut stream = encode_frame("hello").unwrap();
    stream.extend(encode_frame("").unwrap());
    stream.extend(encode_frame("wörld").unwrap());
    let mut messages: Vec<String> = Vec::new();
    for byte in stream {
        for event in ws.receive(&addr(), &[byte]) {
            match event {
                WsEvent::MessageReceived { message, .. } => messages.push(message),
                other => panic!("unexpected event {:?}", other),
            }
        }
    }
    assert_eq!(messages, vec!["hello".to_string(), String::new(), "wörld".to_string()]);
    assert!(ws.is_connected(&addr()));
}

#[test]
fn every_split_of_a_stream_decodes_alike() {
    let mut stream = encode_frame("a").unwrap();
    stream.extend(encode_frame("bcd").unwrap());
    stream.extend(vec![0, 0, 0, 9, 1]);
    for cut in 0..=stream.len() {
        let mut decoder = FrameDecoder::new();
        let mut messages = decoder.push(&stream[..cut]);
        messages.extend(decoder.push(&stream[cut..]));
        assert_eq!(messages, vec!["a".to_string(), "bcd".to_string()]);
        assert_eq!(decoder.buffered_len(), 5);
        assert!(!decoder.has_failed());
    }
}

#[test]
fn invalid_utf8_ends_the_connection_after_the_good_messages() {
    let mut ws = WsManager::new();
    ws.open(addr());
    let mut stream = encode_frame("ok").unwrap();
    stream.extend(vec![0, 0, 0, 2, 0xc3, 0x28]);
    stream.extend(encode_frame("never").unwrap());
    assert_eq!(
        ws.receive(&addr(), &stream),
        vec![
            WsEvent::MessageReceived { addr: addr(), message: "ok".to_string() },
            WsEvent::Disconnected { addr: addr() },
        ]
    );
    assert!(!ws.is_connected(&addr()));
    assert!(ws.receive(&addr(), &encode_frame("late").unwrap()).is_empty());
    assert_eq!(ws.close(&addr()), None);
}

#[test]
fn oversized_length_ends_the_connection() {
    let mut ws = WsManager::new();
    ws.open(addr());
    assert_eq!(
        ws.receive(&addr(), &[0, 16, 0, 1]),
        vec![WsEvent::Disconnected { addr: addr() }]
    );
    let mut decoder = FrameDecoder::new();
    assert!(decoder.push(&[0xff, 0xff, 0xff, 0xff, 1, 2]).is_empty());
    assert!(decoder.has_failed());
    assert_eq!(decoder.buffered_len(), 0);
    assert!(decoder.push(&encode_frame("x").unwrap()).is_empty());
}

#[test]
fn longest_text_fits_and_one_more_byte_does_not() {
    let longest = "x".repeat(MAX_TEXT_LEN);
    let frame = encode_frame(&longest).unwrap();
    assert_eq!(frame.len(), MAX_TEXT_LEN + 4);
    assert_eq!(&frame[..4], &[0, 16, 0, 0]);
    let mut decoder = FrameDecoder::new();
    assert_eq!(decoder.push(&frame), vec![longest.clone()]);
    let too_long = "x".repeat(MAX_TEXT_LEN + 1);
    assert_eq!(encode_frame(&too_long), None);
    let mut ws = WsManager::new();
    ws.open(addr());
    assert_eq!(ws.send_message(&addr(), &too_long), Err(ChatError::TooLong));
    assert_eq!(
        send_message_to_peer(addr(), too_long, &mut ws),
        Err("Text is too long".to_string())
    );
    assert_eq!(ws.next_outbound(&addr()), None);
}

#[test]
fn blocks_have_a_big_endian_length() {
    let mut out = vec![9u8];
    assert!(append_block(&mut out, &"y".repeat(0x01_02_03)));
    assert_eq!(&out[..5], &[9, 0, 1, 2, 3]);
    assert_eq!(out.len(), 5 + 0x01_02_03);
    assert_eq!(
        read_block(&out, 1),
        Block::Complete { text: "y".repeat(0x01_02_03), used: 4 + 0x01_02_03 }
    );
}

#[test]
fn read_block_tells_incomplete_from_invalid() {
    assert_eq!(read_block(&[], 0), Block::Incomplete);
    assert_eq!(read_block(&[0, 0, 0], 0), Block::Incomplete);
    assert_eq!(read_block(&[0, 0, 0, 2, 65], 0), Block::Incomplete);
    assert_eq!(read_block(&[0, 0, 0, 2, 65, 66], 7), Block::Incomplete);
    assert_eq!(read_block(&[0, 16, 0, 1], 0), Block::Invalid);
    assert_eq!(read_block(&[0, 0, 0, 1, 0x80], 0), Block::Invalid);
    assert_eq!(
        read_block(&[7, 0, 0, 0, 2, 65, 66, 67], 1),
        Block::Complete { text: "AB".to_string(), used: 6 }
    );
    assert_eq!(read_block(&[0, 0, 0, 0], 0), Block::Complete { text: String::new(), used: 4 });
}

#[test]
fn read_blocks_wants_exactly_the_count() {
    let bytes = vec![0, 0, 0, 1, 65, 0, 0, 0, 1, 66];
    assert_eq!(read_blocks(&bytes, 0, 2), Some(vec!["A".to_string(), "B".to_string()]));
    assert_eq!(read_blocks(&bytes, 0, 1), None);
    assert_eq!(read_blocks(&bytes, 0, 3), None);
    assert_eq!(read_blocks(&bytes, 5, 1), Some(vec!["B".to_string()]));
    assert_eq!(read_blocks(&bytes, 10, 0), Some(Vec::new()));
    assert_eq!(read_blocks(&bytes, 11, 0), Some(Vec::new()));
    assert_eq!(read_blocks(&bytes, 11, 1), None);
}

#[test]
fn transport_events_have_their_shell_names() {
    assert_eq!(ws_event_name(&WsEvent::Connected { addr: addr() }), "ws-connected");
    assert_eq!(ws_event_name(&WsEvent::Disconnected { addr: addr() }), "ws-disconnected");
    assert_eq!(
        ws_event_name(&WsEvent::MessageReceived { addr: addr(), message: "m".to_string() }),
        "ws-message"
    );
    assert_eq!(ws_listen_address(), "0.0.0.0:6767");
}
