use tutor_chat::animator::{TickEvent, TypingAnimator, PAUSE_BONUS_MS, TYPING_DELAY_MS};
use tutor_chat::chat::{is_blank_text, key_sends, send_allowed, ChatView, ControllerState, SubmitOutcome};
use tutor_chat::connection::{classify_frame, ConnectionState, SendError, WebSocketMessage, WebSocketService};
use tutor_chat::log::{LogError, MessageLog};
use tutor_chat::message::{container_class, role_class, role_name, MessageRole};

fn connected_session() -> ChatView {
    let mut chat = ChatView::new("ws://localhost:8000/ws");
    assert!(!chat.connect());
    chat.on_opened();
    chat
}

fn pending_count(chat: &ChatView) -> usize {
    chat.messages().iter().filter(|m| m.pending).count()
}

#[test]
fn submit_then_reply_reveals_whole_text() {
    let mut chat = connected_session();
    let out = chat.submit("What is XSS?");
    assert!(matches!(out, SubmitOutcome::Transmit(ref t) if t == "What is XSS?"));
    let msgs = chat.messages();
    assert_eq!(msgs.len(), 2);
    assert_eq!(msgs[0].role, MessageRole::Human);
    assert_eq!(msgs[0].content, "What is XSS?");
    assert!(!msgs[0].pending);
    assert_eq!(msgs[1].role, MessageRole::System);
    assert!(msgs[1].pending);
    assert_eq!(chat.state(), ControllerState::AwaitingReply);

    let reply = "Cross-site scripting **is**...";
    let token = chat.on_text_received(reply.to_string());
    assert_eq!(pending_count(&chat), 0);
    assert_eq!(chat.state(), ControllerState::Idle);
    let msgs = chat.messages();
    assert_eq!(msgs.len(), 2);
    assert_eq!(msgs[1].role, MessageRole::Assistant);
    assert!(msgs[1].animated);
    assert_eq!(msgs[1].content, reply);
    assert_eq!(msgs[1].displayed, "");

    let n = reply.chars().count();
    let mut ticks = 0;
    while chat.on_tick(token).is_some() {
        ticks += 1;
        let m = &chat.messages()[1];
        assert_eq!(m.displayed.chars().count(), ticks - 1);
        assert!(m.displayed.chars().count() < n);
        assert!(reply.starts_with(m.displayed.as_str()));
        assert!(m.animated);
    }
    // N ticks showed the prefixes; the next one showed the whole text and
    // completed the reveal.
    assert_eq!(ticks, n);
    let m = &chat.messages()[1];
    assert_eq!(m.displayed, m.content);
    assert!(!m.animated);
    assert!(chat.on_tick(token).is_none());
}

#[test]
fn error_while_awaiting_logs_error_and_goes_idle() {
    let mut chat = connected_session();
    chat.submit("hello");
    assert_eq!(chat.state(), ControllerState::AwaitingReply);
    chat.on_errored("socket closed");
    assert_eq!(pending_count(&chat), 0);
    assert_eq!(chat.state(), ControllerState::Idle);
    let msgs = chat.messages();
    assert_eq!(msgs.len(), 2);
    assert_eq!(msgs[1].role, MessageRole::System);
    assert_eq!(msgs[1].content, "Error: socket closed");
    assert!(!msgs[1].animated);
    assert!(matches!(chat.connection_state(), ConnectionState::Errored(r) if r == "socket closed"));
}

#[test]
fn second_submit_before_reply_is_rejected() {
    let mut chat = connected_session();
    chat.submit("first");
    let out = chat.submit("second");
    assert!(matches!(out, SubmitOutcome::Ignored));
    assert_eq!(chat.messages().len(), 2);
    assert_eq!(pending_count(&chat), 1);
    assert_eq!(chat.state(), ControllerState::AwaitingReply);
}

#[test]
fn blank_submit_is_ignored() {
    let mut chat = connected_session();
    for text in ["", "   ", "\n\t ", "\u{3000}\u{a0}"] {
        assert!(matches!(chat.submit(text), SubmitOutcome::Ignored));
        assert_eq!(chat.messages().len(), 0);
        assert_eq!(chat.state(), ControllerState::Idle);
    }
}

#[test]
fn submit_while_disconnected_reports_error() {
    let mut chat = ChatView::new("ws://x");
    let out = chat.submit("hi");
    assert!(matches!(out, SubmitOutcome::NotConnected));
    let msgs = chat.messages();
    assert_eq!(msgs.len(), 2);
    assert_eq!(msgs[0].content, "hi");
    assert_eq!(msgs[0].role, MessageRole::Human);
    assert!(msgs[1].pending);
    assert_eq!(chat.state(), ControllerState::AwaitingReply);
    chat.on_send_failed("WebSocket not connected");
    let msgs = chat.messages();
    assert_eq!(msgs.len(), 2);
    assert_eq!(msgs[1].content, "Error: WebSocket not connected");
    assert!(!msgs[1].pending);
    assert_eq!(chat.state(), ControllerState::Idle);
    assert!(matches!(chat.connection_state(), ConnectionState::Disconnected));
}

#[test]
fn enter_without_shift_sends() {
    assert!(key_sends("Enter", false));
    assert!(!key_sends("Enter", true));
    assert!(!key_sends("a", false));
    assert!(!key_sends("Enterx", false));
    assert!(!key_sends("enter", false));
}

#[test]
fn non_text_frame_is_an_error() {
    let mut chat = connected_session();
    chat.submit("q");
    let m = classify_frame(None);
    assert!(chat.on_message(m).is_none());
    assert_eq!(chat.messages()[1].content, "Error: Received non-text message");
    assert_eq!(pending_count(&chat), 0);
    assert!(matches!(classify_frame(Some("x".to_string())), WebSocketMessage::Text(t) if t == "x"));
}

#[test]
fn text_message_starts_reveal() {
    let mut chat = connected_session();
    chat.submit("q");
    let tok = chat.on_message(WebSocketMessage::Text("ab".to_string()));
    assert_eq!(tok, Some(0));
    assert_eq!(chat.state(), ControllerState::Idle);
    assert_eq!(chat.on_tick(0), Some(TYPING_DELAY_MS));
    assert_eq!(chat.messages()[1].displayed, "");
    assert_eq!(chat.on_tick(0), Some(TYPING_DELAY_MS));
    assert_eq!(chat.messages()[1].displayed, "a");
    assert_eq!(chat.on_tick(0), None);
    assert_eq!(chat.messages()[1].displayed, "ab");
    assert!(!chat.messages()[1].animated);
    assert_eq!(chat.on_tick(0), None);
}

#[test]
fn one_char_reply_finishes_on_second_tick() {
    let mut chat = connected_session();
    chat.submit("q");
    let tok = chat.on_text_received("a".to_string());
    assert_eq!(chat.on_tick(tok), Some(TYPING_DELAY_MS));
    assert_eq!(chat.messages()[1].displayed, "");
    assert!(chat.messages()[1].animated);
    assert_eq!(chat.on_tick(tok), None);
    assert_eq!(chat.messages()[1].displayed, "a");
    assert!(!chat.messages()[1].animated);
    assert!(!chat.messages()[1].markup().contains("cursor"));
}

#[test]
fn reveal_of_n_chars_gives_n_plus_one_ticks() {
    let mut anim = TypingAnimator::new();
    let tok = anim.start(7, "hi, you".to_string());
    let mut lens = Vec::new();
    loop {
        match anim.tick(tok) {
            TickEvent::Reveal { id, shown, .. } => {
                assert_eq!(id, 7);
                lens.push(shown.chars().count());
            }
            TickEvent::Done { id } => {
                assert_eq!(id, 7);
                break;
            }
            TickEvent::Silent => panic!("reveal stopped early"),
        }
    }
    assert_eq!(lens, (0..7).collect::<Vec<usize>>());
    assert!(matches!(anim.tick(tok), TickEvent::Silent));
    assert!(!anim.is_active(tok));
}

#[test]
fn reveal_of_empty_text() {
    let mut anim = TypingAnimator::new();
    let tok = anim.start(1, String::new());
    assert!(matches!(anim.tick(tok), TickEvent::Done { id: 1 }));
    assert!(matches!(anim.tick(tok), TickEvent::Silent));
}

#[test]
fn pause_after_punctuation() {
    let mut anim = TypingAnimator::new();
    let tok = anim.start(1, "a, b".to_string());
    let mut delays = Vec::new();
    while let TickEvent::Reveal { delay_ms, .. } = anim.tick(tok) {
        delays.push(delay_ms);
    }
    let slow = TYPING_DELAY_MS + PAUSE_BONUS_MS;
    assert_eq!(slow, 50);
    assert_eq!(delays, vec![30, 30, slow, slow]);
}

#[test]
fn cancelled_reveal_stays_silent() {
    let mut anim = TypingAnimator::new();
    let tok = anim.start(3, "abc".to_string());
    assert!(matches!(anim.tick(tok), TickEvent::Reveal { .. }));
    assert!(anim.cancel(tok));
    assert!(!anim.cancel(tok));
    let other = anim.start(3, "xyz".to_string());
    assert_ne!(other, tok);
    for _ in 0..6 {
        assert!(matches!(anim.tick(tok), TickEvent::Silent));
    }
    assert!(matches!(anim.tick(other), TickEvent::Reveal { .. }));
}

#[test]
fn restart_for_same_message_cancels_first() {
    let mut anim = TypingAnimator::new();
    let first = anim.start(5, "abc".to_string());
    let second = anim.start(5, "de".to_string());
    assert!(!anim.is_active(first));
    assert!(anim.is_active(second));
    assert!(matches!(anim.tick(first), TickEvent::Silent));
}

#[test]
fn shutdown_cancels_reveals_and_releases_transport() {
    let mut chat = connected_session();
    chat.submit("q");
    let tok = chat.on_text_received("answer".to_string());
    assert!(chat.shutdown());
    assert!(chat.on_tick(tok).is_none());
    assert_eq!(chat.messages()[1].displayed, "");
    assert!(matches!(chat.connection_state(), ConnectionState::Disconnected));
    assert!(!chat.shutdown());
}

#[test]
fn log_errors() {
    let mut log = MessageLog::new();
    assert_eq!(log.update_displayed(9, "x".to_string()), Err(LogError::NotFound));
    assert_eq!(log.finish_animation(9), Err(LogError::NotFound));
    let a = log.append(MessageRole::Human, "hi".to_string(), false);
    let p = log.append_placeholder("wait".to_string());
    assert_eq!(p, Ok(1));
    assert_eq!(log.append_placeholder("again".to_string()), Err(LogError::PendingExists));
    assert_eq!(log.len(), 2);
    assert_eq!(a, 0);
    log.remove_pending();
    assert_eq!(log.len(), 1);
    assert!(!log.has_pending());
    log.remove_pending();
    assert_eq!(log.len(), 1);
}

#[test]
fn placeholder_removed_by_flag_not_text() {
    let mut log = MessageLog::new();
    log.append(MessageRole::System, "wait".to_string(), false);
    log.append_placeholder("wait".to_string()).unwrap();
    log.append(MessageRole::Human, "after".to_string(), false);
    log.remove_pending();
    let m = log.messages();
    assert_eq!(m.len(), 2);
    assert_eq!(m[0].content, "wait");
    assert_eq!(m[1].content, "after");
}

#[test]
fn ids_are_unique_and_in_order() {
    let mut log = MessageLog::new();
    let ids: Vec<u64> = (0..5).map(|i| log.append(MessageRole::Human, i.to_string(), false)).collect();
    assert_eq!(ids, vec![0, 1, 2, 3, 4]);
    assert_eq!(log.position(3), Some(3));
    assert_eq!(log.position(10), None);
    assert_eq!(log.ids_left(), u64::MAX - 5);
}

#[test]
fn update_displayed_touches_only_that_message() {
    let mut log = MessageLog::new();
    let a = log.append(MessageRole::Assistant, "hello".to_string(), true);
    let b = log.append(MessageRole::Human, "x".to_string(), false);
    log.update_displayed(a, "he".to_string()).unwrap();
    assert_eq!(log.messages()[0].displayed, "he");
    assert_eq!(log.messages()[0].content, "hello");
    assert_eq!(log.messages()[1].displayed, "x");
    log.finish_animation(a).unwrap();
    assert_eq!(log.messages()[0].displayed, "hello");
    assert!(!log.messages()[0].animated);
    assert_eq!(b, 1);
}

#[test]
fn send_only_when_connected() {
    let mut ws = WebSocketService::new("ws://h");
    assert_eq!(ws.url(), "ws://h");
    assert_eq!(ws.send_text("x"), Err(SendError::NotConnected));
    assert!(!ws.close());
    assert!(!ws.connect());
    assert!(matches!(ws.state(), ConnectionState::Connecting));
    assert_eq!(ws.send_text("x"), Err(SendError::NotConnected));
    ws.opened();
    assert_eq!(ws.send_text("x"), Ok(()));
    ws.errored("boom");
    assert_eq!(ws.send_text("x"), Err(SendError::NotConnected));
    ws.opened();
    assert_eq!(ws.send_text("x"), Err(SendError::NotConnected));
    assert_eq!(ws.state().status_text(), "Error: boom");
    assert!(ws.close());
    assert!(!ws.close());
    assert!(matches!(ws.state(), ConnectionState::Disconnected));
}

#[test]
fn open_only_while_connecting() {
    let mut ws = WebSocketService::new("ws://h");
    ws.opened();
    assert!(matches!(ws.state(), ConnectionState::Disconnected));
    ws.connect();
    ws.opened();
    assert!(matches!(ws.state(), ConnectionState::Connected));
    ws.closed();
    ws.opened();
    assert!(matches!(ws.state(), ConnectionState::Disconnected));
}

#[test]
fn construction_failure_is_errored_state() {
    let mut chat = ChatView::new("bad");
    chat.connect();
    chat.connection_failed("invalid url");
    assert!(matches!(chat.connection_state(), ConnectionState::Errored(r) if r == "invalid url"));
    assert_eq!(chat.messages().len(), 0);
    assert!(!chat.shutdown());
}

#[test]
fn status_texts() {
    assert_eq!(ConnectionState::Disconnected.status_text(), "Disconnected");
    assert_eq!(ConnectionState::Connecting.status_text(), "Connecting...");
    assert_eq!(ConnectionState::Connected.status_text(), "Connected");
}

#[test]
fn indicator_classes() {
    assert_eq!(ConnectionState::Connected.indicator_class(), "status-indicator connected");
    assert_eq!(ConnectionState::Errored("x".to_string()).indicator_class(), "status-indicator error");
    assert_eq!(ConnectionState::Connecting.indicator_class(), "status-indicator disconnected");
    assert_eq!(ConnectionState::Disconnected.indicator_class(), "status-indicator disconnected");
}

#[test]
fn role_presentation() {
    assert_eq!(role_class(MessageRole::Human), "message-human");
    assert_eq!(role_class(MessageRole::Assistant), "message-assistant");
    assert_eq!(role_class(MessageRole::System), "message-system");
    assert_eq!(role_name(MessageRole::Human), "You");
    assert_eq!(role_name(MessageRole::Assistant), "Assistant");
    assert_eq!(role_name(MessageRole::System), "System");
    assert_eq!(container_class(MessageRole::System), "message message-system");
}

#[test]
fn markup_renders_markdown() {
    let mut log = MessageLog::new();
    log.append(MessageRole::Assistant, "a **b** ~~c~~".to_string(), false);
    let html = log.messages()[0].markup();
    assert!(html.contains("<strong>b</strong>"));
    assert!(html.contains("<del>c</del>"));
    assert!(!html.contains("cursor"));
}

#[test]
fn markup_renders_tables() {
    let mut log = MessageLog::new();
    log.append(MessageRole::Assistant, "| a | b |\n|---|---|\n| 1 | 2 |\n".to_string(), false);
    let html = log.messages()[0].markup();
    assert!(html.contains("<table>"));
}

#[test]
fn markup_of_running_reveal_has_cursor() {
    let mut log = MessageLog::new();
    let id = log.append(MessageRole::Assistant, "hello".to_string(), true);
    log.update_displayed(id, "he".to_string()).unwrap();
    let html = log.messages()[0].markup();
    assert!(html.contains("he"));
    assert!(html.ends_with("<span class=\"cursor\">|</span>"));
}

#[test]
fn blank_text_detection() {
    assert!(is_blank_text(""));
    assert!(is_blank_text(" \t\r\n\u{85}\u{2028}"));
    assert!(!is_blank_text(" a "));
    assert!(!is_blank_text("\u{200b}"));
    assert!(send_allowed("x", false));
    assert!(!send_allowed("x", true));
    assert!(!send_allowed("  ", false));
}

#[test]
fn room_for_more() {
    let chat = ChatView::new("u");
    assert!(chat.has_room());
    assert_eq!(chat.url(), "u");
}
