//! The controller: takes what the user submits and what the connection
//! delivers, keeps the log, and drives the typing reveal.

use vstd::prelude::*;
use crate::animator::{
    animator_wf, has_target, has_token, spec_start, spec_tick, token_index, AnimationView,
    AnimatorView, TickEvent, TickView, TypingAnimator,
};
use crate::connection::{ConnectionState, ConnectionView, ServiceView, WebSocketMessage, WebSocketService};
use crate::log::{
    displayed_set, has_id, has_pending, lemma_id_at, log_wf, message_is, pending_removed,
    reveal_finished, LogView, MessageLog,
};
use crate::message::{MessageData, MessageRole};

verus! {

/// Whether a reply is awaited.
#[derive(Clone, Copy, PartialEq, Eq, Debug, Structural)]
pub enum ControllerState {
    Idle,
    AwaitingReply,
}

/// What became of a submission.
pub enum SubmitOutcome {
    /// Blank text, or a reply is still awaited: nothing changed.
    Ignored,
    /// The text was logged and has to be sent as it is.
    Transmit(String),
    /// The text was logged and a reply is awaited, but the connection is
    /// not open, so nothing can be sent.
    NotConnected,
}

/// White space in the sense of Unicode's White_Space property.
pub open spec fn is_space(c: char) -> bool {
    let u = c as u32;
    (0x9 <= u && u <= 0xd) || u == 0x20 || u == 0x85 || u == 0xa0 || u == 0x1680 || (0x2000 <= u
        && u <= 0x200a) || u == 0x2028 || u == 0x2029 || u == 0x202f || u == 0x205f || u == 0x3000
}

/// Empty, or white space only.
pub open spec fn is_blank(s: Seq<char>) -> bool {
    forall|i: int| 0 <= i < s.len() ==> is_space(#[trigger] s[i])
}

/// Text of the placeholder that stands for an awaited reply.
pub open spec fn placeholder_text() -> Seq<char> {
    "Waiting for a reply..."@
}

/// Text of the message logged for an error.
pub open spec fn error_text(reason: Seq<char>) -> Seq<char> {
    "Error: "@ + reason
}

fn is_space_char(c: char) -> (r: bool)
    ensures
        r == is_space(c),
{
    let u = c as u32;
    (0x9 <= u && u <= 0xd) || u == 0x20 || u == 0x85 || u == 0xa0 || u == 0x1680 || (0x2000 <= u
        && u <= 0x200a) || u == 0x2028 || u == 0x2029 || u == 0x202f || u == 0x205f || u == 0x3000
}

/// Whether `text` is empty or white space only.
pub fn is_blank_text(text: &str) -> (r: bool)
    ensures
        r == is_blank(text@),
{
    let n = text.unicode_len();
    let mut i: usize = 0;
    while i < n
        invariant
            n == text@.len(),
            i <= n,
            forall|j: int| 0 <= j < i ==> is_space(#[trigger] text@[j]),
        decreases n - i,
    {
        if !is_space_char(text.get_char(i)) {
            return false;
        }
        i = i + 1;
    }
    true
}

/// Whether the input box may send `value`: it is enabled and the value is
/// not blank.
pub fn send_allowed(value: &str, disabled: bool) -> (r: bool)
    ensures
        r == (!disabled && !is_blank(value@)),
{
    !disabled && !is_blank_text(value)
}

/// Whether a key press sends the input: Enter without Shift.
pub open spec fn spec_key_sends(key: Seq<char>, shift: bool) -> bool {
    key == "Enter"@ && !shift
}

/// Whether a key press sends the input: Enter without Shift.
pub fn key_sends(key: &str, shift: bool) -> (r: bool)
    ensures
        r == spec_key_sends(key@, shift),
{
    let enter = "Enter";
    proof {
        reveal_strlit("Enter");
    }
    if shift || key.unicode_len() != 5 {
        return false;
    }
    let mut i: usize = 0;
    while i < 5
        invariant
            key@.len() == 5,
            enter@ == "Enter"@,
            enter@.len() == 5,
            !shift,
            i <= 5,
            forall|j: int| 0 <= j < i ==> key@[j] == enter@[j],
        decreases 5 - i,
    {
        if key.get_char(i) != enter.get_char(i) {
            assert(key@[i as int] != enter@[i as int]);
            return false;
        }
        i = i + 1;
    }
    assert(key@ =~= enter@);
    true
}

fn error_message(reason: &str) -> (r: String)
    ensures
        r@ == error_text(reason@),
{
    let mut r = String::from_str("Error: ");
    r.append(reason);
    r
}

/// `m` shows a prefix of its content.
pub open spec fn shows_prefix(m: MessageData) -> bool {
    m.displayed@.len() <= m.content@.len() && m.displayed@ == m.content@.take(m.displayed@.len() as int)
}

/// Every message shows a prefix of its content.
pub open spec fn displays_prefix(s: Seq<MessageData>) -> bool {
    forall|i: int| 0 <= i < s.len() ==> shows_prefix(#[trigger] s[i])
}

/// How much of its text a reveal has shown so far.
pub open spec fn shown_len(a: AnimationView) -> int {
    if a.ticks == 0 {
        0
    } else {
        a.ticks - 1
    }
}

/// `m` is the message that the reveal `a` writes into: an animated
/// Assistant message whose content is the text of the reveal and which
/// shows what the reveal has shown.
pub open spec fn reveal_target(m: MessageData, a: AnimationView) -> bool {
    &&& m.id == a.id
    &&& m.role == MessageRole::Assistant
    &&& !m.pending
    &&& m.animated
    &&& m.content@ == a.text
    &&& m.displayed@ == a.text.take(shown_len(a))
}

/// A running reveal has shown a strict prefix of its text, unless the text
/// is empty and it has not had its first tick.
pub open spec fn reveal_running(a: AnimationView) -> bool {
    a.text.len() == 0 || shown_len(a) < a.text.len()
}

pub open spec fn has_target_message(s: Seq<MessageData>, a: AnimationView) -> bool {
    exists|i: int| 0 <= i < s.len() && reveal_target(s[i], a)
}

/// The session invariant: the log and the reveals are well formed (unique
/// ids below the next one, at most one placeholder), a placeholder is in the
/// log exactly while a reply is awaited, every message shows a prefix of its
/// content, and every running reveal has shown a strict prefix of its text
/// and writes into a message of the log, which shows that prefix.
pub open spec fn session_wf(
    s: Seq<MessageData>,
    next_id: u64,
    state: ControllerState,
    v: AnimatorView,
) -> bool {
    &&& log_wf(LogView { messages: s, next_id })
    &&& animator_wf(v)
    &&& has_pending(s) <==> state == ControllerState::AwaitingReply
    &&& displays_prefix(s)
    &&& forall|k: int| 0 <= k < v.active.len() ==> reveal_running(#[trigger] v.active[k])
    &&& forall|k: int| 0 <= k < v.active.len() ==> has_target_message(s, #[trigger] v.active[k])
}

/// Appending a message that shows all or nothing of its content keeps
/// every message and reveal target in place; appending a non-pending one
/// adds no placeholder.
proof fn lemma_extend(o: Seq<MessageData>, n: Seq<MessageData>, v: AnimatorView)
    requires
        n.len() == o.len() + 1,
        n.take(o.len() as int) == o,
        n.last().displayed@ == n.last().content@ || n.last().displayed@.len() == 0,
        displays_prefix(o),
        forall|k: int| 0 <= k < v.active.len() ==> has_target_message(o, #[trigger] v.active[k]),
    ensures
        displays_prefix(n),
        forall|k: int| 0 <= k < v.active.len() ==> has_target_message(n, #[trigger] v.active[k]),
        !n.last().pending ==> (has_pending(n) == has_pending(o)),
{
    let m = n.last();
    assert(m.content@.take(m.content@.len() as int) =~= m.content@);
    assert(m.content@.take(0) =~= m.displayed@ || m.displayed@ == m.content@);
    assert(shows_prefix(m));
    assert forall|i: int| 0 <= i < o.len() implies n[i] == o[i] by {
        assert(n.take(o.len() as int)[i] == n[i]);
    }
    assert forall|k: int| 0 <= k < v.active.len() implies has_target_message(n, #[trigger] v.active[k]) by {
        assert(has_target_message(o, v.active[k]));
        let i = choose|i: int| 0 <= i < o.len() && reveal_target(o[i], v.active[k]);
        assert(reveal_target(n[i], v.active[k]));
    }
    if !m.pending {
        if has_pending(o) {
            let i = choose|i: int| 0 <= i < o.len() && o[i].pending;
            assert(n[i].pending);
        }
        if has_pending(n) {
            let i = choose|i: int| 0 <= i < n.len() && n[i].pending;
            assert(o[i].pending);
        }
    }
}

/// Removing the placeholder keeps every other message and every reveal
/// target.
proof fn lemma_drop_pending(o: Seq<MessageData>, n: Seq<MessageData>, v: AnimatorView)
    requires
        pending_removed(o, n),
        displays_prefix(o),
        forall|k: int| 0 <= k < v.active.len() ==> has_target_message(o, #[trigger] v.active[k]),
    ensures
        displays_prefix(n),
        forall|k: int| 0 <= k < v.active.len() ==> has_target_message(n, #[trigger] v.active[k]),
{
    if has_pending(o) {
        let p = choose|p: int| 0 <= p < o.len() && o[p].pending;
        assert(n == o.remove(p));
        assert forall|i: int| 0 <= i < n.len() implies shows_prefix(#[trigger] n[i]) by {
            if i >= p {
                assert(n[i] == o[i + 1]);
            }
        }
        assert forall|k: int| 0 <= k < v.active.len() implies has_target_message(n, #[trigger] v.active[k]) by {
            assert(has_target_message(o, v.active[k]));
            let i = choose|i: int| 0 <= i < o.len() && reveal_target(o[i], v.active[k]);
            if i < p {
                assert(reveal_target(n[i], v.active[k]));
            } else {
                assert(i != p);
                assert(n[i - 1] == o[i]);
                assert(reveal_target(n[i - 1], v.active[k]));
            }
        }
    }
}

/// The message that a running reveal writes into is in the log.
proof fn lemma_tick_target(o: Seq<MessageData>, v: AnimatorView, t: nat)
    requires
        has_token(v.active, t),
        forall|k: int| 0 <= k < v.active.len() ==> has_target_message(o, #[trigger] v.active[k]),
    ensures
        has_id(o, v.active[token_index(v.active, t)].id),
{
    let ti = token_index(v.active, t);
    assert(has_target_message(o, v.active[ti]));
    let i = choose|i: int| 0 <= i < o.len() && reveal_target(o[i], v.active[ti]);
    assert(o[i].id == v.active[ti].id);
}

/// A tick that reveals a prefix or completes a reveal, applied to its
/// message, keeps the session invariant.
proof fn lemma_tick_keeps(
    o: Seq<MessageData>,
    n: Seq<MessageData>,
    next_id: u64,
    state: ControllerState,
    v: AnimatorView,
    t: nat,
)
    requires
        session_wf(o, next_id, state, v),
        has_token(v.active, t),
        match spec_tick(v, t).1 {
            TickView::Reveal { id, shown, delay_ms } => displayed_set(o, n, id, shown),
            TickView::Done { id } => reveal_finished(o, n, id),
            TickView::Silent => n == o,
        },
    ensures
        session_wf(n, next_id, state, spec_tick(v, t).0),
{
    let ti = token_index(v.active, t);
    let a = v.active[ti];
    let (w, e) = spec_tick(v, t);
    assert(has_target_message(o, a));
    let mi = choose|i: int| 0 <= i < o.len() && reveal_target(o[i], a);
    lemma_id_at(o, mi, a.id);
    assert(n.len() == o.len());
    assert forall|i: int| i != mi && 0 <= i < o.len() implies n[i] == o[i] by {}
    assert forall|k: int| 0 <= k < v.active.len() && k != ti implies v.active[k].id != a.id by {
        if k < ti {
            assert(v.active[k].id != v.active[ti].id);
        } else {
            assert(v.active[ti].id != v.active[k].id);
        }
    }
    assert(a.ticks <= a.text.len());
    assert(e is Reveal || e is Done);
    assert forall|i: int, j: int| 0 <= i < j < n.len() implies n[i].id != n[j].id by {
        assert(o[i].id != o[j].id);
    }
    assert forall|i: int| 0 <= i < n.len() implies (#[trigger] n[i]).id < next_id by {
        assert(o[i].id < next_id);
    }
    assert(has_pending(n) == has_pending(o)) by {
        if has_pending(o) {
            let i = choose|i: int| 0 <= i < o.len() && o[i].pending;
            assert(n[i].pending);
        }
        if has_pending(n) {
            let i = choose|i: int| 0 <= i < n.len() && n[i].pending;
            assert(o[i].pending);
        }
    }
    assert forall|i: int, j: int| 0 <= i < n.len() && 0 <= j < n.len() && n[i].pending && n[j].pending implies i == j by {
        assert(o[i].pending && o[j].pending);
    }
    assert forall|i: int| 0 <= i < n.len() implies shows_prefix(#[trigger] n[i]) by {
        if i == mi {
            assert(shows_prefix(o[i]));
            if e is Reveal {
                assert(n[i].displayed@ == a.text.take(a.ticks as int));
                assert(n[i].displayed@.len() == a.ticks);
                assert(a.text.take(a.ticks as int) =~= n[i].content@.take(a.ticks as int));
            } else {
                assert(n[i].content@.take(n[i].content@.len() as int) =~= n[i].content@);
            }
        }
    }
    assert forall|k: int| 0 <= k < w.active.len() implies has_target_message(n, #[trigger] w.active[k]) by {
        if e is Reveal {
            if k == ti {
                assert(reveal_target(n[mi], w.active[k]));
            } else {
                assert(w.active[k] == v.active[k]);
                assert(has_target_message(o, v.active[k]));
                let j = choose|j: int| 0 <= j < o.len() && reveal_target(o[j], v.active[k]);
                assert(j != mi);
                assert(reveal_target(n[j], w.active[k]));
            }
        } else {
            let k2 = if k < ti { k } else { k + 1 };
            assert(w.active[k] == v.active[k2]);
            assert(has_target_message(o, v.active[k2]));
            let j = choose|j: int| 0 <= j < o.len() && reveal_target(o[j], v.active[k2]);
            assert(j != mi);
            assert(reveal_target(n[j], w.active[k]));
        }
    }
}

/// From `o` to `n`, the placeholder was removed, the error `reason` was
/// logged as a System message, the session went idle and running reveals
/// went on.
pub open spec fn error_logged(o: ChatView, n: ChatView, reason: Seq<char>) -> bool {
    &&& n.animations() == o.animations()
    &&& n.controller_state() == ControllerState::Idle
    &&& !has_pending(n.log_messages())
    &&& pending_removed(o.log_messages(), n.log_messages().drop_last())
    &&& n.log_messages().len() > 0
    &&& message_is(n.log_messages().last(), o.ids_issued(), MessageRole::System,
        error_text(reason), error_text(reason), false, false)
    &&& n.ids_issued() == o.ids_issued() + 1
}

/// The chat session: the log, the running reveals, the connection and
/// whether a reply is awaited.
pub struct ChatView {
    log: MessageLog,
    animator: TypingAnimator,
    service: WebSocketService,
    state: ControllerState,
}

impl ChatView {
    pub closed spec fn log_messages(&self) -> Seq<MessageData> {
        self.log@.messages
    }

    /// How many message ids were handed out.
    pub closed spec fn ids_issued(&self) -> u64 {
        self.log@.next_id
    }

    pub closed spec fn controller_state(&self) -> ControllerState {
        self.state
    }

    pub closed spec fn animations(&self) -> AnimatorView {
        self.animator@
    }

    pub closed spec fn connection(&self) -> ServiceView {
        self.service@
    }

    pub closed spec fn parts_ok(&self) -> bool {
        self.animator.entries_ok()
    }

    /// The session invariant over what the session holds.
    pub open spec fn wf(&self) -> bool {
        &&& session_wf(self.log_messages(), self.ids_issued(), self.controller_state(), self.animations())
        &&& self.parts_ok()
    }

    /// A session for the service at `url`: empty log, idle, not connected.
    pub fn new(url: &str) -> (r: ChatView)
        ensures
            r.wf(),
            r.log_messages() == Seq::<MessageData>::empty(),
            r.ids_issued() == 0,
            r.controller_state() == ControllerState::Idle,
            r.connection() == (ServiceView { url: url@, state: ConnectionView::Disconnected, attached: false }),
            r.animations().active == Seq::<AnimationView>::empty(),
            r.animations().next_token == 0,
    {
        ChatView {
            log: MessageLog::new(),
            animator: TypingAnimator::new(),
            service: WebSocketService::new(url),
            state: ControllerState::Idle,
        }
    }

    /// The messages in order.
    pub fn messages(&self) -> (r: &[MessageData])
        ensures
            r@ == self.log_messages(),
    {
        self.log.messages()
    }

    pub fn state(&self) -> (r: ControllerState)
        ensures
            r == self.controller_state(),
    {
        self.state
    }

    pub fn connection_state(&self) -> (r: &ConnectionState)
        ensures
            r@ == self.connection().state,
    {
        self.service.state()
    }

    pub fn url(&self) -> (r: &str)
        ensures
            r@ == self.connection().url,
    {
        self.service.url()
    }

    /// Whether ids and tokens are left for a submission and a reply.
    pub fn has_room(&self) -> (r: bool)
        ensures
            r == (self.ids_issued() + 2 <= u64::MAX && self.animations().next_token < u64::MAX),
    {
        self.log.ids_left() >= 2 && self.animator.tokens_left() >= 1
    }

    /// The user submits `text`. Blank text, or text submitted while a reply
    /// is awaited, changes nothing. Otherwise the text is logged as a Human
    /// message, a placeholder follows it and a reply is awaited. With the
    /// connection open the text is handed back to be sent; without, the
    /// outcome says so, and the caller reports it through `on_errored`.
    pub fn submit(&mut self, text: &str) -> (r: SubmitOutcome)
        requires
            old(self).wf(),
            old(self).ids_issued() + 2 <= u64::MAX,
        ensures
            final(self).wf(),
            final(self).connection() == old(self).connection(),
            final(self).animations() == old(self).animations(),
            is_blank(text@) || old(self).controller_state() == ControllerState::AwaitingReply ==> {
                &&& r is Ignored
                &&& final(self).log_messages() == old(self).log_messages()
                &&& final(self).ids_issued() == old(self).ids_issued()
                &&& final(self).controller_state() == old(self).controller_state()
            },
            !is_blank(text@) && old(self).controller_state() == ControllerState::Idle ==> {
                let o = old(self).log_messages();
                let n = final(self).log_messages();
                let id = old(self).ids_issued();
                &&& n.len() == o.len() + 2
                &&& n.take(o.len() as int) == o
                &&& message_is(n[o.len() as int], id, MessageRole::Human, text@, text@, false, false)
                &&& message_is(n[o.len() + 1int], (id + 1) as u64, MessageRole::System,
                    placeholder_text(), placeholder_text(), false, true)
                &&& final(self).ids_issued() == id + 2
                &&& final(self).controller_state() == ControllerState::AwaitingReply
                &&& old(self).connection().state is Connected ==> (r matches SubmitOutcome::Transmit(t)
                    && t@ == text@)
                &&& !(old(self).connection().state is Connected) ==> r is NotConnected
            },
    {
        if self.state == ControllerState::AwaitingReply || is_blank_text(text) {
            return SubmitOutcome::Ignored;
        }
        let ghost o = self.log@.messages;
        self.log.append(MessageRole::Human, String::from_str(text), false);
        let ghost m1 = self.log@.messages;
        proof {
            lemma_extend(o, m1, self.animator@);
        }
        let _ = self.log.append_placeholder(String::from_str("Waiting for a reply..."));
        self.state = ControllerState::AwaitingReply;
        proof {
            let n = self.log@.messages;
            lemma_extend(m1, n, self.animator@);
            assert(n[n.len() - 1].pending);
            assert(n.take(o.len() as int) =~= o) by {
                assert(n.take(m1.len() as int) == m1);
                assert(m1.take(o.len() as int) == o);
            }
            assert(n[o.len() as int] == m1[o.len() as int]) by {
                assert(n.take(m1.len() as int) == m1);
            }
        }
        match self.service.send_text(text) {
            Ok(()) => SubmitOutcome::Transmit(String::from_str(text)),
            Err(_) => SubmitOutcome::NotConnected,
        }
    }

    /// The reply `text` arrived: the placeholder goes, the text is logged as
    /// an animated Assistant message, its reveal starts, and the session is
    /// idle. Returns the token of the reveal.
    pub fn on_text_received(&mut self, text: String) -> (token: u64)
        requires
            old(self).wf(),
            old(self).ids_issued() < u64::MAX,
            old(self).animations().next_token < u64::MAX,
        ensures
            final(self).wf(),
            final(self).connection() == old(self).connection(),
            final(self).controller_state() == ControllerState::Idle,
            !has_pending(final(self).log_messages()),
            pending_removed(old(self).log_messages(), final(self).log_messages().drop_last()),
            final(self).log_messages().len() > 0,
            message_is(final(self).log_messages().last(), old(self).ids_issued(),
                MessageRole::Assistant, text@, Seq::empty(), true, false),
            final(self).ids_issued() == old(self).ids_issued() + 1,
            token == old(self).animations().next_token,
            final(self).animations() == spec_start(old(self).animations(), old(self).ids_issued(), text@),
    {
        let ghost v = self.animator@;
        self.log.remove_pending();
        let ghost m1 = self.log@.messages;
        proof {
            lemma_drop_pending(old(self).log@.messages, m1, v);
        }
        let reveal = text.clone();
        let id = self.log.append(MessageRole::Assistant, text, true);
        proof {
            let n = self.log@.messages;
            lemma_extend(m1, n, v);
            assert(n.drop_last() =~= n.take(m1.len() as int));
            assert forall|k: int| 0 <= k < v.active.len() implies v.active[k].id != id by {
                assert(has_target_message(m1, v.active[k]));
                let i = choose|i: int| 0 <= i < m1.len() && reveal_target(m1[i], v.active[k]);
                assert(m1[i].id < id);
            }
            assert(!has_target(v.active, id));
        }
        let token = self.animator.start(id, reveal);
        self.state = ControllerState::Idle;
        proof {
            let n = self.log@.messages;
            let w = self.animator@;
            assert(w.active == v.active.push(w.active.last()));
            assert forall|k: int| 0 <= k < w.active.len() implies has_target_message(n, #[trigger] w.active[k]) by {
                if k < v.active.len() {
                    assert(w.active[k] == v.active[k]);
                } else {
                    assert(reveal_target(n[n.len() - 1], w.active[k]));
                }
            }
        }
        token
    }

    /// Removes the placeholder, logs the error `reason` and goes idle.
    fn log_error(&mut self, reason: &str)
        requires
            old(self).wf(),
            old(self).ids_issued() < u64::MAX,
        ensures
            final(self).wf(),
            final(self).connection() == old(self).connection(),
            error_logged(*old(self), *final(self), reason@),
    {
        self.log.remove_pending();
        let ghost m1 = self.log@.messages;
        proof {
            lemma_drop_pending(old(self).log@.messages, m1, self.animator@);
        }
        self.log.append(MessageRole::System, error_message(reason), false);
        self.state = ControllerState::Idle;
        proof {
            let n = self.log@.messages;
            lemma_extend(m1, n, self.animator@);
            assert(n.drop_last() =~= n.take(m1.len() as int));
        }
    }

    /// The connection reported `reason`: the connection state is `Errored`,
    /// the placeholder goes, an error message is logged and the session is
    /// idle. Running reveals go on.
    pub fn on_errored(&mut self, reason: &str)
        requires
            old(self).wf(),
            old(self).ids_issued() < u64::MAX,
        ensures
            final(self).wf(),
            final(self).connection() == (ServiceView {
                url: old(self).connection().url,
                state: ConnectionView::Errored(reason@),
                attached: old(self).connection().attached,
            }),
            error_logged(*old(self), *final(self), reason@),
    {
        self.service.errored(reason);
        self.log_error(reason);
    }

    /// The submitted text could not be sent for `reason` (the connection was
    /// not open, or the transport refused it): the placeholder goes, an
    /// error message is logged and the session is idle. The connection
    /// state does not change.
    pub fn on_send_failed(&mut self, reason: &str)
        requires
            old(self).wf(),
            old(self).ids_issued() < u64::MAX,
        ensures
            final(self).wf(),
            final(self).connection() == old(self).connection(),
            error_logged(*old(self), *final(self), reason@),
    {
        self.log_error(reason);
    }

    /// A message came over the connection: text is a reply, an error report
    /// is handled as an error. Returns the token of the reveal of a reply.
    pub fn on_message(&mut self, message: WebSocketMessage) -> (r: Option<u64>)
        requires
            old(self).wf(),
            old(self).ids_issued() < u64::MAX,
            old(self).animations().next_token < u64::MAX,
        ensures
            final(self).wf(),
            final(self).controller_state() == ControllerState::Idle,
            !has_pending(final(self).log_messages()),
            pending_removed(old(self).log_messages(), final(self).log_messages().drop_last()),
            final(self).ids_issued() == old(self).ids_issued() + 1,
            final(self).log_messages().len() > 0,
            message matches WebSocketMessage::Text(t) ==> {
                &&& r matches Some(k) && k == old(self).animations().next_token
                &&& message_is(final(self).log_messages().last(), old(self).ids_issued(),
                    MessageRole::Assistant, t@, Seq::empty(), true, false)
                &&& final(self).animations() == spec_start(old(self).animations(), old(self).ids_issued(), t@)
                &&& final(self).connection() == old(self).connection()
            },
            message matches WebSocketMessage::Error(e) ==> {
                &&& r is None
                &&& message_is(final(self).log_messages().last(), old(self).ids_issued(),
                    MessageRole::System, error_text(e@), error_text(e@), false, false)
                &&& final(self).animations() == old(self).animations()
                &&& final(self).connection().state == ConnectionView::Errored(e@)
            },
    {
        match message {
            WebSocketMessage::Text(t) => Some(self.on_text_received(t)),
            WebSocketMessage::Error(e) => {
                self.on_errored(e.as_str());
                None
            },
        }
    }

    /// A transport is being built for the session.
    pub fn connect(&mut self) -> (r: bool)
        requires
            old(self).wf(),
        ensures
            final(self).wf(),
            r == old(self).connection().attached,
            final(self).connection() == (ServiceView {
                url: old(self).connection().url,
                state: ConnectionView::Connecting,
                attached: true,
            }),
            final(self).log_messages() == old(self).log_messages(),
            final(self).ids_issued() == old(self).ids_issued(),
            final(self).animations() == old(self).animations(),
            final(self).controller_state() == old(self).controller_state(),
    {
        self.service.connect()
    }

    /// The transport could not be built: only the connection state changes.
    pub fn connection_failed(&mut self, reason: &str)
        requires
            old(self).wf(),
        ensures
            final(self).wf(),
            final(self).connection() == (ServiceView {
                url: old(self).connection().url,
                state: ConnectionView::Errored(reason@),
                attached: false,
            }),
            final(self).log_messages() == old(self).log_messages(),
            final(self).ids_issued() == old(self).ids_issued(),
            final(self).animations() == old(self).animations(),
            final(self).controller_state() == old(self).controller_state(),
    {
        self.service.construction_failed(reason)
    }

    /// The transport opened: only the connection state changes, and only
    /// while connecting.
    pub fn on_opened(&mut self)
        requires
            old(self).wf(),
        ensures
            final(self).wf(),
            old(self).connection().state is Connecting ==> final(self).connection() == (ServiceView {
                url: old(self).connection().url,
                state: ConnectionView::Connected,
                attached: old(self).connection().attached,
            }),
            !(old(self).connection().state is Connecting) ==> final(self).connection() == old(self).connection(),
            final(self).log_messages() == old(self).log_messages(),
            final(self).ids_issued() == old(self).ids_issued(),
            final(self).animations() == old(self).animations(),
            final(self).controller_state() == old(self).controller_state(),
    {
        self.service.opened()
    }

    /// The transport closed: only the connection state changes.
    pub fn on_closed(&mut self)
        requires
            old(self).wf(),
        ensures
            final(self).wf(),
            final(self).connection() == (ServiceView {
                url: old(self).connection().url,
                state: ConnectionView::Disconnected,
                attached: old(self).connection().attached,
            }),
            final(self).log_messages() == old(self).log_messages(),
            final(self).ids_issued() == old(self).ids_issued(),
            final(self).animations() == old(self).animations(),
            final(self).controller_state() == old(self).controller_state(),
    {
        self.service.closed()
    }

    /// A tick of the reveal `token` fired. A prefix it reports becomes the
    /// displayed text of its message, and the delay before the next tick is
    /// returned; a completion shows the whole content and ends the message's
    /// animation. A tick of a reveal that no longer runs changes nothing.
    pub fn on_tick(&mut self, token: u64) -> (r: Option<u64>)
        requires
            old(self).wf(),
        ensures
            final(self).wf(),
            final(self).connection() == old(self).connection(),
            final(self).controller_state() == old(self).controller_state(),
            final(self).ids_issued() == old(self).ids_issued(),
            ({
                let o = old(self).log_messages();
                let n = final(self).log_messages();
                let (a, e) = spec_tick(old(self).animations(), token as nat);
                &&& final(self).animations() == a
                &&& match e {
                    TickView::Reveal { id, shown, delay_ms } => {
                        &&& displayed_set(o, n, id, shown)
                        &&& r == Some(delay_ms)
                    },
                    TickView::Done { id } => {
                        &&& reveal_finished(o, n, id)
                        &&& r is None
                    },
                    TickView::Silent => {
                        &&& n == o
                        &&& r is None
                    },
                }
            }),
    {
        let ghost o = self.log@.messages;
        let ghost v = self.animator@;
        let e = self.animator.tick(token);
        proof {
            if has_token(v.active, token as nat) {
                lemma_tick_target(o, v, token as nat);
            }
        }
        match e {
            TickEvent::Reveal { id, shown, delay_ms } => {
                let _ = self.log.update_displayed(id, shown);
                proof {
                    lemma_tick_keeps(o, self.log@.messages, self.log@.next_id, self.state, v, token as nat);
                }
                Some(delay_ms)
            },
            TickEvent::Done { id } => {
                let _ = self.log.finish_animation(id);
                proof {
                    lemma_tick_keeps(o, self.log@.messages, self.log@.next_id, self.state, v, token as nat);
                }
                None
            },
            TickEvent::Silent => None,
        }
    }

    /// Ends the session: every reveal is cancelled and the connection torn
    /// down. Returns whether a transport was held and has to be released.
    pub fn shutdown(&mut self) -> (r: bool)
        requires
            old(self).wf(),
        ensures
            final(self).wf(),
            r == old(self).connection().attached,
            final(self).animations().active == Seq::<AnimationView>::empty(),
            final(self).animations().next_token == old(self).animations().next_token,
            r ==> final(self).connection() == (ServiceView {
                url: old(self).connection().url,
                state: ConnectionView::Disconnected,
                attached: false,
            }),
            !r ==> final(self).connection() == old(self).connection(),
            final(self).log_messages() == old(self).log_messages(),
            final(self).ids_issued() == old(self).ids_issued(),
            final(self).controller_state() == old(self).controller_state(),
    {
        self.animator.cancel_all();
        self.service.close()
    }
}

} // verus!
