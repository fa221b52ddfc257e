//! The ordered message log with its single pending placeholder.

use vstd::prelude::*;
use crate::message::{MessageData, MessageRole};

verus! {

/// Why a log operation was refused.
#[derive(Clone, Copy, PartialEq, Eq, Debug, Structural)]
pub enum LogError {
    /// No message carries the given id.
    NotFound,
    /// A pending placeholder is already in the log.
    PendingExists,
}

/// The log as a value: its messages in order, and the next id to hand out.
pub struct LogView {
    pub messages: Seq<MessageData>,
    pub next_id: u64,
}

pub open spec fn ids_unique(s: Seq<MessageData>) -> bool {
    forall|i: int, j: int| 0 <= i < j < s.len() ==> s[i].id != s[j].id
}

pub open spec fn at_most_one_pending(s: Seq<MessageData>) -> bool {
    forall|i: int, j: int| 0 <= i < s.len() && 0 <= j < s.len() && s[i].pending && s[j].pending ==> i == j
}

pub open spec fn has_pending(s: Seq<MessageData>) -> bool {
    exists|i: int| 0 <= i < s.len() && s[i].pending
}

pub open spec fn has_id(s: Seq<MessageData>, id: u64) -> bool {
    exists|i: int| 0 <= i < s.len() && s[i].id == id
}

pub open spec fn log_wf(v: LogView) -> bool {
    &&& ids_unique(v.messages)
    &&& at_most_one_pending(v.messages)
    &&& forall|i: int| 0 <= i < v.messages.len() ==> (#[trigger] v.messages[i]).id < v.next_id
}

/// `m` carries exactly these fields.
pub open spec fn message_is(
    m: MessageData,
    id: u64,
    role: MessageRole,
    content: Seq<char>,
    displayed: Seq<char>,
    animated: bool,
    pending: bool,
) -> bool {
    &&& m.id == id
    &&& m.role == role
    &&& m.content@ == content
    &&& m.displayed@ == displayed
    &&& m.animated == animated
    &&& m.pending == pending
}

/// `new` is `old` with one message appended at the tail.
pub open spec fn appended(old: Seq<MessageData>, new: Seq<MessageData>) -> bool {
    new.len() == old.len() + 1 && new.take(old.len() as int) == old
}

/// `new` is `old` with the displayed text of the message `id` set to `text`.
pub open spec fn displayed_set(
    old: Seq<MessageData>,
    new: Seq<MessageData>,
    id: u64,
    text: Seq<char>,
) -> bool {
    &&& new.len() == old.len()
    &&& forall|i: int|
        0 <= i < old.len() ==> if old[i].id == id {
            message_is(
                #[trigger] new[i],
                id,
                old[i].role,
                old[i].content@,
                text,
                old[i].animated,
                old[i].pending,
            )
        } else {
            new[i] == old[i]
        }
}

/// `new` is `old` with the message `id` showing its whole content and no
/// longer animated.
pub open spec fn reveal_finished(old: Seq<MessageData>, new: Seq<MessageData>, id: u64) -> bool {
    &&& new.len() == old.len()
    &&& forall|i: int|
        0 <= i < old.len() ==> if old[i].id == id {
            message_is(
                #[trigger] new[i],
                id,
                old[i].role,
                old[i].content@,
                old[i].content@,
                false,
                old[i].pending,
            )
        } else {
            new[i] == old[i]
        }
}

/// `new` is `old` without its pending placeholder, if it had one.
pub open spec fn pending_removed(old: Seq<MessageData>, new: Seq<MessageData>) -> bool {
    &&& !has_pending(old) ==> new == old
    &&& forall|i: int| 0 <= i < old.len() && old[i].pending ==> new == old.remove(i)
}

/// In a log with unique ids, `i` is the only index that holds `id`.
pub proof fn lemma_id_at(s: Seq<MessageData>, i: int, id: u64)
    requires
        ids_unique(s),
        0 <= i < s.len(),
        s[i].id == id,
    ensures
        forall|k: int| 0 <= k < s.len() && s[k].id == id ==> k == i,
{
    assert forall|k: int| 0 <= k < s.len() && s[k].id == id implies k == i by {
        if k < i {
            assert(s[k].id != s[i].id);
        } else if k > i {
            assert(s[i].id != s[k].id);
        }
    }
}

/// The ordered log of messages.
pub struct MessageLog {
    messages: Vec<MessageData>,
    next_id: u64,
}

impl View for MessageLog {
    type V = LogView;

    closed spec fn view(&self) -> LogView {
        LogView { messages: self.messages@, next_id: self.next_id }
    }
}

impl MessageLog {
    pub open spec fn wf(&self) -> bool {
        log_wf(self@)
    }

    /// An empty log.
    pub fn new() -> (r: MessageLog)
        ensures
            r.wf(),
            r@.messages == Seq::<MessageData>::empty(),
            r@.next_id == 0,
    {
        MessageLog { messages: Vec::new(), next_id: 0 }
    }

    /// The messages in order.
    pub fn messages(&self) -> (r: &[MessageData])
        ensures
            r@ == self@.messages,
    {
        self.messages.as_slice()
    }

    pub fn len(&self) -> (r: usize)
        ensures
            r == self@.messages.len(),
    {
        self.messages.len()
    }

    /// How many ids are still free.
    pub fn ids_left(&self) -> (r: u64)
        ensures
            r == u64::MAX - self@.next_id,
    {
        u64::MAX - self.next_id
    }

    /// Index of the message `id`, if there is one.
    pub fn position(&self, id: u64) -> (r: Option<usize>)
        requires
            self.wf(),
        ensures
            r is None <==> !has_id(self@.messages, id),
            r matches Some(i) ==> i < self@.messages.len() && self@.messages[i as int].id == id,
    {
        let mut i: usize = 0;
        while i < self.messages.len()
            invariant
                i <= self.messages@.len(),
                forall|j: int| 0 <= j < i ==> self.messages@[j].id != id,
            decreases self.messages@.len() - i,
        {
            if self.messages[i].id == id {
                return Some(i);
            }
            i = i + 1;
        }
        None
    }

    /// Index of the pending placeholder, if there is one.
    fn pending_position(&self) -> (r: Option<usize>)
        ensures
            r is None <==> !has_pending(self@.messages),
            r matches Some(i) ==> i < self@.messages.len() && self@.messages[i as int].pending,
    {
        let mut i: usize = 0;
        while i < self.messages.len()
            invariant
                i <= self.messages@.len(),
                forall|j: int| 0 <= j < i ==> !self.messages@[j].pending,
            decreases self.messages@.len() - i,
        {
            if self.messages[i].pending {
                return Some(i);
            }
            i = i + 1;
        }
        None
    }

    /// Whether a reply placeholder is in the log.
    pub fn has_pending(&self) -> (r: bool)
        ensures
            r == has_pending(self@.messages),
    {
        self.pending_position().is_some()
    }

    fn push_record(&mut self, m: MessageData) -> (id: u64)
        requires
            old(self).wf(),
            old(self)@.next_id < u64::MAX,
            m.id == old(self)@.next_id,
            m.pending ==> !has_pending(old(self)@.messages),
        ensures
            final(self).wf(),
            id == old(self)@.next_id,
            final(self)@.next_id == old(self)@.next_id + 1,
            final(self)@.messages == old(self)@.messages.push(m),
    {
        let id = self.next_id;
        self.messages.push(m);
        self.next_id = self.next_id + 1;
        id
    }

    /// Appends a message at the tail and returns its fresh id. An animated
    /// message starts with nothing displayed; any other shows its content.
    pub fn append(&mut self, role: MessageRole, content: String, animated: bool) -> (id: u64)
        requires
            old(self).wf(),
            old(self)@.next_id < u64::MAX,
        ensures
            final(self).wf(),
            id == old(self)@.next_id,
            final(self)@.next_id == old(self)@.next_id + 1,
            appended(old(self)@.messages, final(self)@.messages),
            message_is(
                final(self)@.messages.last(),
                id,
                role,
                content@,
                if animated { Seq::empty() } else { content@ },
                animated,
                false,
            ),
    {
        let displayed = if animated { String::new() } else { content.clone() };
        let m = MessageData { id: self.next_id, role, content, displayed, animated, pending: false };
        let id = self.push_record(m);
        proof {
            assert(final(self)@.messages.take(old(self)@.messages.len() as int) =~= old(self)@.messages);
        }
        id
    }

    /// Appends the System placeholder that stands for an awaited reply,
    /// unless one is already there.
    pub fn append_placeholder(&mut self, text: String) -> (r: Result<u64, LogError>)
        requires
            old(self).wf(),
            old(self)@.next_id < u64::MAX,
        ensures
            final(self).wf(),
            has_pending(old(self)@.messages) ==> r == Err::<u64, LogError>(LogError::PendingExists)
                && final(self)@ == old(self)@,
            !has_pending(old(self)@.messages) ==> {
                &&& r == Ok::<u64, LogError>(old(self)@.next_id)
                &&& final(self)@.next_id == old(self)@.next_id + 1
                &&& appended(old(self)@.messages, final(self)@.messages)
                &&& message_is(
                    final(self)@.messages.last(),
                    old(self)@.next_id,
                    MessageRole::System,
                    text@,
                    text@,
                    false,
                    true,
                )
            },
    {
        if self.has_pending() {
            return Err(LogError::PendingExists);
        }
        let displayed = text.clone();
        let m = MessageData {
            id: self.next_id,
            role: MessageRole::System,
            content: text,
            displayed,
            animated: false,
            pending: true,
        };
        let id = self.push_record(m);
        proof {
            assert(final(self)@.messages.take(old(self)@.messages.len() as int) =~= old(self)@.messages);
        }
        Ok(id)
    }

    /// Replaces the displayed text of the message `id`.
    pub fn update_displayed(&mut self, id: u64, text: String) -> (r: Result<(), LogError>)
        requires
            old(self).wf(),
        ensures
            final(self).wf(),
            final(self)@.next_id == old(self)@.next_id,
            !has_id(old(self)@.messages, id) ==> r == Err::<(), LogError>(LogError::NotFound)
                && final(self)@ == old(self)@,
            has_id(old(self)@.messages, id) ==> r == Ok::<(), LogError>(())
                && displayed_set(old(self)@.messages, final(self)@.messages, id, text@),
    {
        match self.position(id) {
            None => Err(LogError::NotFound),
            Some(i) => {
                let mut m = self.messages.remove(i);
                m.displayed = text;
                self.messages.insert(i, m);
                proof {
                    let o = old(self)@.messages;
                    assert(final(self)@.messages =~= o.update(i as int, final(self)@.messages[i as int]));
                    lemma_id_at(o, i as int, id);
                }
                Ok(())
            },
        }
    }

    /// Ends the reveal of the message `id`: it shows its whole content and
    /// is no longer animated.
    pub fn finish_animation(&mut self, id: u64) -> (r: Result<(), LogError>)
        requires
            old(self).wf(),
        ensures
            final(self).wf(),
            final(self)@.next_id == old(self)@.next_id,
            !has_id(old(self)@.messages, id) ==> r == Err::<(), LogError>(LogError::NotFound)
                && final(self)@ == old(self)@,
            has_id(old(self)@.messages, id) ==> r == Ok::<(), LogError>(())
                && reveal_finished(old(self)@.messages, final(self)@.messages, id),
    {
        match self.position(id) {
            None => Err(LogError::NotFound),
            Some(i) => {
                let mut m = self.messages.remove(i);
                m.displayed = m.content.clone();
                m.animated = false;
                self.messages.insert(i, m);
                proof {
                    let o = old(self)@.messages;
                    assert(final(self)@.messages =~= o.update(i as int, final(self)@.messages[i as int]));
                    lemma_id_at(o, i as int, id);
                }
                Ok(())
            },
        }
    }

    /// Removes the pending placeholder if there is one.
    pub fn remove_pending(&mut self)
        requires
            old(self).wf(),
        ensures
            final(self).wf(),
            final(self)@.next_id == old(self)@.next_id,
            pending_removed(old(self)@.messages, final(self)@.messages),
            !has_pending(final(self)@.messages),
    {
        match self.pending_position() {
            None => {},
            Some(i) => {
                self.messages.remove(i);
                proof {
                    let o = old(self)@.messages;
                    let n = final(self)@.messages;
                    assert(n =~= o.remove(i as int));
                    assert forall|k: int| 0 <= k < o.len() && o[k].pending implies k == i by {}
                    assert forall|k: int| 0 <= k < n.len() implies !n[k].pending by {
                        if k < i { assert(n[k] == o[k]); } else { assert(n[k] == o[k + 1]); }
                    }
                    assert forall|a: int, b: int| 0 <= a < b < n.len() implies n[a].id != n[b].id by {
                        let a2 = if a < i { a } else { a + 1 };
                        let b2 = if b < i { b } else { b + 1 };
                        assert(n[a] == o[a2] && n[b] == o[b2]);
                    }
                }
            },
        }
    }
}

} // verus!
