//! Typing reveal: one character more per tick, paced like typing, with
//! cancellation by token.

use vstd::prelude::*;

verus! {

/// Pause between two ticks of a reveal.
pub const TYPING_DELAY_MS: u64 = 30;

/// Extra pause after a space, a newline or a punctuation mark.
pub const PAUSE_BONUS_MS: u64 = 20;

/// Pause before the first tick of a reveal.
pub const START_DELAY_MS: u64 = 50;

/// Characters after which typing pauses a little longer.
pub open spec fn is_pause_char(c: char) -> bool {
    c == ' ' || c == '.' || c == ',' || c == '!' || c == '?' || c == ';' || c == ':' || c == '\n'
}

/// Pause after showing `shown`, which depends on its last character.
pub open spec fn pause_after(shown: Seq<char>) -> u64 {
    if shown.len() > 0 && is_pause_char(shown.last()) {
        (TYPING_DELAY_MS + PAUSE_BONUS_MS) as u64
    } else {
        TYPING_DELAY_MS
    }
}

/// One reveal as a value: `ticks` counts the ticks it has already had.
pub struct AnimationView {
    pub token: nat,
    pub id: u64,
    pub text: Seq<char>,
    pub ticks: nat,
}

/// What a tick reports, as a value.
pub enum TickView {
    Reveal { id: u64, shown: Seq<char>, delay_ms: u64 },
    Done { id: u64 },
    Silent,
}

/// What a tick reports: the message `id` now shows `shown`, a strict
/// prefix of the text, and the next tick is due after `delay_ms`; or the
/// message `id` now shows the whole text and its reveal is complete; or the
/// tick belongs to no running reveal and is discarded.
pub enum TickEvent {
    Reveal { id: u64, shown: String, delay_ms: u64 },
    Done { id: u64 },
    Silent,
}

impl View for TickEvent {
    type V = TickView;

    open spec fn view(&self) -> TickView {
        match self {
            TickEvent::Reveal { id, shown, delay_ms } => TickView::Reveal {
                id: *id,
                shown: shown@,
                delay_ms: *delay_ms,
            },
            TickEvent::Done { id } => TickView::Done { id: *id },
            TickEvent::Silent => TickView::Silent,
        }
    }
}

/// The report of tick number `k` of a reveal of `text`, counting from zero:
/// tick `k` shows the first `k` characters, and the tick that shows them all
/// completes the reveal.
pub open spec fn reveal_report(id: u64, text: Seq<char>, k: nat) -> TickView {
    if k < text.len() {
        TickView::Reveal { id, shown: text.take(k as int), delay_ms: pause_after(text.take(k as int)) }
    } else if k == text.len() {
        TickView::Done { id }
    } else {
        TickView::Silent
    }
}

/// One tick of one reveal: the reveal one tick further, and its report.
pub open spec fn step_animation(a: AnimationView) -> (AnimationView, TickView) {
    if a.ticks <= a.text.len() {
        (
            AnimationView { token: a.token, id: a.id, text: a.text, ticks: a.ticks + 1 },
            reveal_report(a.id, a.text, a.ticks),
        )
    } else {
        (a, TickView::Silent)
    }
}

/// The running reveals as a value, and the next token to hand out.
pub struct AnimatorView {
    pub active: Seq<AnimationView>,
    pub next_token: nat,
}

pub open spec fn has_token(s: Seq<AnimationView>, t: nat) -> bool {
    exists|i: int| 0 <= i < s.len() && s[i].token == t
}

pub open spec fn token_index(s: Seq<AnimationView>, t: nat) -> int {
    choose|i: int| 0 <= i < s.len() && s[i].token == t
}

pub open spec fn has_target(s: Seq<AnimationView>, id: u64) -> bool {
    exists|i: int| 0 <= i < s.len() && s[i].id == id
}

pub open spec fn target_index(s: Seq<AnimationView>, id: u64) -> int {
    choose|i: int| 0 <= i < s.len() && s[i].id == id
}

/// Tokens and message ids are unique among running reveals, every token
/// was handed out, and no running reveal has reached its completion.
pub open spec fn animator_wf(v: AnimatorView) -> bool {
    &&& forall|i: int, j: int|
        0 <= i < j < v.active.len() ==> v.active[i].token != v.active[j].token
            && v.active[i].id != v.active[j].id
    &&& forall|i: int|
        0 <= i < v.active.len() ==> (#[trigger] v.active[i]).token < v.next_token
            && v.active[i].ticks <= v.active[i].text.len()
}

/// Starting a reveal of `text` for message `id`: a reveal already running
/// for `id` is dropped first.
pub open spec fn spec_start(v: AnimatorView, id: u64, text: Seq<char>) -> AnimatorView {
    let rest = if has_target(v.active, id) {
        v.active.remove(target_index(v.active, id))
    } else {
        v.active
    };
    AnimatorView {
        active: rest.push(AnimationView { token: v.next_token, id, text, ticks: 0 }),
        next_token: v.next_token + 1,
    }
}

/// Cancelling the reveal of token `t`.
pub open spec fn spec_cancel(v: AnimatorView, t: nat) -> AnimatorView {
    if has_token(v.active, t) {
        AnimatorView { active: v.active.remove(token_index(v.active, t)), next_token: v.next_token }
    } else {
        v
    }
}

/// A tick of token `t`: the reveal of `t` moves on, and is dropped once it
/// reports completion.
pub open spec fn spec_tick(v: AnimatorView, t: nat) -> (AnimatorView, TickView) {
    if has_token(v.active, t) {
        let i = token_index(v.active, t);
        let (a, e) = step_animation(v.active[i]);
        if e is Done {
            (AnimatorView { active: v.active.remove(i), next_token: v.next_token }, e)
        } else {
            (AnimatorView { active: v.active.update(i, a), next_token: v.next_token }, e)
        }
    } else {
        (v, TickView::Silent)
    }
}

/// The reports of `k` successive ticks of token `t`.
pub open spec fn tick_trace(v: AnimatorView, t: nat, k: nat) -> Seq<TickView>
    decreases k,
{
    if k == 0 {
        Seq::empty()
    } else {
        let (w, e) = spec_tick(v, t);
        seq![e] + tick_trace(w, t, (k - 1) as nat)
    }
}

/// What can be done to the running reveals.
pub enum AnimatorOp {
    Start { id: u64, text: Seq<char> },
    Cancel { token: nat },
    Tick { token: nat },
}

/// One operation: the new state, and what a tick reports (`Silent` for a
/// start or a cancel).
pub open spec fn apply_op(v: AnimatorView, op: AnimatorOp) -> (AnimatorView, TickView) {
    match op {
        AnimatorOp::Start { id, text } => (spec_start(v, id, text), TickView::Silent),
        AnimatorOp::Cancel { token } => (spec_cancel(v, token), TickView::Silent),
        AnimatorOp::Tick { token } => spec_tick(v, token),
    }
}

/// The reports of a sequence of operations, one per operation.
pub open spec fn run_ops(v: AnimatorView, ops: Seq<AnimatorOp>) -> Seq<TickView>
    decreases ops.len(),
{
    if ops.len() == 0 {
        Seq::empty()
    } else {
        let (w, e) = apply_op(v, ops[0]);
        seq![e] + run_ops(w, ops.drop_first())
    }
}

proof fn lemma_trace_without_token(v: AnimatorView, t: nat, k: nat)
    requires
        !has_token(v.active, t),
    ensures
        tick_trace(v, t, k).len() == k,
        forall|j: int| 0 <= j < k ==> tick_trace(v, t, k)[j] == TickView::Silent,
    decreases k,
{
    if k > 0 {
        lemma_trace_without_token(v, t, (k - 1) as nat);
    }
}

proof fn lemma_trace_from(v: AnimatorView, t: nat, i: int, k: nat)
    requires
        animator_wf(v),
        0 <= i < v.active.len(),
        v.active[i].token == t,
    ensures
        tick_trace(v, t, k).len() == k,
        forall|j: int|
            0 <= j < k ==> tick_trace(v, t, k)[j] == reveal_report(
                v.active[i].id,
                v.active[i].text,
                (v.active[i].ticks + j) as nat,
            ),
    decreases k,
{
    if k > 0 {
        let a = v.active[i];
        let ti = token_index(v.active, t);
        assert(has_token(v.active, t));
        if ti != i {
            if ti < i { assert(v.active[ti].token != v.active[i].token); }
            else { assert(v.active[i].token != v.active[ti].token); }
        }
        let (w, e) = spec_tick(v, t);
        let tr = tick_trace(v, t, k);
        let rest = tick_trace(w, t, (k - 1) as nat);
        assert(tr == seq![e] + rest);
        if e is Done {
            assert(w.active == v.active.remove(i));
            assert forall|x: int| 0 <= x < w.active.len() implies w.active[x].token != t by {
                let x2 = if x < i { x } else { x + 1 };
                assert(w.active[x] == v.active[x2]);
                if x2 < i { assert(v.active[x2].token != v.active[i].token); }
                else { assert(v.active[i].token != v.active[x2].token); }
            }
            lemma_trace_without_token(w, t, (k - 1) as nat);
            assert forall|j: int| 0 <= j < k implies tr[j] == reveal_report(a.id, a.text, (a.ticks + j) as nat) by {
                if j > 0 {
                    assert(tr[j] == rest[j - 1]);
                }
            }
        } else {
            let a2 = step_animation(a).0;
            assert(w.active == v.active.update(i, a2));
            assert(animator_wf(w)) by {
                assert forall|x: int, y: int| 0 <= x < y < w.active.len() implies w.active[x].token
                    != w.active[y].token && w.active[x].id != w.active[y].id by {
                    assert(v.active[x].token != v.active[y].token && v.active[x].id != v.active[y].id);
                }
                assert forall|x: int| 0 <= x < w.active.len() implies (#[trigger] w.active[x]).token
                    < w.next_token && w.active[x].ticks <= w.active[x].text.len() by {
                    assert(v.active[x].token < v.next_token);
                }
            }
            lemma_trace_from(w, t, i, (k - 1) as nat);
            assert forall|j: int| 0 <= j < k implies tr[j] == reveal_report(a.id, a.text, (a.ticks + j) as nat) by {
                if j > 0 {
                    assert(tr[j] == rest[j - 1]);
                }
            }
        }
    }
}

/// A reveal of a text of length N, ticked N + 1 times from its start,
/// reports the prefixes of lengths 0, 1, ..., N - 1 in turn, and at the last
/// tick, which shows the whole text, its completion; every later tick of
/// its token reports nothing.
pub proof fn lemma_reveal_sequence(v: AnimatorView, id: u64, text: Seq<char>, extra: nat)
    requires
        animator_wf(v),
    ensures
        ({
            let tr = tick_trace(spec_start(v, id, text), v.next_token, text.len() + 1 + extra);
            &&& tr.len() == text.len() + 1 + extra
            &&& forall|j: int|
                0 <= j < text.len() ==> tr[j] == TickView::Reveal {
                    id,
                    shown: text.take(j),
                    delay_ms: pause_after(text.take(j)),
                } && text.take(j).len() == j
            &&& tr[text.len() as int] == TickView::Done { id }
            &&& forall|j: int| text.len() + 1 <= j < tr.len() ==> tr[j] == TickView::Silent
        }),
{
    let w = spec_start(v, id, text);
    let rest = if has_target(v.active, id) {
        v.active.remove(target_index(v.active, id))
    } else {
        v.active
    };
    let n = rest.len() as int;
    assert(w.active[n].token == v.next_token);
    assert(animator_wf(w)) by {
        if has_target(v.active, id) {
            let r = target_index(v.active, id);
            assert forall|x: int| 0 <= x < rest.len() implies rest[x] == v.active[if x < r { x } else { x + 1 }] by {}
        }
        assert forall|x: int, y: int| 0 <= x < y < w.active.len() implies w.active[x].token
            != w.active[y].token && w.active[x].id != w.active[y].id by {
            if has_target(v.active, id) {
                let r = target_index(v.active, id);
                let x2 = if x < r { x } else { x + 1 };
                assert(w.active[x] == v.active[x2]);
                if y < n {
                    let y2 = if y < r { y } else { y + 1 };
                    assert(w.active[y] == v.active[y2]);
                } else {
                    if v.active[x2].id == id {
                        assert(v.active[r].id == id);
                        if x2 < r { assert(v.active[x2].id != v.active[r].id); }
                        else if x2 > r { assert(v.active[r].id != v.active[x2].id); }
                    }
                }
            } else {
                assert(w.active[x] == v.active[x]);
                if y < n { assert(w.active[y] == v.active[y]); }
            }
        }
        assert forall|x: int| 0 <= x < w.active.len() implies (#[trigger] w.active[x]).token
            < w.next_token && w.active[x].ticks <= w.active[x].text.len() by {
            if x < n {
                if has_target(v.active, id) {
                    let r = target_index(v.active, id);
                    assert(w.active[x] == v.active[if x < r { x } else { x + 1 }]);
                } else {
                    assert(w.active[x] == v.active[x]);
                }
            }
        }
    }
    lemma_trace_from(w, v.next_token, n, text.len() + 1 + extra);
}

proof fn lemma_retired_step(v: AnimatorView, t: nat, op: AnimatorOp)
    requires
        t < v.next_token,
        forall|x: int| 0 <= x < v.active.len() ==> v.active[x].token != t,
    ensures
        t < apply_op(v, op).0.next_token,
        forall|x: int| 0 <= x < apply_op(v, op).0.active.len() ==> apply_op(v, op).0.active[x].token != t,
        op == (AnimatorOp::Tick { token: t }) ==> apply_op(v, op).1 == TickView::Silent,
{
    let w = apply_op(v, op).0;
    match op {
        AnimatorOp::Start { id, text } => {
            assert forall|x: int| 0 <= x < w.active.len() implies w.active[x].token != t by {
                if has_target(v.active, id) {
                    let r = target_index(v.active, id);
                    if x < v.active.len() - 1 {
                        assert(w.active[x] == v.active[if x < r { x } else { x + 1 }]);
                    }
                } else if x < v.active.len() {
                    assert(w.active[x] == v.active[x]);
                }
            }
        },
        AnimatorOp::Cancel { token } => {
            if has_token(v.active, token) {
                let r = token_index(v.active, token);
                assert forall|x: int| 0 <= x < w.active.len() implies w.active[x].token != t by {
                    assert(w.active[x] == v.active[if x < r { x } else { x + 1 }]);
                }
            }
        },
        AnimatorOp::Tick { token } => {
            if has_token(v.active, token) {
                let r = token_index(v.active, token);
                assert forall|x: int| 0 <= x < w.active.len() implies w.active[x].token != t by {
                    if spec_tick(v, token).1 is Done {
                        assert(w.active[x] == v.active[if x < r { x } else { x + 1 }]);
                    } else if x != r {
                        assert(w.active[x] == v.active[x]);
                    }
                }
            }
        },
    }
}

proof fn lemma_retired_run(v: AnimatorView, t: nat, ops: Seq<AnimatorOp>)
    requires
        t < v.next_token,
        forall|x: int| 0 <= x < v.active.len() ==> v.active[x].token != t,
    ensures
        run_ops(v, ops).len() == ops.len(),
        forall|i: int|
            0 <= i < ops.len() && ops[i] == (AnimatorOp::Tick { token: t }) ==> run_ops(v, ops)[i]
                == TickView::Silent,
    decreases ops.len(),
{
    if ops.len() > 0 {
        let (w, e) = apply_op(v, ops[0]);
        lemma_retired_step(v, t, ops[0]);
        lemma_retired_run(w, t, ops.drop_first());
        let r = run_ops(v, ops);
        assert(r == seq![e] + run_ops(w, ops.drop_first()));
        assert forall|i: int|
            0 <= i < ops.len() && ops[i] == (AnimatorOp::Tick { token: t }) implies r[i]
                == TickView::Silent by {
            if i > 0 {
                assert(ops.drop_first()[i - 1] == ops[i]);
            }
        }
    }
}

/// Once the reveal of a token handed out earlier is cancelled, no later tick
/// of that token reports a prefix or a completion, whatever is started,
/// cancelled or ticked in between.
pub proof fn lemma_cancel_silences(v: AnimatorView, t: nat, ops: Seq<AnimatorOp>)
    requires
        animator_wf(v),
        t < v.next_token,
    ensures
        forall|i: int|
            0 <= i < ops.len() && ops[i] == (AnimatorOp::Tick { token: t }) ==> run_ops(
                spec_cancel(v, t),
                ops,
            )[i] == TickView::Silent,
{
    let w = spec_cancel(v, t);
    if has_token(v.active, t) {
        let r = token_index(v.active, t);
        assert forall|x: int| 0 <= x < w.active.len() implies w.active[x].token != t by {
            let x2 = if x < r { x } else { x + 1 };
            assert(w.active[x] == v.active[x2]);
            if x2 < r { assert(v.active[x2].token != v.active[r].token); }
            else { assert(v.active[r].token != v.active[x2].token); }
        }
    }
    lemma_retired_run(w, t, ops);
}

fn pause_char(c: char) -> (r: bool)
    ensures
        r == is_pause_char(c),
{
    c == ' ' || c == '.' || c == ',' || c == '!' || c == '?' || c == ';' || c == ':' || c == '\n'
}

struct Animation {
    token: u64,
    id: u64,
    text: String,
    len: usize,
    next: usize,
}

impl Animation {
    spec fn inv(&self) -> bool {
        &&& self.len == self.text@.len()
        &&& self.next <= self.len
    }

    spec fn view(&self) -> AnimationView {
        AnimationView {
            token: self.token as nat,
            id: self.id,
            text: self.text@,
            ticks: self.next as nat,
        }
    }

    fn reveal_next(&mut self) -> (e: TickEvent)
        requires
            old(self).inv(),
            old(self).next < old(self).len,
        ensures
            final(self).inv(),
            final(self).view() == step_animation(old(self).view()).0,
            e@ == step_animation(old(self).view()).1,
    {
        let shown = String::from_str(self.text.as_str().substring_char(0, self.next));
        let delay_ms = if self.next == 0 {
            TYPING_DELAY_MS
        } else if pause_char(self.text.as_str().get_char(self.next - 1)) {
            TYPING_DELAY_MS + PAUSE_BONUS_MS
        } else {
            TYPING_DELAY_MS
        };
        proof {
            let t = self.text@;
            assert(shown@ =~= t.take(self.next as int));
            if self.next > 0 {
                assert(shown@.last() == t[self.next - 1]);
            }
        }
        self.next = self.next + 1;
        TickEvent::Reveal { id: self.id, shown, delay_ms }
    }
}

/// The running reveals, each known by the token that its start handed out.
pub struct TypingAnimator {
    active: Vec<Animation>,
    next_token: u64,
}

impl View for TypingAnimator {
    type V = AnimatorView;

    closed spec fn view(&self) -> AnimatorView {
        AnimatorView {
            active: self.active@.map_values(|a: Animation| a.view()),
            next_token: self.next_token as nat,
        }
    }
}

impl TypingAnimator {
    pub closed spec fn entries_ok(&self) -> bool {
        forall|i: int| 0 <= i < self.active@.len() ==> (#[trigger] self.active@[i]).inv()
    }

    pub open spec fn wf(&self) -> bool {
        animator_wf(self@) && self.entries_ok()
    }

    /// No reveal running.
    pub fn new() -> (r: TypingAnimator)
        ensures
            r.wf(),
            r@.active == Seq::<AnimationView>::empty(),
            r@.next_token == 0,
    {
        let r = TypingAnimator { active: Vec::new(), next_token: 0 };
        proof {
            assert(r@.active =~= Seq::<AnimationView>::empty());
        }
        r
    }

    /// How many tokens are still free.
    pub fn tokens_left(&self) -> (r: u64)
        ensures
            r == u64::MAX - self@.next_token,
    {
        u64::MAX - self.next_token
    }

    /// Whether the reveal of `token` is still running.
    pub fn is_active(&self, token: u64) -> (r: bool)
        requires
            self.wf(),
        ensures
            r == has_token(self@.active, token as nat),
    {
        self.find_token(token).is_some()
    }

    fn find_token(&self, token: u64) -> (r: Option<usize>)
        requires
            self.wf(),
        ensures
            r is None <==> !has_token(self@.active, token as nat),
            r matches Some(i) ==> i < self@.active.len() && token_index(self@.active, token as nat)
                == i && self@.active[i as int].token == token,
    {
        let mut i: usize = 0;
        while i < self.active.len()
            invariant
                self.wf(),
                i <= self.active@.len(),
                forall|j: int| 0 <= j < i ==> self.active@[j].token != token,
            decreases self.active@.len() - i,
        {
            if self.active[i].token == token {
                proof {
                    let s = self@.active;
                    assert(s[i as int].token == token);
                    assert(has_token(s, token as nat));
                    let k = token_index(s, token as nat);
                    if k != i {
                        if k < i { assert(s[k].token != s[i as int].token); }
                        else {
                            assert(s[i as int].token != s[k].token);
                        }
                    }
                }
                return Some(i);
            }
            i = i + 1;
        }
        None
    }

    fn find_target(&self, id: u64) -> (r: Option<usize>)
        requires
            self.wf(),
        ensures
            r is None <==> !has_target(self@.active, id),
            r matches Some(i) ==> i < self@.active.len() && target_index(self@.active, id) == i,
    {
        let mut i: usize = 0;
        while i < self.active.len()
            invariant
                self.wf(),
                i <= self.active@.len(),
                forall|j: int| 0 <= j < i ==> self.active@[j].id != id,
            decreases self.active@.len() - i,
        {
            if self.active[i].id == id {
                proof {
                    let s = self@.active;
                    assert(s[i as int].id == id);
                    assert(has_target(s, id));
                    let k = target_index(s, id);
                    if k != i {
                        if k < i { assert(s[k].id != s[i as int].id); }
                        else { assert(s[i as int].id != s[k].id); }
                    }
                }
                return Some(i);
            }
            i = i + 1;
        }
        None
    }

    proof fn lemma_remove(&self, old_self: TypingAnimator, i: int)
        requires
            old_self.wf(),
            0 <= i < old_self.active@.len(),
            self.active@ == old_self.active@.remove(i),
            self.next_token == old_self.next_token,
        ensures
            self.wf(),
            self@.active == old_self@.active.remove(i),
            self@.next_token == old_self@.next_token,
    {
        let o = old_self@.active;
        let n = self@.active;
        assert(n =~= o.remove(i));
        assert forall|a: int, b: int| 0 <= a < b < n.len() implies n[a].token != n[b].token
            && n[a].id != n[b].id by {
            let a2 = if a < i { a } else { a + 1 };
            let b2 = if b < i { b } else { b + 1 };
            assert(n[a] == o[a2] && n[b] == o[b2]);
        }
        assert forall|k: int| 0 <= k < n.len() implies (#[trigger] n[k]).token < self@.next_token
            && n[k].ticks <= n[k].text.len() by {
            if k >= i { assert(n[k] == o[k + 1]); }
        }
        assert forall|k: int| 0 <= k < self.active@.len() implies (#[trigger] self.active@[k]).inv() by {
            if k >= i { assert(self.active@[k] == old_self.active@[k + 1]); }
        }
    }

    /// Starts revealing `text` for message `id` and returns the reveal's
    /// token. A reveal already running for `id` is cancelled first.
    pub fn start(&mut self, id: u64, text: String) -> (token: u64)
        requires
            old(self).wf(),
            old(self)@.next_token < u64::MAX,
        ensures
            final(self).wf(),
            token == old(self)@.next_token,
            final(self)@ == spec_start(old(self)@, id, text@),
    {
        let ghost v0 = self@;
        match self.find_target(id) {
            Some(i) => {
                let ghost before = *self;
                self.active.remove(i);
                proof {
                    self.lemma_remove(before, i as int);
                }
            },
            None => {},
        }
        let ghost mid = self@;
        let len = text.as_str().unicode_len();
        let token = self.next_token;
        let a = Animation { token, id, text, len, next: 0 };
        self.active.push(a);
        self.next_token = self.next_token + 1;
        proof {
            let n = self@.active;
            assert(n =~= mid.active.push(a.view()));
            assert(self@ == spec_start(v0, id, a.text@));
            assert forall|k: int| 0 <= k < self.active@.len() implies (#[trigger] self.active@[k]).inv() by {
            }
        }
        token
    }

    /// Cancels the reveal of `token`: no later tick of it reports anything.
    /// Returns whether it was running.
    pub fn cancel(&mut self, token: u64) -> (r: bool)
        requires
            old(self).wf(),
        ensures
            final(self).wf(),
            r == has_token(old(self)@.active, token as nat),
            final(self)@ == spec_cancel(old(self)@, token as nat),
    {
        match self.find_token(token) {
            Some(i) => {
                let ghost before = *self;
                self.active.remove(i);
                proof {
                    self.lemma_remove(before, i as int);
                }
                true
            },
            None => false,
        }
    }

    /// Cancels every running reveal.
    pub fn cancel_all(&mut self)
        requires
            old(self).wf(),
        ensures
            final(self).wf(),
            final(self)@.active == Seq::<AnimationView>::empty(),
            final(self)@.next_token == old(self)@.next_token,
    {
        self.active = Vec::new();
        proof {
            assert(self@.active =~= Seq::<AnimationView>::empty());
        }
    }

    /// A tick of `token` fired: moves its reveal one step and reports it.
    pub fn tick(&mut self, token: u64) -> (e: TickEvent)
        requires
            old(self).wf(),
        ensures
            final(self).wf(),
            final(self)@ == spec_tick(old(self)@, token as nat).0,
            e@ == spec_tick(old(self)@, token as nat).1,
    {
        match self.find_token(token) {
            None => TickEvent::Silent,
            Some(i) => {
                let ghost before = *self;
                let mut a = self.active.remove(i);
                proof {
                    assert(a == before.active@[i as int]);
                }
                if a.next == a.len {
                    proof {
                        self.lemma_remove(before, i as int);
                    }
                    TickEvent::Done { id: a.id }
                } else {
                    let e = a.reveal_next();
                    self.active.insert(i, a);
                    proof {
                        let o = before@.active;
                        let n = self@.active;
                        assert(self.active@ =~= before.active@.update(i as int, a));
                        assert(n =~= o.update(i as int, a.view()));
                        assert forall|x: int, y: int| 0 <= x < y < n.len() implies n[x].token
                            != n[y].token && n[x].id != n[y].id by {
                            assert(o[x].token != o[y].token && o[x].id != o[y].id);
                        }
                        assert forall|k: int| 0 <= k < n.len() implies (#[trigger] n[k]).token
                            < self@.next_token && n[k].ticks <= n[k].text.len() by {
                            assert(o[k].token < before@.next_token);
                        }
                        assert forall|k: int| 0 <= k < self.active@.len() implies (#[trigger] self.active@[k]).inv() by {
                            if k != i { assert(self.active@[k] == before.active@[k]); }
                        }
                    }
                    e
                }
            },
        }
    }
}

} // verus!
