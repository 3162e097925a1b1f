//! Escape sequences typed at the start of a line, in the manner of SSH:
//! `~.` detaches, `~R` reconnects, `~^Z` suspends, `~K` pins the session, `~#`
//! shows the status, `~?` shows help and `~~` sends one tilde.

use vstd::prelude::*;

verus! {

/// What `~?` prints.
pub const ESCAPE_HELP: &'static str = "\r\nSupported escape sequences:\r\n~.  - detach from session\r\n~R  - force reconnect\r\n~^Z - suspend client\r\n~K  - pin session (never reap it while detached)\r\n~#  - session status and RTT\r\n~?  - this message\r\n~~  - send the escape character by typing it twice\r\n(Note that escapes are only recognized immediately after newline.)\r\n";

#[derive(Debug, Clone, Copy, PartialEq, Eq, Structural)]
pub enum EscapeState {
    Normal,
    AfterNewline,
    AfterTilde,
}

#[derive(Debug, PartialEq, Eq)]
pub enum EscapeAction {
    Data(Vec<u8>),
    Detach,
    Reconnect,
    Suspend,
    Pin,
    Status,
    Help,
}

/// An action as a mathematical value.
pub enum Escaped {
    Data(Seq<u8>),
    Detach,
    Reconnect,
    Suspend,
    Pin,
    Status,
    Help,
}

impl View for EscapeAction {
    type V = Escaped;

    open spec fn view(&self) -> Escaped {
        match *self {
            EscapeAction::Data(d) => Escaped::Data(d@),
            EscapeAction::Detach => Escaped::Detach,
            EscapeAction::Reconnect => Escaped::Reconnect,
            EscapeAction::Suspend => Escaped::Suspend,
            EscapeAction::Pin => Escaped::Pin,
            EscapeAction::Status => Escaped::Status,
            EscapeAction::Help => Escaped::Help,
        }
    }
}

pub open spec fn action_views(v: Seq<EscapeAction>) -> Seq<Escaped> {
    v.map_values(|a: EscapeAction| a@)
}

pub open spec fn is_newline(b: u8) -> bool {
    b == 0x0a || b == 0x0d
}

/// Where a line stands after an ordinary byte.
pub open spec fn after_byte(b: u8) -> EscapeState {
    if is_newline(b) {
        EscapeState::AfterNewline
    } else {
        EscapeState::Normal
    }
}

/// Bytes that were held back go out as one action, unless there are none.
pub open spec fn flushed(pending: Seq<u8>) -> Seq<Escaped> {
    if pending.len() == 0 {
        seq![]
    } else {
        seq![Escaped::Data(pending)]
    }
}

/// The actions that `input` gives from `state` with `pending` held back, and
/// the state in which it ends. Detach and reconnect drop the rest.
pub open spec fn escapes(state: EscapeState, pending: Seq<u8>, input: Seq<u8>) -> (
    Seq<Escaped>,
    EscapeState,
)
    decreases input.len(),
{
    if input.len() == 0 {
        (flushed(pending), state)
    } else {
        let b = input[0];
        let rest = input.skip(1);
        match state {
            EscapeState::Normal => escapes(after_byte(b), pending.push(b), rest),
            EscapeState::AfterNewline => if b == 0x7e {
                let r = escapes(EscapeState::AfterTilde, seq![], rest);
                (flushed(pending) + r.0, r.1)
            } else {
                escapes(after_byte(b), pending.push(b), rest)
            },
            EscapeState::AfterTilde => if b == 0x2e {
                (flushed(pending).push(Escaped::Detach), EscapeState::AfterTilde)
            } else if b == 0x52 {
                (flushed(pending).push(Escaped::Reconnect), EscapeState::Normal)
            } else if command_of(b) is Some {
                let r = escapes(EscapeState::Normal, seq![], rest);
                (flushed(pending).push(command_of(b)->0) + r.0, r.1)
            } else if b == 0x7e {
                escapes(EscapeState::Normal, pending.push(0x7e), rest)
            } else {
                escapes(after_byte(b), pending.push(0x7e).push(b), rest)
            },
        }
    }
}

/// The byte after a tilde that asks for something and lets the input go on.
pub open spec fn command_of(b: u8) -> Option<Escaped> {
    if b == 0x1a {
        Some(Escaped::Suspend)
    } else if b == 0x4b {
        Some(Escaped::Pin)
    } else if b == 0x23 {
        Some(Escaped::Status)
    } else if b == 0x3f {
        Some(Escaped::Help)
    } else {
        None
    }
}

pub struct EscapeProcessor {
    pub state: EscapeState,
}

/// Emit the bytes held back, if any, before a control action, so that
/// keystrokes reach the server in order.
pub fn flush_pending(actions: &mut Vec<EscapeAction>, data_buf: &mut Vec<u8>)
    ensures
        action_views(final(actions)@) == action_views(old(actions)@) + flushed(old(data_buf)@),
        final(data_buf)@.len() == 0,
{
    if !data_buf.is_empty() {
        let mut taken: Vec<u8> = Vec::new();
        std::mem::swap(&mut taken, data_buf);
        let ghost before = actions@;
        actions.push(EscapeAction::Data(taken));
        assert(action_views(actions@) == action_views(before).push(Escaped::Data(taken@)));
        assert(action_views(actions@) == action_views(before) + flushed(old(data_buf)@));
    } else {
        assert(action_views(actions@) + flushed(data_buf@) == action_views(actions@));
    }
}

impl EscapeProcessor {
    /// A session starts as if at the beginning of a line.
    pub fn new() -> (p: EscapeProcessor)
        ensures
            p.state is AfterNewline,
    {
        EscapeProcessor { state: EscapeState::AfterNewline }
    }

    pub fn process(&mut self, input: &[u8]) -> (actions: Vec<EscapeAction>)
        ensures
            action_views(actions@) == escapes(old(self).state, seq![], input@).0,
            final(self).state == escapes(old(self).state, seq![], input@).1,
    {
        let mut actions: Vec<EscapeAction> = Vec::new();
        let mut data_buf: Vec<u8> = Vec::new();
        let ghost whole = escapes(old(self).state, seq![], input@);
        let mut i: usize = 0;
        assert(input@.skip(0) == input@);
        assert(action_views(actions@) == Seq::<Escaped>::empty());
        assert(action_views(actions@) + whole.0 == whole.0);
        assert(data_buf@ == Seq::<u8>::empty());
        while i < input.len()
            invariant
                i <= input.len(),
                whole == escapes(old(self).state, seq![], input@),
                ({
                    let r = escapes(self.state, data_buf@, input@.skip(i as int));
                    &&& action_views(actions@) + r.0 == whole.0
                    &&& r.1 == whole.1
                }),
            decreases input.len() - i,
        {
            let b: u8 = input[i];
            let ghost rest = input@.skip(i as int);
            let ghost held = data_buf@;
            let ghost done = action_views(actions@);
            assert(rest.skip(1) == input@.skip(i + 1));
            assert(rest[0] == b);
            i = i + 1;
            match self.state {
                EscapeState::Normal => {
                    self.state = if b == 0x0a || b == 0x0d {
                        EscapeState::AfterNewline
                    } else {
                        EscapeState::Normal
                    };
                    data_buf.push(b);
                },
                EscapeState::AfterNewline => {
                    if b == 0x7e {
                        self.state = EscapeState::AfterTilde;
                        flush_pending(&mut actions, &mut data_buf);
                        proof {
                            let r = escapes(EscapeState::AfterTilde, seq![], rest.skip(1));
                            assert(data_buf@ == Seq::<u8>::empty());
                            assert((done + flushed(held)) + r.0 == done + (flushed(held) + r.0));
                        }
                    } else {
                        self.state = if b == 0x0a || b == 0x0d {
                            EscapeState::AfterNewline
                        } else {
                            EscapeState::Normal
                        };
                        data_buf.push(b);
                    }
                },
                EscapeState::AfterTilde => {
                    if b == 0x2e || b == 0x52 {
                        flush_pending(&mut actions, &mut data_buf);
                        let ghost mid = actions@;
                        if b == 0x2e {
                            actions.push(EscapeAction::Detach);
                            assert(action_views(actions@) == action_views(mid).push(Escaped::Detach));
                        } else {
                            actions.push(EscapeAction::Reconnect);
                            self.state = EscapeState::Normal;
                            assert(action_views(actions@) == action_views(mid).push(Escaped::Reconnect));
                        }
                        assert(action_views(actions@) == whole.0);
                        return actions;
                    } else if b == 0x1a || b == 0x4b || b == 0x23 || b == 0x3f {
                        flush_pending(&mut actions, &mut data_buf);
                        let ghost mid = actions@;
                        if b == 0x1a {
                            actions.push(EscapeAction::Suspend);
                        } else if b == 0x4b {
                            actions.push(EscapeAction::Pin);
                        } else if b == 0x23 {
                            actions.push(EscapeAction::Status);
                        } else {
                            actions.push(EscapeAction::Help);
                        }
                        self.state = EscapeState::Normal;
                        proof {
                            let c = command_of(b)->0;
                            let r = escapes(EscapeState::Normal, seq![], rest.skip(1));
                            assert(action_views(actions@) == action_views(mid).push(c));
                            assert(data_buf@ == Seq::<u8>::empty());
                            assert((done + flushed(held)).push(c) + r.0 == done + (flushed(
                                held,
                            ).push(c) + r.0));
                        }
                    } else if b == 0x7e {
                        data_buf.push(0x7e);
                        self.state = EscapeState::Normal;
                    } else {
                        data_buf.push(0x7e);
                        data_buf.push(b);
                        self.state = if b == 0x0a || b == 0x0d {
                            EscapeState::AfterNewline
                        } else {
                            EscapeState::Normal
                        };
                    }
                },
            }
        }
        flush_pending(&mut actions, &mut data_buf);
        actions
    }
}

/// One thing that reaches the relay: a byte for the server, or a request.
pub enum Key {
    Byte(u8),
    Command(Escaped),
}

/// The keys that actions stand for, however the data among them is cut up.
pub open spec fn keys_of(actions: Seq<Escaped>) -> Seq<Key>
    decreases actions.len(),
{
    if actions.len() == 0 {
        seq![]
    } else {
        keys_of(actions.drop_last()) + match actions.last() {
            Escaped::Data(d) => bytes_as_keys(d),
            other => seq![Key::Command(other)],
        }
    }
}

pub open spec fn bytes_as_keys(d: Seq<u8>) -> Seq<Key> {
    d.map_values(|b: u8| Key::Byte(b))
}

/// What typing `input` means, key by key. Every byte is passed on, in order,
/// but for a tilde that opens an escape and the byte that names it.
pub open spec fn typed(state: EscapeState, input: Seq<u8>) -> Seq<Key>
    decreases input.len(),
{
    if input.len() == 0 {
        seq![]
    } else {
        let b = input[0];
        let rest = input.skip(1);
        if state is AfterTilde {
            if b == 0x2e {
                seq![Key::Command(Escaped::Detach)]
            } else if b == 0x52 {
                seq![Key::Command(Escaped::Reconnect)]
            } else if command_of(b) is Some {
                seq![Key::Command(command_of(b)->0)] + typed(EscapeState::Normal, rest)
            } else if b == 0x7e {
                seq![Key::Byte(0x7e)] + typed(EscapeState::Normal, rest)
            } else {
                seq![Key::Byte(0x7e), Key::Byte(b)] + typed(after_byte(b), rest)
            }
        } else if state is AfterNewline && b == 0x7e {
            typed(EscapeState::AfterTilde, rest)
        } else {
            seq![Key::Byte(b)] + typed(after_byte(b), rest)
        }
    }
}

/// Whether `input` holds an escape that drops what follows it.
pub open spec fn stops(state: EscapeState, input: Seq<u8>) -> bool
    decreases input.len(),
{
    if input.len() == 0 {
        false
    } else {
        let b = input[0];
        let rest = input.skip(1);
        if state is AfterTilde {
            if b == 0x2e || b == 0x52 {
                true
            } else if command_of(b) is Some || b == 0x7e {
                stops(EscapeState::Normal, rest)
            } else {
                stops(after_byte(b), rest)
            }
        } else if state is AfterNewline && b == 0x7e {
            stops(EscapeState::AfterTilde, rest)
        } else {
            stops(after_byte(b), rest)
        }
    }
}

proof fn lemma_keys_of_add(a: Seq<Escaped>, b: Seq<Escaped>)
    ensures
        keys_of(a + b) == keys_of(a) + keys_of(b),
    decreases b.len(),
{
    if b.len() == 0 {
        assert(a + b == a);
    } else {
        lemma_keys_of_add(a, b.drop_last());
        assert((a + b).drop_last() == a + b.drop_last());
        assert((a + b).last() == b.last());
    }
}

proof fn lemma_keys_of_flushed(pending: Seq<u8>)
    ensures
        keys_of(flushed(pending)) == bytes_as_keys(pending),
{
    if pending.len() > 0 {
        let f = flushed(pending);
        assert(f.drop_last() == Seq::<Escaped>::empty());
        assert(keys_of(f.drop_last()) == Seq::<Key>::empty());
        assert(f.last() == Escaped::Data(pending));
    }
}

proof fn lemma_keys_of_one(a: Seq<Escaped>, c: Escaped)
    requires
        !(c is Data),
    ensures
        keys_of(a.push(c)) == keys_of(a).push(Key::Command(c)),
{
    assert(a.push(c).drop_last() == a);
    assert(keys_of(a.push(c)) == keys_of(a) + seq![Key::Command(c)]);
}

/// No keystroke is lost, invented or reordered: the actions, taken apart into
/// keys, are the bytes held back and then exactly what was typed.
pub proof fn law_escapes_keep_every_key(state: EscapeState, pending: Seq<u8>, input: Seq<u8>)
    ensures
        keys_of(escapes(state, pending, input).0) == bytes_as_keys(pending) + typed(state, input),
    decreases input.len(),
{
    lemma_keys_of_flushed(pending);
    if input.len() == 0 {
        assert(bytes_as_keys(pending) + typed(state, input) == bytes_as_keys(pending));
    } else {
        let b = input[0];
        let rest = input.skip(1);
        assert(bytes_as_keys(pending.push(b)) == bytes_as_keys(pending).push(Key::Byte(b)));
        assert(bytes_as_keys(pending.push(0x7e)) == bytes_as_keys(pending).push(Key::Byte(0x7e)));
        assert(bytes_as_keys(pending.push(0x7e).push(b)) == bytes_as_keys(pending).push(
            Key::Byte(0x7e),
        ).push(Key::Byte(b)));
        assert(bytes_as_keys(seq![]) == Seq::<Key>::empty());
        if state is AfterTilde {
            if b == 0x2e {
                lemma_keys_of_one(flushed(pending), Escaped::Detach);
            } else if b == 0x52 {
                lemma_keys_of_one(flushed(pending), Escaped::Reconnect);
            } else if command_of(b) is Some {
                let c = command_of(b)->0;
                let r = escapes(EscapeState::Normal, seq![], rest);
                law_escapes_keep_every_key(EscapeState::Normal, seq![], rest);
                lemma_keys_of_one(flushed(pending), c);
                lemma_keys_of_add(flushed(pending).push(c), r.0);
            } else if b == 0x7e {
                law_escapes_keep_every_key(EscapeState::Normal, pending.push(0x7e), rest);
            } else {
                law_escapes_keep_every_key(after_byte(b), pending.push(0x7e).push(b), rest);
            }
        } else if state is AfterNewline && b == 0x7e {
            let r = escapes(EscapeState::AfterTilde, seq![], rest);
            law_escapes_keep_every_key(EscapeState::AfterTilde, seq![], rest);
            lemma_keys_of_add(flushed(pending), r.0);
        } else {
            law_escapes_keep_every_key(after_byte(b), pending.push(b), rest);
        }
        assert(keys_of(escapes(state, pending, input).0) =~= bytes_as_keys(pending) + typed(
            state,
            input,
        ));
    }
}

/// Where one read of the terminal ends does not matter: unless the first part
/// already stops, two parts mean what the whole means.
pub proof fn law_typed_chunks(state: EscapeState, a: Seq<u8>, b: Seq<u8>)
    requires
        !stops(state, a),
    ensures
        typed(state, a + b) == typed(state, a) + typed(escapes(state, seq![], a).1, b),
    decreases a.len(),
{
    lemma_end_state(state, seq![], seq![], a);
    if a.len() == 0 {
        assert(a + b == b);
        assert(typed(state, a) + typed(state, b) == typed(state, b));
    } else {
        let c = a[0];
        let rest = a.skip(1);
        let next = next_state(state, c);
        assert((a + b).skip(1) == rest + b);
        law_typed_chunks(next, rest, b);
        lemma_end_state(next, seq![], seq![], rest);
        lemma_end_state_step(state, a);
        assert(typed(state, a + b) =~= typed(state, a) + typed(escapes(state, seq![], a).1, b));
    }
}

/// A detach or a reconnect makes everything typed after it meaningless.
pub proof fn law_stop_drops_the_rest(state: EscapeState, a: Seq<u8>, b: Seq<u8>)
    requires
        stops(state, a),
    ensures
        typed(state, a + b) == typed(state, a),
    decreases a.len(),
{
    let c = a[0];
    assert((a + b).skip(1) == a.skip(1) + b);
    if !(state is AfterTilde && (c == 0x2e || c == 0x52)) {
        law_stop_drops_the_rest(next_state(state, c), a.skip(1), b);
    }
}

spec fn next_state(state: EscapeState, b: u8) -> EscapeState {
    if state is AfterTilde {
        if command_of(b) is Some || b == 0x7e {
            EscapeState::Normal
        } else {
            after_byte(b)
        }
    } else if state is AfterNewline && b == 0x7e {
        EscapeState::AfterTilde
    } else {
        after_byte(b)
    }
}

proof fn lemma_end_state(state: EscapeState, p: Seq<u8>, q: Seq<u8>, input: Seq<u8>)
    ensures
        escapes(state, p, input).1 == escapes(state, q, input).1,
    decreases input.len(),
{
    if input.len() > 0 {
        let b = input[0];
        let rest = input.skip(1);
        lemma_end_state(next_state(state, b), p.push(b), q.push(b), rest);
        lemma_end_state(next_state(state, b), p.push(0x7e), q.push(0x7e), rest);
        lemma_end_state(next_state(state, b), p.push(0x7e).push(b), q.push(0x7e).push(b), rest);
    }
}

proof fn lemma_end_state_step(state: EscapeState, input: Seq<u8>)
    requires
        input.len() > 0,
        !stops(state, input),
    ensures
        escapes(state, seq![], input).1 == escapes(
            next_state(state, input[0]),
            seq![],
            input.skip(1),
        ).1,
{
    let b = input[0];
    let rest = input.skip(1);
    let e = Seq::<u8>::empty();
    lemma_end_state(next_state(state, b), e.push(b), e, rest);
    lemma_end_state(next_state(state, b), e.push(0x7e), e, rest);
    lemma_end_state(next_state(state, b), e.push(0x7e).push(b), e, rest);
}

} // verus!
