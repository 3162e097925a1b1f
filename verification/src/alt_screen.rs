//! Tracks whether the terminal shows its alternate screen, by scanning the
//! output of the remote shell for the escape sequences that switch it.
//!
//! Sequences tracked:
//! - `ESC [ ? 1049 h` and `ESC [ ? 1049 l` (the standard pair)
//! - `ESC [ ? 47 h` and `ESC [ ? 47 l` (legacy)
//! - `ESC [ ? 1047 h` and `ESC [ ? 1047 l` (legacy)

use vstd::prelude::*;

verus! {

/// How far into a private-mode sequence the scanner is.
#[derive(Debug, Clone, Copy, PartialEq, Eq, Structural)]
pub enum ScanState {
    Normal,
    Esc,
    Bracket,
    Question,
    Param,
}

/// What a tracker holds, as a mathematical value: the place in the sequence,
/// the digits of the parameter read so far, whether an earlier parameter of the
/// sequence names the alternate screen, and the screen that is showing.
#[verifier::ext_equal]
pub struct Screen {
    pub state: ScanState,
    pub digits: Seq<u8>,
    pub named: bool,
    pub in_alt: bool,
}

/// As many digits of a parameter as are worth remembering: no mode that matters
/// has so many.
pub const MAX_PARAM: usize = 8;

pub open spec fn is_digit(b: u8) -> bool {
    0x30 <= b <= 0x39
}

/// `1049`, `1047` and `47`: the private modes that select the alternate screen.
pub open spec fn is_alt_mode(digits: Seq<u8>) -> bool {
    ||| digits == seq![0x31u8, 0x30u8, 0x34u8, 0x39u8]
    ||| digits == seq![0x31u8, 0x30u8, 0x34u8, 0x37u8]
    ||| digits == seq![0x34u8, 0x37u8]
}

/// Whether a sequence names the alternate screen, once its last parameter has
/// ended.
pub open spec fn names_alt(s: Screen) -> bool {
    s.named || is_alt_mode(s.digits)
}

/// Outside any sequence.
pub open spec fn at_rest(in_alt: bool) -> Screen {
    Screen { state: ScanState::Normal, digits: seq![], named: false, in_alt }
}

/// One byte of terminal output. An escape byte begins a sequence wherever it
/// stands. A mode is entered as soon as its parameter has ended, at `;` or `h`;
/// a final `l` leaves all the modes that the sequence names. A sequence with a
/// parameter that is empty or too long, or with any other byte, is dropped
/// there.
pub open spec fn scan_byte(s: Screen, b: u8) -> Screen {
    if b == 0x1b {
        Screen { state: ScanState::Esc, ..at_rest(s.in_alt) }
    } else {
        match s.state {
            ScanState::Normal => s,
            ScanState::Esc => Screen {
                state: if b == 0x5b {
                    ScanState::Bracket
                } else {
                    ScanState::Normal
                },
                ..s
            },
            ScanState::Bracket => Screen {
                state: if b == 0x3f {
                    ScanState::Question
                } else {
                    ScanState::Normal
                },
                ..s
            },
            _ => if is_digit(b) && s.digits.len() < MAX_PARAM {
                Screen { state: ScanState::Param, digits: s.digits.push(b), ..s }
            } else if b == 0x3b && s.state is Param {
                Screen {
                    state: ScanState::Question,
                    digits: seq![],
                    named: names_alt(s),
                    in_alt: s.in_alt || is_alt_mode(s.digits),
                }
            } else if b == 0x68 {
                at_rest(s.in_alt || is_alt_mode(s.digits))
            } else if b == 0x6c {
                at_rest(s.in_alt && !names_alt(s))
            } else {
                at_rest(s.in_alt)
            },
        }
    }
}

/// All bytes of a chunk, one after the other.
pub open spec fn scan_bytes(s: Screen, data: Seq<u8>) -> Screen
    decreases data.len(),
{
    if data.len() == 0 {
        s
    } else {
        scan_byte(scan_bytes(s, data.drop_last()), data.last())
    }
}

pub struct AltScreenTracker {
    state: ScanState,
    digits: Vec<u8>,
    named: bool,
    in_alt: bool,
}

impl View for AltScreenTracker {
    type V = Screen;

    closed spec fn view(&self) -> Screen {
        Screen { state: self.state, digits: self.digits@, named: self.named, in_alt: self.in_alt }
    }
}

/// A tracker that has seen no output: the main screen shows.
pub open spec fn fresh_screen() -> Screen {
    at_rest(false)
}

/// Digits are remembered only inside a parameter, and never too many; what a
/// sequence names is remembered only inside it, and shows.
pub open spec fn screen_ok(s: Screen) -> bool {
    &&& s.digits.len() <= MAX_PARAM
    &&& s.named ==> s.in_alt && (s.state is Question || s.state is Param)
    &&& s.state is Param <==> s.digits.len() > 0
    &&& forall|i: int| 0 <= i < s.digits.len() ==> is_digit(#[trigger] s.digits[i])
}

impl Default for AltScreenTracker {
    fn default() -> (t: AltScreenTracker)
        ensures
            t@ == fresh_screen(),
    {
        AltScreenTracker::new()
    }
}

impl AltScreenTracker {
    pub fn new() -> (t: AltScreenTracker)
        ensures
            t@ == fresh_screen(),
    {
        AltScreenTracker { state: ScanState::Normal, digits: Vec::new(), named: false, in_alt: false }
    }

    pub fn in_alternate_screen(&self) -> (b: bool)
        ensures
            b == self@.in_alt,
    {
        self.in_alt
    }

    /// Scan a chunk of terminal output, updating the alternate screen state.
    pub fn scan(&mut self, data: &[u8])
        ensures
            final(self)@ == scan_bytes(old(self)@, data@),
    {
        let mut i: usize = 0;
        assert(data@.take(0) == Seq::<u8>::empty());
        while i < data.len()
            invariant
                i <= data.len(),
                self@ == scan_bytes(old(self)@, data@.take(i as int)),
            decreases data.len() - i,
        {
            let b: u8 = data[i];
            assert(data@.take(i + 1).drop_last() == data@.take(i as int));
            self.scan_one(b);
            i = i + 1;
        }
        assert(data@.take(data@.len() as int) == data@);
    }

    fn scan_one(&mut self, b: u8)
        ensures
            final(self)@ == scan_byte(old(self)@, b),
    {
        if b == 0x1b {
            self.rest(ScanState::Esc);
            return;
        }
        match self.state {
            ScanState::Normal => {},
            ScanState::Esc => {
                self.state = if b == 0x5b {
                    ScanState::Bracket
                } else {
                    ScanState::Normal
                };
            },
            ScanState::Bracket => {
                self.state = if b == 0x3f {
                    ScanState::Question
                } else {
                    ScanState::Normal
                };
            },
            _ => {
                if 0x30 <= b && b <= 0x39 && self.digits.len() < MAX_PARAM {
                    self.digits.push(b);
                    self.state = ScanState::Param;
                } else if b == 0x3b && self.state == ScanState::Param {
                    if self.param_is_alt() {
                        self.named = true;
                        self.in_alt = true;
                    }
                    self.digits.clear();
                    self.state = ScanState::Question;
                } else {
                    if b == 0x68 && self.param_is_alt() {
                        self.in_alt = true;
                    }
                    if b == 0x6c && (self.named || self.param_is_alt()) {
                        self.in_alt = false;
                    }
                    self.rest(ScanState::Normal);
                }
            },
        }
    }

    /// Forget the sequence that was being read.
    fn rest(&mut self, state: ScanState)
        ensures
            final(self)@ == (Screen { state, ..at_rest(old(self)@.in_alt) }),
    {
        self.digits.clear();
        self.named = false;
        self.state = state;
    }

    fn param_is_alt(&self) -> (b: bool)
        ensures
            b == is_alt_mode(self@.digits),
    {
        let n: usize = self.digits.len();
        let long = n == 4 && self.digits[0] == 0x31 && self.digits[1] == 0x30 && self.digits[2]
            == 0x34 && (self.digits[3] == 0x39 || self.digits[3] == 0x37);
        let short = n == 2 && self.digits[0] == 0x34 && self.digits[1] == 0x37;
        proof {
            let d = self.digits@;
            if long {
                assert(d == seq![0x31u8, 0x30u8, 0x34u8, d[3]]);
            }
            if short {
                assert(d == seq![0x34u8, 0x37u8]);
            }
        }
        long || short
    }
}

/// Output may arrive cut anywhere: scanning two chunks one after the other
/// does what scanning them joined does.
pub proof fn law_scan_chunks(s: Screen, a: Seq<u8>, b: Seq<u8>)
    ensures
        scan_bytes(s, a + b) == scan_bytes(scan_bytes(s, a), b),
    decreases b.len(),
{
    if b.len() == 0 {
        assert(a + b == a);
    } else {
        law_scan_chunks(s, a, b.drop_last());
        assert((a + b).drop_last() == a + b.drop_last());
        assert((a + b).last() == b.last());
    }
}

/// A tracker's state stays well formed whatever it scans.
pub proof fn law_scan_keeps_ok(s: Screen, data: Seq<u8>)
    requires
        screen_ok(s),
    ensures
        screen_ok(scan_bytes(s, data)),
    decreases data.len(),
{
    if data.len() > 0 {
        law_scan_keeps_ok(s, data.drop_last());
    }
}

/// Output without an escape byte, outside any sequence, never switches the
/// screen.
pub proof fn law_plain_output_keeps_screen(s: Screen, data: Seq<u8>)
    requires
        s.state is Normal,
        !data.contains(0x1b),
    ensures
        scan_bytes(s, data) == s,
    decreases data.len(),
{
    if data.len() > 0 {
        assert(data.contains(data.last()));
        assert(!data.drop_last().contains(0x1b)) by {
            if data.drop_last().contains(0x1b) {
                let i = choose|i: int| 0 <= i < data.drop_last().len() && data.drop_last()[i] == 0x1b;
                assert(data[i] == 0x1b);
            }
        }
        law_plain_output_keeps_screen(s, data.drop_last());
    }
}

/// Parameters with `;` between them.
pub open spec fn joined(params: Seq<Seq<u8>>) -> Seq<u8>
    decreases params.len(),
{
    if params.len() == 0 {
        seq![]
    } else if params.len() == 1 {
        params[0]
    } else {
        joined(params.drop_last()).push(0x3b) + params.last()
    }
}

/// Parameters with a `;` after each of them.
pub open spec fn after_each(params: Seq<Seq<u8>>) -> Seq<u8>
    decreases params.len(),
{
    if params.len() == 0 {
        seq![]
    } else {
        (after_each(params.drop_last()) + params.last()).push(0x3b)
    }
}

/// The bytes `ESC [ ?`.
pub open spec fn lead() -> Seq<u8> {
    seq![0x1bu8, 0x5bu8, 0x3fu8]
}

/// The bytes `ESC [ ?`, then parameters, then `h` or `l`.
pub open spec fn private_modes(params: Seq<Seq<u8>>, entering: bool) -> Seq<u8> {
    (lead() + joined(params)).push(
        if entering {
            0x68u8
        } else {
            0x6cu8
        },
    )
}

pub open spec fn all_digits(d: Seq<u8>) -> bool {
    forall|i: int| 0 <= i < d.len() ==> is_digit(#[trigger] d[i])
}

/// Whether some of the parameters names the alternate screen.
pub open spec fn any_alt(params: Seq<Seq<u8>>) -> bool {
    exists|i: int| 0 <= i < params.len() && is_alt_mode(#[trigger] params[i])
}

/// Parameters that are read to their end: digits, at least one and not too many.
pub open spec fn readable(params: Seq<Seq<u8>>) -> bool {
    forall|i: int|
        0 <= i < params.len() ==> all_digits(#[trigger] params[i]) && 1 <= params[i].len()
            <= MAX_PARAM
}

/// A whole private-mode sequence switches the screen exactly when one of its
/// parameters is an alternate-screen mode: `h` enters, `l` leaves. It does so
/// wherever it stands in the output, even where it cuts off another sequence,
/// and leaves the scanner outside any sequence.
pub proof fn law_private_modes_switch(s: Screen, params: Seq<Seq<u8>>, entering: bool)
    requires
        params.len() > 0,
        readable(params),
    ensures
        scan_bytes(s, private_modes(params, entering)) == at_rest(
            if any_alt(params) {
                entering
            } else {
                s.in_alt
            },
        ),
{
    let all = private_modes(params, entering);
    assert(all.drop_last() == lead() + joined(params));
    law_scan_chunks(s, lead(), joined(params));
    lemma_scan_lead(s);
    let q = scan_bytes(s, lead());
    lemma_scan_params(q, params);
    lemma_any_alt(params);
}

/// A sequence with one parameter, of whatever length, switches the screen
/// exactly when that is an alternate-screen mode.
pub proof fn law_private_mode_switches(s: Screen, digits: Seq<u8>, entering: bool)
    requires
        all_digits(digits),
    ensures
        scan_bytes(s, private_modes(seq![digits], entering)) == at_rest(
            if is_alt_mode(digits) {
                entering
            } else {
                s.in_alt
            },
        ),
{
    let one = seq![digits];
    let all = private_modes(one, entering);
    assert(all.drop_last() == lead() + digits);
    law_scan_chunks(s, lead(), digits);
    lemma_scan_lead(s);
    lemma_scan_digits(scan_bytes(s, lead()), digits);
}

/// A parameter that is too long, or one that is empty before a `;`, ends the
/// sequence there. Of what it names, only the parameters before have effect.
pub proof fn law_bad_parameters_drop_the_sequence(s: Screen, params: Seq<Seq<u8>>, bad: Seq<u8>)
    requires
        readable(params),
        bad == seq![0x3bu8] || all_digits(bad) && bad.len() > MAX_PARAM,
    ensures
        scan_bytes(s, lead() + after_each(params) + bad) == at_rest(s.in_alt || any_alt(params)),
{
    let q = scan_bytes(s, lead());
    lemma_scan_lead(s);
    law_scan_chunks(s, lead(), after_each(params));
    law_scan_chunks(s, lead() + after_each(params), bad);
    let m = scan_bytes(q, after_each(params));
    lemma_scan_each(q, params);
    if bad == seq![0x3bu8] {
        assert(bad.drop_last() == Seq::<u8>::empty());
        reveal_with_fuel(scan_bytes, 2);
    } else {
        lemma_scan_digits(m, bad);
    }
}

/// A sequence that ends in `l` never enters the alternate screen.
pub proof fn law_reset_never_enters(s: Screen, params: Seq<Seq<u8>>)
    requires
        params.len() > 0,
        readable(params),
        !s.in_alt,
    ensures
        !scan_bytes(s, private_modes(params, false)).in_alt,
{
    law_private_modes_switch(s, params, false);
}

proof fn lemma_any_alt(params: Seq<Seq<u8>>)
    requires
        params.len() > 0,
    ensures
        any_alt(params) == (any_alt(params.drop_last()) || is_alt_mode(params.last())),
{
    if any_alt(params.drop_last()) {
        let i = choose|i: int|
            0 <= i < params.drop_last().len() && is_alt_mode(#[trigger] params.drop_last()[i]);
        assert(is_alt_mode(params[i]));
    }
    if is_alt_mode(params.last()) {
        assert(is_alt_mode(params[params.len() - 1]));
    }
    if any_alt(params) {
        let i = choose|i: int| 0 <= i < params.len() && is_alt_mode(#[trigger] params[i]);
        if i < params.len() - 1 {
            assert(is_alt_mode(params.drop_last()[i]));
        }
    }
}

proof fn lemma_scan_lead(s: Screen)
    ensures
        scan_bytes(s, lead()) == (Screen { state: ScanState::Question, ..at_rest(s.in_alt) }),
{
    assert(lead().drop_last() == seq![0x1bu8, 0x5bu8]);
    assert(lead().drop_last().drop_last() == seq![0x1bu8]);
    assert(lead().drop_last().drop_last().drop_last() == Seq::<u8>::empty());
    reveal_with_fuel(scan_bytes, 4);
}

proof fn lemma_scan_each(q: Screen, params: Seq<Seq<u8>>)
    requires
        q.state is Question,
        q.digits.len() == 0,
        !q.named,
        readable(params),
    ensures
        scan_bytes(q, after_each(params)) == (Screen {
            state: ScanState::Question,
            digits: seq![],
            named: any_alt(params),
            in_alt: q.in_alt || any_alt(params),
        }),
    decreases params.len(),
{
    if params.len() == 0 {
        assert(q.digits == Seq::<u8>::empty());
    } else {
        let head = params.drop_last();
        let p = params.last();
        assert forall|i: int| 0 <= i < head.len() implies all_digits(#[trigger] head[i]) && 1
            <= head[i].len() <= MAX_PARAM by {
            assert(head[i] == params[i]);
        }
        assert(p == params[params.len() - 1]);
        lemma_scan_each(q, head);
        lemma_any_alt(params);
        let h = after_each(head);
        law_scan_chunks(q, h, p.push(0x3b));
        let m = scan_bytes(q, h);
        assert(h + p.push(0x3b) =~= (h + p).push(0x3b));
        assert(p.push(0x3b).drop_last() == p);
        lemma_scan_digits(m, p);
    }
}

proof fn lemma_joined(params: Seq<Seq<u8>>)
    requires
        params.len() > 0,
    ensures
        joined(params) == after_each(params.drop_last()) + params.last(),
    decreases params.len(),
{
    if params.len() == 1 {
        assert(after_each(params.drop_last()) + params.last() =~= params[0]);
    } else {
        lemma_joined(params.drop_last());
    }
}

proof fn lemma_scan_params(q: Screen, params: Seq<Seq<u8>>)
    requires
        q.state is Question,
        q.digits.len() == 0,
        !q.named,
        params.len() > 0,
        readable(params),
    ensures
        scan_bytes(q, joined(params)) == (Screen {
            state: ScanState::Param,
            digits: params.last(),
            named: any_alt(params.drop_last()),
            in_alt: q.in_alt || any_alt(params.drop_last()),
        }),
{
    let head = params.drop_last();
    assert forall|i: int| 0 <= i < head.len() implies all_digits(#[trigger] head[i]) && 1
        <= head[i].len() <= MAX_PARAM by {
        assert(head[i] == params[i]);
    }
    assert(params.last() == params[params.len() - 1]);
    lemma_joined(params);
    lemma_scan_each(q, head);
    law_scan_chunks(q, after_each(head), params.last());
    lemma_scan_digits(scan_bytes(q, after_each(head)), params.last());
}

proof fn lemma_scan_digits(q: Screen, digits: Seq<u8>)
    requires
        q.state is Question,
        q.digits.len() == 0,
        all_digits(digits),
    ensures
        scan_bytes(q, digits) == if digits.len() == 0 {
            q
        } else if digits.len() <= MAX_PARAM {
            Screen { state: ScanState::Param, digits, ..q }
        } else {
            at_rest(q.in_alt)
        },
    decreases digits.len(),
{
    if digits.len() > 0 {
        let head = digits.drop_last();
        assert forall|i: int| 0 <= i < head.len() implies is_digit(#[trigger] head[i]) by {
            assert(head[i] == digits[i]);
        }
        lemma_scan_digits(q, head);
        assert(is_digit(digits[digits.len() - 1]));
        assert(head.push(digits.last()) == digits);
        assert(q.digits.push(digits.last()) == seq![digits.last()]);
    }
}

} // verus!
