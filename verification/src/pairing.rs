//! The pairing window: opened on the host with a PIN, it admits exactly one
//! client and closes on the first successful PIN pair. The launcher token
//! pairs a same-host client without touching the window.
use vstd::prelude::*;
use crate::text::same_text;

verus! {

/// What the window holds: whether it is open, and its PIN.
pub struct PairingView {
    pub open: bool,
    pub pin: Option<Seq<char>>,
}

pub struct PairingState {
    open: bool,
    pin: Option<String>,
}

impl View for PairingState {
    type V = PairingView;

    closed spec fn view(&self) -> PairingView {
        PairingView {
            open: self.open,
            pin: match self.pin {
                Some(p) => Some(p@),
                None => None,
            },
        }
    }
}

/// Whether the window takes `pin`: it is open and `pin` is its PIN.
pub open spec fn admits(w: PairingView, pin: Seq<char>) -> bool {
    w.open && w.pin == Some(pin)
}

/// The window after one `pair_hello` with `pin`: closed if it took the PIN,
/// unchanged otherwise.
pub open spec fn after_pin(w: PairingView, pin: Seq<char>) -> PairingView {
    if admits(w, pin) {
        PairingView { open: false, pin: None }
    } else {
        w
    }
}

impl PairingState {
    /// A closed window with no PIN.
    pub fn new() -> (s: PairingState)
        ensures
            s@ == (PairingView { open: false, pin: None }),
    {
        PairingState { open: false, pin: None }
    }

    /// Opens the window: clients presenting `pin` may pair.
    pub fn open_pairing(&mut self, pin: String)
        ensures
            final(self)@ == (PairingView { open: true, pin: Some(pin@) }),
    {
        self.pin = Some(pin);
        self.open = true;
    }

    /// Whether the window takes `pin` now.
    pub fn check(&self, pin: &str) -> (r: bool)
        ensures
            r == admits(self@, pin@),
    {
        match &self.pin {
            Some(p) => self.open && same_text(p.as_str(), pin),
            None => false,
        }
    }

    /// Closes the window and forgets its PIN.
    pub fn close(&mut self)
        ensures
            final(self)@ == (PairingView { open: false, pin: None }),
    {
        self.open = false;
        self.pin = None;
    }

    /// The PIN to print in the pairing ticket; `None` where no window was
    /// opened ("pairing not open").
    pub fn ticket_pin(&self) -> (r: Option<String>)
        ensures
            r matches Some(p) ==> self@.pin == Some(p@),
            r is None ==> self@.pin is None,
    {
        match &self.pin {
            Some(p) => Some(p.clone()),
            None => None,
        }
    }

    /// The PIN half of `pair_hello`: where the window takes `pin` it closes
    /// (one window, one client) and the answer is `true`; otherwise nothing
    /// changes and the caller goes on to the launcher token.
    pub fn try_pin(&mut self, pin: &str) -> (r: bool)
        ensures
            r == admits(old(self)@, pin@),
            final(self)@ == after_pin(old(self)@, pin@),
    {
        if self.check(pin) {
            self.close();
            true
        } else {
            false
        }
    }
}

/// Whether the launcher token proves `pin`: a non-empty token equal to it.
pub open spec fn launcher_admits(token: Seq<char>, pin: Seq<char>) -> bool {
    token.len() > 0 && token == pin
}

/// The launcher half of `pair_hello`; it has no window to consume.
pub fn launcher_token_accepts(token: &str, pin: &str) -> (r: bool)
    ensures
        r == launcher_admits(token@, pin@),
{
    !token.is_empty() && same_text(token, pin)
}

/// Outcome of `pair_hello`, given whether the launcher token (read only
/// when the PIN failed) proves the PIN.
pub open spec fn pair_hello_succeeds(w: PairingView, pin: Seq<char>, token: Seq<char>) -> bool {
    admits(w, pin) || launcher_admits(token, pin)
}

/// Law: the window admits exactly one client. Once a PIN pair succeeded, no
/// PIN (the same one included) is taken again.
pub proof fn law_window_is_one_shot(w: PairingView, first: Seq<char>, second: Seq<char>)
    requires
        admits(w, first),
    ensures
        !admits(after_pin(w, first), second),
        after_pin(w, first) == (PairingView { open: false, pin: None }),
{
}

/// Law: a failed PIN leaves the window as it was, so a wrong guess does not
/// close it for the client that holds the right PIN.
pub proof fn law_wrong_pin_keeps_window(w: PairingView, wrong: Seq<char>, right: Seq<char>)
    requires
        !admits(w, wrong),
        admits(w, right),
    ensures
        after_pin(w, wrong) == w,
        admits(after_pin(w, wrong), right),
{
}

/// Law: pairing through the launcher token does not consume the window; a
/// phone that holds the PIN can still pair afterwards.
pub proof fn law_launcher_leaves_window(w: PairingView, token: Seq<char>, pin: Seq<char>, phone_pin: Seq<char>)
    requires
        !admits(w, pin),
        launcher_admits(token, pin),
        admits(w, phone_pin),
    ensures
        pair_hello_succeeds(w, pin, token),
        after_pin(w, pin) == w,
        admits(after_pin(w, pin), phone_pin),
{
}

/// Law: a closed window and an empty launcher token admit nobody.
pub proof fn law_closed_refuses(w: PairingView, pin: Seq<char>)
    requires
        !w.open,
    ensures
        !pair_hello_succeeds(w, pin, Seq::empty()),
{
}

/// Law: a non-empty launcher token proves itself, whatever its length or
/// characters, and whatever state the pairing window is in: a same-host
/// client presenting the token pairs.
pub proof fn law_launcher_token_proves_itself(w: PairingView, token: Seq<char>)
    requires
        token.len() > 0,
    ensures
        launcher_admits(token, token),
        pair_hello_succeeds(w, token, token),
        forall|pin: Seq<char>| launcher_admits(token, pin) <==> pin == token,
{
}

/// The text of a refused `pair_hello`.
pub fn pair_refused_message() -> (m: String)
    ensures
        m@ == "pairing closed or bad pin"@,
{
    "pairing closed or bad pin".to_owned()
}

/// `rand::random::<u32>()`: a uniformly random number; nothing is claimed
/// of which.
#[verifier::external_body]
fn random_u32() -> u32 {
    rand::random::<u32>()
}

/// The last `width` decimal digits of `n`, zero-padded.
pub open spec fn padded(n: nat, width: nat) -> Seq<char>
    decreases width,
{
    if width == 0 {
        Seq::empty()
    } else {
        padded(n / 10, (width - 1) as nat).push(crate::text::digit(n % 10))
    }
}

/// A pairing PIN: `n` modulo a million, as six digits.
pub fn pin_text(n: u32) -> (r: String)
    ensures
        r@ == padded((n % 1000000) as nat, 6),
{
    let mut m: u32 = n % 1000000;
    let ghost full = (n % 1000000) as nat;
    let mut acc: Vec<char> = Vec::new();
    let mut w: usize = 0;
    while w < 6
        invariant
            w <= 6,
            padded(full, 6) == padded(m as nat, (6 - w) as nat) + acc@,
        decreases 6 - w,
    {
        let c = crate::text::digit_char((m % 10) as u64);
        acc.insert(0, c);
        proof {
            assert(c == crate::text::digit((m % 10) as nat));
            assert(padded(m as nat, (6 - w) as nat) == padded((m / 10) as nat, (6 - w - 1) as nat).push(c));
            assert(padded((m / 10) as nat, (6 - w - 1) as nat).push(c) + acc@.drop_first() =~= padded(
                (m / 10) as nat,
                (6 - w - 1) as nat,
            ) + acc@);
        }
        m = m / 10;
        w = w + 1;
    }
    assert(padded(m as nat, 0) =~= Seq::<char>::empty());
    assert(acc@ =~= padded(full, 6));
    crate::text::string_of(acc.as_slice())
}

/// A fresh six-digit PIN for a pairing window.
pub fn random_pin() -> (r: String)
    ensures
        r@.len() == 6,
        exists|n: u32| r@ == #[trigger] padded((n % 1000000) as nat, 6),
{
    let n = random_u32();
    let r = pin_text(n);
    proof {
        lemma_padded_len((n % 1000000) as nat, 6);
    }
    r
}

proof fn lemma_padded_len(n: nat, w: nat)
    ensures
        padded(n, w).len() == w,
    decreases w,
{
    if w > 0 {
        lemma_padded_len(n / 10, (w - 1) as nat);
    }
}

} // verus!
