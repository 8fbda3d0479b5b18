//! Viewer admission: the session password, the chain of authenticators, and
//! the lists of pending and admitted viewers.

use vstd::prelude::*;
use rand::RngCore;

verus! {

/// Why a viewer was turned away.
#[derive(PartialEq, Eq, Structural, Clone, Copy, Debug)]
pub enum DeclineReason {
    IncorrectPassword,
    NoCredentials,
    UserDeclined,
}

/// The credentials a viewer presents when it asks to join.
pub enum AuthenticationPayload {
    Password { password: String },
    Anonymous,
}

/// Why a password authenticator could not be built.
#[derive(PartialEq, Eq, Structural, Clone, Copy, Debug)]
pub enum AuthError {
    /// The password is empty.
    EmptyPassword,
}

impl AuthError {
    /// The text of the error.
    pub fn message(&self) -> (text: String)
        ensures
            text@ == "Password cannot be empty"@,
    {
        "Password cannot be empty".to_owned()
    }
}

/// A viewer, by id and display name.
#[derive(Clone, Debug)]
pub struct ViewerIdentifier {
    pub uuid: String,
    pub name: String,
}

impl View for ViewerIdentifier {
    type V = (Seq<char>, Seq<char>);

    open spec fn view(&self) -> (Seq<char>, Seq<char>) {
        (self.uuid@, self.name@)
    }
}

impl ViewerIdentifier {
    fn copied(&self) -> (copy: ViewerIdentifier)
        ensures
            copy@ == self@,
    {
        ViewerIdentifier { uuid: self.uuid.clone(), name: self.name.clone() }
    }
}

/// Admits viewers that present the session password.
pub struct PasswordAuthenticator {
    password: String,
}

/// The characters of generated passwords: capitals and digits without the
/// easily confused `I`, `O`, `0` and `1`.
pub open spec fn friendly_alphabet() -> Seq<char> {
    seq![
        'A', 'B', 'C', 'D', 'E', 'F', 'G', 'H', 'J', 'K', 'L', 'M', 'N', 'P', 'Q', 'R',
        'S', 'T', 'U', 'V', 'W', 'X', 'Y', 'Z', '2', '3', '4', '5', '6', '7', '8', '9',
    ]
}

/// The character a random draw selects: its top five bits index the alphabet.
pub open spec fn friendly_char(draw: u32) -> char {
    friendly_alphabet()[(draw >> 27u32) as int]
}

/// The characters a sequence of draws selects.
pub open spec fn friendly_text(draws: Seq<u32>) -> Seq<char> {
    draws.map_values(|d: u32| friendly_char(d))
}

const FRIENDLY_ALPHABET: [char; 32] = [
    'A', 'B', 'C', 'D', 'E', 'F', 'G', 'H', 'J', 'K', 'L', 'M', 'N', 'P', 'Q', 'R',
    'S', 'T', 'U', 'V', 'W', 'X', 'Y', 'Z', '2', '3', '4', '5', '6', '7', '8', '9',
];

/// The alphabet character that draw `draw` selects.
pub fn user_friendly_char(draw: u32) -> (c: char)
    ensures
        c == friendly_char(draw),
{
    let index: u32 = draw >> 27u32;
    assert(index < 32) by (bit_vector)
        requires
            index == draw >> 27u32,
    ;
    assert(FRIENDLY_ALPHABET@ =~= friendly_alphabet());
    FRIENDLY_ALPHABET[index as usize]
}

/// Calls `String::push`.
#[verifier::external_body]
pub(crate) fn push_char(s: &mut String, c: char)
    ensures
        final(s)@ == old(s)@.push(c),
{
    s.push(c)
}

/// The text selected by the draws in `draws`, one character each.
pub fn user_friendly_string_from(draws: &[u32]) -> (text: String)
    ensures
        text@ == friendly_text(draws@),
{
    let mut text = String::new();
    let mut i: usize = 0;
    while i < draws.len()
        invariant
            i <= draws@.len(),
            text@ == friendly_text(draws@.take(i as int)),
        decreases draws@.len() - i,
    {
        let c = user_friendly_char(draws[i]);
        push_char(&mut text, c);
        assert(friendly_text(draws@.take(i + 1)) =~= friendly_text(draws@.take(i as int)).push(c));
        i = i + 1;
    }
    assert(draws@.take(draws@.len() as int) =~= draws@);
    text
}

/// Calls `rand::thread_rng().next_u32()`. The value is random, so nothing is
/// stated of it.
#[verifier::external_body]
fn random_u32() -> u32 {
    rand::thread_rng().next_u32()
}

/// `len` characters drawn at random from the user-friendly alphabet: the
/// characters that `len` random draws select.
pub fn random_user_friendly_string(len: usize) -> (text: String)
    ensures
        text@.len() == len,
        exists|draws: Seq<u32>| #![trigger friendly_text(draws)] draws.len() == len && text@ == friendly_text(draws),
        forall|i: int| 0 <= i < len ==> friendly_alphabet().contains(#[trigger] text@[i]),
{
    let mut draws: Vec<u32> = Vec::new();
    while draws.len() < len
        invariant
            draws@.len() <= len,
        decreases len - draws@.len(),
    {
        draws.push(random_u32());
    }
    let text = user_friendly_string_from(draws.as_slice());
    proof {
        assert forall|i: int| 0 <= i < len implies friendly_alphabet().contains(#[trigger] text@[i]) by {
            let d = draws@[i];
            let k = (d >> 27u32) as int;
            assert((d >> 27u32) < 32) by (bit_vector);
            assert(text@[i] == friendly_alphabet()[k]);
        }
    }
    text
}

impl PasswordAuthenticator {
    /// The session password.
    pub closed spec fn secret(&self) -> Seq<char> {
        self.password@
    }

    /// An authenticator for `password`, which must not be empty.
    pub fn new(password: String) -> (made: Result<Self, AuthError>)
        ensures
            made is Ok <==> password@.len() > 0,
            made matches Ok(a) ==> a.secret() == password@,
            made matches Err(e) ==> e == AuthError::EmptyPassword,
    {
        if password.as_str().is_empty() {
            return Err(AuthError::EmptyPassword);
        }
        Ok(PasswordAuthenticator { password })
    }

    /// An authenticator with a random five-character password drawn from the
    /// user-friendly alphabet.
    pub fn random() -> (made: Result<Self, AuthError>)
        ensures
            made matches Ok(a) && a.secret().len() == 5 && forall|i: int|
                0 <= i < 5 ==> friendly_alphabet().contains(#[trigger] a.secret()[i]),
    {
        Self::new(random_user_friendly_string(5))
    }

    /// The session password.
    pub fn password(&self) -> (password: String)
        ensures
            password@ == self.secret(),
    {
        self.password.clone()
    }

    /// `None` admits the viewer; otherwise the reason it is declined.
    pub fn authenticate(&self, _uuid: String, _name: String, payload: &AuthenticationPayload) -> (decision: Option<DeclineReason>)
        ensures
            decision == password_decision(self.secret(), *payload),
    {
        match payload {
            AuthenticationPayload::Password { password } => {
                if *password == self.password {
                    None
                } else {
                    Some(DeclineReason::IncorrectPassword)
                }
            },
            _ => Some(DeclineReason::NoCredentials),
        }
    }
}

/// The password check: the right password admits, a wrong one is declined as
/// incorrect, and no password at all as missing credentials.
pub open spec fn password_decision(secret: Seq<char>, payload: AuthenticationPayload) -> Option<DeclineReason> {
    match payload {
        AuthenticationPayload::Password { password } => if password@ == secret {
            None
        } else {
            Some(DeclineReason::IncorrectPassword)
        },
        _ => Some(DeclineReason::NoCredentials),
    }
}

/// The first decline among `outcomes`, taken in order; none admits.
pub open spec fn first_decline(outcomes: Seq<Option<DeclineReason>>) -> Option<DeclineReason>
    decreases outcomes.len(),
{
    if outcomes.len() == 0 {
        None
    } else if outcomes[0] is Some {
        outcomes[0]
    } else {
        first_decline(outcomes.drop_first())
    }
}

/// What to do next while running a chain of authenticators.
#[derive(PartialEq, Eq, Structural, Clone, Copy, Debug)]
pub enum AuthStep {
    /// Ask the authenticator at this index.
    Ask(usize),
    /// Stop: admit on `None`, decline with the reason otherwise.
    Decided(Option<DeclineReason>),
}

/// A chain of authenticators: a viewer is admitted only if every one of them
/// admits it, and the first one that declines decides; later ones are not
/// asked.
pub struct ComplexAuthenticator<A> {
    authenticators: Vec<A>,
}

impl<A> ComplexAuthenticator<A> {
    /// The authenticators, in the order in which they are asked.
    pub closed spec fn members(&self) -> Seq<A> {
        self.authenticators@
    }

    pub fn new(authenticators: Vec<A>) -> (chain: Self)
        ensures
            chain.members() == authenticators@,
    {
        ComplexAuthenticator { authenticators }
    }

    /// The authenticators, in the order in which they are asked.
    pub fn authenticators(&self) -> (members: &Vec<A>)
        ensures
            members@ == self.members(),
    {
        &self.authenticators
    }

    /// The first step: ask the first authenticator, or admit when there is none.
    pub fn first_step(&self) -> (step: AuthStep)
        ensures
            step == (if self.members().len() == 0 {
                AuthStep::Decided(None)
            } else {
                AuthStep::Ask(0)
            }),
    {
        if self.authenticators.len() == 0 {
            AuthStep::Decided(None)
        } else {
            AuthStep::Ask(0)
        }
    }

    /// The step after the authenticator at `index` answered `outcome`.
    pub fn next_step(&self, index: usize, outcome: Option<DeclineReason>) -> (step: AuthStep)
        requires
            index < self.members().len(),
        ensures
            step == next_auth_step(self.members().len(), index as int, outcome),
    {
        match outcome {
            Some(reason) => AuthStep::Decided(Some(reason)),
            None => if index < self.authenticators.len() - 1 {
                AuthStep::Ask(index + 1)
            } else {
                AuthStep::Decided(None)
            },
        }
    }
}

/// The step after authenticator `index` of `len` answered `outcome`.
pub open spec fn next_auth_step(len: nat, index: int, outcome: Option<DeclineReason>) -> AuthStep {
    match outcome {
        Some(reason) => AuthStep::Decided(Some(reason)),
        None => if index + 1 < len {
            AuthStep::Ask((index + 1) as usize)
        } else {
            AuthStep::Decided(None)
        },
    }
}

/// The decision reached by following the steps from authenticator `index`
/// on, when authenticator `k` answers `outcomes[k]`.
pub open spec fn run_from(outcomes: Seq<Option<DeclineReason>>, index: int) -> Option<DeclineReason>
    decreases outcomes.len() - index,
{
    if index < 0 || index >= outcomes.len() {
        None
    } else {
        match next_auth_step(outcomes.len(), index, outcomes[index]) {
            AuthStep::Decided(d) => d,
            AuthStep::Ask(_) => run_from(outcomes, index + 1),
        }
    }
}

/// Following the steps decides exactly the first decline of the chain: a
/// viewer passes only when every authenticator admits it.
pub proof fn law_chain_decides_first_decline(outcomes: Seq<Option<DeclineReason>>, index: int)
    requires
        0 <= index <= outcomes.len(),
    ensures
        run_from(outcomes, index) == first_decline(outcomes.skip(index)),
    decreases outcomes.len() - index,
{
    if index < outcomes.len() {
        law_chain_decides_first_decline(outcomes, index + 1);
        assert(outcomes.skip(index).drop_first() =~= outcomes.skip(index + 1));
        assert(outcomes.skip(index)[0] == outcomes[index]);
        if index + 1 == outcomes.len() {
            assert(outcomes.skip(index + 1).len() == 0);
        }
    } else {
        assert(outcomes.skip(index).len() == 0);
    }
}

/// The viewers of a session: those admitted and those waiting for the
/// operator's decision.
pub struct ViewerRoster {
    viewing: Vec<ViewerIdentifier>,
    pending: Vec<ViewerIdentifier>,
}

/// What happens to a viewer that passed the password check.
#[derive(PartialEq, Eq, Structural, Clone, Copy, Debug)]
pub enum Arrival {
    /// Admitted at once (unattended operation).
    Admitted,
    /// Listed as pending until the operator decides.
    AwaitingDecision,
}

pub open spec fn ids(v: Seq<ViewerIdentifier>) -> Seq<(Seq<char>, Seq<char>)> {
    v.map_values(|x: ViewerIdentifier| x@)
}

/// The viewers of `list` other than `uuid`, in order.
pub open spec fn without(list: Seq<(Seq<char>, Seq<char>)>, uuid: Seq<char>) -> Seq<(Seq<char>, Seq<char>)> {
    list.filter(|v: (Seq<char>, Seq<char>)| v.0 != uuid)
}

/// The first viewer of `list` with id `uuid`.
pub open spec fn first_with(list: Seq<(Seq<char>, Seq<char>)>, uuid: Seq<char>) -> Option<(Seq<char>, Seq<char>)>
    decreases list.len(),
{
    if list.len() == 0 {
        None
    } else if list[0].0 == uuid {
        Some(list[0])
    } else {
        first_with(list.drop_first(), uuid)
    }
}

/// `"{uuid} is not waiting for a decision"`.
pub open spec fn not_waiting_text(uuid: Seq<char>) -> Seq<char> {
    uuid + " is not waiting for a decision"@
}

/// `"{uuid} is not viewing"`.
pub open spec fn not_viewing_text(uuid: Seq<char>) -> Seq<char> {
    uuid + " is not viewing"@
}

/// `"{uuid} is no longer waiting for a decision"`.
pub open spec fn no_longer_waiting_text(uuid: Seq<char>) -> Seq<char> {
    uuid + " is no longer waiting for a decision"@
}

/// `"{uuid} is no longer connected"`.
pub open spec fn no_longer_connected_text(uuid: Seq<char>) -> Seq<char> {
    uuid + " is no longer connected"@
}

/// The error for a decision about a viewer that no longer waits for one.
pub fn no_longer_waiting(uuid: &String) -> (message: String)
    ensures
        message@ == no_longer_waiting_text(uuid@),
{
    uuid.clone().concat(" is no longer waiting for a decision")
}

/// The error for a decision that could not be handed to a viewer that left.
pub fn no_longer_connected(uuid: &String) -> (message: String)
    ensures
        message@ == no_longer_connected_text(uuid@),
{
    uuid.clone().concat(" is no longer connected")
}

fn without_exec(list: &Vec<ViewerIdentifier>, uuid: &String) -> (kept: Vec<ViewerIdentifier>)
    ensures
        ids(kept@) == without(ids(list@), uuid@),
{
    let mut kept: Vec<ViewerIdentifier> = Vec::new();
    let mut i: usize = 0;
    assert(ids(list@).take(0) =~= Seq::<(Seq<char>, Seq<char>)>::empty());
    assert(ids(kept@) =~= without(ids(list@).take(0), uuid@));
    while i < list.len()
        invariant
            i <= list@.len(),
            ids(kept@) == without(ids(list@).take(i as int), uuid@),
        decreases list@.len() - i,
    {
        let ghost before = ids(kept@);
        proof {
            reveal_with_fuel(Seq::<_>::filter, 1);
        }
        assert(ids(list@).take(i + 1).drop_last() =~= ids(list@).take(i as int));
        assert(ids(list@).take(i + 1).last() == list@[i as int]@);
        if list[i].uuid != *uuid {
            kept.push(list[i].copied());
            assert(ids(kept@) =~= before.push(list@[i as int]@));
        }
        i = i + 1;
    }
    assert(ids(list@).take(list@.len() as int) =~= ids(list@));
    kept
}

fn find_exec(list: &Vec<ViewerIdentifier>, uuid: &String) -> (found: Option<ViewerIdentifier>)
    ensures
        match found {
            Some(v) => first_with(ids(list@), uuid@) == Some(v@),
            None => first_with(ids(list@), uuid@) is None,
        },
{
    let mut i: usize = 0;
    assert(ids(list@).skip(0) =~= ids(list@));
    while i < list.len()
        invariant
            i <= list@.len(),
            first_with(ids(list@), uuid@) == first_with(ids(list@).skip(i as int), uuid@),
        decreases list@.len() - i,
    {
        let ghost rest = ids(list@).skip(i as int);
        assert(rest[0] == list@[i as int]@);
        if list[i].uuid == *uuid {
            return Some(list[i].copied());
        }
        assert(rest.drop_first() =~= ids(list@).skip(i + 1));
        i = i + 1;
    }
    assert(ids(list@).skip(i as int).len() == 0);
    None
}

impl ViewerRoster {
    /// Admitted viewers, in order of admission.
    pub closed spec fn viewing_view(&self) -> Seq<(Seq<char>, Seq<char>)> {
        ids(self.viewing@)
    }

    /// Viewers waiting for a decision, in order of arrival.
    pub closed spec fn pending_view(&self) -> Seq<(Seq<char>, Seq<char>)> {
        ids(self.pending@)
    }

    pub fn new() -> (roster: Self)
        ensures
            roster.viewing_view().len() == 0,
            roster.pending_view().len() == 0,
    {
        ViewerRoster { viewing: Vec::new(), pending: Vec::new() }
    }

    pub fn viewing(&self) -> (list: &Vec<ViewerIdentifier>)
        ensures
            ids(list@) == self.viewing_view(),
    {
        &self.viewing
    }

    pub fn pending(&self) -> (list: &Vec<ViewerIdentifier>)
        ensures
            ids(list@) == self.pending_view(),
    {
        &self.pending
    }

    /// A viewer that passed the password check arrives. With `auto_accept`
    /// it is admitted at once; otherwise it waits for the operator.
    pub fn arrive(&mut self, viewer: ViewerIdentifier, auto_accept: bool) -> (arrival: Arrival)
        ensures
            auto_accept ==> arrival == Arrival::Admitted && final(self).viewing_view() == old(self).viewing_view().push(viewer@)
                && final(self).pending_view() == old(self).pending_view(),
            !auto_accept ==> arrival == Arrival::AwaitingDecision && final(self).pending_view() == old(self).pending_view().push(viewer@)
                && final(self).viewing_view() == old(self).viewing_view(),
    {
        if auto_accept {
            let ghost before = self.viewing_view();
            self.viewing.push(viewer);
            assert(self.viewing_view() =~= before.push(viewer@));
            Arrival::Admitted
        } else {
            let ghost before = self.pending_view();
            self.pending.push(viewer);
            assert(self.pending_view() =~= before.push(viewer@));
            Arrival::AwaitingDecision
        }
    }

    /// The operator decided about a waiting viewer: it leaves the pending
    /// list, and is admitted when `permit` holds.
    pub fn settle(&mut self, viewer: ViewerIdentifier, permit: bool) -> (decision: Option<DeclineReason>)
        ensures
            final(self).pending_view() == without(old(self).pending_view(), viewer@.0),
            permit ==> decision is None && final(self).viewing_view() == old(self).viewing_view().push(viewer@),
            !permit ==> decision == Some(DeclineReason::UserDeclined) && final(self).viewing_view() == old(self).viewing_view(),
    {
        self.pending = without_exec(&self.pending, &viewer.uuid);
        if permit {
            let ghost before = self.viewing_view();
            self.viewing.push(viewer);
            assert(self.viewing_view() =~= before.push(viewer@));
            None
        } else {
            Some(DeclineReason::UserDeclined)
        }
    }

    /// A viewer left: it is dropped from both lists.
    pub fn viewer_left(&mut self, uuid: &String)
        ensures
            final(self).viewing_view() == without(old(self).viewing_view(), uuid@),
            final(self).pending_view() == without(old(self).pending_view(), uuid@),
    {
        self.viewing = without_exec(&self.viewing, uuid);
        self.pending = without_exec(&self.pending, uuid);
    }

    /// Forgets every viewer, when the session stops.
    pub fn clear(&mut self)
        ensures
            final(self).viewing_view().len() == 0,
            final(self).pending_view().len() == 0,
    {
        self.viewing = Vec::new();
        self.pending = Vec::new();
    }

    /// The first waiting viewer with id `uuid`, or the error naming it.
    pub fn pending_viewer(&self, uuid: &String) -> (found: Result<ViewerIdentifier, String>)
        ensures
            match found {
                Ok(v) => first_with(self.pending_view(), uuid@) == Some(v@),
                Err(e) => first_with(self.pending_view(), uuid@) is None && e@ == not_waiting_text(uuid@),
            },
    {
        match find_exec(&self.pending, uuid) {
            Some(v) => Ok(v),
            None => Err(uuid.clone().concat(" is not waiting for a decision")),
        }
    }

    /// The first admitted viewer with id `uuid`, or the error naming it.
    pub fn viewing_viewer(&self, uuid: &String) -> (found: Result<ViewerIdentifier, String>)
        ensures
            match found {
                Ok(v) => first_with(self.viewing_view(), uuid@) == Some(v@),
                Err(e) => first_with(self.viewing_view(), uuid@) is None && e@ == not_viewing_text(uuid@),
            },
    {
        match find_exec(&self.viewing, uuid) {
            Some(v) => Ok(v),
            None => Err(uuid.clone().concat(" is not viewing")),
        }
    }
}

/// A viewer that left, or was decided about, is in neither list any more:
/// no entry with its id remains.
pub proof fn law_removed_viewer_is_gone(list: Seq<(Seq<char>, Seq<char>)>, uuid: Seq<char>)
    ensures
        forall|i: int| 0 <= i < without(list, uuid).len() ==> #[trigger] without(list, uuid)[i].0 != uuid,
        first_with(without(list, uuid), uuid) is None,
    decreases list.len(),
{
    reveal_with_fuel(Seq::<_>::filter, 1);
    if list.len() > 0 {
        law_removed_viewer_is_gone(list.drop_last(), uuid);
    }
    lemma_first_with_none(without(list, uuid), uuid);
}

/// Without an entry of that id, the search finds nothing.
pub proof fn lemma_first_with_none(list: Seq<(Seq<char>, Seq<char>)>, uuid: Seq<char>)
    requires
        forall|i: int| 0 <= i < list.len() ==> #[trigger] list[i].0 != uuid,
    ensures
        first_with(list, uuid) is None,
    decreases list.len(),
{
    if list.len() > 0 {
        assert(list[0].0 != uuid);
        assert forall|i: int| 0 <= i < list.drop_first().len() implies #[trigger] list.drop_first()[i].0 != uuid by {
            assert(list.drop_first()[i] == list[i + 1]);
        }
        lemma_first_with_none(list.drop_first(), uuid);
    }
}

/// A viewer that arrived and waits for a decision can be found by its id, so
/// the operator's accept or decline reaches it.
pub proof fn law_waiting_viewer_is_found(list: Seq<(Seq<char>, Seq<char>)>, viewer: (Seq<char>, Seq<char>))
    ensures
        first_with(list.push(viewer), viewer.0) is Some,
        (first_with(list.push(viewer), viewer.0)->0).0 == viewer.0,
    decreases list.len(),
{
    if list.len() > 0 && list[0].0 != viewer.0 {
        assert(list.push(viewer).drop_first() =~= list.drop_first().push(viewer));
        law_waiting_viewer_is_found(list.drop_first(), viewer);
    }
}

} // verus!
