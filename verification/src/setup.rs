//! Key provisioning.
//!
//! The module behind PKCS#11 is driven from outside: a [`Setup`] says which
//! call comes next and takes in what came of it, until a signer stands or the
//! setup has failed.

use crate::chart::{lemma_shows, lemma_still_shows, shows};
use crate::pkcs11::{
    sha256, signing_input_of, Curve, KeyPair, Slot, CKA_EC_POINT, CKO_PRIVATE_KEY, CKO_PUBLIC_KEY,
};
use crate::random::{is_random_uuid, key_label, label_of, random_bits};
use crate::signer::{
    because, check_length, explain, handles_to_destroy, in_context, length_checked, model_or_text,
    outcome_because, owned_handles, point_key, point_key_of, supplied_key, supplied_key_of,
    verification_of, KeyModel, Signer, SignerModel, VerifyingKey,
};
use crate::text::{decimal, decimal_text};
use vstd::prelude::*;
use vstd::string::StringExecFns;

verus! {

/// What a signer is to be made of.
pub struct SignerConfig {
    pub slot: Option<u64>,
    /// Object id of an existing key, looked up via `CKA_ID`.
    pub key_id: Option<String>,
    pub pin: Option<String>,
    /// The curve of the key: dictates the mechanism, keygen, and public-key
    /// parsing used throughout.
    pub curve: Curve,
    /// DER SubjectPublicKeyInfo holding the public key.
    ///
    /// Needed when the module cannot serve the public key itself.
    pub public_key_der: Option<Vec<u8>>,
}

pub struct ConfigModel {
    pub slot: Option<u64>,
    pub key_id: Option<Seq<char>>,
    pub pin: Option<Seq<char>>,
    pub curve: Curve,
    pub public_key_der: Option<Seq<u8>>,
}

/// An optional text as a sequence.
pub open spec fn optional_text(text: Option<String>) -> Option<Seq<char>> {
    match text {
        Some(t) => Some(t@),
        None => None,
    }
}

impl View for SignerConfig {
    type V = ConfigModel;

    open spec fn view(&self) -> ConfigModel {
        ConfigModel {
            slot: self.slot,
            key_id: optional_text(self.key_id),
            pin: optional_text(self.pin),
            curve: self.curve,
            public_key_der: match self.public_key_der {
                Some(der) => Some(der@),
                None => None,
            },
        }
    }
}

/// A slot by its id and the label of its token.
pub type SlotModel = (u64, Seq<char>);

pub open spec fn slots_of(slots: Seq<Slot>) -> Seq<SlotModel> {
    slots.map_values(|s: Slot| (s.id, s.token_label@))
}

/// The first `k` slots as a list.
pub open spec fn listed(slots: Seq<SlotModel>, k: nat) -> Seq<char>
    decreases k,
{
    if k == 0 {
        Seq::empty()
    } else {
        listed(slots, (k - 1) as nat) + (if k == 1 {
            ""@
        } else {
            ", "@
        }) + decimal(slots[k - 1].0 as nat) + " ("@ + slots[k - 1].1 + ")"@
    }
}

pub open spec fn described(slots: Seq<SlotModel>) -> Seq<char> {
    if slots.len() == 0 {
        "(none)"@
    } else {
        listed(slots, slots.len())
    }
}

/// The slots with a token, as they are named in an error.
pub fn describe_slots(slots: &[Slot]) -> (text: String)
    ensures
        text@ == described(slots_of(slots@)),
{
    if slots.len() == 0 {
        return String::from_str("(none)");
    }
    let ghost model = slots_of(slots@);
    let mut text = String::new();
    let mut i: usize = 0;
    while i < slots.len()
        invariant
            i <= slots@.len(),
            model == slots_of(slots@),
            text@ == listed(model, i as nat),
        decreases slots.len() - i,
    {
        let ghost before = text@;
        text.append(
            if i == 0 {
                ""
            } else {
                ", "
            },
        );
        let id = decimal_text(slots[i].id as u128);
        text.append(id.as_str());
        text.append(" (");
        text.append(slots[i].token_label.as_str());
        text.append(")");
        i = i + 1;
    }
    text
}

/// Whether a slot with the id is among the slots.
pub open spec fn has_slot(slots: Seq<SlotModel>, id: u64) -> bool {
    exists|i: int| 0 <= i < slots.len() && (#[trigger] slots[i]).0 == id
}

/// The slot to use: the requested one where it has a token; without a request
/// the only one.
pub open spec fn slot_choice(slots: Seq<SlotModel>, requested: Option<u64>) -> Result<
    u64,
    Seq<char>,
> {
    match requested {
        Some(id) => if has_slot(slots, id) {
            Ok(id)
        } else {
            Err(
                "slot "@ + decimal(id as nat) + " has no token present; available: "@ + described(
                    slots,
                ),
            )
        },
        None => if slots.len() == 0 {
            Err("no PKCS#11 slot has a token present"@)
        } else if slots.len() == 1 {
            Ok(slots[0].0)
        } else {
            Err(
                "several slots have tokens present, pass --slot to choose: "@ + described(slots),
            )
        },
    }
}

/// A number or an error's words as a sequence.
pub open spec fn number_or_text(r: Result<u64, String>) -> Result<u64, Seq<char>> {
    match r {
        Ok(n) => Ok(n),
        Err(e) => Err(e@),
    }
}

/// Pick the slot to use, auto-selecting when exactly one token is present.
pub fn resolve_slot(slots: &[Slot], requested: Option<u64>) -> (r: Result<u64, String>)
    ensures
        number_or_text(r) == slot_choice(slots_of(slots@), requested),
{
    let ghost model = slots_of(slots@);
    if let Some(id) = requested {
        let mut i: usize = 0;
        while i < slots.len()
            invariant
                i <= slots@.len(),
                requested == Some(id),
                model == slots_of(slots@),
                forall|j: int| 0 <= j < i ==> (#[trigger] model[j]).0 != id,
            decreases slots.len() - i,
        {
            assert(model[i as int].0 == slots@[i as int].id);
            if slots[i].id == id {
                return Ok(id);
            }
            i = i + 1;
        }
        let mut text = String::from_str("slot ");
        let number = decimal_text(id as u128);
        text.append(number.as_str());
        text.append(" has no token present; available: ");
        let list = describe_slots(slots);
        text.append(list.as_str());
        return Err(text);
    }
    if slots.len() == 0 {
        return Err(String::from_str("no PKCS#11 slot has a token present"));
    }
    if slots.len() == 1 {
        return Ok(slots[0].id);
    }
    let mut text = String::from_str("several slots have tokens present, pass --slot to choose: ");
    let list = describe_slots(slots);
    text.append(list.as_str());
    Err(text)
}

/// Without a request a slot is selected exactly where one token is present,
/// and it is the slot of that token. With a request no other slot is selected
/// than the requested one, exactly where it has a token.
pub proof fn law_slot_is_selected(slots: Seq<SlotModel>, requested: Option<u64>)
    ensures
        slot_choice(slots, None) is Ok <==> slots.len() == 1,
        slots.len() == 1 ==> slot_choice(slots, None) == Ok::<u64, Seq<char>>(slots[0].0),
        slots.len() == 0 ==> slot_choice(slots, None) == Err::<u64, Seq<char>>(
            "no PKCS#11 slot has a token present"@,
        ),
        slot_choice(slots, requested) matches Ok(id) ==> has_slot(slots, id),
        requested is Some ==> (slot_choice(slots, requested) is Ok <==> has_slot(
            slots,
            requested->0,
        )),
        slot_choice(slots, requested) matches Ok(chosen) ==> (requested matches Some(id) ==> chosen
            == id),
{
    if slots.len() > 0 {
        assert(slots[0].0 == slots[0].0);
    }
}

/// A key pair in hand, before its public key is known.
pub struct Held {
    keys: KeyPair,
    label: String,
    owns_key: bool,
}

pub struct HeldModel {
    pub keys: KeyPair,
    pub label: Seq<char>,
    pub owns_key: bool,
}

impl View for Held {
    type V = HeldModel;

    closed spec fn view(&self) -> HeldModel {
        HeldModel { keys: self.keys, label: self.label@, owns_key: self.owns_key }
    }
}

/// How far a setup has come, named after the call that comes next.
pub enum Stage {
    ListSlots,
    OpenSession(u64),
    Login,
    FindPrivateKey,
    /// The private key is found; the public one is looked for.
    FindPublicKey(u64),
    GenerateKey,
    ReadPoint(Held),
    SignInit(Signer),
    Sign(Signer),
    Ready(Signer),
    Failed(Failure),
}

/// Why a setup failed, and the objects that it leaves to be destroyed.
pub struct Failure {
    pub error: String,
    pub destroy: Vec<u64>,
}

pub enum StageModel {
    ListSlots,
    OpenSession(u64),
    Login,
    FindPrivateKey,
    FindPublicKey(u64),
    GenerateKey,
    ReadPoint(HeldModel),
    SignInit(SignerModel),
    Sign(SignerModel),
    Ready(SignerModel),
    Failed(Seq<char>, Seq<u64>),
}

impl View for Stage {
    type V = StageModel;

    open spec fn view(&self) -> StageModel {
        match self {
            Stage::ListSlots => StageModel::ListSlots,
            Stage::OpenSession(slot) => StageModel::OpenSession(*slot),
            Stage::Login => StageModel::Login,
            Stage::FindPrivateKey => StageModel::FindPrivateKey,
            Stage::FindPublicKey(private) => StageModel::FindPublicKey(*private),
            Stage::GenerateKey => StageModel::GenerateKey,
            Stage::ReadPoint(held) => StageModel::ReadPoint(held@),
            Stage::SignInit(signer) => StageModel::SignInit(signer@),
            Stage::Sign(signer) => StageModel::Sign(signer@),
            Stage::Ready(signer) => StageModel::Ready(signer@),
            Stage::Failed(failure) => StageModel::Failed(failure.error@, failure.destroy@),
        }
    }
}

/// What came of a call.
pub enum Event {
    Slots(Result<Vec<Slot>, String>),
    /// Of a call that returns nothing: opening a session, logging in,
    /// initialising a signature.
    Done(Result<(), String>),
    /// Of a search: the handle of the first match, if there is any.
    Found(Result<Option<u64>, String>),
    Generated(Result<KeyPair, String>),
    /// Of a call that returns bytes: an attribute, a signature.
    Bytes(Result<Vec<u8>, String>),
}

pub enum EventModel {
    Slots(Result<Seq<SlotModel>, Seq<char>>),
    Done(Result<(), Seq<char>>),
    Found(Result<Option<u64>, Seq<char>>),
    Generated(Result<KeyPair, Seq<char>>),
    Bytes(Result<Seq<u8>, Seq<char>>),
}

impl View for Event {
    type V = EventModel;

    open spec fn view(&self) -> EventModel {
        match self {
            Event::Slots(Ok(slots)) => EventModel::Slots(Ok(slots_of(slots@))),
            Event::Slots(Err(e)) => EventModel::Slots(Err(e@)),
            Event::Done(Ok(())) => EventModel::Done(Ok(())),
            Event::Done(Err(e)) => EventModel::Done(Err(e@)),
            Event::Found(Ok(handle)) => EventModel::Found(Ok(*handle)),
            Event::Found(Err(e)) => EventModel::Found(Err(e@)),
            Event::Generated(Ok(keys)) => EventModel::Generated(Ok(*keys)),
            Event::Generated(Err(e)) => EventModel::Generated(Err(e@)),
            Event::Bytes(Ok(bytes)) => EventModel::Bytes(Ok(bytes@)),
            Event::Bytes(Err(e)) => EventModel::Bytes(Err(e@)),
        }
    }
}

/// The call that comes next.
pub enum Action {
    ListSlots,
    OpenSession(u64),
    Login(String),
    /// Find an object by its id and class.
    FindObject(String, u64),
    GenerateKey(String, Curve),
    /// Read an attribute of an object.
    ReadAttribute(u64, u64),
    /// Initialise signing with a key, on its curve.
    SignInit(u64, Curve),
    /// Sign bytes into a buffer of a length.
    Sign(Vec<u8>, usize),
    /// Nothing: the setup is at its end.
    Finish,
}

pub enum ActionModel {
    ListSlots,
    OpenSession(u64),
    Login(Seq<char>),
    FindObject(Seq<char>, u64),
    GenerateKey(Seq<char>, Curve),
    ReadAttribute(u64, u64),
    SignInit(u64, Curve),
    Sign(Seq<u8>, usize),
    Finish,
}

impl View for Action {
    type V = ActionModel;

    open spec fn view(&self) -> ActionModel {
        match self {
            Action::ListSlots => ActionModel::ListSlots,
            Action::OpenSession(slot) => ActionModel::OpenSession(*slot),
            Action::Login(pin) => ActionModel::Login(pin@),
            Action::FindObject(id, class) => ActionModel::FindObject(id@, *class),
            Action::GenerateKey(label, curve) => ActionModel::GenerateKey(label@, *curve),
            Action::ReadAttribute(object, kind) => ActionModel::ReadAttribute(*object, *kind),
            Action::SignInit(key, curve) => ActionModel::SignInit(*key, *curve),
            Action::Sign(input, len) => ActionModel::Sign(input@, *len),
            Action::Finish => ActionModel::Finish,
        }
    }
}

/// The message of the self-test: "sign-tx setup self-test".
pub const PROBE: [u8; 23] = [
    0x73, 0x69, 0x67, 0x6e, 0x2d, 0x74, 0x78, 0x20, 0x73, 0x65, 0x74, 0x75, 0x70, 0x20, 0x73, 0x65,
    0x6c, 0x66, 0x2d, 0x74, 0x65, 0x73, 0x74,
];

/// The state of a setup.
pub struct SetupModel {
    pub config: ConfigModel,
    /// The label for the key, should one be generated.
    pub label: Seq<char>,
    pub stage: StageModel,
}

/// What comes after the session is open.
pub open spec fn opened(config: ConfigModel) -> StageModel {
    if config.pin is Some {
        StageModel::Login
    } else {
        located(config)
    }
}

/// What comes once the token accepts calls: an existing key is looked up, or a
/// fresh one generated.
pub open spec fn located(config: ConfigModel) -> StageModel {
    if config.key_id is Some {
        StageModel::FindPrivateKey
    } else {
        StageModel::GenerateKey
    }
}

/// A failure that gives up the key in hand.
pub open spec fn given_up(keys: KeyPair, owns_key: bool, error: Seq<char>) -> StageModel {
    StageModel::Failed(error, owned_handles(keys, owns_key))
}

/// A failure with no key in hand.
pub open spec fn broken_off(error: Seq<char>) -> StageModel {
    StageModel::Failed(error, Seq::empty())
}

/// What comes once a key pair is in hand: its public key is the supplied one,
/// or else is read from the module.
pub open spec fn provided(config: ConfigModel, held: HeldModel) -> StageModel {
    match config.public_key_der {
        Some(der) => resolved(held, supplied_key_of(config.curve, der)),
        None => if held.keys.public == 0 {
            given_up(
                held.keys,
                held.owns_key,
                "no public key object was found and none was supplied; pass --public-key with the DER SubjectPublicKeyInfo of the signing key"@,
            )
        } else {
            StageModel::ReadPoint(held)
        },
    }
}

/// What comes once the public key is settled.
pub open spec fn resolved(held: HeldModel, key: Result<KeyModel, Seq<char>>) -> StageModel {
    match key {
        Err(e) => given_up(held.keys, held.owns_key, e),
        Ok(key) => StageModel::SignInit(
            SignerModel {
                keys: held.keys,
                key,
                label: held.label,
                owns_key: held.owns_key,
            },
        ),
    }
}

/// What the signature of the self-test leads to. This is what catches a
/// mismatched public key: it fails here in setup rather than silently
/// producing thousands of invalid signatures.
pub open spec fn self_tested(signer: SignerModel, signature: Seq<u8>) -> StageModel {
    match length_checked(
        signer.key.curve,
        signature.len(),
        outcome_because(
            "setup self-test failed: the signature did not verify against the public key"@,
            verification_of(signer.key, PROBE@, signature),
        ),
    ) {
        Err(e) => given_up(signer.keys, signer.owns_key, e),
        Ok(()) => StageModel::Ready(signer),
    }
}

/// The handle of an object that may be missing: zero is that of none.
pub open spec fn optional_handle(handle: Option<u64>) -> u64 {
    match handle {
        Some(h) => h,
        None => 0,
    }
}

/// What a search without a match is reported as.
pub open spec fn missing_key(id: Seq<char>) -> Seq<char> {
    "no private key found with CKA_ID '"@ + id
        + "'. The Cosmian PKCS#11 provider only exposes private keys carrying the 'disk-encryption' or 'ssh-auth' KMIP tag — check the key was created with one of those tags"@
}

/// The stage after an event. One that is not the outcome of the call that the
/// stage asked for changes nothing.
pub open spec fn next_stage(m: SetupModel, event: EventModel) -> StageModel {
    let config = m.config;
    match (m.stage, event) {
        (StageModel::ListSlots, EventModel::Slots(Err(e))) => broken_off(
            because("failed to enumerate PKCS#11 slots"@, e),
        ),
        (StageModel::ListSlots, EventModel::Slots(Ok(slots))) => match slot_choice(
            slots,
            config.slot,
        ) {
            Ok(slot) => StageModel::OpenSession(slot),
            Err(e) => broken_off(e),
        },
        (StageModel::OpenSession(slot), EventModel::Done(Err(e))) => broken_off(
            because("failed to open a session on slot "@ + decimal(slot as nat), e),
        ),
        (StageModel::OpenSession(_), EventModel::Done(Ok(()))) => opened(config),
        (StageModel::Login, EventModel::Done(Err(e))) => broken_off(
            because("C_Login failed"@, e),
        ),
        (StageModel::Login, EventModel::Done(Ok(()))) => located(config),
        (StageModel::FindPrivateKey, EventModel::Found(Err(e))) => broken_off(e),
        (StageModel::FindPrivateKey, EventModel::Found(Ok(None))) => broken_off(
            missing_key(config.key_id->0),
        ),
        (StageModel::FindPrivateKey, EventModel::Found(Ok(Some(private)))) =>
            StageModel::FindPublicKey(private),
        (StageModel::FindPublicKey(_), EventModel::Found(Err(e))) => broken_off(e),
        (StageModel::FindPublicKey(private), EventModel::Found(Ok(public))) => provided(
            config,
            HeldModel {
                keys: KeyPair { public: optional_handle(public), private },
                label: config.key_id->0,
                owns_key: false,
            },
        ),
        (StageModel::GenerateKey, EventModel::Generated(Err(e))) => broken_off(
            because("key generation failed"@, e),
        ),
        (StageModel::GenerateKey, EventModel::Generated(Ok(keys))) => provided(
            config,
            HeldModel { keys, label: m.label, owns_key: true },
        ),
        (StageModel::ReadPoint(held), EventModel::Bytes(Err(e))) => given_up(
            held.keys,
            held.owns_key,
            because(
                "failed to read CKA_EC_POINT. The Cosmian provider cannot return Ed25519 public keys this way — supply the key with --public-key instead"@,
                e,
            ),
        ),
        (StageModel::ReadPoint(held), EventModel::Bytes(Ok(point))) => resolved(
            held,
            point_key_of(config.curve, point),
        ),
        (StageModel::SignInit(signer), EventModel::Done(Err(e))) => given_up(
            signer.keys,
            signer.owns_key,
            e,
        ),
        (StageModel::SignInit(signer), EventModel::Done(Ok(()))) => StageModel::Sign(signer),
        (StageModel::Sign(signer), EventModel::Bytes(Err(e))) => given_up(
            signer.keys,
            signer.owns_key,
            e,
        ),
        (StageModel::Sign(signer), EventModel::Bytes(Ok(signature))) => self_tested(
            signer,
            signature,
        ),
        (stage, _) => stage,
    }
}

/// The setup after an event.
pub open spec fn stepped(m: SetupModel, event: EventModel) -> SetupModel {
    SetupModel { config: m.config, label: m.label, stage: next_stage(m, event) }
}

/// The call that a stage asks for.
pub open spec fn action_of(m: SetupModel) -> ActionModel {
    match m.stage {
        StageModel::ListSlots => ActionModel::ListSlots,
        StageModel::OpenSession(slot) => ActionModel::OpenSession(slot),
        StageModel::Login => ActionModel::Login(m.config.pin->0),
        StageModel::FindPrivateKey => ActionModel::FindObject(
            m.config.key_id->0,
            CKO_PRIVATE_KEY,
        ),
        StageModel::FindPublicKey(_) => ActionModel::FindObject(
            m.config.key_id->0,
            CKO_PUBLIC_KEY,
        ),
        StageModel::GenerateKey => ActionModel::GenerateKey(m.label, m.config.curve),
        StageModel::ReadPoint(held) => ActionModel::ReadAttribute(held.keys.public, CKA_EC_POINT),
        StageModel::SignInit(signer) => ActionModel::SignInit(
            signer.keys.private,
            signer.key.curve,
        ),
        StageModel::Sign(signer) => ActionModel::Sign(
            signing_input_of(signer.key.curve, PROBE@),
            signer.key.curve.signature_bound(),
        ),
        StageModel::Ready(_) => ActionModel::Finish,
        StageModel::Failed(_, _) => ActionModel::Finish,
    }
}

/// Whether a signer is one that the configuration asks for.
pub open spec fn fits(config: ConfigModel, signer: SignerModel) -> bool {
    &&& signer.owns_key == config.key_id is None
    &&& signer.key.curve == config.curve
    &&& signer.key.valid()
}

/// What holds of a setup at every stage.
pub open spec fn well_formed(m: SetupModel) -> bool {
    match m.stage {
        StageModel::ListSlots => true,
        StageModel::OpenSession(_) => true,
        StageModel::Login => m.config.pin is Some,
        StageModel::FindPrivateKey => m.config.key_id is Some,
        StageModel::FindPublicKey(_) => m.config.key_id is Some,
        StageModel::GenerateKey => m.config.key_id is None,
        StageModel::ReadPoint(held) => held.owns_key == m.config.key_id is None,
        StageModel::SignInit(signer) => fits(m.config, signer),
        StageModel::Sign(signer) => fits(m.config, signer),
        StageModel::Ready(signer) => fits(m.config, signer),
        StageModel::Failed(_, destroy) => m.config.key_id is Some ==> destroy.len() == 0,
    }
}

/// The key pair in hand, and whether this run created it.
pub open spec fn in_hand(m: SetupModel) -> Option<(KeyPair, bool)> {
    match m.stage {
        StageModel::ReadPoint(held) => Some((held.keys, held.owns_key)),
        StageModel::SignInit(signer) => Some((signer.keys, signer.owns_key)),
        StageModel::Sign(signer) => Some((signer.keys, signer.owns_key)),
        StageModel::Ready(signer) => Some((signer.keys, signer.owns_key)),
        _ => None,
    }
}

proof fn lemma_keys_are_valid(curve: Curve, bytes: Seq<u8>)
    ensures
        supplied_key_of(curve, bytes) matches Ok(key) ==> key.curve == curve && key.valid(),
        point_key_of(curve, bytes) matches Ok(key) ==> key.curve == curve && key.valid(),
{
}

/// Every step keeps what holds at every stage.
pub proof fn law_steps_keep_form(m: SetupModel, event: EventModel)
    requires
        well_formed(m),
    ensures
        well_formed(stepped(m, event)),
{
    if let StageModel::ReadPoint(_) = m.stage {
        if let EventModel::Bytes(Ok(point)) = event {
            lemma_keys_are_valid(m.config.curve, point);
        }
    }
    if let Some(der) = m.config.public_key_der {
        lemma_keys_are_valid(m.config.curve, der);
    }
}

/// A key that was supplied is never handed out to be destroyed.
pub proof fn law_supplied_key_is_left_alone(m: SetupModel, event: EventModel)
    requires
        well_formed(m),
        m.config.key_id is Some,
    ensures
        stepped(m, event).stage matches StageModel::Failed(_, destroy) ==> destroy.len() == 0,
        stepped(m, event).stage matches StageModel::Ready(signer) ==> owned_handles(
            signer.keys,
            signer.owns_key,
        ).len() == 0,
{
    law_steps_keep_form(m, event);
}

/// A key that this run generated does not get lost: after its generation and
/// every further step it is still in hand as this run's own, or the setup has
/// failed and both its objects are to be destroyed.
pub proof fn law_generated_key_is_not_lost(m: SetupModel, event: EventModel, keys: KeyPair)
    requires
        in_hand(m) == Some((keys, true)) || (m.stage is GenerateKey && event
            == EventModel::Generated(Ok(keys))),
    ensures
        in_hand(stepped(m, event)) == Some((keys, true)) || (stepped(m, event).stage matches
            StageModel::Failed(_, destroy) && destroy == seq![keys.private, keys.public]),
{
}

/// A signer is ready only once a signature of its own over the probe has
/// verified against its public key.
pub proof fn law_ready_signer_passed_the_self_test(m: SetupModel, event: EventModel)
    requires
        !(m.stage is Ready),
        stepped(m, event).stage is Ready,
    ensures
        exists|signer: SignerModel, signature: Seq<u8>|
            m.stage == StageModel::Sign(signer) && event == EventModel::Bytes(Ok(signature))
                && stepped(m, event).stage == StageModel::Ready(signer)
                && #[trigger] verification_of(signer.key, PROBE@, signature) is Ok,
{
    let signer = m.stage->Sign_0;
    let signature = event->Bytes_0->Ok_0;
    assert(verification_of(signer.key, PROBE@, signature) is Ok);
}

/// Whether an event is the outcome of the call that a stage asks for.
pub open spec fn answers(stage: StageModel, event: EventModel) -> bool {
    match stage {
        StageModel::ListSlots => event is Slots,
        StageModel::OpenSession(_) => event is Done,
        StageModel::Login => event is Done,
        StageModel::FindPrivateKey => event is Found,
        StageModel::FindPublicKey(_) => event is Found,
        StageModel::GenerateKey => event is Generated,
        StageModel::ReadPoint(_) => event is Bytes,
        StageModel::SignInit(_) => event is Done,
        StageModel::Sign(_) => event is Bytes,
        StageModel::Ready(_) => false,
        StageModel::Failed(_, _) => false,
    }
}

/// A bound on how many calls are still to come.
pub open spec fn calls_left(stage: StageModel) -> nat {
    match stage {
        StageModel::ListSlots => 8,
        StageModel::OpenSession(_) => 7,
        StageModel::Login => 6,
        StageModel::FindPrivateKey => 5,
        StageModel::FindPublicKey(_) => 4,
        StageModel::GenerateKey => 4,
        StageModel::ReadPoint(_) => 3,
        StageModel::SignInit(_) => 2,
        StageModel::Sign(_) => 1,
        StageModel::Ready(_) => 0,
        StageModel::Failed(_, _) => 0,
    }
}

/// A setup comes to its end: the outcome of each call brings it nearer, and it
/// asks for none only where it is ready or has failed.
pub proof fn law_setup_ends(m: SetupModel, event: EventModel)
    ensures
        answers(m.stage, event) ==> calls_left(stepped(m, event).stage) < calls_left(m.stage),
        !answers(m.stage, event) ==> stepped(m, event) == m,
        action_of(m) is Finish <==> m.stage is Ready || m.stage is Failed,
        calls_left(m.stage) == 0 <==> action_of(m) is Finish,
{
}

/// The way of one setup, from the configuration to a signer or a failure.
pub struct Setup {
    config: SignerConfig,
    label: String,
    stage: Stage,
}

impl View for Setup {
    type V = SetupModel;

    closed spec fn view(&self) -> SetupModel {
        SetupModel { config: self.config@, label: self.label@, stage: self.stage@ }
    }
}

fn copy_of(text: &String) -> (copy: String)
    ensures
        copy@ == text@,
{
    String::from_str(text.as_str())
}

fn give_up(handles: Vec<u64>, error: String) -> (stage: Stage)
    ensures
        stage@ == StageModel::Failed(error@, handles@),
{
    Stage::Failed(Failure { error, destroy: handles })
}

fn break_off(error: String) -> (stage: Stage)
    ensures
        stage@ == broken_off(error@),
{
    let handles: Vec<u64> = Vec::new();
    assert(handles@ =~= Seq::<u64>::empty());
    Stage::Failed(Failure { error, destroy: handles })
}

fn locate(config: &SignerConfig) -> (stage: Stage)
    ensures
        stage@ == located(config@),
{
    if config.key_id.is_some() {
        Stage::FindPrivateKey
    } else {
        Stage::GenerateKey
    }
}

fn resolve(held: Held, key: Result<VerifyingKey, String>) -> (stage: Stage)
    ensures
        stage@ == resolved(held@, model_or_text(key)),
{
    match key {
        Err(e) => give_up(handles_to_destroy(&held.keys, held.owns_key), e),
        Ok(key) => Stage::SignInit(
            Signer::new(held.keys, key, held.label, held.owns_key),
        ),
    }
}

fn provide(config: &SignerConfig, held: Held) -> (stage: Stage)
    ensures
        stage@ == provided(config@, held@),
{
    match &config.public_key_der {
        Some(der) => {
            let key = supplied_key(config.curve, der.as_slice());
            resolve(held, key)
        },
        None => if held.keys.public == 0 {
            give_up(
                handles_to_destroy(&held.keys, held.owns_key),
                String::from_str(
                    "no public key object was found and none was supplied; pass --public-key with the DER SubjectPublicKeyInfo of the signing key",
                ),
            )
        } else {
            Stage::ReadPoint(held)
        },
    }
}

/// Judge the signature over the probe, before any measurement.
fn self_test(signer: Signer, signature: &[u8]) -> (stage: Stage)
    ensures
        stage@ == self_tested(signer@, signature@),
{
    let outcome = in_context(
        "setup self-test failed: the signature did not verify against the public key",
        signer.verify(&PROBE, signature),
    );
    match check_length(signer.curve(), signature.len(), outcome) {
        Err(e) => give_up(signer.cleanup(), e),
        Ok(()) => Stage::Ready(signer),
    }
}

fn missing_key_text(id: &str) -> (text: String)
    ensures
        text@ == missing_key(id@),
{
    let mut text = String::from_str("no private key found with CKA_ID '");
    text.append(id);
    text.append(
        "'. The Cosmian PKCS#11 provider only exposes private keys carrying the 'disk-encryption' or 'ssh-auth' KMIP tag — check the key was created with one of those tags",
    );
    text
}

impl Signer {
    /// Begin the setup of a signer. A key that has to be generated gets a
    /// label of its own, drawn at random.
    pub fn connect(config: SignerConfig) -> (setup: Setup)
        ensures
            exists|bits: u128|
                is_random_uuid(bits) && #[trigger] key_label(bits) == setup@.label,
            setup@.config == config@,
            setup@.stage is ListSlots,
    {
        let bits = random_bits();
        Setup::with_label(config, label_of(bits))
    }
}

impl Setup {
    #[verifier::type_invariant]
    spec fn inv(self) -> bool {
        well_formed(self@)
    }

    /// A setup at its start, with the label for a key that it generates.
    pub fn with_label(config: SignerConfig, label: String) -> (setup: Setup)
        ensures
            setup@ == (SetupModel {
                config: config@,
                label: label@,
                stage: StageModel::ListSlots,
            }),
    {
        Setup { config, label, stage: Stage::ListSlots }
    }

    /// The call that comes next.
    pub fn action(&self) -> (action: Action)
        ensures
            action@ == action_of(self@),
    {
        proof {
            use_type_invariant(self);
        }
        match &self.stage {
            Stage::ListSlots => Action::ListSlots,
            Stage::OpenSession(slot) => Action::OpenSession(*slot),
            Stage::Login => match &self.config.pin {
                Some(pin) => Action::Login(copy_of(pin)),
                None => Action::Finish,
            },
            Stage::FindPrivateKey => match &self.config.key_id {
                Some(id) => Action::FindObject(copy_of(id), CKO_PRIVATE_KEY),
                None => Action::Finish,
            },
            Stage::FindPublicKey(_) => match &self.config.key_id {
                Some(id) => Action::FindObject(copy_of(id), CKO_PUBLIC_KEY),
                None => Action::Finish,
            },
            Stage::GenerateKey => Action::GenerateKey(copy_of(&self.label), self.config.curve),
            Stage::ReadPoint(held) => Action::ReadAttribute(held.keys.public, CKA_EC_POINT),
            Stage::SignInit(signer) => Action::SignInit(signer.private_handle(), signer.curve()),
            Stage::Sign(signer) => Action::Sign(
                signer.curve().signing_input(&PROBE),
                signer.curve().max_signature_len(),
            ),
            Stage::Ready(_) => Action::Finish,
            Stage::Failed(_) => Action::Finish,
        }
    }

    /// Take in what came of the call. An event that is not the outcome of the
    /// call that was asked for changes nothing.
    pub fn step(self, event: Event) -> (next: Setup)
        ensures
            next@ == stepped(self@, event@),
    {
        proof {
            use_type_invariant(&self);
            law_steps_keep_form(self@, event@);
        }
        let Setup { config, label, stage } = self;
        let stage = match (stage, event) {
            (Stage::ListSlots, Event::Slots(Err(e))) => break_off(
                explain("failed to enumerate PKCS#11 slots", e.as_str()),
            ),
            (Stage::ListSlots, Event::Slots(Ok(slots))) => match resolve_slot(
                slots.as_slice(),
                config.slot,
            ) {
                Ok(slot) => Stage::OpenSession(slot),
                Err(e) => break_off(e),
            },
            (Stage::OpenSession(slot), Event::Done(Err(e))) => {
                let mut context = String::from_str("failed to open a session on slot ");
                let number = decimal_text(slot as u128);
                context.append(number.as_str());
                break_off(explain(context.as_str(), e.as_str()))
            },
            (Stage::OpenSession(_), Event::Done(Ok(()))) => if config.pin.is_some() {
                Stage::Login
            } else {
                locate(&config)
            },
            (Stage::Login, Event::Done(Err(e))) => break_off(
                explain("C_Login failed", e.as_str()),
            ),
            (Stage::Login, Event::Done(Ok(()))) => locate(&config),
            (Stage::FindPrivateKey, Event::Found(Err(e))) => break_off(e),
            (Stage::FindPrivateKey, Event::Found(Ok(Some(private)))) => Stage::FindPublicKey(
                private,
            ),
            (Stage::FindPrivateKey, Event::Found(Ok(None))) => match &config.key_id {
                Some(id) => break_off(missing_key_text(id.as_str())),
                None => Stage::FindPrivateKey,
            },
            (Stage::FindPublicKey(_), Event::Found(Err(e))) => break_off(e),
            (Stage::FindPublicKey(private), Event::Found(Ok(public))) => match &config.key_id {
                Some(id) => {
                    let keys = KeyPair {
                        public: match public {
                            Some(handle) => handle,
                            None => 0,
                        },
                        private,
                    };
                    let held = Held { keys, label: copy_of(id), owns_key: false };
                    provide(&config, held)
                },
                None => Stage::FindPublicKey(private),
            },
            (Stage::GenerateKey, Event::Generated(Err(e))) => break_off(
                explain("key generation failed", e.as_str()),
            ),
            (Stage::GenerateKey, Event::Generated(Ok(keys))) => {
                let held = Held { keys, label: copy_of(&label), owns_key: true };
                provide(&config, held)
            },
            (Stage::ReadPoint(held), Event::Bytes(Err(e))) => give_up(
                handles_to_destroy(&held.keys, held.owns_key),
                explain(
                    "failed to read CKA_EC_POINT. The Cosmian provider cannot return Ed25519 public keys this way — supply the key with --public-key instead",
                    e.as_str(),
                ),
            ),
            (Stage::ReadPoint(held), Event::Bytes(Ok(point))) => {
                let key = point_key(config.curve, point.as_slice());
                resolve(held, key)
            },
            (Stage::SignInit(signer), Event::Done(Err(e))) => give_up(signer.cleanup(), e),
            (Stage::SignInit(signer), Event::Done(Ok(()))) => Stage::Sign(signer),
            (Stage::Sign(signer), Event::Bytes(Err(e))) => give_up(signer.cleanup(), e),
            (Stage::Sign(signer), Event::Bytes(Ok(signature))) => self_test(
                signer,
                signature.as_slice(),
            ),
            (stage, _) => stage,
        };
        Setup { config, label, stage }
    }

    /// What the setup came to, once there is no call left.
    pub fn finish(self) -> (outcome: Option<Result<Signer, Failure>>)
        ensures
            match self@.stage {
                StageModel::Ready(signer) => outcome matches Some(Ok(s)) && s@ == signer,
                StageModel::Failed(error, destroy) => outcome matches Some(Err(f)) && f.error@
                    == error && f.destroy@ == destroy,
                _ => outcome is None,
            },
    {
        match self.stage {
            Stage::Ready(signer) => Some(Ok(signer)),
            Stage::Failed(failure) => Some(Err(failure)),
            _ => None,
        }
    }
}

/// Whether an event is a failed call, for this reason.
pub open spec fn reason_of(event: EventModel) -> Option<Seq<char>> {
    match event {
        EventModel::Slots(Err(e)) => Some(e),
        EventModel::Done(Err(e)) => Some(e),
        EventModel::Found(Err(e)) => Some(e),
        EventModel::Generated(Err(e)) => Some(e),
        EventModel::Bytes(Err(e)) => Some(e),
        _ => None,
    }
}

proof fn lemma_suffix(context: Seq<char>, cause: Seq<char>)
    ensures
        cause.is_suffix_of(because(context, cause)),
        cause.is_suffix_of(cause),
        context.is_prefix_of(because(context, cause)),
{
    let text = because(context, cause);
    assert(cause =~= text.skip(text.len() - cause.len()));
    assert(cause =~= cause.skip(0));
    assert(context =~= text.take(context.len() as int));
}

/// A call that fails ends the setup, whichever it is, and the reason that the
/// module gave stands at the end of the error.
pub proof fn law_a_failed_call_ends_the_setup(m: SetupModel, event: EventModel)
    requires
        answers(m.stage, event),
        reason_of(event) is Some,
    ensures
        stepped(m, event).stage matches StageModel::Failed(error, _) && reason_of(
            event,
        )->0.is_suffix_of(error),
{
    let reason = reason_of(event)->0;
    lemma_suffix("failed to enumerate PKCS#11 slots"@, reason);
    if let StageModel::OpenSession(slot) = m.stage {
        lemma_suffix("failed to open a session on slot "@ + decimal(slot as nat), reason);
    }
    lemma_suffix("C_Login failed"@, reason);
    lemma_suffix("key generation failed"@, reason);
    lemma_suffix(
        "failed to read CKA_EC_POINT. The Cosmian provider cannot return Ed25519 public keys this way — supply the key with --public-key instead"@,
        reason,
    );
}

/// The course of a setup whose calls succeed: from the slots to a session on
/// the selected one; to the login where there is a PIN; to the search where an
/// id was given, else to the generation of a key.
pub proof fn law_course_up_to_a_key(m: SetupModel, slots: Seq<SlotModel>)
    ensures
        m.stage is ListSlots ==> match slot_choice(slots, m.config.slot) {
            Ok(slot) => stepped(m, EventModel::Slots(Ok(slots))).stage == StageModel::OpenSession(
                slot,
            ),
            Err(e) => stepped(m, EventModel::Slots(Ok(slots))).stage == StageModel::Failed(
                e,
                Seq::empty(),
            ),
        },
        m.stage is OpenSession ==> (stepped(m, EventModel::Done(Ok(()))).stage is Login
            <==> m.config.pin is Some),
        (m.stage is OpenSession && m.config.pin is None) || m.stage is Login ==> (stepped(
            m,
            EventModel::Done(Ok(())),
        ).stage is FindPrivateKey <==> m.config.key_id is Some),
        (m.stage is OpenSession && m.config.pin is None) || m.stage is Login ==> (stepped(
            m,
            EventModel::Done(Ok(())),
        ).stage is GenerateKey <==> m.config.key_id is None),
        stepped(m, EventModel::Done(Ok(()))).config == m.config,
        stepped(m, EventModel::Done(Ok(()))).label == m.label,
{
}

/// The keys that a search ends with: the private key that was found first, with
/// the public key that was found, or none. A private key that is not found is
/// an error that names the id, and nothing is destroyed.
pub proof fn law_search_finds_the_pair(
    m: SetupModel,
    private: u64,
    public: Option<u64>,
    id: Seq<char>,
)
    requires
        m.config.key_id == Some(id),
    ensures
        m.stage is FindPrivateKey ==> stepped(m, EventModel::Found(Ok(Some(private)))).stage
            == StageModel::FindPublicKey(private),
        m.stage is FindPrivateKey ==> (stepped(m, EventModel::Found(Ok(None))).stage matches
            StageModel::Failed(error, destroy) && destroy.len() == 0 && shows(error, id)),
        m.stage == StageModel::FindPublicKey(private) ==> ({
            let after = stepped(m, EventModel::Found(Ok(public)));
            &&& in_hand(after) matches Some(pair) ==> pair.0.private == private && pair.0.public
                == (match public {
                Some(handle) => handle,
                None => 0,
            }) && !pair.1
            &&& after.stage matches StageModel::Failed(_, destroy) ==> destroy.len() == 0
            &&& after.stage matches StageModel::ReadPoint(held) ==> held.label == id
            &&& after.stage matches StageModel::SignInit(signer) ==> signer.label == id
        }),
{
    lemma_shows(
        "no private key found with CKA_ID '"@,
        id,
        "'. The Cosmian PKCS#11 provider only exposes private keys carrying the 'disk-encryption' or 'ssh-auth' KMIP tag — check the key was created with one of those tags"@,
    );
}

/// A generated pair is this run's own and carries the run's label.
pub proof fn law_generated_pair_is_owned(m: SetupModel, keys: KeyPair)
    requires
        m.stage is GenerateKey,
    ensures
        ({
            let after = stepped(m, EventModel::Generated(Ok(keys)));
            &&& in_hand(after) matches Some(pair) ==> pair == (keys, true)
            &&& after.stage matches StageModel::Failed(_, destroy) ==> destroy == seq![
                keys.private,
                keys.public,
            ]
            &&& after.stage matches StageModel::ReadPoint(held) ==> held.label == m.label
            &&& after.stage matches StageModel::SignInit(signer) ==> signer.label == m.label
        }),
{
}

/// A supplied public key is preferred: with one the module is never asked for
/// its own, without one it is asked exactly where it has a public key object.
pub proof fn law_supplied_public_key_is_preferred(m: SetupModel, event: EventModel, keys: KeyPair)
    requires
        (m.stage is GenerateKey && event == EventModel::Generated(Ok(keys))) || (m.stage
            == StageModel::FindPublicKey(keys.private) && (event == EventModel::Found(
            Ok(Some(keys.public)),
        ) || (event == EventModel::Found(Ok(None)) && keys.public == 0))),
    ensures
        m.config.public_key_der is None ==> (stepped(m, event).stage is ReadPoint <==> keys.public
            != 0),
        m.config.public_key_der is None && keys.public == 0 ==> (stepped(m, event).stage matches
            StageModel::Failed(error, _) && error
            == "no public key object was found and none was supplied; pass --public-key with the DER SubjectPublicKeyInfo of the signing key"@),
        m.config.public_key_der matches Some(der) ==> match supplied_key_of(m.config.curve, der) {
            Ok(key) => stepped(m, event).stage matches StageModel::SignInit(signer) && signer.key
                == key && signer.keys == keys,
            Err(e) => stepped(m, event).stage matches StageModel::Failed(error, _) && error == e,
        },
{
}

/// A point that the module gives settles the public key, if it is one; the keys
/// in hand stay the same.
pub proof fn law_point_settles_the_public_key(m: SetupModel, held: HeldModel, point: Seq<u8>)
    requires
        m.stage == StageModel::ReadPoint(held),
    ensures
        match point_key_of(m.config.curve, point) {
            Ok(key) => stepped(m, EventModel::Bytes(Ok(point))).stage matches StageModel::SignInit(
                signer,
            ) && signer.key == key && signer.keys == held.keys && signer.label == held.label
                && signer.owns_key == held.owns_key,
            Err(e) => stepped(m, EventModel::Bytes(Ok(point))).stage == StageModel::Failed(
                e,
                if held.owns_key {
                    seq![held.keys.private, held.keys.public]
                } else {
                    Seq::empty()
                },
            ),
        },
{
}

/// The self-test: after the initialisation the probe is signed; the signer is
/// ready exactly where that signature verifies and, on Ed25519, has 64 bytes,
/// and it is the same signer. Otherwise the reason stands in the error.
pub proof fn law_self_test_decides(m: SetupModel, signer: SignerModel, signature: Seq<u8>)
    ensures
        m.stage == StageModel::SignInit(signer) ==> stepped(m, EventModel::Done(Ok(()))).stage
            == StageModel::Sign(signer),
        m.stage == StageModel::Sign(signer) ==> ({
            let after = stepped(m, EventModel::Bytes(Ok(signature))).stage;
            let verdict = verification_of(signer.key, PROBE@, signature);
            let fitting = signer.key.curve == Curve::Ed25519 ==> signature.len() == 64;
            &&& after == StageModel::Ready(signer) <==> fitting && verdict is Ok
            &&& !(fitting && verdict is Ok) ==> after is Failed
            &&& fitting && verdict is Err ==> (after matches StageModel::Failed(error, _)
                && verdict->Err_0.is_suffix_of(error))
        }),
{
    let verdict = verification_of(signer.key, PROBE@, signature);
    if verdict is Err {
        lemma_suffix(
            "setup self-test failed: the signature did not verify against the public key"@,
            verdict->Err_0,
        );
    }
}

/// Each call is made with what the configuration and the setup hold for it: the
/// session on the selected slot, the login with the PIN, the searches with the
/// id, the generation with the fresh label on the curve, the attribute of the
/// public key, the initialisation and the signature with the private key, the
/// signature over the probe as it is signed on the curve.
pub proof fn law_calls_carry_their_arguments(
    m: SetupModel,
    slot: u64,
    held: HeldModel,
    signer: SignerModel,
)
    requires
        well_formed(m),
    ensures
        m.stage is ListSlots ==> action_of(m) is ListSlots,
        m.stage == StageModel::OpenSession(slot) ==> action_of(m) == ActionModel::OpenSession(slot),
        m.stage is Login ==> (action_of(m) matches ActionModel::Login(pin) && m.config.pin
            == Some(pin)),
        m.stage is FindPrivateKey ==> (action_of(m) matches ActionModel::FindObject(id, class)
            && m.config.key_id == Some(id) && class == 3),
        m.stage is FindPublicKey ==> (action_of(m) matches ActionModel::FindObject(id, class)
            && m.config.key_id == Some(id) && class == 2),
        m.stage is GenerateKey ==> action_of(m) == ActionModel::GenerateKey(
            m.label,
            m.config.curve,
        ),
        m.stage == StageModel::ReadPoint(held) ==> action_of(m) == ActionModel::ReadAttribute(
            held.keys.public,
            0x181,
        ),
        m.stage == StageModel::SignInit(signer) ==> action_of(m) == ActionModel::SignInit(
            signer.keys.private,
            m.config.curve,
        ),
        m.stage == StageModel::Sign(signer) && m.config.curve == Curve::Ed25519 ==> action_of(m)
            == ActionModel::Sign(PROBE@, 64),
        m.stage == StageModel::Sign(signer) && m.config.curve == Curve::P256 ==> action_of(m)
            == ActionModel::Sign(sha256(PROBE@), 72),
        m.stage is Ready || m.stage is Failed ==> action_of(m) is Finish,
{
}

/// Every slot stands in the list with its id and, in brackets, its token.
pub proof fn law_list_names_every_slot(slots: Seq<SlotModel>, i: int)
    requires
        0 <= i < slots.len(),
    ensures
        shows(described(slots), decimal(slots[i].0 as nat) + " ("@ + slots[i].1 + ")"@),
{
    lemma_listed(slots, slots.len(), i);
}

proof fn lemma_listed(slots: Seq<SlotModel>, k: nat, i: int)
    requires
        0 <= i < k <= slots.len(),
    ensures
        shows(listed(slots, k), decimal(slots[i].0 as nat) + " ("@ + slots[i].1 + ")"@),
    decreases k,
{
    let item = decimal(slots[i].0 as nat) + " ("@ + slots[i].1 + ")"@;
    let comma = if k == 1 {
        ""@
    } else {
        ", "@
    };
    let earlier = listed(slots, (k - 1) as nat);
    let number = decimal(slots[k - 1].0 as nat);
    let name = slots[k - 1].1;
    let last = number + " ("@ + name + ")"@;
    assert(listed(slots, k) == earlier + comma + number + " ("@ + name + ")"@);
    lemma_regrouped(earlier, comma, number, " ("@, name, ")"@);
    if i == k - 1 {
        lemma_shows(earlier + comma, last, Seq::empty());
    } else {
        lemma_listed(slots, (k - 1) as nat, i);
        lemma_still_shows(Seq::empty(), earlier, comma + last, item);
    }
}

proof fn lemma_regrouped(
    earlier: Seq<char>,
    comma: Seq<char>,
    a: Seq<char>,
    b: Seq<char>,
    c: Seq<char>,
    d: Seq<char>,
)
    ensures
        earlier + comma + a + b + c + d == (earlier + comma) + (a + b + c + d) + Seq::<
            char,
        >::empty(),
        earlier + comma + a + b + c + d == Seq::<char>::empty() + earlier + (comma + (a + b + c
            + d)),
{
    assert(earlier + comma + a + b + c + d =~= (earlier + comma) + (a + b + c + d) + Seq::<
        char,
    >::empty());
    assert(earlier + comma + a + b + c + d =~= Seq::<char>::empty() + earlier + (comma + (a + b + c
        + d)));
}

/// A choice that fails with tokens present lists them at the end of the error,
/// so that one can be chosen; a requested slot is named before them.
pub proof fn law_failed_choice_lists_the_slots(slots: Seq<SlotModel>, requested: Option<u64>)
    requires
        slots.len() > 0,
    ensures
        slot_choice(slots, requested) matches Err(error) ==> described(slots).is_suffix_of(error),
        slot_choice(slots, requested) matches Err(error) ==> (requested matches Some(id) ==> (
        "slot "@ + decimal(id as nat) + " has no token present"@).is_prefix_of(error)),
{
    let list = described(slots);
    if let Some(id) = requested {
        let text = "slot "@ + decimal(id as nat) + " has no token present; available: "@ + list;
        assert(list =~= text.skip(text.len() - list.len()));
        reveal_strlit(" has no token present; available: ");
        reveal_strlit(" has no token present");
        let start = "slot "@ + decimal(id as nat) + " has no token present"@;
        assert(start =~= text.take(start.len() as int));
    } else {
        let text = "several slots have tokens present, pass --slot to choose: "@ + list;
        assert(list =~= text.skip(text.len() - list.len()));
    }
}

/// A step leaves the configuration and the label as they are.
pub proof fn law_configuration_stays(m: SetupModel, event: EventModel)
    ensures
        stepped(m, event).config == m.config,
        stepped(m, event).label == m.label,
{
}

/// A failed call is named before its reason, a session that cannot be opened
/// with its slot.
pub proof fn law_failed_calls_are_named(m: SetupModel, reason: Seq<char>, slot: u64)
    ensures
        m.stage is ListSlots ==> (stepped(m, EventModel::Slots(Err(reason))).stage matches
            StageModel::Failed(error, destroy) && destroy.len() == 0
            && "failed to enumerate PKCS#11 slots"@.is_prefix_of(error)),
        m.stage == StageModel::OpenSession(slot) ==> (stepped(
            m,
            EventModel::Done(Err(reason)),
        ).stage matches StageModel::Failed(error, destroy) && destroy.len() == 0 && (
        "failed to open a session on slot "@ + decimal(slot as nat)).is_prefix_of(error)),
        m.stage is Login ==> (stepped(m, EventModel::Done(Err(reason))).stage matches
            StageModel::Failed(error, destroy) && destroy.len() == 0
            && "C_Login failed"@.is_prefix_of(error)),
        m.stage is GenerateKey ==> (stepped(m, EventModel::Generated(Err(reason))).stage matches
            StageModel::Failed(error, destroy) && destroy.len() == 0
            && "key generation failed"@.is_prefix_of(error)),
        m.stage is FindPrivateKey || m.stage is FindPublicKey ==> stepped(
            m,
            EventModel::Found(Err(reason)),
        ).stage == StageModel::Failed(reason, Seq::empty()),
{
    lemma_suffix("failed to enumerate PKCS#11 slots"@, reason);
    lemma_suffix("failed to open a session on slot "@ + decimal(slot as nat), reason);
    lemma_suffix("C_Login failed"@, reason);
    lemma_suffix("key generation failed"@, reason);
}

/// A list of slots is the slots one after the other, with a comma and a blank
/// between them, each as its id and in brackets its token.
pub proof fn law_list_is_joined(a: Seq<SlotModel>, b: Seq<SlotModel>, slot: SlotModel)
    requires
        a.len() > 0,
        b.len() > 0,
    ensures
        described(a + b) == described(a) + ", "@ + described(b),
        described(seq![slot]) == decimal(slot.0 as nat) + " ("@ + slot.1 + ")"@,
        described(Seq::empty()) == "(none)"@,
{
    lemma_listed_front(a, b, a.len());
    lemma_listed_back(a, b, b.len());
    reveal_strlit("");
    assert(listed(seq![slot], 0) =~= Seq::empty());
    let item = decimal(slot.0 as nat) + " ("@ + slot.1 + ")"@;
    lemma_regrouped(
        Seq::empty(),
        ""@,
        decimal(slot.0 as nat),
        " ("@,
        slot.1,
        ")"@,
    );
    assert(listed(seq![slot], 1) == listed(seq![slot], 0) + ""@ + decimal(slot.0 as nat) + " ("@
        + slot.1 + ")"@);
    assert(Seq::<char>::empty() + ""@ =~= Seq::empty());
    assert(Seq::<char>::empty() + item + Seq::<char>::empty() =~= item);
}

proof fn lemma_listed_front(a: Seq<SlotModel>, b: Seq<SlotModel>, k: nat)
    requires
        k <= a.len(),
    ensures
        listed(a + b, k) == listed(a, k),
    decreases k,
{
    if k > 0 {
        lemma_listed_front(a, b, (k - 1) as nat);
        assert((a + b)[k - 1] == a[k - 1]);
    }
}

proof fn lemma_listed_back(a: Seq<SlotModel>, b: Seq<SlotModel>, k: nat)
    requires
        a.len() > 0,
        0 < k <= b.len(),
    ensures
        listed(a + b, a.len() + k) == listed(a, a.len()) + ", "@ + listed(b, k),
    decreases k,
{
    let k1 = (k - 1) as nat;
    let slot = b[k - 1];
    assert((a + b)[a.len() + k - 1] == slot);
    let (number, name) = (decimal(slot.0 as nat), slot.1);
    let item = number + " ("@ + name + ")"@;
    let whole = listed(a + b, a.len() + k);
    let front = listed(a + b, a.len() + k1);
    assert(whole == front + ", "@ + number + " ("@ + name + ")"@);
    lemma_regrouped(front, ", "@, number, " ("@, name, ")"@);
    assert(whole =~= front + ", "@ + item);
    if k1 == 0 {
        lemma_listed_front(a, b, a.len());
        reveal_strlit("");
        assert(listed(b, 0) =~= Seq::empty());
        assert(listed(b, 1) == listed(b, 0) + ""@ + number + " ("@ + name + ")"@);
        lemma_regrouped(Seq::empty(), ""@, number, " ("@, name, ")"@);
        assert(listed(b, 1) =~= item);
    } else {
        lemma_listed_back(a, b, k1);
        let earlier = listed(b, k1);
        assert(listed(b, k) == earlier + ", "@ + number + " ("@ + name + ")"@);
        lemma_regrouped(earlier, ", "@, number, " ("@, name, ")"@);
        assert(listed(b, k) =~= earlier + ", "@ + item);
        lemma_joined(listed(a, a.len()), ", "@, earlier, ", "@, item);
    }
}

proof fn lemma_joined(
    a: Seq<char>,
    b: Seq<char>,
    c: Seq<char>,
    d: Seq<char>,
    e: Seq<char>,
)
    ensures
        a + b + c + d + e == a + b + (c + d + e),
{
    assert(a + b + c + d + e =~= a + b + (c + d + e));
}

/// A slot stands for its id and the label of its token.
pub proof fn law_slots_stand_for_their_tokens(slots: Seq<Slot>, i: int)
    requires
        0 <= i < slots.len(),
    ensures
        slots_of(slots).len() == slots.len(),
        slots_of(slots)[i].0 == slots[i].id,
        slots_of(slots)[i].1 == slots[i].token_label@,
{
}

/// A configuration stands for its parts.
pub proof fn law_configuration_stands_for_its_parts(config: SignerConfig)
    ensures
        config@.slot == config.slot,
        config@.curve == config.curve,
        config@.key_id is Some <==> config.key_id is Some,
        config.key_id matches Some(id) ==> config@.key_id == Some(id@),
        config@.pin is Some <==> config.pin is Some,
        config.pin matches Some(pin) ==> config@.pin == Some(pin@),
        config@.public_key_der is Some <==> config.public_key_der is Some,
        config.public_key_der matches Some(der) ==> config@.public_key_der == Some(der@),
{
}

/// An event stands for the outcome that it brings.
pub proof fn law_events_stand_for_their_outcomes(event: Event)
    ensures
        event matches Event::Slots(Ok(slots)) ==> event@ == EventModel::Slots(
            Ok(slots_of(slots@)),
        ),
        event matches Event::Slots(Err(e)) ==> event@ == EventModel::Slots(Err(e@)),
        event matches Event::Done(Ok(())) ==> event@ == EventModel::Done(Ok(())),
        event matches Event::Done(Err(e)) ==> event@ == EventModel::Done(Err(e@)),
        event matches Event::Found(Ok(handle)) ==> event@ == EventModel::Found(Ok(handle)),
        event matches Event::Found(Err(e)) ==> event@ == EventModel::Found(Err(e@)),
        event matches Event::Generated(Ok(keys)) ==> event@ == EventModel::Generated(Ok(keys)),
        event matches Event::Generated(Err(e)) ==> event@ == EventModel::Generated(Err(e@)),
        event matches Event::Bytes(Ok(bytes)) ==> event@ == EventModel::Bytes(Ok(bytes@)),
        event matches Event::Bytes(Err(e)) ==> event@ == EventModel::Bytes(Err(e@)),
{
}

/// An action stands for the call and its arguments.
pub proof fn law_actions_stand_for_their_calls(action: Action)
    ensures
        action is ListSlots <==> action@ is ListSlots,
        action is Finish <==> action@ is Finish,
        action matches Action::OpenSession(slot) ==> action@ == ActionModel::OpenSession(slot),
        action matches Action::Login(pin) ==> action@ == ActionModel::Login(pin@),
        action matches Action::FindObject(id, class) ==> action@ == ActionModel::FindObject(
            id@,
            class,
        ),
        action matches Action::GenerateKey(label, curve) ==> action@ == ActionModel::GenerateKey(
            label@,
            curve,
        ),
        action matches Action::ReadAttribute(object, kind) ==> action@
            == ActionModel::ReadAttribute(object, kind),
        action matches Action::SignInit(key, curve) ==> action@ == ActionModel::SignInit(
            key,
            curve,
        ),
        action matches Action::Sign(input, len) ==> action@ == ActionModel::Sign(input@, len),
{
}

/// A number stands for itself, an error and a text for its characters.
pub proof fn law_choices_stand_for_themselves(n: u64, text: String)
    ensures
        number_or_text(Ok(n)) == Ok::<u64, Seq<char>>(n),
        number_or_text(Err(text)) == Err::<u64, Seq<char>>(text@),
        optional_text(Some(text)) == Some(text@),
        optional_text(None) is None,
{
}

/// A slot is present exactly where one of the slots has its id.
pub proof fn law_present_slots(slots: Seq<SlotModel>, id: u64, i: int)
    ensures
        0 <= i < slots.len() && slots[i].0 == id ==> has_slot(slots, id),
        (forall|j: int| 0 <= j < slots.len() ==> (#[trigger] slots[j]).0 != id) ==> !has_slot(
            slots,
            id,
        ),
{
}

/// What the self-test signs is a text of its own.
pub proof fn law_probe_is_its_text(i: int)
    requires
        0 <= i < 23,
    ensures
        "sign-tx setup self-test"@.len() == PROBE@.len(),
        "sign-tx setup self-test"@[i] as u32 == PROBE@[i],
{
    reveal_strlit("sign-tx setup self-test");
}

} // verus!
