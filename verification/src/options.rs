//! The options that the relying party sends to the client before a ceremony.

use vstd::prelude::*;
use vstd::utf8::encode_utf8;

use crate::bytes::copy_bytes;
use crate::credential::{Challenge, ChallengeModel};
use crate::data::{
    entries, items, lemma_array, lemma_dict, maybe, no_entry, only_entry, DataItem, Item,
};
use crate::encoding::{base64_bytes, base64_text, encode_base64, Alphabet, MAX_ENCODED_LEN};

verus! {

/// The user for whom a credential is created.
#[derive(Debug, Clone)]
pub struct UserEntity {
    /// Opaque user handle.
    pub id: Vec<u8>,
    /// Account name, e.g. an email address.
    pub name: String,
    /// Name for display.
    pub display_name: String,
}

/// The mathematical form of a [`UserEntity`].
pub ghost struct UserModel {
    pub id: Seq<u8>,
    pub name: Seq<char>,
    pub display_name: Seq<char>,
}

impl View for UserEntity {
    type V = UserModel;

    open spec fn view(&self) -> UserModel {
        UserModel { id: self.id@, name: self.name@, display_name: self.display_name@ }
    }
}

/// How the relying party wants attestation conveyed.
#[derive(Debug, Clone, Copy, PartialEq, Eq, Structural)]
pub enum AttestationPreference {
    /// `none`: no attestation.
    NoAttestation,
    /// `indirect`: attestation that the client may anonymise.
    Indirect,
    /// `direct`: attestation as the authenticator gives it.
    Direct,
}

/// Which authenticators are eligible.
#[derive(Debug, Clone, Copy, PartialEq, Eq, Structural)]
pub enum AuthenticatorAttachment {
    /// Built into the client device.
    Platform,
    /// Removable.
    CrossPlatform,
}

/// Whether a discoverable credential is wanted.
#[derive(Debug, Clone, Copy, PartialEq, Eq, Structural)]
pub enum ResidentKeyRequirement {
    /// Not wanted.
    Discouraged,
    /// Wanted.
    Preferred,
    /// Required.
    Required,
}

/// Whether user verification is wanted.
#[derive(Debug, Clone, Copy, PartialEq, Eq, Structural)]
pub enum UserVerificationRequirement {
    /// Required.
    Required,
    /// Wanted.
    Preferred,
    /// Not wanted.
    Discouraged,
}

/// Criteria for the selection of an authenticator.
#[derive(Debug, Clone, Copy)]
pub struct AuthenticatorSelection {
    /// Restriction of the attachment, if any.
    pub authenticator_attachment: Option<AuthenticatorAttachment>,
    /// Whether a discoverable credential is wanted, if it matters.
    pub resident_key: Option<ResidentKeyRequirement>,
    /// The older form of `resident_key`.
    pub require_resident_key: bool,
    /// Whether user verification is wanted.
    pub user_verification: UserVerificationRequirement,
}

/// How a client can reach an authenticator.
#[derive(Debug, Clone, Copy, PartialEq, Eq, Structural)]
pub enum AuthenticatorTransport {
    /// USB.
    Usb,
    /// Near-field communication.
    Nfc,
    /// Bluetooth Low Energy.
    Ble,
    /// Built into the client device.
    Internal,
    /// By way of another device.
    Hybrid,
}

/// A reference to a credential.
#[derive(Debug, Clone)]
pub struct PublicKeyCredentialDescriptor {
    /// The credential ID.
    pub id: Vec<u8>,
    /// Hints on how to reach the authenticator.
    pub transports: Option<Vec<AuthenticatorTransport>>,
}

/// The mathematical form of a [`PublicKeyCredentialDescriptor`].
pub ghost struct DescriptorModel {
    pub id: Seq<u8>,
    pub transports: Option<Seq<AuthenticatorTransport>>,
}

impl View for PublicKeyCredentialDescriptor {
    type V = DescriptorModel;

    open spec fn view(&self) -> DescriptorModel {
        DescriptorModel { id: self.id@, transports: maybe(self.transports) }
    }
}

/// What the descriptors of a list hold.
pub open spec fn descriptors(list: Seq<PublicKeyCredentialDescriptor>) -> Seq<DescriptorModel> {
    list.map_values(|d: PublicKeyCredentialDescriptor| d@)
}

/// Descriptors for credential IDs, without hints.
pub open spec fn plain_descriptors(ids: Seq<Seq<u8>>) -> Seq<DescriptorModel> {
    ids.map_values(|id: Seq<u8>| DescriptorModel { id, transports: None })
}

/// Makes descriptors for credential IDs, in order and without hints.
pub fn describe_credentials(ids: &Vec<Vec<u8>>) -> (list: Vec<PublicKeyCredentialDescriptor>)
    ensures
        descriptors(list@) == plain_descriptors(crate::bytes::contents(ids@)),
{
    let mut list: Vec<PublicKeyCredentialDescriptor> = Vec::new();
    let mut i: usize = 0;
    while i < ids.len()
        invariant
            i <= ids@.len(),
            list@.len() == i,
            forall|k: int|
                0 <= k < i ==> (#[trigger] list@[k])@ == (DescriptorModel {
                    id: ids@[k]@,
                    transports: None,
                }),
        decreases ids.len() - i,
    {
        list.push(
            PublicKeyCredentialDescriptor { id: copy_bytes(ids[i].as_slice()), transports: None },
        );
        i += 1;
    }
    assert(descriptors(list@) =~= plain_descriptors(crate::bytes::contents(ids@)));
    list
}

/// Options for the creation of a credential.
#[derive(Debug, Clone)]
pub struct RegistrationOptions {
    /// The challenge, to be kept for verification.
    pub challenge: Challenge,
    /// Relying party ID.
    pub rp_id: String,
    /// Relying party name for display.
    pub rp_name: String,
    /// The user.
    pub user: UserEntity,
    /// Acceptable COSE algorithms, most wanted first.
    pub pub_key_cred_params: Vec<i64>,
    /// How long the client may take.
    pub timeout_ms: u32,
    /// How attestation is to be conveyed.
    pub attestation: AttestationPreference,
    /// Credentials whose authenticators are not wanted.
    pub exclude_credentials: Vec<PublicKeyCredentialDescriptor>,
    /// Criteria for the authenticator.
    pub authenticator_selection: Option<AuthenticatorSelection>,
}

/// The mathematical form of [`RegistrationOptions`].
pub ghost struct RegistrationOptionsModel {
    pub challenge: ChallengeModel,
    pub rp_id: Seq<char>,
    pub rp_name: Seq<char>,
    pub user: UserModel,
    pub pub_key_cred_params: Seq<i64>,
    pub timeout_ms: u32,
    pub attestation: AttestationPreference,
    pub exclude_credentials: Seq<DescriptorModel>,
    pub authenticator_selection: Option<AuthenticatorSelection>,
}

impl View for RegistrationOptions {
    type V = RegistrationOptionsModel;

    open spec fn view(&self) -> RegistrationOptionsModel {
        RegistrationOptionsModel {
            challenge: self.challenge@,
            rp_id: self.rp_id@,
            rp_name: self.rp_name@,
            user: self.user@,
            pub_key_cred_params: self.pub_key_cred_params@,
            timeout_ms: self.timeout_ms,
            attestation: self.attestation,
            exclude_credentials: descriptors(self.exclude_credentials@),
            authenticator_selection: self.authenticator_selection,
        }
    }
}

/// Options for an assertion.
#[derive(Debug, Clone)]
pub struct AuthenticationOptions {
    /// The challenge, to be kept for verification.
    pub challenge: Challenge,
    /// How long the client may take.
    pub timeout_ms: u32,
    /// Relying party ID.
    pub rp_id: String,
    /// Acceptable credentials; any, if empty.
    pub allow_credentials: Vec<PublicKeyCredentialDescriptor>,
    /// Whether user verification is wanted.
    pub user_verification: UserVerificationRequirement,
}

/// The mathematical form of [`AuthenticationOptions`].
pub ghost struct AuthenticationOptionsModel {
    pub challenge: ChallengeModel,
    pub timeout_ms: u32,
    pub rp_id: Seq<char>,
    pub allow_credentials: Seq<DescriptorModel>,
    pub user_verification: UserVerificationRequirement,
}

impl View for AuthenticationOptions {
    type V = AuthenticationOptionsModel;

    open spec fn view(&self) -> AuthenticationOptionsModel {
        AuthenticationOptionsModel {
            challenge: self.challenge@,
            timeout_ms: self.timeout_ms,
            rp_id: self.rp_id@,
            allow_credentials: descriptors(self.allow_credentials@),
            user_verification: self.user_verification,
        }
    }
}

/// An entry of a JSON object.
pub open spec fn json_entry(key: Seq<char>, value: Item) -> (Item, Item) {
    (Item::Text(key), value)
}

/// A byte string in JSON: base64url without padding.
pub open spec fn json_bytes(bytes: Seq<u8>) -> Item {
    Item::Text(base64_text(Alphabet::UrlSafeNoPad, bytes))
}

/// Whether the JSON form of a byte string decodes to it.
pub open spec fn decodes_to(bytes: Seq<u8>) -> bool {
    base64_bytes(
        Alphabet::UrlSafeNoPad,
        encode_utf8(base64_text(Alphabet::UrlSafeNoPad, bytes)),
    ) matches Ok(decoded) && decoded == bytes
}

/// The JSON name of an attestation preference.
pub open spec fn attestation_name(preference: AttestationPreference) -> Seq<char> {
    match preference {
        AttestationPreference::NoAttestation => "none"@,
        AttestationPreference::Indirect => "indirect"@,
        AttestationPreference::Direct => "direct"@,
    }
}

/// The JSON name of an attachment.
pub open spec fn attachment_name(attachment: AuthenticatorAttachment) -> Seq<char> {
    match attachment {
        AuthenticatorAttachment::Platform => "platform"@,
        AuthenticatorAttachment::CrossPlatform => "cross-platform"@,
    }
}

/// The JSON name of a resident key requirement.
pub open spec fn resident_key_name(requirement: ResidentKeyRequirement) -> Seq<char> {
    match requirement {
        ResidentKeyRequirement::Discouraged => "discouraged"@,
        ResidentKeyRequirement::Preferred => "preferred"@,
        ResidentKeyRequirement::Required => "required"@,
    }
}

/// The JSON name of a user verification requirement.
pub open spec fn verification_name(requirement: UserVerificationRequirement) -> Seq<char> {
    match requirement {
        UserVerificationRequirement::Required => "required"@,
        UserVerificationRequirement::Preferred => "preferred"@,
        UserVerificationRequirement::Discouraged => "discouraged"@,
    }
}

/// The JSON name of a transport.
pub open spec fn transport_name(transport: AuthenticatorTransport) -> Seq<char> {
    match transport {
        AuthenticatorTransport::Usb => "usb"@,
        AuthenticatorTransport::Nfc => "nfc"@,
        AuthenticatorTransport::Ble => "ble"@,
        AuthenticatorTransport::Internal => "internal"@,
        AuthenticatorTransport::Hybrid => "hybrid"@,
    }
}

/// A credential descriptor in JSON.
pub open spec fn descriptor_json(d: DescriptorModel) -> Item {
    let base = seq![
        json_entry("type"@, Item::Text("public-key"@)),
        json_entry("id"@, json_bytes(d.id)),
    ];
    match d.transports {
        Some(transports) => Item::Dict(
            base.push(
                json_entry(
                    "transports"@,
                    Item::Array(
                        transports.map_values(
                            |t: AuthenticatorTransport| Item::Text(transport_name(t)),
                        ),
                    ),
                ),
            ),
        ),
        None => Item::Dict(base),
    }
}

/// Credential descriptors in JSON.
pub open spec fn descriptors_json(list: Seq<DescriptorModel>) -> Item {
    Item::Array(list.map_values(|d: DescriptorModel| descriptor_json(d)))
}

/// Acceptable algorithms in JSON.
pub open spec fn params_json(algorithms: Seq<i64>) -> Item {
    Item::Array(
        algorithms.map_values(
            |alg: i64|
                Item::Dict(
                    seq![
                        json_entry("type"@, Item::Text("public-key"@)),
                        json_entry("alg"@, Item::Integer(alg as int)),
                    ],
                ),
        ),
    )
}

/// An entry that is left out where there is no value.
pub open spec fn optional_entry(key: Seq<char>, value: Option<Seq<char>>) -> Seq<(Item, Item)> {
    match value {
        Some(text) => seq![json_entry(key, Item::Text(text))],
        None => Seq::empty(),
    }
}

/// Selection criteria in JSON.
pub open spec fn selection_json(s: AuthenticatorSelection) -> Item {
    Item::Dict(
        optional_entry(
            "authenticatorAttachment"@,
            match s.authenticator_attachment {
                Some(a) => Some(attachment_name(a)),
                None => None,
            },
        ) + optional_entry(
            "residentKey"@,
            match s.resident_key {
                Some(r) => Some(resident_key_name(r)),
                None => None,
            },
        ) + seq![
            json_entry("requireResidentKey"@, Item::Bool(s.require_resident_key)),
            json_entry("userVerification"@, Item::Text(verification_name(s.user_verification))),
        ],
    )
}

/// Registration options in JSON.
pub open spec fn registration_json(o: RegistrationOptionsModel) -> Item {
    let base = seq![
        json_entry(
            "rp"@,
            Item::Dict(
                seq![
                    json_entry("id"@, Item::Text(o.rp_id)),
                    json_entry("name"@, Item::Text(o.rp_name)),
                ],
            ),
        ),
        json_entry(
            "user"@,
            Item::Dict(
                seq![
                    json_entry("id"@, json_bytes(o.user.id)),
                    json_entry("name"@, Item::Text(o.user.name)),
                    json_entry("displayName"@, Item::Text(o.user.display_name)),
                ],
            ),
        ),
        json_entry("challenge"@, json_bytes(o.challenge.bytes)),
        json_entry("pubKeyCredParams"@, params_json(o.pub_key_cred_params)),
        json_entry("timeout"@, Item::Integer(o.timeout_ms as int)),
        json_entry("excludeCredentials"@, descriptors_json(o.exclude_credentials)),
        json_entry("attestation"@, Item::Text(attestation_name(o.attestation))),
    ];
    match o.authenticator_selection {
        Some(s) => Item::Dict(base.push(json_entry("authenticatorSelection"@, selection_json(s)))),
        None => Item::Dict(base),
    }
}

/// Authentication options in JSON.
pub open spec fn authentication_json(o: AuthenticationOptionsModel) -> Item {
    Item::Dict(
        seq![
            json_entry("challenge"@, json_bytes(o.challenge.bytes)),
            json_entry("timeout"@, Item::Integer(o.timeout_ms as int)),
            json_entry("rpId"@, Item::Text(o.rp_id)),
            json_entry("allowCredentials"@, descriptors_json(o.allow_credentials)),
            json_entry("userVerification"@, Item::Text(verification_name(o.user_verification))),
        ],
    )
}

fn text(s: &str) -> (v: DataItem)
    ensures
        v@ == Item::Text(s@),
{
    DataItem::Text(s.to_string())
}

fn entry(key: &str, value: DataItem) -> (e: (DataItem, DataItem))
    ensures
        (e.0@, e.1@) == json_entry(key@, value@),
{
    (text(key), value)
}

fn encoded(bytes: &[u8]) -> (v: DataItem)
    requires
        bytes@.len() <= MAX_ENCODED_LEN,
    ensures
        v@ == json_bytes(bytes@),
        decodes_to(bytes@),
{
    DataItem::Text(encode_base64(Alphabet::UrlSafeNoPad, bytes))
}

impl AttestationPreference {
    /// The JSON name of this preference.
    pub fn as_str(self) -> (name: &'static str)
        ensures
            name@ == attestation_name(self),
    {
        match self {
            AttestationPreference::NoAttestation => "none",
            AttestationPreference::Indirect => "indirect",
            AttestationPreference::Direct => "direct",
        }
    }
}

impl AuthenticatorAttachment {
    /// The JSON name of this attachment.
    pub fn as_str(self) -> (name: &'static str)
        ensures
            name@ == attachment_name(self),
    {
        match self {
            AuthenticatorAttachment::Platform => "platform",
            AuthenticatorAttachment::CrossPlatform => "cross-platform",
        }
    }
}

impl ResidentKeyRequirement {
    /// The JSON name of this requirement.
    pub fn as_str(self) -> (name: &'static str)
        ensures
            name@ == resident_key_name(self),
    {
        match self {
            ResidentKeyRequirement::Discouraged => "discouraged",
            ResidentKeyRequirement::Preferred => "preferred",
            ResidentKeyRequirement::Required => "required",
        }
    }
}

impl UserVerificationRequirement {
    /// The JSON name of this requirement.
    pub fn as_str(self) -> (name: &'static str)
        ensures
            name@ == verification_name(self),
    {
        match self {
            UserVerificationRequirement::Required => "required",
            UserVerificationRequirement::Preferred => "preferred",
            UserVerificationRequirement::Discouraged => "discouraged",
        }
    }
}

impl AuthenticatorTransport {
    /// The JSON name of this transport.
    pub fn as_str(self) -> (name: &'static str)
        ensures
            name@ == transport_name(self),
    {
        match self {
            AuthenticatorTransport::Usb => "usb",
            AuthenticatorTransport::Nfc => "nfc",
            AuthenticatorTransport::Ble => "ble",
            AuthenticatorTransport::Internal => "internal",
            AuthenticatorTransport::Hybrid => "hybrid",
        }
    }
}

impl PublicKeyCredentialDescriptor {
    /// This descriptor in JSON.
    pub fn to_item(&self) -> (v: DataItem)
        requires
            self.id@.len() <= MAX_ENCODED_LEN,
        ensures
            v@ == descriptor_json(self@),
    {
        let mut m: Vec<(DataItem, DataItem)> = Vec::new();
        m.push(entry("type", text("public-key")));
        m.push(entry("id", encoded(self.id.as_slice())));
        let ghost base = seq![
            json_entry("type"@, Item::Text("public-key"@)),
            json_entry("id"@, json_bytes(self.id@)),
        ];
        assert(entries(m@) =~= base);
        if let Some(transports) = &self.transports {
            let names = transport_items(transports);
            let ghost before = m@;
            m.push(entry("transports", names));
            assert(entries(m@) =~= entries(before).push(
                json_entry("transports"@, names@),
            ));
        }
        proof {
            lemma_dict(m);
        }
        DataItem::Dict(m)
    }
}

fn transport_items(transports: &Vec<AuthenticatorTransport>) -> (v: DataItem)
    ensures
        v@ == Item::Array(
            transports@.map_values(|t: AuthenticatorTransport| Item::Text(transport_name(t))),
        ),
{
    let mut a: Vec<DataItem> = Vec::new();
    let mut i: usize = 0;
    while i < transports.len()
        invariant
            i <= transports@.len(),
            a@.len() == i,
            forall|k: int|
                0 <= k < i ==> (#[trigger] a@[k])@ == Item::Text(transport_name(transports@[k])),
        decreases transports.len() - i,
    {
        a.push(text(transports[i].as_str()));
        i += 1;
    }
    proof {
        lemma_array(a);
        assert(items(a@) =~= transports@.map_values(
            |t: AuthenticatorTransport| Item::Text(transport_name(t)),
        ));
    }
    DataItem::Array(a)
}

/// Whether every credential ID of a list can be encoded.
pub open spec fn encodable(list: Seq<DescriptorModel>) -> bool {
    forall|i: int| 0 <= i < list.len() ==> (#[trigger] list[i]).id.len() <= MAX_ENCODED_LEN
}

fn descriptor_items(list: &Vec<PublicKeyCredentialDescriptor>) -> (v: DataItem)
    requires
        encodable(descriptors(list@)),
    ensures
        v@ == descriptors_json(descriptors(list@)),
{
    let ghost all = descriptors(list@);
    let mut a: Vec<DataItem> = Vec::new();
    let mut i: usize = 0;
    while i < list.len()
        invariant
            i <= list@.len(),
            a@.len() == i,
            all == descriptors(list@),
            encodable(all),
            forall|k: int| 0 <= k < i ==> (#[trigger] a@[k])@ == descriptor_json(all[k]),
        decreases list.len() - i,
    {
        assert(all[i as int] == list@[i as int]@);
        a.push(list[i].to_item());
        i += 1;
    }
    proof {
        lemma_array(a);
        assert(items(a@) =~= all.map_values(|d: DescriptorModel| descriptor_json(d)));
    }
    DataItem::Array(a)
}

fn param_items(algorithms: &Vec<i64>) -> (v: DataItem)
    ensures
        v@ == params_json(algorithms@),
{
    let mut a: Vec<DataItem> = Vec::new();
    let mut i: usize = 0;
    while i < algorithms.len()
        invariant
            i <= algorithms@.len(),
            a@.len() == i,
            forall|k: int|
                0 <= k < i ==> (#[trigger] a@[k])@ == Item::Dict(
                    seq![
                        json_entry("type"@, Item::Text("public-key"@)),
                        json_entry("alg"@, Item::Integer(algorithms@[k] as int)),
                    ],
                ),
        decreases algorithms.len() - i,
    {
        let mut m: Vec<(DataItem, DataItem)> = Vec::new();
        m.push(entry("type", text("public-key")));
        m.push(entry("alg", DataItem::Integer(algorithms[i] as i128)));
        proof {
            lemma_dict(m);
            assert(entries(m@) =~= seq![
                json_entry("type"@, Item::Text("public-key"@)),
                json_entry("alg"@, Item::Integer(algorithms@[i as int] as int)),
            ]);
        }
        a.push(DataItem::Dict(m));
        i += 1;
    }
    proof {
        lemma_array(a);
        assert(items(a@) =~= params_json(algorithms@)->Array_0);
    }
    DataItem::Array(a)
}

impl AuthenticatorSelection {
    /// These criteria in JSON.
    pub fn to_item(&self) -> (v: DataItem)
        ensures
            v@ == selection_json(*self),
    {
        let mut m: Vec<(DataItem, DataItem)> = Vec::new();
        if let Some(attachment) = self.authenticator_attachment {
            m.push(entry("authenticatorAttachment", text(attachment.as_str())));
        }
        if let Some(requirement) = self.resident_key {
            m.push(entry("residentKey", text(requirement.as_str())));
        }
        m.push(entry("requireResidentKey", DataItem::Bool(self.require_resident_key)));
        m.push(entry("userVerification", text(self.user_verification.as_str())));
        proof {
            lemma_dict(m);
            assert(entries(m@) =~= selection_json(*self)->Dict_0);
        }
        DataItem::Dict(m)
    }
}

fn rp_item(id: &str, name: &str) -> (v: DataItem)
    ensures
        v@ == Item::Dict(
            seq![json_entry("id"@, Item::Text(id@)), json_entry("name"@, Item::Text(name@))],
        ),
{
    let mut m: Vec<(DataItem, DataItem)> = Vec::new();
    m.push(entry("id", text(id)));
    m.push(entry("name", text(name)));
    proof {
        lemma_dict(m);
        assert(entries(m@) =~= seq![
            json_entry("id"@, Item::Text(id@)),
            json_entry("name"@, Item::Text(name@)),
        ]);
    }
    DataItem::Dict(m)
}

impl UserEntity {
    /// This user in JSON.
    pub fn to_item(&self) -> (v: DataItem)
        requires
            self.id@.len() <= MAX_ENCODED_LEN,
        ensures
            v@ == Item::Dict(
                seq![
                    json_entry("id"@, json_bytes(self.id@)),
                    json_entry("name"@, Item::Text(self.name@)),
                    json_entry("displayName"@, Item::Text(self.display_name@)),
                ],
            ),
            decodes_to(self.id@),
    {
        let mut m: Vec<(DataItem, DataItem)> = Vec::new();
        m.push(entry("id", encoded(self.id.as_slice())));
        m.push(entry("name", text(self.name.as_str())));
        m.push(entry("displayName", text(self.display_name.as_str())));
        proof {
            lemma_dict(m);
            assert(entries(m@) =~= seq![
                json_entry("id"@, json_bytes(self.id@)),
                json_entry("name"@, Item::Text(self.name@)),
                json_entry("displayName"@, Item::Text(self.display_name@)),
            ]);
        }
        DataItem::Dict(m)
    }
}

impl RegistrationOptions {
    /// These options in JSON, as the client's credential creation takes them. Challenge
    /// and user ID decode to what they were.
    pub fn to_item(&self) -> (v: DataItem)
        requires
            self@.challenge.bytes.len() <= MAX_ENCODED_LEN,
            self@.user.id.len() <= MAX_ENCODED_LEN,
            encodable(self@.exclude_credentials),
        ensures
            v@ == registration_json(self@),
            decodes_to(self@.challenge.bytes),
            decodes_to(self@.user.id),
    {
        let mut m: Vec<(DataItem, DataItem)> = Vec::new();
        m.push(entry("rp", rp_item(self.rp_id.as_str(), self.rp_name.as_str())));
        m.push(entry("user", self.user.to_item()));
        m.push(entry("challenge", encoded(self.challenge.bytes.as_slice())));
        m.push(entry("pubKeyCredParams", param_items(&self.pub_key_cred_params)));
        m.push(entry("timeout", DataItem::Integer(self.timeout_ms as i128)));
        m.push(entry("excludeCredentials", descriptor_items(&self.exclude_credentials)));
        m.push(entry("attestation", text(self.attestation.as_str())));
        if let Some(selection) = &self.authenticator_selection {
            m.push(entry("authenticatorSelection", selection.to_item()));
        }
        proof {
            lemma_dict(m);
            assert(entries(m@) =~= registration_json(self@)->Dict_0);
        }
        DataItem::Dict(m)
    }
}

impl AuthenticationOptions {
    /// These options in JSON, as the client's assertion request takes them. The challenge
    /// decodes to what it was.
    pub fn to_item(&self) -> (v: DataItem)
        requires
            self@.challenge.bytes.len() <= MAX_ENCODED_LEN,
            encodable(self@.allow_credentials),
        ensures
            v@ == authentication_json(self@),
            decodes_to(self@.challenge.bytes),
    {
        let mut m: Vec<(DataItem, DataItem)> = Vec::new();
        m.push(entry("challenge", encoded(self.challenge.bytes.as_slice())));
        m.push(entry("timeout", DataItem::Integer(self.timeout_ms as i128)));
        m.push(entry("rpId", text(self.rp_id.as_str())));
        m.push(entry("allowCredentials", descriptor_items(&self.allow_credentials)));
        m.push(entry("userVerification", text(self.user_verification.as_str())));
        proof {
            lemma_dict(m);
            assert(entries(m@) =~= authentication_json(self@)->Dict_0);
        }
        DataItem::Dict(m)
    }
}

proof fn lemma_stands_once(m: Seq<(Item, Item)>, at: int)
    requires
        0 <= at < m.len(),
        m[at].0 is Text,
        forall|j: int| 0 <= j < m.len() && j != at ==> (#[trigger] m[j]).0 != m[at].0,
    ensures
        only_entry(m, m[at].0->Text_0, m[at].1),
{
    assert(m[at] == (Item::Text(m[at].0->Text_0), m[at].1));
}

proof fn lemma_names()
    ensures
        "rp"@.len() == 2,
        "user"@.len() == 4,
        "challenge"@.len() == 9,
        "pubKeyCredParams"@.len() == 16,
        "timeout"@.len() == 7,
        "excludeCredentials"@.len() == 18,
        "attestation"@.len() == 11,
        "authenticatorSelection"@.len() == 22,
        "rpId"@.len() == 4,
        "allowCredentials"@.len() == 16,
        "userVerification"@.len() == 16,
        "allowCredentials"@ != "userVerification"@,
        "authenticatorAttachment"@.len() == 23,
        "residentKey"@.len() == 11,
        "requireResidentKey"@.len() == 18,
        "id"@.len() == 2,
        "name"@.len() == 4,
        "displayName"@.len() == 11,
        "type"@.len() == 4,
        "alg"@.len() == 3,
        "transports"@.len() == 10,
{
    reveal_strlit("rp");
    reveal_strlit("user");
    reveal_strlit("challenge");
    reveal_strlit("pubKeyCredParams");
    reveal_strlit("timeout");
    reveal_strlit("excludeCredentials");
    reveal_strlit("attestation");
    reveal_strlit("authenticatorSelection");
    reveal_strlit("rpId");
    reveal_strlit("allowCredentials");
    reveal_strlit("userVerification");
    reveal_strlit("authenticatorAttachment");
    reveal_strlit("residentKey");
    reveal_strlit("requireResidentKey");
    reveal_strlit("id");
    reveal_strlit("name");
    reveal_strlit("displayName");
    reveal_strlit("type");
    reveal_strlit("alg");
    reveal_strlit("transports");
    assert("allowCredentials"@[0] == 'a' && "userVerification"@[0] == 'u');
}

/// A text in base64url without padding that stands for bytes.
pub open spec fn url_text(bytes: Seq<u8>) -> Item {
    Item::Text(base64_text(Alphabet::UrlSafeNoPad, bytes))
}

/// What the client is given for a registration: every option once, under its name, byte
/// strings in base64url, and the selection criteria only if there are some.
pub proof fn law_registration_json(o: RegistrationOptionsModel)
    ensures
        registration_json(o) matches Item::Dict(m) && {
            &&& m.len() == if o.authenticator_selection is Some {
                8int
            } else {
                7int
            }
            &&& only_entry(m, "challenge"@, url_text(o.challenge.bytes))
            &&& only_entry(m, "timeout"@, Item::Integer(o.timeout_ms as int))
            &&& only_entry(m, "attestation"@, Item::Text(attestation_name(o.attestation)))
            &&& only_entry(m, "pubKeyCredParams"@, params_json(o.pub_key_cred_params))
            &&& only_entry(m, "excludeCredentials"@, descriptors_json(o.exclude_credentials))
            &&& (o.authenticator_selection matches Some(s) ==> only_entry(
                m,
                "authenticatorSelection"@,
                selection_json(s),
            ))
            &&& (o.authenticator_selection is None ==> no_entry(m, "authenticatorSelection"@))
            &&& only_entry(
                m,
                "rp"@,
                Item::Dict(
                    seq![
                        (Item::Text("id"@), Item::Text(o.rp_id)),
                        (Item::Text("name"@), Item::Text(o.rp_name)),
                    ],
                ),
            )
            &&& only_entry(
                m,
                "user"@,
                Item::Dict(
                    seq![
                        (Item::Text("id"@), url_text(o.user.id)),
                        (Item::Text("name"@), Item::Text(o.user.name)),
                        (Item::Text("displayName"@), Item::Text(o.user.display_name)),
                    ],
                ),
            )
        },
{
    lemma_names();
    let m = registration_json(o)->Dict_0;
    assert(m[0].0 == Item::Text("rp"@));
    assert(m[1].0 == Item::Text("user"@));
    assert(m[2].0 == Item::Text("challenge"@));
    assert(m[3].0 == Item::Text("pubKeyCredParams"@));
    assert(m[4].0 == Item::Text("timeout"@));
    assert(m[5].0 == Item::Text("excludeCredentials"@));
    assert(m[6].0 == Item::Text("attestation"@));
    if o.authenticator_selection is Some {
        assert(m[7].0 == Item::Text("authenticatorSelection"@));
        lemma_stands_once(m, 7);
    }
    lemma_stands_once(m, 0);
    lemma_stands_once(m, 1);
    lemma_stands_once(m, 2);
    lemma_stands_once(m, 3);
    lemma_stands_once(m, 4);
    lemma_stands_once(m, 5);
    lemma_stands_once(m, 6);
}

/// What the client is given for an assertion: every option once, under its name.
pub proof fn law_authentication_json(o: AuthenticationOptionsModel)
    ensures
        authentication_json(o) matches Item::Dict(m) && {
            &&& m.len() == 5
            &&& only_entry(m, "challenge"@, url_text(o.challenge.bytes))
            &&& only_entry(m, "timeout"@, Item::Integer(o.timeout_ms as int))
            &&& only_entry(m, "rpId"@, Item::Text(o.rp_id))
            &&& only_entry(m, "allowCredentials"@, descriptors_json(o.allow_credentials))
            &&& only_entry(
                m,
                "userVerification"@,
                Item::Text(verification_name(o.user_verification)),
            )
        },
{
    lemma_names();
    let m = authentication_json(o)->Dict_0;
    assert(m[0].0 == Item::Text("challenge"@));
    assert(m[1].0 == Item::Text("timeout"@));
    assert(m[2].0 == Item::Text("rpId"@));
    assert(m[3].0 == Item::Text("allowCredentials"@));
    assert(m[4].0 == Item::Text("userVerification"@));
    lemma_stands_once(m, 0);
    lemma_stands_once(m, 1);
    lemma_stands_once(m, 2);
    lemma_stands_once(m, 3);
    lemma_stands_once(m, 4);
}

/// Lists keep their order and length: algorithms with their type, and credentials with their
/// type, their ID in base64url, and their transports where they are known.
pub proof fn law_option_lists(algorithms: Seq<i64>, list: Seq<DescriptorModel>, i: int)
    ensures
        params_json(algorithms) matches Item::Array(a) && a.len() == algorithms.len() && (0 <= i
            < a.len() ==> a[i] == Item::Dict(
            seq![
                (Item::Text("type"@), Item::Text("public-key"@)),
                (Item::Text("alg"@), Item::Integer(algorithms[i] as int)),
            ],
        )),
        descriptors_json(list) matches Item::Array(a) && a.len() == list.len() && (0 <= i < a.len()
            ==> (a[i] matches Item::Dict(m) && {
            &&& only_entry(m, "type"@, Item::Text("public-key"@))
            &&& only_entry(m, "id"@, url_text(list[i].id))
            &&& match list[i].transports {
                None => no_entry(m, "transports"@),
                Some(transports) => only_entry(
                    m,
                    "transports"@,
                    Item::Array(
                        Seq::new(
                            transports.len(),
                            |k: int| Item::Text(transport_name(transports[k])),
                        ),
                    ),
                ),
            }
        })),
{
    lemma_names();
    if 0 <= i && i < list.len() {
        let m = descriptor_json(list[i])->Dict_0;
        assert(m[0].0 == Item::Text("type"@));
        assert(m[1].0 == Item::Text("id"@));
        if let Some(transports) = list[i].transports {
            assert(m[2].0 == Item::Text("transports"@));
            lemma_stands_once(m, 2);
            assert(transports.map_values(
                |t: AuthenticatorTransport| Item::Text(transport_name(t)),
            ) =~= Seq::new(transports.len(), |k: int| Item::Text(transport_name(transports[k]))));
        }
        lemma_stands_once(m, 0);
        lemma_stands_once(m, 1);
    }
    if 0 <= i && i < algorithms.len() {
        let a = params_json(algorithms)->Array_0;
        assert(a[i]->Dict_0 =~= seq![
            (Item::Text("type"@), Item::Text("public-key"@)),
            (Item::Text("alg"@), Item::Integer(algorithms[i] as int)),
        ]);
    }
}

/// The selection criteria: attachment and resident key only where they are given.
pub proof fn law_selection_json(s: AuthenticatorSelection)
    ensures
        selection_json(s) matches Item::Dict(m) && {
            &&& only_entry(m, "requireResidentKey"@, Item::Bool(s.require_resident_key))
            &&& only_entry(
                m,
                "userVerification"@,
                Item::Text(verification_name(s.user_verification)),
            )
            &&& match s.authenticator_attachment {
                None => no_entry(m, "authenticatorAttachment"@),
                Some(a) => only_entry(
                    m,
                    "authenticatorAttachment"@,
                    Item::Text(attachment_name(a)),
                ),
            }
            &&& match s.resident_key {
                None => no_entry(m, "residentKey"@),
                Some(r) => only_entry(m, "residentKey"@, Item::Text(resident_key_name(r))),
            }
        },
{
    lemma_names();
    let m = selection_json(s)->Dict_0;
    let first: int = if s.authenticator_attachment is Some {
        1
    } else {
        0
    };
    let second: int = if s.resident_key is Some {
        first + 1
    } else {
        first
    };
    if s.authenticator_attachment is Some {
        assert(m[0].0 == Item::Text("authenticatorAttachment"@));
    }
    if s.resident_key is Some {
        assert(m[first].0 == Item::Text("residentKey"@));
    }
    assert(m[second].0 == Item::Text("requireResidentKey"@));
    assert(m[second + 1].0 == Item::Text("userVerification"@));
    assert(m.len() == second + 2);
    lemma_stands_once(m, second);
    lemma_stands_once(m, second + 1);
    if s.authenticator_attachment is Some {
        lemma_stands_once(m, 0);
    }
    if s.resident_key is Some {
        lemma_stands_once(m, first);
    }
}

/// The names of option values.
pub proof fn law_option_names(
    preference: AttestationPreference,
    attachment: AuthenticatorAttachment,
    resident_key: ResidentKeyRequirement,
    verification: UserVerificationRequirement,
    transport: AuthenticatorTransport,
)
    ensures
        attestation_name(preference) == "none"@ <==> preference is NoAttestation,
        attestation_name(preference) == "indirect"@ <==> preference is Indirect,
        attestation_name(preference) == "direct"@ <==> preference is Direct,
        attachment_name(attachment) == "platform"@ <==> attachment is Platform,
        attachment_name(attachment) == "cross-platform"@ <==> attachment is CrossPlatform,
        resident_key_name(resident_key) == "discouraged"@ <==> resident_key is Discouraged,
        resident_key_name(resident_key) == "preferred"@ <==> resident_key is Preferred,
        resident_key_name(resident_key) == "required"@ <==> resident_key is Required,
        verification_name(verification) == "discouraged"@ <==> verification is Discouraged,
        verification_name(verification) == "preferred"@ <==> verification is Preferred,
        verification_name(verification) == "required"@ <==> verification is Required,
        transport_name(transport) == "usb"@ <==> transport is Usb,
        transport_name(transport) == "nfc"@ <==> transport is Nfc,
        transport_name(transport) == "ble"@ <==> transport is Ble,
        transport_name(transport) == "internal"@ <==> transport is Internal,
        transport_name(transport) == "hybrid"@ <==> transport is Hybrid,
{
    reveal_strlit("none");
    reveal_strlit("indirect");
    reveal_strlit("direct");
    reveal_strlit("platform");
    reveal_strlit("cross-platform");
    reveal_strlit("discouraged");
    reveal_strlit("preferred");
    reveal_strlit("required");
    reveal_strlit("usb");
    reveal_strlit("nfc");
    reveal_strlit("ble");
    reveal_strlit("internal");
    reveal_strlit("hybrid");
    assert("none"@.len() == 4 && "indirect"@.len() == 8 && "direct"@.len() == 6);
    assert("platform"@.len() == 8 && "cross-platform"@.len() == 14);
    assert("discouraged"@.len() == 11 && "preferred"@.len() == 9 && "required"@.len() == 8);
    assert("internal"@.len() == 8 && "hybrid"@.len() == 6);
    assert("usb"@[0] == 'u' && "nfc"@[0] == 'n' && "ble"@[0] == 'b');
    assert("usb"@.len() == 3 && "nfc"@.len() == 3 && "ble"@.len() == 3);
}

} // verus!
