use vstd::prelude::*;

verus! {

/// Locale metadata attached to every consent message. Only English is
/// supported and no timezone annotation is produced.
#[derive(PartialEq, Eq, Debug)]
pub struct Icrc21ConsentMessageMetadata {
    pub language: String,
    pub utc_offset_minutes: Option<i16>,
}

/// Holds when the metadata carries the one supported locale and no
/// timezone annotation.
pub open spec fn metadata_is_fixed_locale(m: Icrc21ConsentMessageMetadata) -> bool {
    &&& m.language@ == "en"@
    &&& m.utc_offset_minutes is None
}

/// The caller's display preference: a generic text display, a structured
/// fields display, or a small line display of `width` characters per line
/// and `page_height` lines per page (both must be positive).
pub enum Icrc21DeviceSpec {
    GenericDisplay,
    FieldsDisplay,
    LineDisplay { width: u16, page_height: u16 },
}

pub struct Icrc21ConsentMessageSpec {
    pub metadata: Icrc21ConsentMessageMetadata,
    pub device_spec: Option<Icrc21DeviceSpec>,
}

/// A consent-message request: the candid-encoded argument bytes, the name
/// of the method to describe, and the caller's display preferences.
pub struct Icrc21ConsentMessageRequest {
    pub arg: Vec<u8>,
    pub method: String,
    pub user_preferences: Icrc21ConsentMessageSpec,
}

/// One page of text lines laid out for a constrained line display.
#[derive(PartialEq, Eq, Debug)]
pub struct Icrc21Page {
    pub lines: Vec<String>,
}

impl DeepView for Icrc21Page {
    type V = Seq<Seq<char>>;

    open spec fn deep_view(&self) -> Seq<Seq<char>> {
        self.lines.deep_view()
    }
}

/// The consent message shown to the user, in the representation the caller
/// asked for.
#[derive(PartialEq, Eq, Debug)]
pub enum Icrc21ConsentMessage {
    GenericDisplayMessage(String),
    FieldsDisplayMessage { title: String, fields: Vec<(String, String)>, action: String },
    LineDisplayMessage { pages: Vec<Icrc21Page> },
}

/// The response envelope: the fixed locale metadata together with the
/// consent message.
#[derive(PartialEq, Eq, Debug)]
pub struct Icrc21ConsentInfo {
    pub metadata: Icrc21ConsentMessageMetadata,
    pub consent_message: Icrc21ConsentMessage,
}

#[derive(Debug)]
pub struct Icrc21ErrorInfo {
    pub description: String,
}

/// candid's arbitrary-precision natural, carried opaquely in the reserved
/// `GenericError` variant.
#[verifier::external_type_specification]
#[verifier::external_body]
pub struct ExNat(candid::Nat);

/// The error taxonomy of the consent-message surface. `GenericError`,
/// `InsufficientPayment` and `ConsentMessageUnavailable` are reserved for
/// collaborators and never produced here.
#[derive(Debug)]
pub enum Icrc21Error {
    GenericError { description: String, error_code: candid::Nat },
    InsufficientPayment(Icrc21ErrorInfo),
    UnsupportedCanisterCall(Icrc21ErrorInfo),
    ConsentMessageUnavailable(Icrc21ErrorInfo),
    InvalidConfiguration(Icrc21ErrorInfo),
}

/// One supported-standard record: the standard's name and the URL of its
/// specification.
#[derive(PartialEq, Eq, Debug)]
pub struct Icrc21SupportedStandard {
    pub url: String,
    pub name: String,
}

} // verus!
