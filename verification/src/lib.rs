pub mod icrc21_types;
pub mod layout;

use crate::icrc21_types::{
    metadata_is_fixed_locale, Icrc21ConsentInfo, Icrc21ConsentMessage, Icrc21ConsentMessageMetadata,
    Icrc21ConsentMessageRequest, Icrc21DeviceSpec, Icrc21Error, Icrc21ErrorInfo,
    Icrc21SupportedStandard,
};
use crate::layout::{layout_paged, paged_layout};
use vstd::prelude::*;
use vstd::string::*;

verus! {

/// The greeting produced for a name.
pub open spec fn greeting_text(name: Seq<char>) -> Seq<char> {
    "Hello, "@ + name + "!"@
}

/// The generic consent-message template around a greeting.
pub open spec fn generic_consent_text(greeting: Seq<char>) -> Seq<char> {
    "Produce the following greeting text:\n> "@ + greeting
}

/// The line-display consent-message template around a greeting: the same
/// message prefixed differently, with the payload quoted.
pub open spec fn line_display_source_text(greeting: Seq<char>) -> Seq<char> {
    "Produce the following greeting text:\n \""@ + greeting + "\""@
}

/// Builds the greeting for a name.
pub fn greet(name: String) -> (r: String)
    ensures
        r@ == greeting_text(name@),
{
    let mut s = String::from_str("Hello, ");
    s.append(name.as_str());
    s.append("!");
    s
}

/// Wraps a greeting in the generic consent-message template.
pub fn consent_msg_text_md(greeting: &str) -> (r: String)
    ensures
        r@ == generic_consent_text(greeting@),
{
    let mut s = String::from_str("Produce the following greeting text:\n> ");
    s.append(greeting);
    s
}

/// Wraps a greeting in the line-display consent-message template.
fn line_display_source(greeting: &str) -> (r: String)
    ensures
        r@ == line_display_source_text(greeting@),
{
    let mut s = String::from_str("Produce the following greeting text:\n \"");
    s.append(greeting);
    s.append("\"");
    s
}

/// The two standards this surface implements, as fixed records in fixed
/// order, identical on every call.
pub fn icrc10_supported_standards() -> (standards: Vec<Icrc21SupportedStandard>)
    ensures
        standards@.len() == 2,
        standards@[0].url@ == "https://github.com/dfinity/ICRCs/ICRC-10.md"@,
        standards@[0].name@ == "ICRC-10"@,
        standards@[1].url@ == "https://github.com/dfinity/ICRC/blob/main/ICRCs/ICRC-21/ICRC-21.md"@,
        standards@[1].name@ == "ICRC-21"@,
{
    let mut standards: Vec<Icrc21SupportedStandard> = Vec::new();
    standards.push(
        Icrc21SupportedStandard {
            url: String::from_str("https://github.com/dfinity/ICRCs/ICRC-10.md"),
            name: String::from_str("ICRC-10"),
        },
    );
    standards.push(
        Icrc21SupportedStandard {
            url: String::from_str("https://github.com/dfinity/ICRC/blob/main/ICRCs/ICRC-21/ICRC-21.md"),
            name: String::from_str("ICRC-21"),
        },
    );
    standards
}

/// What candid decoding of a single text argument yields for given bytes:
/// the decoded text, or nothing when the bytes are not a valid encoding.
/// Candid decoding is a pure function of the bytes alone.
pub uninterp spec fn candid_decoded_text(bytes: Seq<u8>) -> Option<Seq<char>>;

/// Relies on candid::decode_one::<String>: decodes a candid-encoded text
/// argument, failing exactly when the bytes are not a valid candid encoding
/// of a single text value; the outcome depends on the bytes alone.
#[verifier::external_body]
fn decode_text_arg(bytes: &Vec<u8>) -> (r: Option<String>)
    ensures
        match r {
            Some(s) => candid_decoded_text(bytes@) == Some(s@),
            None => candid_decoded_text(bytes@) is None,
        },
{
    match candid::decode_one::<String>(bytes.as_slice()) {
        Ok(s) => Some(s),
        Err(_) => None,
    }
}

/// The exact consent response owed for a decoded argument `name` under a
/// display preference: the generic text message for a generic display (or
/// none given), the fixed structured message for a fields display, the
/// paginated layout of the quoted message for a valid line display, and the
/// configuration error for a line display with a zero dimension.
pub open spec fn consent_response_matches(
    res: Result<Icrc21ConsentInfo, Icrc21Error>,
    name: Seq<char>,
    device_spec: Option<Icrc21DeviceSpec>,
) -> bool {
    match device_spec {
        Some(Icrc21DeviceSpec::FieldsDisplay) => {
            &&& res matches Ok(info)
            &&& metadata_is_fixed_locale(info.metadata)
            &&& info.consent_message matches Icrc21ConsentMessage::FieldsDisplayMessage {
                title,
                fields,
                action,
            }
            &&& title@ == "Review transaction to greet"@
            &&& action@ == "Sign transaction to greet"@
            &&& fields@.len() == 1
            &&& fields@[0].0@ == "Greet"@
            &&& fields@[0].1@ == name
        },
        Some(Icrc21DeviceSpec::LineDisplay { width, page_height }) => {
            if width == 0 || page_height == 0 {
                &&& res matches Err(Icrc21Error::InvalidConfiguration(info))
                &&& info.description@
                    == "LineDisplay width and pageHeight must be positive"@
            } else {
                &&& res matches Ok(info)
                &&& metadata_is_fixed_locale(info.metadata)
                &&& info.consent_message matches Icrc21ConsentMessage::LineDisplayMessage { pages }
                &&& pages.deep_view() == paged_layout(
                    line_display_source_text(greeting_text(name)),
                    width as int,
                    page_height as int,
                )
            }
        },
        _ => {
            &&& res matches Ok(info)
            &&& metadata_is_fixed_locale(info.metadata)
            &&& info.consent_message matches Icrc21ConsentMessage::GenericDisplayMessage(text)
            &&& text@ == generic_consent_text(greeting_text(name))
        },
    }
}

/// Composes the consent envelope for an already decoded argument and the
/// caller's display preference. Pure: the result is a function of the two
/// arguments alone.
pub fn consent_message_for(name: String, device_spec: Option<Icrc21DeviceSpec>) -> (res: Result<
    Icrc21ConsentInfo,
    Icrc21Error,
>)
    ensures
        consent_response_matches(res, name@, device_spec),
{
    let metadata = Icrc21ConsentMessageMetadata {
        language: String::from_str("en"),
        utc_offset_minutes: None,
    };
    match device_spec {
        Some(Icrc21DeviceSpec::FieldsDisplay) => {
            let mut fields: Vec<(String, String)> = Vec::new();
            fields.push((String::from_str("Greet"), name));
            Ok(
                Icrc21ConsentInfo {
                    metadata,
                    consent_message: Icrc21ConsentMessage::FieldsDisplayMessage {
                        title: String::from_str("Review transaction to greet"),
                        fields,
                        action: String::from_str("Sign transaction to greet"),
                    },
                },
            )
        },
        Some(Icrc21DeviceSpec::LineDisplay { width, page_height }) => {
            if width == 0 || page_height == 0 {
                Err(
                    Icrc21Error::InvalidConfiguration(
                        Icrc21ErrorInfo {
                            description: String::from_str(
                                "LineDisplay width and pageHeight must be positive",
                            ),
                        },
                    ),
                )
            } else {
                let greeting = greet(name);
                let source = line_display_source(greeting.as_str());
                let pages = layout_paged(source.as_str(), width as usize, page_height as usize);
                Ok(
                    Icrc21ConsentInfo {
                        metadata,
                        consent_message: Icrc21ConsentMessage::LineDisplayMessage { pages },
                    },
                )
            }
        },
        _ => {
            let greeting = greet(name);
            let text = consent_msg_text_md(greeting.as_str());
            Ok(
                Icrc21ConsentInfo {
                    metadata,
                    consent_message: Icrc21ConsentMessage::GenericDisplayMessage(text),
                },
            )
        },
    }
}

/// The exact response owed for a request with the given method name,
/// argument bytes and display preference: the unsupported-call error for any
/// method but the one supported operation, the decode error for bytes that
/// do not decode as a text value, and otherwise the consent envelope for the
/// decoded argument.
pub open spec fn router_response_matches(
    res: Result<Icrc21ConsentInfo, Icrc21Error>,
    method: Seq<char>,
    arg: Seq<u8>,
    device_spec: Option<Icrc21DeviceSpec>,
) -> bool {
    &&& method != "greet"@ ==> {
        &&& res matches Err(Icrc21Error::UnsupportedCanisterCall(info))
        &&& info.description@ == "Only the 'greet' method is supported"@
    }
    &&& method == "greet"@ && candid_decoded_text(arg) is None ==> {
        &&& res matches Err(Icrc21Error::UnsupportedCanisterCall(info))
        &&& info.description@ == "Failed to decode the argument"@
    }
    &&& method == "greet"@ ==> (candid_decoded_text(arg) matches Some(name)
        ==> consent_response_matches(res, name, device_spec))
}

/// Handles a consent-message request: rejects any method other than the one
/// supported operation, rejects an argument that does not decode as a text
/// value, and otherwise composes the consent envelope for the caller's
/// display preference. The response is determined by the request alone.
pub fn icrc21_canister_call_consent_message(consent_msg_request: Icrc21ConsentMessageRequest) -> (res:
    Result<Icrc21ConsentInfo, Icrc21Error>)
    ensures
        router_response_matches(
            res,
            consent_msg_request.method@,
            consent_msg_request.arg@,
            consent_msg_request.user_preferences.device_spec,
        ),
{
    if !(consent_msg_request.method == String::from_str("greet")) {
        return Err(
            Icrc21Error::UnsupportedCanisterCall(
                Icrc21ErrorInfo {
                    description: String::from_str("Only the 'greet' method is supported"),
                },
            ),
        );
    }
    let decoded = decode_text_arg(&consent_msg_request.arg);
    match decoded {
        None => Err(
            Icrc21Error::UnsupportedCanisterCall(
                Icrc21ErrorInfo { description: String::from_str("Failed to decode the argument") },
            ),
        ),
        Some(name) => consent_message_for(name, consent_msg_request.user_preferences.device_spec),
    }
}

/// Observable agreement of two errors: the same variant with the same
/// description text.
pub open spec fn consent_errors_agree(e1: Icrc21Error, e2: Icrc21Error) -> bool {
    match (e1, e2) {
        (
            Icrc21Error::UnsupportedCanisterCall(i1),
            Icrc21Error::UnsupportedCanisterCall(i2),
        ) => i1.description@ == i2.description@,
        (Icrc21Error::InvalidConfiguration(i1), Icrc21Error::InvalidConfiguration(i2)) => i1.description@
            == i2.description@,
        _ => false,
    }
}

/// Observable agreement of two consent messages: the same variant with the
/// same text content.
pub open spec fn consent_messages_agree(m1: Icrc21ConsentMessage, m2: Icrc21ConsentMessage) -> bool {
    match (m1, m2) {
        (
            Icrc21ConsentMessage::GenericDisplayMessage(t1),
            Icrc21ConsentMessage::GenericDisplayMessage(t2),
        ) => t1@ == t2@,
        (
            Icrc21ConsentMessage::FieldsDisplayMessage { title: ti1, fields: f1, action: a1 },
            Icrc21ConsentMessage::FieldsDisplayMessage { title: ti2, fields: f2, action: a2 },
        ) => {
            &&& ti1@ == ti2@
            &&& a1@ == a2@
            &&& f1@.len() == f2@.len()
            &&& forall|i: int|
                0 <= i < f1@.len() ==> (#[trigger] f1@[i]).0@ == f2@[i].0@ && f1@[i].1@ == f2@[i].1@
        },
        (
            Icrc21ConsentMessage::LineDisplayMessage { pages: p1 },
            Icrc21ConsentMessage::LineDisplayMessage { pages: p2 },
        ) => p1.deep_view() == p2.deep_view(),
        _ => false,
    }
}

/// Observable agreement of two responses: both succeed with the same locale
/// metadata and the same message content, or both fail with the same error.
pub open spec fn consent_results_agree(
    r1: Result<Icrc21ConsentInfo, Icrc21Error>,
    r2: Result<Icrc21ConsentInfo, Icrc21Error>,
) -> bool {
    match (r1, r2) {
        (Ok(i1), Ok(i2)) => {
            &&& i1.metadata.language@ == i2.metadata.language@
            &&& i1.metadata.utc_offset_minutes == i2.metadata.utc_offset_minutes
            &&& consent_messages_agree(i1.consent_message, i2.consent_message)
        },
        (Err(e1), Err(e2)) => consent_errors_agree(e1, e2),
        _ => false,
    }
}

/// Determinism of the composer: any two responses owed for the same decoded
/// argument and the same display preference agree in every observable part.
/// There is no hidden state.
pub proof fn lemma_consent_response_deterministic(
    r1: Result<Icrc21ConsentInfo, Icrc21Error>,
    r2: Result<Icrc21ConsentInfo, Icrc21Error>,
    name: Seq<char>,
    device_spec: Option<Icrc21DeviceSpec>,
)
    requires
        consent_response_matches(r1, name, device_spec),
        consent_response_matches(r2, name, device_spec),
    ensures
        consent_results_agree(r1, r2),
{
}

/// Determinism of the whole request handler: any two responses owed for
/// requests with the same method name, the same argument bytes and the same
/// display preference agree in every observable part.
pub proof fn lemma_router_deterministic(
    r1: Result<Icrc21ConsentInfo, Icrc21Error>,
    r2: Result<Icrc21ConsentInfo, Icrc21Error>,
    method: Seq<char>,
    arg: Seq<u8>,
    device_spec: Option<Icrc21DeviceSpec>,
)
    requires
        router_response_matches(r1, method, arg, device_spec),
        router_response_matches(r2, method, arg, device_spec),
    ensures
        consent_results_agree(r1, r2),
{
    if method == "greet"@ {
        match candid_decoded_text(arg) {
            Some(name) => {
                lemma_consent_response_deterministic(r1, r2, name, device_spec);
            },
            None => {},
        }
    }
}

} // verus!

