use icrc21_consent::greet;
use icrc21_consent::icrc10_supported_standards;
use icrc21_consent::icrc21_canister_call_consent_message;
use icrc21_consent::icrc21_types::Icrc21ConsentInfo;
use icrc21_consent::icrc21_types::Icrc21ConsentMessage;
use icrc21_consent::icrc21_types::Icrc21ConsentMessageMetadata;
use icrc21_consent::icrc21_types::Icrc21ConsentMessageRequest;
use icrc21_consent::icrc21_types::Icrc21ConsentMessageSpec;
use icrc21_consent::icrc21_types::Icrc21DeviceSpec;
use icrc21_consent::icrc21_types::Icrc21Error;
use icrc21_consent::icrc21_types::Icrc21SupportedStandard;
use icrc21_consent::layout::layout_paged;

fn request(
    arg: Vec<u8>,
    method: &str,
    device_spec: Option<Icrc21DeviceSpec>,
) -> Icrc21ConsentMessageRequest {
    Icrc21ConsentMessageRequest {
        arg,
        method: method.to_string(),
        user_preferences: Icrc21ConsentMessageSpec {
            metadata: Icrc21ConsentMessageMetadata {
                language: "en".to_string(),
                utc_offset_minutes: None,
            },
            device_spec,
        },
    }
}

fn alice_arg() -> Vec<u8> {
    candid::encode_one("Alice").unwrap()
}

#[test]
fn should_greet() {
    assert_eq!(greet("Alice".to_string()), "Hello, Alice!");
}

#[test]
fn should_declare_icrc21_support() {
    assert_eq!(
        icrc10_supported_standards(),
        vec![
            Icrc21SupportedStandard {
                url: "https://github.com/dfinity/ICRCs/ICRC-10.md".to_string(),
                name: "ICRC-10".to_string(),
            },
            Icrc21SupportedStandard {
                url: "https://github.com/dfinity/ICRC/blob/main/ICRCs/ICRC-21/ICRC-21.md"
                    .to_string(),
                name: "ICRC-21".to_string(),
            }
        ]
    );
}

#[test]
fn should_return_generic_display_message() -> Result<(), Icrc21Error> {
    let result = icrc21_canister_call_consent_message(request(
        alice_arg(),
        "greet",
        Some(Icrc21DeviceSpec::GenericDisplay),
    ))?;
    assert_eq!(
        result,
        Icrc21ConsentInfo {
            metadata: Icrc21ConsentMessageMetadata {
                language: "en".to_string(),
                utc_offset_minutes: None,
            },
            consent_message: Icrc21ConsentMessage::GenericDisplayMessage(
                "Produce the following greeting text:\n> Hello, Alice!".to_string()
            ),
        }
    );
    Ok(())
}

#[test]
fn should_return_fields_display_message() -> Result<(), Icrc21Error> {
    let result = icrc21_canister_call_consent_message(request(
        alice_arg(),
        "greet",
        Some(Icrc21DeviceSpec::FieldsDisplay),
    ))?;
    assert_eq!(
        result,
        Icrc21ConsentInfo {
            metadata: Icrc21ConsentMessageMetadata {
                language: "en".to_string(),
                utc_offset_minutes: None,
            },
            consent_message: Icrc21ConsentMessage::FieldsDisplayMessage {
                title: "Review transaction to greet".into(),
                fields: vec![("Greet".to_string(), "Alice".to_string())],
                action: "Sign transaction to greet".into()
            },
        }
    );
    Ok(())
}

#[test]
fn should_return_no_display_preference_as_generic() -> Result<(), Icrc21Error> {
    let result = icrc21_canister_call_consent_message(request(alice_arg(), "greet", None))?;
    assert_eq!(
        result.consent_message,
        Icrc21ConsentMessage::GenericDisplayMessage(
            "Produce the following greeting text:\n> Hello, Alice!".to_string()
        )
    );
    Ok(())
}

#[test]
fn should_paginate_line_display_message() -> Result<(), Icrc21Error> {
    let result = icrc21_canister_call_consent_message(request(
        alice_arg(),
        "greet",
        Some(Icrc21DeviceSpec::LineDisplay {
            width: 20,
            page_height: 3,
        }),
    ))?;
    match result.consent_message {
        Icrc21ConsentMessage::LineDisplayMessage { pages } => {
            assert_eq!(pages.len(), 2);
            assert_eq!(
                pages[0].lines,
                vec![
                    "Produce the".to_string(),
                    "following greeting".to_string(),
                    "text: \"Hello,".to_string()
                ]
            );
            assert_eq!(pages[1].lines, vec!["Alice!\"".to_string()]);
        }
        other => panic!("expected a line display message, got {:?}", other),
    }
    Ok(())
}

#[test]
fn should_lay_out_scenario_text() {
    let pages = layout_paged("Produce the following greeting text:\n \"Hello, Alice!\"", 20, 3);
    assert_eq!(pages.len(), 2);
    assert_eq!(
        pages[0].lines,
        vec![
            "Produce the".to_string(),
            "following greeting".to_string(),
            "text: \"Hello,".to_string()
        ]
    );
    assert_eq!(pages[1].lines, vec!["Alice!\"".to_string()]);
}

#[test]
fn should_reject_unknown_method() {
    let result = icrc21_canister_call_consent_message(request(alice_arg(), "unknown", None));
    match result {
        Err(Icrc21Error::UnsupportedCanisterCall(info)) => {
            assert_eq!(info.description, "Only the 'greet' method is supported");
        }
        other => panic!("expected an unsupported-call error, got {:?}", other),
    }
}

#[test]
fn should_reject_undecodable_argument() {
    let result = icrc21_canister_call_consent_message(request(
        vec![0, 1, 2, 3],
        "greet",
        Some(Icrc21DeviceSpec::GenericDisplay),
    ));
    match result {
        Err(Icrc21Error::UnsupportedCanisterCall(info)) => {
            assert_eq!(info.description, "Failed to decode the argument");
        }
        other => panic!("expected an unsupported-call error, got {:?}", other),
    }
}

#[test]
fn should_reject_zero_width_line_display() {
    let result = icrc21_canister_call_consent_message(request(
        alice_arg(),
        "greet",
        Some(Icrc21DeviceSpec::LineDisplay {
            width: 0,
            page_height: 3,
        }),
    ));
    match result {
        Err(Icrc21Error::InvalidConfiguration(info)) => {
            assert_eq!(info.description, "LineDisplay width and pageHeight must be positive");
        }
        other => panic!("expected a configuration error, got {:?}", other),
    }
}

#[test]
fn should_reject_zero_page_height_line_display() {
    let result = icrc21_canister_call_consent_message(request(
        alice_arg(),
        "greet",
        Some(Icrc21DeviceSpec::LineDisplay {
            width: 20,
            page_height: 0,
        }),
    ));
    match result {
        Err(Icrc21Error::InvalidConfiguration(_)) => {}
        other => panic!("expected a configuration error, got {:?}", other),
    }
}

#[test]
fn should_answer_identical_requests_identically() {
    let first = icrc21_canister_call_consent_message(request(
        alice_arg(),
        "greet",
        Some(Icrc21DeviceSpec::LineDisplay {
            width: 20,
            page_height: 3,
        }),
    ))
    .unwrap();
    let second = icrc21_canister_call_consent_message(request(
        alice_arg(),
        "greet",
        Some(Icrc21DeviceSpec::LineDisplay {
            width: 20,
            page_height: 3,
        }),
    ))
    .unwrap();
    assert_eq!(first, second);
}

#[test]
fn should_not_pack_line_reaching_exact_width() {
    // "Produce the" joined is exactly 11 characters; the packer demands the
    // joined length to stay strictly below the width, so width 11 splits.
    let pages = layout_paged("Produce the", 11, 5);
    assert_eq!(pages.len(), 1);
    assert_eq!(pages[0].lines, vec!["Produce".to_string(), "the".to_string()]);
    let pages = layout_paged("Produce the", 12, 5);
    assert_eq!(pages[0].lines, vec!["Produce the".to_string()]);
}

#[test]
fn should_keep_unsplit_token_of_exact_width() {
    let pages = layout_paged("abcde", 5, 4);
    assert_eq!(pages.len(), 1);
    assert_eq!(pages[0].lines, vec!["abcde".to_string()]);
}

#[test]
fn should_chunk_overlong_words() {
    let pages = layout_paged("abcdefgh", 3, 2);
    assert_eq!(pages.len(), 2);
    assert_eq!(pages[0].lines, vec!["abc".to_string(), "def".to_string()]);
    assert_eq!(pages[1].lines, vec!["gh".to_string()]);
}

#[test]
fn should_collapse_mixed_whitespace() {
    let pages = layout_paged("a\tb\r\nc  d", 20, 5);
    assert_eq!(pages.len(), 1);
    assert_eq!(pages[0].lines, vec!["a b c d".to_string()]);
}

#[test]
fn should_produce_no_pages_for_empty_text() {
    let pages = layout_paged("", 5, 2);
    assert!(pages.is_empty());
    let pages = layout_paged(" \t\r\n ", 5, 2);
    assert!(pages.is_empty());
}

#[test]
fn should_fill_every_page_but_the_last() {
    let pages = layout_paged("a b c d e f g", 1, 3);
    assert_eq!(pages.len(), 3);
    assert_eq!(
        pages[0].lines,
        vec!["a".to_string(), "b".to_string(), "c".to_string()]
    );
    assert_eq!(
        pages[1].lines,
        vec!["d".to_string(), "e".to_string(), "f".to_string()]
    );
    assert_eq!(pages[2].lines, vec!["g".to_string()]);
}

#[test]
fn should_reconstruct_tokens_from_pages() {
    let text = "one two three four five six seven eight";
    let pages = layout_paged(text, 10, 2);
    let mut rebuilt: Vec<String> = Vec::new();
    for page in &pages {
        for line in &page.lines {
            for word in line.split(' ') {
                rebuilt.push(word.to_string());
            }
        }
    }
    let expected: Vec<String> = text.split(' ').map(|w| w.to_string()).collect();
    assert_eq!(rebuilt, expected);
}
