use baitts::api::{collect_voices, query_pairs, ApiClient, ApiError, Voice, REQUEST_TIMEOUT_SECS};
use baitts::retry::{AttemptOutcome, RetryAction, RetryState};

fn voice(id: &str) -> Voice {
    Voice {
        id: id.to_string(),
        name: format!("name of {}", id),
        gender: "female".to_string(),
        locale: "zh-CN".to_string(),
        voice_type: "neural".to_string(),
    }
}

fn ids(voices: &Vec<Voice>) -> Vec<String> {
    voices.iter().map(|v| v.id.clone()).collect()
}

#[test]
fn speech_request_carries_only_the_options_that_are_set() {
    let client = ApiClient::new("http://127.0.0.1:8774".to_string());
    let call = client.generate_speech("hello", &None, &None, &None, &None).unwrap();
    assert_eq!(call.url(), "http://127.0.0.1:8774/forward?text=hello");
    let call = client
        .generate_speech("hello", &Some("v1".to_string()), &Some(50), &None, &Some(100))
        .unwrap();
    assert_eq!(call.url(), "http://127.0.0.1:8774/forward?text=hello&voice=v1&volume=50&pitch=100");
    let call = client.generate_speech("x", &None, &Some(0), &Some(7), &None).unwrap();
    assert_eq!(call.url(), "http://127.0.0.1:8774/forward?text=x&volume=0&speed=7");
}

#[test]
fn speech_request_encodes_the_text() {
    let client = ApiClient::new("http://example.net/api".to_string());
    let call = client.generate_speech("a b&c=d", &None, &None, &None, &None).unwrap();
    assert_eq!(call.url(), "http://example.net/api/forward?text=a+b%26c%3Dd");
    let call = client.generate_speech("你好[[PAUSE:1000]]", &None, &None, &None, &None).unwrap();
    assert_eq!(
        call.url(),
        "http://example.net/api/forward?text=%E4%BD%A0%E5%A5%BD%5B%5BPAUSE%3A1000%5D%5D"
    );
}

#[test]
fn base_address_that_is_no_address_is_refused() {
    let client = ApiClient::new("not an address".to_string());
    assert!(matches!(
        client.generate_speech("hello", &None, &None, &None, &None),
        Err(ApiError::InvalidUrl)
    ));
    let client = ApiClient::new(String::new());
    assert!(matches!(
        client.generate_speech("hello", &None, &None, &None, &None),
        Err(ApiError::InvalidUrl)
    ));
}

#[test]
fn text_may_have_any_length() {
    let client = ApiClient::new("http://127.0.0.1:8774".to_string());
    let long = "a".repeat(0x100_0001);
    let call = client.generate_speech(&long, &None, &None, &None, &None).unwrap();
    assert_eq!(call.url().len(), "http://127.0.0.1:8774/forward?text=".len() + 0x100_0001);
}

#[test]
fn overlong_base_address_is_refused() {
    let client = ApiClient::new(format!("http://127.0.0.1:8774/{}", "a".repeat(0x100_0000)));
    assert!(matches!(
        client.generate_speech("hello", &None, &None, &None, &None),
        Err(ApiError::TooLong)
    ));
}

#[test]
fn base_address_with_a_fragment_bounds_the_text() {
    let client = ApiClient::new("http://127.0.0.1:8774/#part".to_string());
    let call = client.generate_speech("hello", &None, &None, &None, &None).unwrap();
    assert_eq!(call.url(), "http://127.0.0.1:8774/?text=hello#part/forward");
    let long = "a".repeat(0x100_0001);
    assert!(matches!(
        client.generate_speech(&long, &None, &None, &None, &None),
        Err(ApiError::TooLong)
    ));
    let fits = "a".repeat(0x100_0000);
    assert!(client.generate_speech(&fits, &None, &None, &None, &None).is_ok());
}

#[test]
fn query_pairs_are_in_a_fixed_order() {
    let pairs = query_pairs("t", &Some("v".to_string()), &Some(1), &Some(22), &Some(255));
    let expected: Vec<(String, String)> = vec![
        ("text".to_string(), "t".to_string()),
        ("voice".to_string(), "v".to_string()),
        ("volume".to_string(), "1".to_string()),
        ("speed".to_string(), "22".to_string()),
        ("pitch".to_string(), "255".to_string()),
    ];
    assert_eq!(pairs, expected);
    assert_eq!(
        query_pairs("t", &None, &None, &None, &None),
        vec![("text".to_string(), "t".to_string())]
    );
}

#[test]
fn catalogue_request_goes_to_voices() {
    let client = ApiClient::new("http://127.0.0.1:8774".to_string());
    assert_eq!(client.base_url(), "http://127.0.0.1:8774");
    let call = client.list_voices();
    assert_eq!(call.url(), "http://127.0.0.1:8774/voices");
    assert_eq!(call.retry().state(), RetryState::Idle);
    assert_eq!(REQUEST_TIMEOUT_SECS, 15);
}

#[test]
fn remote_call_retries_like_a_session() {
    let client = ApiClient::new("http://127.0.0.1:8774".to_string());
    let mut call = client.generate_speech("hello", &None, &None, &None, &None).unwrap();
    assert_eq!(call.start(), RetryAction::Attempt);
    assert_eq!(call.on_outcome(AttemptOutcome::Status(500)), RetryAction::PauseThenAttempt);
    assert_eq!(call.on_outcome(AttemptOutcome::Status(500)), RetryAction::PauseThenAttempt);
    assert_eq!(call.on_outcome(AttemptOutcome::Status(200)), RetryAction::Deliver);
    assert_eq!(call.retry().pauses(), 2);
    assert_eq!(call.url(), "http://127.0.0.1:8774/forward?text=hello");
}

#[test]
fn catalogue_is_flattened_provider_by_provider() {
    let providers = vec![
        vec![voice("a1"), voice("a2")],
        vec![],
        vec![voice("b1")],
        vec![voice("c1"), voice("c2"), voice("c3")],
    ];
    let voices = collect_voices(true, providers).unwrap();
    assert_eq!(ids(&voices), vec!["a1", "a2", "b1", "c1", "c2", "c3"]);
    assert_eq!(voices[2].name, "name of b1");
    assert_eq!(ids(&collect_voices(true, vec![]).unwrap()), Vec::<String>::new());
}

#[test]
fn unsuccessful_catalogue_is_an_error() {
    assert!(matches!(collect_voices(false, vec![vec![voice("a1")]]), Err(ApiError::Unsuccessful)));
}
