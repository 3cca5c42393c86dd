use std::collections::HashMap;

use md5::{Digest, Md5};
use resonance::model::ProviderError;
use resonance::response::fall_back;
use resonance::subsonic::{
    album_list_arguments, item_arguments, search_arguments, Credentials, SubsonicClient,
};
use url::{Position, Url};

fn pairs(url: &Url) -> HashMap<String, String> {
    url.query_pairs().into_owned().collect()
}

fn password_client(base: &str) -> SubsonicClient {
    SubsonicClient::new(
        base,
        Credentials::Password {
            username: "listener".into(),
            password: "do not transmit".into(),
        },
    )
    .unwrap()
}

#[test]
fn api_key_auth_does_not_add_a_username() {
    let client = SubsonicClient::new(
        "https://music.example.test",
        Credentials::ApiKey("secret key".into()),
    )
    .unwrap();
    let url = client.endpoint("ping", &[]).unwrap();
    let values = pairs(&url);
    assert_eq!(values.get("apiKey").map(String::as_str), Some("secret key"));
    assert!(!values.contains_key("u"));
    assert!(!values.contains_key("p"));
}

#[test]
fn password_auth_uses_a_salted_token() {
    let client = password_client("https://music.example.test/base");
    let url = client.endpoint("stream", &[("id", "track/1".into())]).unwrap();
    let values = pairs(&url);
    assert_eq!(values.get("u").map(String::as_str), Some("listener"));
    assert_eq!(values.get("id").map(String::as_str), Some("track/1"));
    assert_eq!(values.get("s").map(String::len), Some(16));
    assert_eq!(values.get("t").map(String::len), Some(32));
    assert!(!values.contains_key("p"));
    assert!(!url.as_str().contains("do%20not%20transmit"));
}

#[test]
fn the_token_is_the_md5_of_password_and_salt() {
    let client = password_client("https://music.example.test/");
    let url = client.endpoint("ping", &[]).unwrap();
    let values = pairs(&url);
    let salt = values.get("s").unwrap();
    assert!(salt.chars().all(|c| c.is_ascii_alphanumeric()));
    let expected = hex::encode(Md5::digest(format!("do not transmit{salt}").as_bytes()));
    assert_eq!(values.get("t"), Some(&expected));
}

#[test]
fn a_given_salt_gives_a_known_token() {
    let client = password_client("https://music.example.test/");
    let url = client.endpoint_with_salt("ping", &[], "c19b2d").unwrap();
    let values = pairs(&url);
    assert_eq!(values.get("s").map(String::as_str), Some("c19b2d"));
    let expected = hex::encode(Md5::digest(b"do not transmitc19b2d"));
    assert_eq!(values.get("t"), Some(&expected));
}

#[test]
fn the_query_starts_with_the_protocol_pairs() {
    let client = SubsonicClient::new("https://music.example.test", Credentials::ApiKey("k".into()))
        .unwrap();
    let url = client.endpoint("getAlbum", &[("id", "7".into())]).unwrap();
    let all: Vec<(String, String)> = url.query_pairs().into_owned().collect();
    let expected: Vec<(String, String)> = vec![
        ("v".into(), "1.16.1".into()),
        ("c".into(), "subsonic-resonance".into()),
        ("f".into(), "json".into()),
        ("apiKey".into(), "k".into()),
        ("id".into(), "7".into()),
    ];
    assert_eq!(all, expected);
}

#[test]
fn methods_resolve_below_the_base_path() {
    let client = password_client("https://music.example.test/base");
    let url = client.endpoint("stream", &[]).unwrap();
    assert_eq!(url.path(), "/base/rest/stream");
    let rooted = password_client("https://music.example.test/base/");
    assert_eq!(rooted.endpoint("ping", &[]).unwrap().path(), "/base/rest/ping");
    let bare = password_client("https://music.example.test");
    assert_eq!(bare.endpoint("ping", &[]).unwrap().path(), "/rest/ping");
}

#[test]
fn an_invalid_server_url_is_refused() {
    match SubsonicClient::new("not a url", Credentials::ApiKey("k".into())) {
        Err(ProviderError::InvalidResponse(message)) => {
            assert!(message.starts_with("invalid server URL: "));
            assert!(message.len() > "invalid server URL: ".len());
        }
        other => panic!("unexpected {other:?}"),
    }
}

#[test]
fn stream_and_cover_urls_name_the_item() {
    let client = SubsonicClient::new("https://music.example.test/", Credentials::ApiKey("k".into()))
        .unwrap();
    let stream = Url::parse(&client.stream_url("track/1").unwrap()).unwrap();
    assert_eq!(stream.path(), "/rest/stream");
    assert_eq!(pairs(&stream).get("id").map(String::as_str), Some("track/1"));
    let cover = Url::parse(&client.cover_art_url("al-3", Some(300)).unwrap()).unwrap();
    assert_eq!(cover.path(), "/rest/getCoverArt");
    assert_eq!(pairs(&cover).get("id").map(String::as_str), Some("al-3"));
    assert_eq!(pairs(&cover).get("size").map(String::as_str), Some("300"));
    let plain = Url::parse(&client.cover_art_url("al-3", None).unwrap()).unwrap();
    assert!(!pairs(&plain).contains_key("size"));
}

#[test]
fn album_pages_ask_for_the_newest_albums() {
    let arguments = album_list_arguments(30, 60);
    let expected: Vec<(&str, String)> = vec![
        ("type", "newest".into()),
        ("size", "30".into()),
        ("offset", "60".into()),
    ];
    assert_eq!(arguments, expected);
}

#[test]
fn searches_ask_for_songs_only_and_at_most_five_hundred() {
    let arguments = search_arguments("blue train", 50);
    let expected: Vec<(&str, String)> = vec![
        ("query", "blue train".into()),
        ("songCount", "50".into()),
        ("albumCount", "0".into()),
        ("artistCount", "0".into()),
    ];
    assert_eq!(arguments, expected);
    assert_eq!(search_arguments("x", 900)[1], ("songCount", "500".to_string()));
    assert_eq!(item_arguments("a/1"), vec![("id", "a/1".to_string())]);
}

#[test]
fn a_missing_result_falls_back_to_the_older_method() {
    let missing = ProviderError::InvalidResponse(
        "getAlbum response schema was invalid: missing field `album`".into(),
    );
    assert_eq!(fall_back(missing, "getMusicDirectory"), Ok("getMusicDirectory"));
    let absent = ProviderError::InvalidResponse("getAlbum response did not contain its result".into());
    assert_eq!(fall_back(absent, "getMusicDirectory"), Ok("getMusicDirectory"));
    assert_eq!(
        fall_back(ProviderError::Unauthorized, "getMusicDirectory"),
        Err(ProviderError::Unauthorized)
    );
    let other = ProviderError::InvalidResponse("bad JSON".into());
    assert_eq!(fall_back(other.clone(), "getAlbumList"), Err(other));
}

#[test]
fn endpoints_keep_the_servers_scheme_host_and_port() {
    let client = SubsonicClient::new(
        "http://listener@music.example.test:4533/base",
        Credentials::ApiKey("k".into()),
    )
    .unwrap();
    let url = client.endpoint("getAlbum", &[]).unwrap();
    assert_eq!(&url[..Position::BeforePath], "http://listener@music.example.test:4533");
    let stream = client.stream_url("t1").unwrap();
    assert!(stream.starts_with("http://listener@music.example.test:4533/base/rest/stream?"));
}

#[test]
fn an_opaque_server_address_yields_no_endpoint() {
    let client = SubsonicClient::new("mailto:music@example.test", Credentials::ApiKey("k".into()))
        .unwrap();
    assert!(matches!(client.endpoint("ping", &[]), Err(ProviderError::InvalidResponse(_))));
    assert!(matches!(client.stream_url("t1"), Err(ProviderError::InvalidResponse(_))));
}
