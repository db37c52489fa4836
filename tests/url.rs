use url_value::{ParseError, Url};

fn sorted_pairs(url: &Url) -> Vec<(String, String)> {
    let mut pairs = url.query_params().clone();
    pairs.sort();
    pairs
}

#[test]
fn test_new() -> Result<(), ParseError> {
    let url = Url::new("https://bandcampcom/orgoneus/");

    assert_eq!(
        url.err().map(|e| e.message()),
        Some("Wrong URL: https://bandcampcom/orgoneus/".to_owned())
    );

    let url = Url::new("https://bandcamp.com/orgoneus/")?;

    assert_eq!(url.origin(), "https://bandcamp.com");
    assert_eq!(url.path(), "orgoneus");

    Ok(())
}

#[test]
fn test_from_url() -> Result<(), ParseError> {
    let url = Url::new("https://bandcamp.com/orgoneus")?;

    let url = Url::from_url("/miracleworkerus/", &url)?;

    assert_eq!(url.origin(), "https://bandcamp.com");
    assert_eq!(url.path(), "miracleworkerus");

    Ok(())
}

#[test]
fn test_href() -> Result<(), ParseError> {
    let url = Url::new("https://bandcamp.com/krallice/")?;

    assert_eq!(url.href(), "https://bandcamp.com/krallice");

    Ok(())
}

#[test]
fn test_query_params() -> Result<(), ParseError> {
    let url = Url::new("https://bandcamp.com/gorguts?download");

    assert!(url.is_err());

    let url = Url::new("https://bandcamp.com/gorguts?download=true")?;

    assert_eq!(url.query_params().len(), 1);

    let url = Url::from_url("miracleworkerus?albums=5&from=2012", &url)?;

    assert_eq!(url.query_params().len(), 2);

    Ok(())
}

#[test]
fn plain_url_renders_back() {
    for text in ["https://bandcamp.com/krallice", "http://example.org/a-b_c", "https://bandcamp.com/"] {
        let url = Url::new(text).unwrap();
        assert_eq!(url.href(), text);
    }
}

#[test]
fn query_pairs_survive_a_round_trip() {
    let mut url = Url::new("https://bandcamp.com/gorguts").unwrap();
    url.add_query_param("albums", "5");
    url.add_query_param("from", "2012");
    url.add_query_param("empty", "");
    let again = Url::new(&url.href()).unwrap();
    assert_eq!(sorted_pairs(&again), sorted_pairs(&url));
    assert_eq!(again.origin(), "https://bandcamp.com");
    assert_eq!(again.path(), "gorguts");
}

#[test]
fn href_is_stable() {
    let url = Url::new("https://bandcamp.com/gorguts?a=1&b=2").unwrap();
    let first = url.href();
    let second = url.href();
    assert_eq!(first, second);
    assert_eq!(first, "https://bandcamp.com/gorguts?a=1&b=2");
}

#[test]
fn missing_dot_is_malformed_url() {
    assert_eq!(
        Url::new("https://bandcampcom/x/").err(),
        Some(ParseError::MalformedUrl("https://bandcampcom/x/".to_owned()))
    );
}

#[test]
fn token_without_equals_is_malformed_key_value() {
    let err = Url::new("https://bandcamp.com/gorguts?download").err().unwrap();
    assert_eq!(err, ParseError::MalformedKeyValue("download".to_owned()));
    assert_eq!(err.message(), "Wrong key-value pair: download");
}

#[test]
fn token_with_two_equals_is_rejected() {
    assert_eq!(
        Url::new("https://bandcamp.com/x?a=b=c").err(),
        Some(ParseError::MalformedKeyValue("a=b=c".to_owned()))
    );
}

#[test]
fn two_question_marks_are_rejected() {
    let text = "https://bandcamp.com/x?a=1?b=2";
    assert_eq!(Url::new(text).err(), Some(ParseError::MalformedUrl(text.to_owned())));
    let base = Url::new("https://bandcamp.com").unwrap();
    assert_eq!(
        Url::from_url("/y?a=1?b=2/", &base).err(),
        Some(ParseError::MalformedUrl("y?a=1?b=2".to_owned()))
    );
}

#[test]
fn empty_key_or_value_is_accepted() {
    let url = Url::new("https://bandcamp.com/x?k=&=v").unwrap();
    assert_eq!(
        sorted_pairs(&url),
        vec![("".to_owned(), "v".to_owned()), ("k".to_owned(), "".to_owned())]
    );
}

#[test]
fn relative_path_loses_one_slash_each_side() {
    let base = Url::new("https://bandcamp.com/orgoneus").unwrap();
    let url = Url::from_url("/miracleworkerus/", &base).unwrap();
    assert_eq!(url.origin(), "https://bandcamp.com");
    assert_eq!(url.path(), "miracleworkerus");
    let url = Url::from_url("//deep//", &base).unwrap();
    assert_eq!(url.path(), "/deep/");
    let url = Url::from_url("plain", &base).unwrap();
    assert_eq!(url.path(), "plain");
}

#[test]
fn relative_path_drops_base_query() {
    let base = Url::new("https://bandcamp.com/orgoneus?a=1").unwrap();
    let url = Url::from_url("other", &base).unwrap();
    assert!(url.query_params().is_empty());
    assert_eq!(url.href(), "https://bandcamp.com/other");
    let url = Url::from_url("other?b=2", &base).unwrap();
    assert_eq!(url.path(), "other");
    assert_eq!(url.href(), "https://bandcamp.com/other?b=2");
}

#[test]
fn duplicate_keys_keep_the_last_value() {
    let url = Url::new("https://bandcamp.com/x?a=1&a=2").unwrap();
    assert_eq!(url.query_params(), &vec![("a".to_owned(), "2".to_owned())]);
}

#[test]
fn empty_path_renders_with_trailing_slash() {
    let url = Url::new("https://bandcamp.com").unwrap();
    assert_eq!(url.path(), "");
    assert_eq!(url.href(), "https://bandcamp.com/");
}

#[test]
fn origin_without_path_drops_the_query() {
    let url = Url::new("https://bandcamp.com?x=1").unwrap();
    assert_eq!(url.origin(), "https://bandcamp.com");
    assert_eq!(url.path(), "");
    assert_eq!(url.href(), "https://bandcamp.com/?x=1");
}

#[test]
fn path_is_the_first_segment_without_query() {
    let url = Url::new("https://bandcamp.com/gorguts?download=true").unwrap();
    assert_eq!(url.path(), "gorguts");
    assert_eq!(url.origin(), "https://bandcamp.com");
    let url = Url::new("https://bandcamp.com/a/b").unwrap();
    assert_eq!(url.path(), "a");
}

#[test]
fn add_query_param_inserts_then_overwrites() {
    let mut url = Url::new("https://bandcamp.com/x").unwrap();
    url.add_query_param("format", "json");
    assert_eq!(url.href(), "https://bandcamp.com/x?format=json");
    url.add_query_param("page", "2");
    assert_eq!(url.href(), "https://bandcamp.com/x?format=json&page=2");
    url.add_query_param("format", "xml");
    assert_eq!(url.href(), "https://bandcamp.com/x?format=xml&page=2");
    assert_eq!(url.query_params().len(), 2);
    assert_eq!(url.origin(), "https://bandcamp.com");
    assert_eq!(url.path(), "x");
}

#[test]
fn malformed_url_message() {
    let err = ParseError::MalformedUrl("abc".to_owned());
    assert_eq!(err.message(), "Wrong URL: abc");
}

#[test]
fn split_keeps_empty_pieces() {
    assert_eq!(url_value::text::split("a?b?", '?'), vec!["a".to_owned(), "b".to_owned(), "".to_owned()]);
    assert_eq!(url_value::text::split("", '&'), vec!["".to_owned()]);
    assert_eq!(url_value::text::split("héllo", '&'), vec!["héllo".to_owned()]);
}
