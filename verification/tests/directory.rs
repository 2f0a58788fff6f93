use shortlinks::directory::{
    create, delete, get, link_keys, list, list_by_keys, reserved, with_code,
};
use shortlinks::link::{code_from_draws, rand_string, Link};
use shortlinks::store::{DirectoryError, StoreReply};
use shortlinks::text::{bytes_le, same_text};

fn link(name: &str, code: &str, url: &str) -> Link {
    Link { name: name.to_string(), short_url: code.to_string(), url: url.to_string() }
}

fn names(links: &[Link]) -> Vec<&str> {
    links.iter().map(|l| l.name.as_str()).collect()
}

#[test]
fn rand_string_is_eight_alphanumerics() {
    for _ in 0..200 {
        let code = rand_string();
        assert_eq!(code.len(), 8);
        assert_eq!(code.chars().count(), 8);
        assert!(code.chars().all(|c| c.is_ascii_alphanumeric()), "{code}");
    }
}

#[test]
fn code_from_draws_spells_the_draws_in_order() {
    assert_eq!(code_from_draws(*b"aB3dE6gH"), "aB3dE6gH");
    assert_eq!(code_from_draws(*b"AAAAAAAA"), "AAAAAAAA");
    assert_eq!(code_from_draws(*b"01234567"), "01234567");
    assert_eq!(code_from_draws(*b"zZ9yY8xX"), "zZ9yY8xX");
}

#[test]
fn with_code_fills_only_an_empty_code() {
    assert_eq!(
        with_code(link("n", "", "u"), "Fresh123".to_string()),
        link("n", "Fresh123", "u")
    );
    assert_eq!(with_code(link("n", "own", "u"), "Fresh123".to_string()), link("n", "own", "u"));
}

#[test]
fn list_by_keys_orders_by_the_keys_given() {
    let listing = list_by_keys(vec![
        (b"beta".to_vec(), link("beta", "b", "u")),
        (b"alpha".to_vec(), link("Alpha", "a", "u")),
        (b"gamma".to_vec(), link("gamma", "g", "u")),
    ]);
    assert_eq!(names(&listing), ["Alpha", "beta", "gamma"]);
    // The keys decide, not the names.
    let listing = list_by_keys(vec![
        (vec![3], link("a", "1", "u")),
        (vec![1], link("b", "2", "u")),
        (vec![2], link("c", "3", "u")),
        (vec![1], link("d", "4", "u")),
        (vec![], link("e", "5", "u")),
    ]);
    assert_eq!(names(&listing), ["e", "b", "d", "c", "a"]);
    assert_eq!(list_by_keys(Vec::new()), Vec::<Link>::new());
}

#[test]
fn rand_string_varies() {
    let first = rand_string();
    assert!((0..50).any(|_| rand_string() != first));
}

#[test]
fn create_keeps_an_explicit_short_code() {
    let input = link("Example", "ex", "https://example.com");
    assert_eq!(create(Some(input.clone())), Ok(input));
}

#[test]
fn create_fills_an_empty_short_code() {
    let stored = create(Some(link("Example", "", "https://example.com"))).unwrap();
    assert_eq!(stored.name, "Example");
    assert_eq!(stored.url, "https://example.com");
    assert_eq!(stored.short_url.len(), 8);
    assert!(stored.short_url.chars().all(|c| c.is_ascii_alphanumeric()));
}

#[test]
fn create_does_not_touch_name_or_url() {
    let stored = create(Some(link("", "", ""))).unwrap();
    assert_eq!(stored.name, "");
    assert_eq!(stored.url, "");
    assert_eq!(stored.short_url.len(), 8);
    let odd = link("ünïcode name", "cöde", "not a url at all");
    assert_eq!(create(Some(odd.clone())), Ok(odd));
}

#[test]
fn create_refuses_an_undecodable_input() {
    assert_eq!(create(None), Err(DirectoryError::SerializationError));
}

#[test]
fn get_reads_each_reply() {
    let record = link("Example", "ex", "https://example.com");
    assert_eq!(get(StoreReply::Record(record.clone())), Ok(record));
    assert_eq!(get(StoreReply::NoSuchKey), Err(DirectoryError::NotFound));
    assert_eq!(get(StoreReply::Undecodable), Err(DirectoryError::SerializationError));
    assert_eq!(get(StoreReply::Failed), Err(DirectoryError::StoreUnavailable));
    assert_eq!(get(StoreReply::Done), Err(DirectoryError::StoreUnavailable));
    assert_eq!(get(StoreReply::Text(b"{}".to_vec())), Err(DirectoryError::StoreUnavailable));
    assert_eq!(get(StoreReply::Keys(Vec::new())), Err(DirectoryError::StoreUnavailable));
}

#[test]
fn delete_passes_on_what_the_store_reports() {
    assert_eq!(delete(StoreReply::Done), Ok(()));
    assert_eq!(delete(StoreReply::NoSuchKey), Err(DirectoryError::NotFound));
    assert_eq!(delete(StoreReply::Failed), Err(DirectoryError::StoreUnavailable));
    assert_eq!(delete(StoreReply::Undecodable), Err(DirectoryError::StoreUnavailable));
}

#[test]
fn reserved_keys_are_the_two_credential_keys() {
    assert!(reserved("credentials"));
    assert!(reserved("kv-credentials"));
    assert!(!reserved("Credentials"));
    assert!(!reserved("credentials "));
    assert!(!reserved("credential"));
    assert!(!reserved("kv_credentials"));
    assert!(!reserved(""));
}

#[test]
fn link_keys_drops_reserved_keys_and_keeps_order() {
    let keys: Vec<String> = ["b", "credentials", "a", "kv-credentials", "c", "credentials"]
        .iter()
        .map(|k| k.to_string())
        .collect();
    assert_eq!(link_keys(&keys), vec!["b".to_string(), "a".to_string(), "c".to_string()]);
    assert_eq!(link_keys(&Vec::new()), Vec::<String>::new());
    let only: Vec<String> = vec!["credentials".to_string(), "kv-credentials".to_string()];
    assert_eq!(link_keys(&only), Vec::<String>::new());
}

#[test]
fn link_keys_never_yields_a_reserved_key() {
    let mut keys: Vec<String> = (0..100).map(|i| format!("code{i}")).collect();
    keys.insert(17, "credentials".to_string());
    keys.insert(63, "kv-credentials".to_string());
    let kept = link_keys(&keys);
    assert_eq!(kept.len(), 100);
    assert!(kept.iter().all(|k| k != "credentials" && k != "kv-credentials"));
}

#[test]
fn list_orders_by_name_without_regard_to_case() {
    let listing = list(vec![
        link("beta", "b", "https://b.example"),
        link("Alpha", "a", "https://a.example"),
        link("gamma", "g", "https://g.example"),
    ]);
    assert_eq!(names(&listing), ["Alpha", "beta", "gamma"]);
    assert_eq!(listing[0], link("Alpha", "a", "https://a.example"));
}

#[test]
fn list_puts_lower_case_before_upper_case_when_the_alphabet_says_so() {
    // In plain byte order "Beta" would come before "alpha".
    let listing = list(vec![link("Beta", "1", "u1"), link("alpha", "2", "u2")]);
    assert_eq!(names(&listing), ["alpha", "Beta"]);
    let listing = list(vec![link("alpha", "2", "u2"), link("Beta", "1", "u1")]);
    assert_eq!(names(&listing), ["alpha", "Beta"]);
}

#[test]
fn list_lowers_letters_beyond_ascii() {
    // Lower-cased: "éb" against "éa". Left as they are, "ÉB" would come first.
    let listing = list(vec![link("ÉB", "1", "u1"), link("éa", "2", "u2")]);
    assert_eq!(names(&listing), ["éa", "ÉB"]);
}

#[test]
fn list_puts_a_prefix_first() {
    let listing = list(vec![link("abc", "1", "u"), link("AB", "2", "u"), link("", "3", "u")]);
    assert_eq!(names(&listing), ["", "AB", "abc"]);
}

#[test]
fn list_keeps_every_record() {
    let given = vec![
        link("same", "1", "u1"),
        link("Same", "2", "u2"),
        link("same", "1", "u1"),
        link("other", "3", "u3"),
    ];
    let listing = list(given.clone());
    assert_eq!(listing.len(), 4);
    assert_eq!(listing[0], link("other", "3", "u3"));
    for record in &given {
        let wanted = given.iter().filter(|g| *g == record).count();
        assert_eq!(listing.iter().filter(|l| *l == record).count(), wanted);
    }
    assert_eq!(list(Vec::new()), Vec::<Link>::new());
}

#[test]
fn list_keeps_the_given_order_among_equal_names() {
    let listing = list(vec![
        link("same", "1", "u"),
        link("Zed", "9", "u"),
        link("SAME", "2", "u"),
        link("Same", "3", "u"),
        link("abc", "0", "u"),
        link("same", "4", "u"),
    ]);
    let codes: Vec<&str> = listing.iter().map(|l| l.short_url.as_str()).collect();
    assert_eq!(codes, ["0", "1", "2", "3", "4", "9"]);
}

#[test]
fn list_sorts_many_records() {
    let mut given = Vec::new();
    for i in 0..60u32 {
        let n = (i * 37) % 60;
        let name = if n % 2 == 0 { format!("Name{n:02}") } else { format!("name{n:02}") };
        given.push(link(&name, &format!("c{n}"), "u"));
    }
    let listing = list(given);
    let lowered: Vec<String> = listing.iter().map(|l| l.name.to_lowercase()).collect();
    let expected: Vec<String> = (0..60).map(|n| format!("name{n:02}")).collect();
    assert_eq!(lowered, expected);
}

#[test]
fn same_text_compares_character_for_character() {
    assert!(same_text("", ""));
    assert!(same_text("credentials", "credentials"));
    assert!(!same_text("credentials", "credentialS"));
    assert!(!same_text("a", "ab"));
    assert!(!same_text("ab", "a"));
    assert!(same_text("é", "é"));
    assert!(!same_text("é", "e"));
}

#[test]
fn bytes_le_is_the_order_of_byte_strings() {
    assert!(bytes_le(b"", b""));
    assert!(bytes_le(b"", b"a"));
    assert!(!bytes_le(b"a", b""));
    assert!(bytes_le(b"a", b"a"));
    assert!(bytes_le(b"a", b"ab"));
    assert!(!bytes_le(b"ab", b"a"));
    assert!(bytes_le(b"ab", b"b"));
    assert!(!bytes_le(b"b", b"ab"));
    assert!(bytes_le(b"Z", b"a"));
    assert!(bytes_le(&[0x7f], &[0x80]));
    assert!(!bytes_le(&[0xff], &[0x00, 0xff]));
}
