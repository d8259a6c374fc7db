//! The relation codec: round trips, tolerance for historical forms, and
//! the decoded-set operations.

use tu_coche_dana_bot::codec::{
    append_token, decode_ids, decode_tokens, encode_ids, encode_tokens, ids_contain, remove_id,
    remove_token, tokens_contain,
};
use tu_coche_dana_bot::digits::{i64_to_string, parse_i64, u64_to_string};

#[test]
fn codec_round_trip_ids() {
    let ids = vec![1i64, 2, 3];
    let text = encode_ids(&ids);
    assert_eq!(text, "1,2,3,");
    assert_eq!(decode_ids(&Some(text)), ids);
}

#[test]
fn codec_round_trip_tokens() {
    let tokens = vec!["ABC123".to_string(), "DEF456".to_string()];
    let text = encode_tokens(&tokens);
    assert_eq!(text, "ABC123,DEF456,");
    assert_eq!(decode_tokens(&Some(text)), tokens);
}

#[test]
fn codec_empty_set_canonical() {
    let none: Vec<i64> = vec![];
    assert_eq!(encode_ids(&none), "");
    assert_eq!(decode_ids(&Some(String::new())), none);
    assert_eq!(decode_ids(&None), none);
    assert!(decode_tokens(&None).is_empty());
}

#[test]
fn codec_accepts_bare_and_trailing_forms() {
    let trailing = decode_ids(&Some("1,2,".to_string()));
    let bare = decode_ids(&Some("1,2".to_string()));
    assert_eq!(trailing, vec![1, 2]);
    assert_eq!(bare, vec![1, 2]);
}

#[test]
fn codec_trims_and_drops_bad_tokens() {
    let text = Some(" 1 ,junk, 2 ,,".to_string());
    assert_eq!(decode_ids(&text), vec![1, 2]);
    assert_eq!(
        decode_tokens(&text),
        vec!["1".to_string(), "junk".to_string(), "2".to_string()]
    );
}

#[test]
fn membership_is_on_the_decoded_set_not_on_substrings() {
    let text = Some("CAB12,".to_string());
    assert!(!tokens_contain(&text, "AB1"));
    assert!(tokens_contain(&text, "CAB12"));
    let ids = Some("123,".to_string());
    assert!(!ids_contain(&ids, 12));
    assert!(ids_contain(&ids, 123));
}

#[test]
fn append_token_keeps_existing_members() {
    let text = append_token(&Some("1,2".to_string()), "3");
    assert_eq!(decode_ids(&Some(text.clone())), vec![1, 2, 3]);
    let first = append_token(&None, "7");
    assert_eq!(first, "7,");
}

#[test]
fn remove_id_removes_every_matching_entry() {
    let (n, rest) = remove_id(&Some("1,2,1,".to_string()), 1);
    assert_eq!(n, 2);
    assert_eq!(rest, "2,");
    let (none, same) = remove_id(&Some("2,".to_string()), 1);
    assert_eq!(none, 0);
    assert_eq!(same, "2,");
}

#[test]
fn remove_token_removes_exact_plates_only() {
    let (n, rest) = remove_token(&Some("ABC123,DEF456,".to_string()), "ABC123");
    assert_eq!(n, 1);
    assert_eq!(rest, "DEF456,");
    let (zero, kept) = remove_token(&Some("CAB12,".to_string()), "AB1");
    assert_eq!(zero, 0);
    assert_eq!(kept, "CAB12,");
}

#[test]
fn integer_rendering_and_parsing() {
    assert_eq!(u64_to_string(0), "0");
    assert_eq!(u64_to_string(907), "907");
    assert_eq!(i64_to_string(-42), "-42");
    assert_eq!(parse_i64("42"), Some(42));
    assert_eq!(parse_i64("+42"), Some(42));
    assert_eq!(parse_i64("-9223372036854775808"), Some(i64::MIN));
    assert_eq!(parse_i64("9223372036854775807"), Some(i64::MAX));
    assert_eq!(parse_i64("9223372036854775808"), None);
    assert_eq!(parse_i64(""), None);
    assert_eq!(parse_i64("12a"), None);
    assert_eq!(parse_i64(i64::MIN.to_string().as_str()), Some(i64::MIN));
}
