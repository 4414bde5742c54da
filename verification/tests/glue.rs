use mojimix::credentials::{choose_key, key_from_environment, key_from_file, key_to_store};
use mojimix::filename::base_name;
use mojimix::gemini::{
    api_error_message, endpoint, extract_image, filename_prompt, first_text, image_model,
    InlineData,
};
use mojimix::prompt::clean_modifier;
use mojimix::text::{chars_of, decimal_string, has_prefix, join, string_of_range, trim};
use mojimix::transport::{decode_payload, encode_payload};

fn inline(mime_type: &str, data: &str) -> Option<InlineData> {
    Some(InlineData { mime_type: mime_type.to_string(), data: data.to_string() })
}

#[test]
fn payloads_are_standard_base64_with_padding() {
    assert_eq!(encode_payload(b"").as_deref(), Some(""));
    assert_eq!(encode_payload(b"M").as_deref(), Some("TQ=="));
    assert_eq!(encode_payload(b"Ma").as_deref(), Some("TWE="));
    assert_eq!(encode_payload(b"Man").as_deref(), Some("TWFu"));
    assert_eq!(encode_payload(&[0xfb, 0xff, 0xfe]).as_deref(), Some("+//+"));
}

#[test]
fn payloads_decode_or_say_why_not() {
    assert_eq!(decode_payload("TWFu"), Ok(b"Man".to_vec()));
    assert_eq!(decode_payload("TQ=="), Ok(b"M".to_vec()));
    assert_eq!(decode_payload(""), Ok(Vec::new()));
    for bad in ["TQ", "T*Fu", "-__-", "TWFu\n", "=TWF"] {
        let error = decode_payload(bad).unwrap_err();
        assert!(error.starts_with("Failed to decode image: "), "{bad}: {error}");
        assert!(error.len() > "Failed to decode image: ".len(), "{bad}");
    }
    assert!(decode_payload("T*Fu").unwrap_err().contains("Invalid"));
}

#[test]
fn the_flag_picks_the_model() {
    assert_eq!(image_model(false), "gemini-3-pro-image-preview");
    assert_eq!(image_model(true), "gemini-2.5-flash-image");
    assert_eq!(
        endpoint(image_model(true)),
        "https://generativelanguage.googleapis.com/v1beta/models/gemini-2.5-flash-image:generateContent"
    );
    assert_eq!(
        endpoint(mojimix::gemini::MODEL_TEXT),
        "https://generativelanguage.googleapis.com/v1beta/models/gemini-2.0-flash:generateContent"
    );
}

#[test]
fn the_first_image_part_is_taken() {
    let candidates = vec![
        vec![None, inline("text/plain", "TWFu")],
        vec![],
        vec![inline("image/png", "TQ=="), inline("image/jpeg", "TWFu")],
    ];
    assert_eq!(extract_image(&candidates), Ok(b"M".to_vec()));
    let later = vec![vec![inline("image", "TQ==")], vec![inline("image/", "TWFu")]];
    assert_eq!(extract_image(&later), Ok(b"Man".to_vec()));
}

#[test]
fn an_answer_without_an_image_is_an_error() {
    assert_eq!(extract_image(&vec![]), Err("No image found in response".to_string()));
    let none = vec![vec![None], vec![inline("audio/ogg", "TWFu"), inline("Image/png", "TWFu")]];
    assert_eq!(extract_image(&none), Err("No image found in response".to_string()));
}

#[test]
fn a_bad_payload_ends_the_search() {
    let candidates = vec![vec![inline("image/png", "!!"), inline("image/png", "TWFu")]];
    let error = extract_image(&candidates).unwrap_err();
    assert!(error.starts_with("Failed to decode base64: "));
    assert!(error.len() > "Failed to decode base64: ".len());
}

#[test]
fn the_name_prompt_names_emojis_and_style() {
    let emojis = vec!["cat".to_string(), "fire".to_string()];
    assert_eq!(
        filename_prompt(&emojis, None),
        "Generate a short filename (2-4 words, snake_case, no extension) for an emoji that combines: cat fire. Reply with ONLY the filename, nothing else."
    );
    assert_eq!(filename_prompt(&emojis, Some(" \n")), filename_prompt(&emojis, None));
    assert_eq!(
        filename_prompt(&emojis, Some(" pixel art ")),
        "Generate a short filename (2-4 words, snake_case, no extension) for an emoji that combines: cat fire with style: pixel art. Reply with ONLY the filename, nothing else."
    );
}

#[test]
fn the_suggested_name_is_the_first_text_trimmed() {
    let answer = vec![vec!["  fire_cat\n".to_string(), "other".to_string()], vec!["third".to_string()]];
    assert_eq!(first_text(&answer), Ok("fire_cat".to_string()));
    assert_eq!(first_text(&vec![]), Err("No text in response".to_string()));
    assert_eq!(first_text(&vec![vec![], vec!["late".to_string()]]), Err("No text in response".to_string()));
}

#[test]
fn refusals_are_reported_with_status_and_body() {
    assert_eq!(api_error_message("429 Too Many Requests", "slow down"), "API error 429 Too Many Requests: slow down");
    assert_eq!(api_error_message("500", ""), "API error 500: ");
}

#[test]
fn the_environment_key_is_taken_as_it_is() {
    assert_eq!(key_from_environment(Some(" abc ".to_string())), Some(" abc ".to_string()));
    assert_eq!(key_from_environment(Some(" \t".to_string())), None);
    assert_eq!(key_from_environment(Some(String::new())), None);
    assert_eq!(key_from_environment(None), None);
}

#[test]
fn the_file_key_is_trimmed() {
    assert_eq!(key_from_file(Some("abc\n".to_string())), Some("abc".to_string()));
    assert_eq!(key_from_file(Some("\n\n".to_string())), None);
    assert_eq!(key_from_file(None), None);
}

#[test]
fn the_environment_comes_before_the_file() {
    let (env, file) = (|s: &str| Some(s.to_string()), |s: &str| Some(s.to_string()));
    assert_eq!(choose_key(env(" e "), file("f\n")), Some(" e ".to_string()));
    assert_eq!(choose_key(env("  "), file(" f\n")), Some("f".to_string()));
    assert_eq!(choose_key(None, file("f")), Some("f".to_string()));
    assert_eq!(choose_key(env("e"), None), Some("e".to_string()));
    assert_eq!(choose_key(env(""), file(" \n")), None);
    assert_eq!(choose_key(None, None), None);
}

#[test]
fn a_blank_key_is_not_stored() {
    assert_eq!(key_to_store("  k-123 \n"), Ok("k-123".to_string()));
    assert_eq!(key_to_store(" \u{a0}\u{3000} "), Err("API key cannot be empty".to_string()));
    assert_eq!(key_to_store(""), Err("API key cannot be empty".to_string()));
}

#[test]
fn the_base_name_falls_back_to_the_default() {
    assert_eq!(base_name(Ok("Fire Cat".to_string())), "fire_cat");
    assert_eq!(base_name(Err("API error".to_string())), "emoji");
    assert_eq!(base_name(Ok("!!!".to_string())), "");
}

#[test]
fn modifiers_are_trimmed_or_dropped() {
    assert_eq!(clean_modifier(Some("  hat ")), Some("hat".to_string()));
    assert_eq!(clean_modifier(Some("   ")), None);
    assert_eq!(clean_modifier(None), None);
}

#[test]
fn trimming_follows_unicode_white_space() {
    assert_eq!(trim("\u{2003}\t a b \u{85}\r\n"), "a b");
    assert_eq!(trim("\u{200b}x\u{200b}"), "\u{200b}x\u{200b}");
    assert_eq!(trim(""), "");
    assert_eq!(trim(" \n "), "");
    assert_eq!(trim("x"), "x");
}

#[test]
fn white_space_is_what_std_takes_it_to_be() {
    let listed = |u: u32| {
        matches!(u, 0x9..=0xd | 0x20 | 0x85 | 0xa0 | 0x1680 | 0x2000..=0x200a | 0x2028 | 0x2029
            | 0x202f | 0x205f | 0x3000)
    };
    let mut count = 0;
    let low = 0..=0xffff_u32;
    let high = (0x1_0000..=0x10_ffff_u32).step_by(97);
    for u in low.chain(high) {
        if let Some(c) = char::from_u32(u) {
            let text = format!("a{c}");
            assert_eq!(trim(&text) == "a", listed(u), "U+{u:04X}");
            count += usize::from(listed(u));
        }
    }
    assert_eq!(count, 25);
}

#[test]
fn numbers_are_written_in_decimal() {
    assert_eq!(decimal_string(0), "0");
    assert_eq!(decimal_string(7), "7");
    assert_eq!(decimal_string(10), "10");
    assert_eq!(decimal_string(255), "255");
    assert_eq!(decimal_string(1_002_003), "1002003");
    assert_eq!(decimal_string(u64::MAX), "18446744073709551615");
}

#[test]
fn text_helpers_agree_with_std() {
    assert_eq!(join(&[], ", "), "");
    assert_eq!(join(&["a".to_string()], ", "), "a");
    assert_eq!(join(&["a".to_string(), String::new(), "c".to_string()], ", "), "a, , c");
    assert!(has_prefix("image/png", "image/"));
    assert!(has_prefix("image/", "image/"));
    assert!(has_prefix("anything", ""));
    assert!(!has_prefix("imag", "image/"));
    assert!(!has_prefix("Image/png", "image/"));
    let chars = chars_of("h\u{e9}llo");
    assert_eq!(chars, vec!['h', '\u{e9}', 'l', 'l', 'o']);
    assert_eq!(string_of_range(&chars, 0, 5), "h\u{e9}llo");
    assert_eq!(string_of_range(&chars, 1, 3), "\u{e9}l");
    assert_eq!(string_of_range(&chars, 2, 2), "");
}
