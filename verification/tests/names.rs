use mojimix::filename::{candidate_file_name, sanitize_filename};
use mojimix::prompt::build_prompt;

#[test]
fn sanitize_lowercases_and_joins_with_underscores() {
    assert_eq!(sanitize_filename("Happy Cat-Face"), "happy_cat_face");
}

#[test]
fn sanitize_drops_other_characters_and_outer_underscores() {
    assert_eq!(sanitize_filename("  __fire!!_ball?_ "), "fire_ball");
    assert_eq!(sanitize_filename("caf\u{e9}.png"), "cafpng");
    assert_eq!(sanitize_filename("___"), "");
    assert_eq!(sanitize_filename(""), "");
}

#[test]
fn candidates_count_from_two() {
    assert_eq!(candidate_file_name("cat", 0), "cat.png");
    assert_eq!(candidate_file_name("cat", 1), "cat_2.png");
    assert_eq!(candidate_file_name("cat", 11), "cat_12.png");
}

#[test]
fn prompt_without_modifier() {
    let emojis = vec!["\u{1f600}".to_string(), "\u{1f525}".to_string()];
    let prompt = build_prompt(&emojis, None);
    assert!(prompt.starts_with("Create a single emoji combining: \u{1f600} \u{1f525}. CRITICAL: Keep it SIMPLE"));
    assert!(prompt.ends_with("Solid bright green (#00FF00) background, no variations."));
    assert_eq!(build_prompt(&emojis, Some("  \t ")), prompt);
}

#[test]
fn prompt_with_modifier_is_trimmed() {
    let emojis = vec!["a".to_string()];
    let prompt = build_prompt(&emojis, Some("  wearing a hat \n"));
    assert!(prompt.ends_with("no variations. Additional modification: wearing a hat"));
}
