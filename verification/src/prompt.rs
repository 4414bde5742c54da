//! The instructions sent to the generative model.

use vstd::prelude::*;
use vstd::string::*;
use crate::text::{is_blank, join, joined, trim, trimmed};

verus! {

/// What the image prompt says before it names the emojis.
pub const PROMPT_OPENING: &'static str = "Create a single emoji combining: ";

/// The style rules that follow the emojis in the image prompt. They ask for
/// the solid green backdrop that the background sampler looks for.
pub const PROMPT_RULES: &'static str = ". CRITICAL: Keep it SIMPLE and MINIMAL like standard Unicode emojis. Copy the exact visual style of Google Noto Emoji - simple shapes, minimal details, clean lines. Do NOT add extra details, textures, or creative interpretations. The result should look like it belongs in the standard emoji keyboard. Soft 3D with subtle gradients, bright saturated colors. NO shadows, NO glow, NO complex textures. Solid bright green (#00FF00) background, no variations.";

/// What introduces the user's modifier in the image prompt.
pub const PROMPT_MODIFIER: &'static str = " Additional modification: ";

/// The modifier as it goes into a prompt: trimmed, and absent if blank.
pub open spec fn effective_modifier(modifier: Option<&str>) -> Option<Seq<char>> {
    match modifier {
        Some(m) => if is_blank(m@) {
            None
        } else {
            Some(trimmed(m@))
        },
        None => None,
    }
}

/// The image prompt for the emojis and the modifier.
pub open spec fn prompt_text(emojis: Seq<String>, modifier: Option<&str>) -> Seq<char> {
    let base: Seq<char> = PROMPT_OPENING@ + joined(emojis, " "@) + PROMPT_RULES@;
    match effective_modifier(modifier) {
        Some(m) => base + PROMPT_MODIFIER@ + m,
        None => base,
    }
}

/// Trims the modifier and drops it if nothing is left.
pub fn clean_modifier(modifier: Option<&str>) -> (r: Option<String>)
    ensures
        r is Some <==> effective_modifier(modifier) is Some,
        r matches Some(m) ==> effective_modifier(modifier) == Some(m@),
{
    match modifier {
        Some(m) => {
            let t: String = trim(m);
            if t.as_str().unicode_len() == 0 {
                None
            } else {
                Some(t)
            }
        },
        None => None,
    }
}

/// Builds the image prompt: the emojis joined by spaces between the opening
/// and the style rules, then the modifier if it is not blank.
pub fn build_prompt(emojis: &[String], modifier: Option<&str>) -> (prompt: String)
    ensures
        prompt@ == prompt_text(emojis@, modifier),
{
    let mut prompt: String = String::from_str(PROMPT_OPENING);
    prompt.append(join(emojis, " ").as_str());
    prompt.append(PROMPT_RULES);
    match clean_modifier(modifier) {
        Some(m) => {
            prompt.append(PROMPT_MODIFIER);
            prompt.append(m.as_str());
        },
        None => {},
    }
    prompt
}

} // verus!
