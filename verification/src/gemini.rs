//! What is decided around the calls to the generative model: which model
//! and endpoint to ask, and what to take from the answer.

use vstd::prelude::*;
use vstd::string::*;
use crate::prompt::{clean_modifier, effective_modifier};
use crate::text::{has_prefix, join, joined, trim, trimmed};
use crate::transport::{base64_bytes, decode_error_text, decode_standard};

verus! {

/// Where the models live.
pub const API_BASE: &'static str = "https://generativelanguage.googleapis.com/v1beta/models";

/// The image model of higher quality.
pub const MODEL_PRO: &'static str = "gemini-3-pro-image-preview";

/// The image model that is faster and cheaper.
pub const MODEL_FAST: &'static str = "gemini-2.5-flash-image";

/// The text model that suggests file names.
pub const MODEL_TEXT: &'static str = "gemini-2.0-flash";

/// What follows the model's name in an endpoint.
pub const GENERATE_ACTION: &'static str = ":generateContent";

/// The media types of images begin with this.
pub const IMAGE_MIME_PREFIX: &'static str = "image/";

/// What an answer without an image is reported as.
pub const NO_IMAGE: &'static str = "No image found in response";

/// What an answer without text is reported as.
pub const NO_TEXT: &'static str = "No text in response";

/// What introduces the decoder's message when an image's payload is no
/// base64.
pub const BAD_PAYLOAD: &'static str = "Failed to decode base64: ";

/// The endpoint of a model.
pub open spec fn endpoint_text(model: Seq<char>) -> Seq<char> {
    API_BASE@ + "/"@ + model + GENERATE_ACTION@
}

/// The image model to ask.
pub fn image_model(use_fast_model: bool) -> (model: &'static str)
    ensures
        model@ == if use_fast_model {
            MODEL_FAST@
        } else {
            MODEL_PRO@
        },
{
    if use_fast_model {
        MODEL_FAST
    } else {
        MODEL_PRO
    }
}

/// The endpoint of a model.
pub fn endpoint(model: &str) -> (url: String)
    ensures
        url@ == endpoint_text(model@),
{
    let mut url: String = String::from_str(API_BASE);
    url.append("/");
    url.append(model);
    url.append(GENERATE_ACTION);
    url
}

/// Data that a part of an answer carries inline: a media type and a base64
/// payload.
#[derive(Clone, Debug)]
pub struct InlineData {
    pub mime_type: String,
    pub data: String,
}

/// The parts of all candidates, in the order of the answer.
pub open spec fn all_parts(candidates: Seq<Vec<Option<InlineData>>>) -> Seq<Option<InlineData>>
    decreases candidates.len(),
{
    if candidates.len() == 0 {
        Seq::empty()
    } else {
        all_parts(candidates.drop_last()) + candidates.last()@
    }
}

/// The part carries an image.
pub open spec fn is_image_part(part: Option<InlineData>) -> bool {
    part matches Some(data) && IMAGE_MIME_PREFIX@.is_prefix_of(data.mime_type@)
}

/// The payload of the first part that carries an image.
pub open spec fn first_image(parts: Seq<Option<InlineData>>) -> Option<Seq<char>>
    decreases parts.len(),
{
    if parts.len() == 0 {
        None
    } else if is_image_part(parts.first()) {
        Some(parts.first()->Some_0.data@)
    } else {
        first_image(parts.drop_first())
    }
}

proof fn lemma_first_image_split(a: Seq<Option<InlineData>>, b: Seq<Option<InlineData>>)
    ensures
        first_image(a + b) == if first_image(a) is Some {
            first_image(a)
        } else {
            first_image(b)
        },
    decreases a.len(),
{
    if a.len() == 0 {
        assert(a + b =~= b);
    } else {
        assert((a + b).first() == a.first());
        assert((a + b).drop_first() =~= a.drop_first() + b);
        lemma_first_image_split(a.drop_first(), b);
    }
}

/// Takes the image out of an answer: the first part, candidate by candidate,
/// that carries inline data of an image type decides. Its payload is decoded;
/// a payload that is no base64 is an error, and so is an answer without an
/// image.
pub fn extract_image(candidates: &Vec<Vec<Option<InlineData>>>) -> (r: Result<Vec<u8>, String>)
    ensures
        match first_image(all_parts(candidates@)) {
            None => r matches Err(e) && e@ == NO_IMAGE@,
            Some(payload) => match base64_bytes(payload) {
                Some(bytes) => r matches Ok(got) && got@ == bytes,
                None => r matches Err(e) && BAD_PAYLOAD@.is_prefix_of(e@),
            },
        },
{
    let mut i: usize = 0;
    while i < candidates.len()
        invariant
            i <= candidates.len(),
            first_image(all_parts(candidates@.take(i as int))) is None,
        decreases candidates.len() - i,
    {
        let parts: &Vec<Option<InlineData>> = &candidates[i];
        let ghost before: Seq<Option<InlineData>> = all_parts(candidates@.take(i as int));
        proof {
            assert(candidates@.take(i + 1).drop_last() =~= candidates@.take(i as int));
            assert(candidates@.take(i + 1).last() == candidates@[i as int]);
        }
        let mut j: usize = 0;
        while j < parts.len()
            invariant
                j <= parts.len(),
                i < candidates.len(),
                parts == &candidates@[i as int],
                before == all_parts(candidates@.take(i as int)),
                first_image(before) is None,
                first_image(parts@.take(j as int)) is None,
                all_parts(candidates@.take(i + 1)) == before + parts@,
            decreases parts.len() - j,
        {
            proof {
                lemma_first_image_split(parts@.take(j as int), parts@.skip(j as int));
                assert(parts@.take(j as int) + parts@.skip(j as int) =~= parts@);
                assert(parts@.skip(j as int).first() == parts@[j as int]);
                lemma_first_image_split(parts@.take(j as int), seq![parts@[j as int]]);
                assert(parts@.take(j as int) + seq![parts@[j as int]] =~= parts@.take(j + 1));
                assert(seq![parts@[j as int]].drop_first() =~= Seq::<Option<InlineData>>::empty());
                assert(first_image(Seq::<Option<InlineData>>::empty()) is None);
                assert(seq![parts@[j as int]].first() == parts@[j as int]);
            }
            match &parts[j] {
                Some(data) => {
                    if has_prefix(data.mime_type.as_str(), IMAGE_MIME_PREFIX) {
                        proof {
                            lemma_first_image_split(before, parts@);
                            lemma_first_image_split(
                                all_parts(candidates@.take(i + 1)),
                                all_parts_from(candidates@, i + 1),
                            );
                            lemma_all_parts_split(candidates@, i + 1);
                        }
                        return match decode_standard(data.data.as_str()) {
                            Ok(bytes) => Ok(bytes),
                            Err(e) => {
                                let mut message: String = String::from_str(BAD_PAYLOAD);
                                message.append(decode_error_text(&e).as_str());
                                assert(message@.subrange(0, BAD_PAYLOAD@.len() as int)
                                    =~= BAD_PAYLOAD@);
                                Err(message)
                            },
                        };
                    }
                },
                None => {},
            }
            j += 1;
        }
        proof {
            assert(parts@.take(parts@.len() as int) =~= parts@);
            lemma_first_image_split(before, parts@);
        }
        i += 1;
    }
    proof {
        assert(candidates@.take(candidates@.len() as int) =~= candidates@);
    }
    Err(String::from_str(NO_IMAGE))
}

/// The parts of the candidates from number `from` on.
spec fn all_parts_from(candidates: Seq<Vec<Option<InlineData>>>, from: int) -> Seq<
    Option<InlineData>,
> {
    all_parts(candidates.skip(from))
}

proof fn lemma_all_parts_split(candidates: Seq<Vec<Option<InlineData>>>, at: int)
    requires
        0 <= at <= candidates.len(),
    ensures
        all_parts(candidates) == all_parts(candidates.take(at)) + all_parts_from(candidates, at),
    decreases candidates.len(),
{
    if at == candidates.len() {
        assert(candidates.take(at) =~= candidates);
        assert(candidates.skip(at) =~= Seq::<Vec<Option<InlineData>>>::empty());
        assert(all_parts(candidates) + Seq::<Option<InlineData>>::empty() =~= all_parts(
            candidates,
        ));
    } else {
        let front: Seq<Vec<Option<InlineData>>> = candidates.drop_last();
        lemma_all_parts_split(front, at);
        assert(front.take(at) =~= candidates.take(at));
        assert(candidates.skip(at).drop_last() =~= front.skip(at));
        assert(candidates.skip(at).last() == candidates.last());
        assert(all_parts(front.take(at)) + all_parts(front.skip(at)) + candidates.last()@
            =~= all_parts(candidates.take(at)) + (all_parts(front.skip(at)) + candidates.last()@));
    }
}

/// What the file-name prompt says before it names the emojis.
pub const NAME_PROMPT_OPENING: &'static str = "Generate a short filename (2-4 words, snake_case, no extension) for an emoji that combines: ";

/// What introduces the modifier in the file-name prompt.
pub const NAME_PROMPT_STYLE: &'static str = " with style: ";

/// How the file-name prompt ends.
pub const NAME_PROMPT_CLOSING: &'static str = ". Reply with ONLY the filename, nothing else.";

/// What a refused request is reported as, before the status.
pub const API_ERROR: &'static str = "API error";

/// The prompt that asks for a file name for the emojis and the modifier.
pub open spec fn filename_prompt_text(emojis: Seq<String>, modifier: Option<&str>) -> Seq<char> {
    let subject: Seq<char> = NAME_PROMPT_OPENING@ + joined(emojis, " "@);
    match effective_modifier(modifier) {
        Some(m) => subject + NAME_PROMPT_STYLE@ + m + NAME_PROMPT_CLOSING@,
        None => subject + NAME_PROMPT_CLOSING@,
    }
}

/// Builds the prompt that asks for a file name: the emojis joined by spaces,
/// and the modifier as the style if it is not blank.
pub fn filename_prompt(emojis: &[String], modifier: Option<&str>) -> (prompt: String)
    ensures
        prompt@ == filename_prompt_text(emojis@, modifier),
{
    let mut prompt: String = String::from_str(NAME_PROMPT_OPENING);
    prompt.append(join(emojis, " ").as_str());
    match clean_modifier(modifier) {
        Some(m) => {
            prompt.append(NAME_PROMPT_STYLE);
            prompt.append(m.as_str());
        },
        None => {},
    }
    prompt.append(NAME_PROMPT_CLOSING);
    prompt
}

/// Takes the suggested name out of an answer: the first part of the first
/// candidate, trimmed. An answer without a candidate, or whose first
/// candidate has no part, is an error.
pub fn first_text(candidates: &Vec<Vec<String>>) -> (r: Result<String, String>)
    ensures
        match r {
            Ok(text) => candidates@.len() > 0 && candidates@[0]@.len() > 0 && text@ == trimmed(
                candidates@[0]@[0]@,
            ),
            Err(e) => (candidates@.len() == 0 || candidates@[0]@.len() == 0) && e@ == NO_TEXT@,
        },
{
    if candidates.len() > 0 && candidates[0].len() > 0 {
        Ok(trim(candidates[0][0].as_str()))
    } else {
        Err(String::from_str(NO_TEXT))
    }
}

/// What a request that the service refused is reported as: the status and
/// the body of the answer.
pub fn api_error_message(status: &str, body: &str) -> (message: String)
    ensures
        message@ == API_ERROR@ + " "@ + status@ + ": "@ + body@,
{
    let mut message: String = String::from_str(API_ERROR);
    message.append(" ");
    message.append(status);
    message.append(": ");
    message.append(body);
    message
}

} // verus!
