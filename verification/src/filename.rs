//! File names for saved emojis.

use vstd::prelude::*;
use vstd::string::*;
use crate::text::{chars_of, decimal, decimal_string, lemma_strip, string_of_range, strip};

verus! {

/// An ASCII letter or digit.
pub open spec fn is_ascii_alphanumeric(c: char) -> bool {
    ||| '0' <= c <= '9'
    ||| 'a' <= c <= 'z'
    ||| 'A' <= c <= 'Z'
}

/// The lower-case form of an ASCII capital; any other character itself.
pub open spec fn ascii_lowercase(c: char) -> char {
    if 'A' <= c <= 'Z' {
        ((c as u32) + 32) as char
    } else {
        c
    }
}

/// `char::is_ascii_alphanumeric`: holds of the ASCII letters and digits.
pub assume_specification[ char::is_ascii_alphanumeric ](c: &char) -> (b: bool)
    ensures
        b == is_ascii_alphanumeric(*c),
;

/// `char::to_ascii_lowercase`: maps the ASCII capitals to the matching
/// small letters and every other character to itself.
pub assume_specification[ char::to_ascii_lowercase ](c: &char) -> (l: char)
    ensures
        l == ascii_lowercase(*c),
;

/// What a character of a name becomes in a file name: letters and digits in
/// lower case, the separators `_`, `-` and space as `_`, anything else
/// nothing.
pub open spec fn file_name_char(c: char) -> Option<char> {
    if is_ascii_alphanumeric(c) {
        Some(ascii_lowercase(c))
    } else if c == '_' || c == '-' || c == ' ' {
        Some('_')
    } else {
        None
    }
}

/// The characters of a name that a file name keeps, each in its file-name
/// form.
pub open spec fn file_name_chars(name: Seq<char>) -> Seq<char>
    decreases name.len(),
{
    if name.len() == 0 {
        Seq::empty()
    } else {
        let front: Seq<char> = file_name_chars(name.drop_last());
        match file_name_char(name.last()) {
            Some(c) => front.push(c),
            None => front,
        }
    }
}

/// The file name for a name: its file-name characters without leading and
/// trailing underscores.
pub open spec fn sanitized(name: Seq<char>) -> Seq<char> {
    strip(file_name_chars(name), |c: char| c == '_')
}

/// Turns a name into one that is safe as a file name: ASCII letters and
/// digits in lower case, runs of separators as underscores, no underscore
/// at either end.
pub fn sanitize_filename(name: &str) -> (r: String)
    ensures
        r@ == sanitized(name@),
{
    let chars: Vec<char> = chars_of(name);
    let mut kept: Vec<char> = Vec::new();
    let mut k: usize = 0;
    while k < chars.len()
        invariant
            k <= chars.len(),
            chars@ == name@,
            kept@ == file_name_chars(name@.take(k as int)),
        decreases chars.len() - k,
    {
        let c: char = chars[k];
        proof {
            let next: Seq<char> = name@.take(k + 1);
            assert(next.drop_last() =~= name@.take(k as int));
            assert(next.last() == c);
        }
        if c.is_ascii_alphanumeric() {
            kept.push(c.to_ascii_lowercase());
        } else if c == '_' || c == '-' || c == ' ' {
            kept.push('_');
        }
        k += 1;
    }
    proof {
        assert(name@.take(name@.len() as int) =~= name@);
    }
    let n: usize = kept.len();
    let mut i: usize = 0;
    while i < n && kept[i] == '_'
        invariant
            n == kept@.len(),
            i <= n,
            forall|m: int| 0 <= m < i ==> #[trigger] kept@[m] == '_',
        decreases n - i,
    {
        i += 1;
    }
    let mut j: usize = n;
    while j > i && kept[j - 1] == '_'
        invariant
            n == kept@.len(),
            i <= j <= n,
            forall|m: int| j <= m < n ==> #[trigger] kept@[m] == '_',
        decreases j,
    {
        j -= 1;
    }
    proof {
        lemma_strip(kept@, |c: char| c == '_', i as int, j as int);
    }
    string_of_range(&kept, i, j)
}

/// The name to fall back on when none was suggested.
pub const DEFAULT_NAME: &'static str = "emoji";

/// The base of the file name: the suggested name, or the default if the
/// suggestion failed; either one sanitized.
pub fn base_name(suggested: Result<String, String>) -> (base: String)
    ensures
        base@ == match suggested {
            Ok(name) => sanitized(name@),
            Err(_) => sanitized(DEFAULT_NAME@),
        },
{
    match suggested {
        Ok(name) => sanitize_filename(name.as_str()),
        Err(_) => sanitize_filename(DEFAULT_NAME),
    }
}

/// The `attempt`-th file name to try for a base name: the base itself, then
/// the base with `_2`, `_3` and so on.
pub open spec fn candidate_text(base: Seq<char>, attempt: nat) -> Seq<char> {
    if attempt == 0 {
        base + ".png"@
    } else {
        base + "_"@ + decimal(attempt + 1) + ".png"@
    }
}

/// Names the file to try next when the earlier candidates are taken.
pub fn candidate_file_name(base: &str, attempt: u32) -> (name: String)
    ensures
        name@ == candidate_text(base@, attempt as nat),
{
    let mut name: String = String::from_str(base);
    if attempt > 0 {
        name.append("_");
        name.append(decimal_string(attempt as u64 + 1).as_str());
    }
    name.append(".png");
    assert(name@ =~= candidate_text(base@, attempt as nat));
    name
}

/// No sanitized name starts or ends with an underscore, and none holds
/// anything but lower-case ASCII letters, digits and underscores.
pub proof fn lemma_sanitized_shape(name: Seq<char>)
    ensures
        sanitized(name).len() > 0 ==> sanitized(name).first() != '_' && sanitized(name).last()
            != '_',
        forall|k: int|
            0 <= k < sanitized(name).len() ==> {
                let c: char = #[trigger] sanitized(name)[k];
                ('a' <= c <= 'z') || ('0' <= c <= '9') || c == '_'
            },
{
    let kept: Seq<char> = file_name_chars(name);
    let drop = |c: char| c == '_';
    lemma_kept_shape(name);
    lemma_strip_bounds(kept, drop);
    let (i, j) = choose|i: int, j: int| is_strip_range(kept, drop, i, j);
    lemma_strip(kept, drop, i, j);
}

/// `(i, j)` delimits what stripping keeps of `s`.
pub open spec fn is_strip_range(s: Seq<char>, drop: spec_fn(char) -> bool, i: int, j: int) -> bool {
    &&& 0 <= i <= j <= s.len()
    &&& forall|k: int| 0 <= k < i ==> drop(#[trigger] s[k])
    &&& forall|k: int| j <= k < s.len() ==> drop(#[trigger] s[k])
    &&& (i == s.len() || !drop(s[i]))
    &&& (j == i || !drop(s[j - 1]))
}

proof fn lemma_strip_bounds(s: Seq<char>, drop: spec_fn(char) -> bool)
    ensures
        exists|i: int, j: int| is_strip_range(s, drop, i, j),
{
    let i: int = lemma_first_kept(s, drop, 0);
    let j: int = lemma_last_kept(s, drop, i, s.len() as int);
    assert(is_strip_range(s, drop, i, j));
}

proof fn lemma_first_kept(s: Seq<char>, drop: spec_fn(char) -> bool, from: int) -> (i: int)
    requires
        0 <= from <= s.len(),
        forall|k: int| 0 <= k < from ==> drop(#[trigger] s[k]),
    ensures
        from <= i <= s.len(),
        forall|k: int| 0 <= k < i ==> drop(#[trigger] s[k]),
        i == s.len() || !drop(s[i]),
    decreases s.len() - from,
{
    if from == s.len() || !drop(s[from]) {
        from
    } else {
        lemma_first_kept(s, drop, from + 1)
    }
}

proof fn lemma_last_kept(s: Seq<char>, drop: spec_fn(char) -> bool, i: int, to: int) -> (j: int)
    requires
        0 <= i <= to <= s.len(),
        forall|k: int| to <= k < s.len() ==> drop(#[trigger] s[k]),
    ensures
        i <= j <= to,
        forall|k: int| j <= k < s.len() ==> drop(#[trigger] s[k]),
        j == i || !drop(s[j - 1]),
    decreases to - i,
{
    if to == i || !drop(s[to - 1]) {
        to
    } else {
        lemma_last_kept(s, drop, i, to - 1)
    }
}

proof fn lemma_kept_shape(name: Seq<char>)
    ensures
        forall|k: int|
            0 <= k < file_name_chars(name).len() ==> {
                let c: char = #[trigger] file_name_chars(name)[k];
                ('a' <= c <= 'z') || ('0' <= c <= '9') || c == '_'
            },
    decreases name.len(),
{
    if name.len() > 0 {
        lemma_kept_shape(name.drop_last());
        let front: Seq<char> = file_name_chars(name.drop_last());
        let c: char = name.last();
        lemma_file_name_char(c);
        assert forall|k: int| 0 <= k < file_name_chars(name).len() implies {
            let d: char = #[trigger] file_name_chars(name)[k];
            ('a' <= d <= 'z') || ('0' <= d <= '9') || d == '_'
        } by {
            if k < front.len() {
                assert(file_name_chars(name)[k] == front[k]);
            }
        }
    }
}

proof fn lemma_file_name_char(c: char)
    ensures
        file_name_char(c) matches Some(d) ==> ('a' <= d <= 'z') || ('0' <= d <= '9') || d == '_',
{
    if 'A' <= c <= 'Z' {
        let u: u32 = c as u32;
        assert(0x41 <= u <= 0x5a);
        assert(((u + 32) as u32) as char as u32 == u + 32);
    }
}

} // verus!
