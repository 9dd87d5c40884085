//! The computing half of the model-assisted parser: the prompt sent with the
//! transcript and the cleanup of the model's reply before it is read as JSON.

use vstd::prelude::*;
use vstd::string::StringExecFns;
use crate::text::{chars_of, string_from_chars, trim, trim_bounds};

verus! {

/// The instructions that precede the transcript in the request.
pub const PROMPT_HEAD: &'static str = "You are given a raw transcript of a conversation. Your task is to convert it into a structured JSON format.

Each line in the transcript follows this pattern: \"Speaker: message\"

Convert this into a JSON object with the following structure:
{
    \"interjections\": [
        {
            \"voice\": \"Speaker's name\",
            \"words\": \"The spoken text without the speaker name\"
        }
    ]
}

Important:
- Extract the speaker name (everything before the first colon) as the \"voice\"
- Extract the message (everything after the first colon and space) as the \"message\"
- Preserve the exact order of messages
- Return ONLY the JSON object, no additional text

Transcript:
";

/// The prompt for `transcript`: the instructions, then the transcript.
pub fn build_prompt(transcript: &str) -> (r: String)
    ensures
        r@ == PROMPT_HEAD@ + transcript@,
{
    let head = String::from_str(PROMPT_HEAD);
    head.concat(transcript)
}

/// The opening code fence that a reply may start with.
pub open spec fn fence_open() -> Seq<char> {
    seq!['`', '`', '`', 'j', 's', 'o', 'n']
}

/// The closing code fence that a reply may end with.
pub open spec fn fence_close() -> Seq<char> {
    seq!['`', '`', '`']
}

/// `s` with every leading repetition of `p` removed.
pub open spec fn strip_prefixes(s: Seq<char>, p: Seq<char>) -> Seq<char>
    decreases s.len(),
{
    if p.len() > 0 && p.len() <= s.len() && s.take(p.len() as int) == p {
        strip_prefixes(s.skip(p.len() as int), p)
    } else {
        s
    }
}

/// `s` with every trailing repetition of `p` removed.
pub open spec fn strip_suffixes(s: Seq<char>, p: Seq<char>) -> Seq<char>
    decreases s.len(),
{
    if p.len() > 0 && p.len() <= s.len() && s.skip(s.len() - p.len()) == p {
        strip_suffixes(s.take(s.len() - p.len()), p)
    } else {
        s
    }
}

/// The reply trimmed, stripped of its code fences, and trimmed again.
pub open spec fn clean_reply(s: Seq<char>) -> Seq<char> {
    trim(strip_suffixes(strip_prefixes(trim(s), fence_open()), fence_close()))
}

/// Whether `cs[at..at + p.len()]` is `p`.
fn matches_at(cs: &Vec<char>, at: usize, p: &Vec<char>) -> (r: bool)
    requires
        at + p@.len() <= cs@.len(),
    ensures
        r == (cs@.subrange(at as int, at + p@.len()) == p@),
{
    let total = cs.len();
    let mut k: usize = 0;
    while k < p.len()
        invariant
            k <= p@.len(),
            at + p@.len() <= cs@.len(),
            forall|j: int| 0 <= j < k ==> cs@[at + j] == p@[j],
            total == cs@.len(),
        decreases p@.len() - k,
    {
        if cs[at + k] != p[k] {
            assert(cs@.subrange(at as int, at + p@.len())[k as int] != p@[k as int]);
            return false;
        }
        k = k + 1;
    }
    assert(cs@.subrange(at as int, at + p@.len()) =~= p@);
    true
}

/// Cleans a model reply: trims it, removes the leading "```json" and
/// trailing "```" fences, however often they repeat, and trims again.
pub fn clean_model_output(text: &str) -> (r: String)
    ensures
        r@ == clean_reply(text@),
{
    let cs = chars_of(text);
    let open: Vec<char> = vec!['`', '`', '`', 'j', 's', 'o', 'n'];
    let close: Vec<char> = vec!['`', '`', '`'];
    assert(open@ =~= fence_open());
    assert(close@ =~= fence_close());
    let n = cs.len();
    let (mut a, mut b) = trim_bounds(&cs, 0, n);
    assert(cs@.subrange(0, n as int) =~= cs@);
    while b - a >= 7 && matches_at(&cs, a, &open)
        invariant
            a <= b <= cs@.len(),
            open@ == fence_open(),
            strip_prefixes(trim(cs@), fence_open()) == strip_prefixes(
                cs@.subrange(a as int, b as int),
                fence_open(),
            ),
        decreases b - a,
    {
        assert(cs@.subrange(a as int, b as int).take(7) =~= cs@.subrange(a as int, a + 7));
        assert(cs@.subrange(a as int, b as int).skip(7) =~= cs@.subrange(a + 7, b as int));
        a = a + 7;
    }
    assert(b - a >= 7 ==> cs@.subrange(a as int, b as int).take(7) =~= cs@.subrange(
        a as int,
        a + 7,
    ));
    while b - a >= 3 && matches_at(&cs, b - 3, &close)
        invariant
            a <= b <= cs@.len(),
            close@ == fence_close(),
            strip_suffixes(strip_prefixes(trim(cs@), fence_open()), fence_close())
                == strip_suffixes(cs@.subrange(a as int, b as int), fence_close()),
        decreases b - a,
    {
        assert(cs@.subrange(a as int, b as int).skip(b - a - 3) =~= cs@.subrange(
            b - 3,
            b as int,
        ));
        assert(cs@.subrange(a as int, b as int).take(b - a - 3) =~= cs@.subrange(
            a as int,
            b - 3,
        ));
        b = b - 3;
    }
    assert(b - a >= 3 ==> cs@.subrange(a as int, b as int).skip(b - a - 3) =~= cs@.subrange(
        b - 3,
        b as int,
    ));
    let (c, d) = trim_bounds(&cs, a, b);
    string_from_chars(&cs.as_slice()[c..d])
}

/// Why a model reply could not be used.
#[derive(Debug, Clone, PartialEq, Eq, Structural)]
pub enum AssistError {
    /// The reply held no content block.
    NoContent,
}

/// The cleaned text of the first content block of a reply.
pub fn reply_text(contents: &Vec<String>) -> (r: Result<String, AssistError>)
    ensures
        contents@.len() == 0 <==> r == Err::<String, AssistError>(AssistError::NoContent),
        contents@.len() > 0 ==> r is Ok && r->Ok_0@ == clean_reply(contents@[0]@),
{
    if contents.len() == 0 {
        Err(AssistError::NoContent)
    } else {
        Ok(clean_model_output(contents[0].as_str()))
    }
}

} // verus!
