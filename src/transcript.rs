//! The structured form of a transcript and the line-based parser.

use vstd::prelude::*;
use crate::text::{chars_of, string_from_chars, trim, trim_bounds};

verus! {

/// One speaker turn: who speaks, and what is said.
#[derive(Debug, Clone)]
pub struct Interjection {
    pub voice: String,
    pub words: String,
}

/// The utterances of a transcript, in playback order.
#[derive(Debug, Clone)]
pub struct Conversation {
    pub interjections: Vec<Interjection>,
}

/// An utterance as a (voice label, words) pair of character sequences.
pub type Utterance = (Seq<char>, Seq<char>);

impl View for Interjection {
    type V = Utterance;

    open spec fn view(&self) -> Utterance {
        (self.voice@, self.words@)
    }
}

impl View for Conversation {
    type V = Seq<Utterance>;

    open spec fn view(&self) -> Seq<Utterance> {
        self.interjections@.map_values(|i: Interjection| i@)
    }
}

/// Why a transcript could not be parsed: a non-blank line without a
/// `": "` separator, given here trimmed.
#[derive(Debug, Clone)]
pub struct ParseError {
    pub line: String,
}

/// Whether `l[i..i + 2]` is the separator `": "`.
pub open spec fn sep_at(l: Seq<char>, i: int) -> bool {
    0 <= i && i + 1 < l.len() && l[i] == ':' && l[i + 1] == ' '
}

/// The first separator in `l` at or after `i`, or -1 if there is none.
pub open spec fn first_sep(l: Seq<char>, i: int) -> int
    decreases l.len() - i,
{
    if i < 0 || i + 1 >= l.len() {
        -1
    } else if sep_at(l, i) {
        i
    } else {
        first_sep(l, i + 1)
    }
}

/// A trimmed line split on its first separator: the label before it and
/// the trimmed words after it.
pub open spec fn split_line(l: Seq<char>) -> Option<Utterance> {
    let k = first_sep(l, 0);
    if k < 0 {
        None
    } else {
        Some((l.take(k), trim(l.skip(k + 2))))
    }
}

/// The end of the line that starts at `i`: the first `'\n'` at or after it,
/// or the end of `s`.
pub open spec fn line_end(s: Seq<char>, i: int) -> int
    decreases s.len() - i,
{
    if i < 0 || i >= s.len() {
        s.len() as int
    } else if s[i] == '\n' {
        i
    } else {
        line_end(s, i + 1)
    }
}

/// The utterances of the lines from `i` on, or `None` if one of them is
/// non-blank and has no separator.
pub open spec fn parse_from(s: Seq<char>, i: int) -> Option<Seq<Utterance>>
    decreases s.len() - i,
    when 0 <= i <= s.len()
    via parse_from_decreases
{
    let e = line_end(s, i);
    let l = trim(s.subrange(i, e));
    let rest = if e < s.len() {
        parse_from(s, e + 1)
    } else {
        Some(Seq::<Utterance>::empty())
    };
    if l.len() == 0 {
        rest
    } else {
        match split_line(l) {
            None => None,
            Some(u) => match rest {
                None => None,
                Some(r) => Some(seq![u] + r),
            },
        }
    }
}

#[via_fn]
proof fn parse_from_decreases(s: Seq<char>, i: int) {
    lemma_line_end_bounds(s, i);
}

/// What the line-based parser makes of a whole transcript.
pub open spec fn naive_parse(s: Seq<char>) -> Option<Seq<Utterance>> {
    parse_from(s, 0)
}

/// The end of a line lies between its start and the end of the text.
pub proof fn lemma_line_end_bounds(s: Seq<char>, i: int)
    requires
        0 <= i <= s.len(),
    ensures
        i <= line_end(s, i) <= s.len(),
        line_end(s, i) < s.len() ==> s[line_end(s, i)] == '\n',
        forall|k: int| i <= k < line_end(s, i) ==> s[k] != '\n',
    decreases s.len() - i,
{
    if i < s.len() && s[i] != '\n' {
        lemma_line_end_bounds(s, i + 1);
    }
}

/// Whether `i` is where a line of `s` starts.
pub open spec fn line_start(s: Seq<char>, i: int) -> bool {
    i == 0 || (0 < i <= s.len() && s[i - 1] == '\n')
}

/// A blank line yields no utterance: what is parsed from it on is what is
/// parsed from the next line on.
pub proof fn lemma_blank_line_skipped(s: Seq<char>, i: int)
    requires
        0 <= i <= s.len(),
        trim(s.subrange(i, line_end(s, i))).len() == 0,
    ensures
        parse_from(s, i) == if line_end(s, i) < s.len() {
            parse_from(s, line_end(s, i) + 1)
        } else {
            Some(Seq::<Utterance>::empty())
        },
{
    lemma_line_end_bounds(s, i);
}

/// A non-blank line without a separator fails the whole transcript,
/// wherever it stands.
pub proof fn lemma_bad_line_fails(s: Seq<char>, i: int)
    requires
        line_start(s, i),
        trim(s.subrange(i, line_end(s, i))).len() > 0,
        split_line(trim(s.subrange(i, line_end(s, i)))) is None,
    ensures
        naive_parse(s) is None,
{
    lemma_fails_from(s, 0, i);
}

/// A transcript whose every non-blank line holds a separator parses.
pub proof fn lemma_well_formed_parses(s: Seq<char>)
    requires
        forall|i: int|
            #![trigger line_end(s, i)]
            line_start(s, i) && trim(s.subrange(i, line_end(s, i))).len() > 0 ==> split_line(
                trim(s.subrange(i, line_end(s, i))),
            ) is Some,
    ensures
        naive_parse(s) is Some,
{
    lemma_parses_from(s, 0);
}

proof fn lemma_parses_from(s: Seq<char>, j: int)
    requires
        0 <= j <= s.len(),
        line_start(s, j),
        forall|i: int|
            #![trigger line_end(s, i)]
            line_start(s, i) && trim(s.subrange(i, line_end(s, i))).len() > 0 ==> split_line(
                trim(s.subrange(i, line_end(s, i))),
            ) is Some,
    ensures
        parse_from(s, j) is Some,
    decreases s.len() - j,
{
    lemma_line_end_bounds(s, j);
    let e = line_end(s, j);
    if e < s.len() {
        lemma_parses_from(s, e + 1);
    }
}

proof fn lemma_fails_from(s: Seq<char>, j: int, i: int)
    requires
        0 <= j <= i,
        line_start(s, j),
        line_start(s, i),
        trim(s.subrange(i, line_end(s, i))).len() > 0,
        split_line(trim(s.subrange(i, line_end(s, i)))) is None,
    ensures
        parse_from(s, j) is None,
    decreases i - j,
{
    if j < i {
        lemma_line_end_bounds(s, j);
        let e = line_end(s, j);
        assert(e <= i - 1);
        lemma_fails_from(s, e + 1, i);
    }
}

proof fn lemma_first_sep(l: Seq<char>, i: int)
    requires
        0 <= i,
    ensures
        first_sep(l, i) == -1 || (i <= first_sep(l, i) && sep_at(l, first_sep(l, i))),
        forall|k: int| i <= k && (first_sep(l, i) == -1 || k < first_sep(l, i)) ==> !sep_at(l, k),
    decreases l.len() - i,
{
    if i + 1 < l.len() && !sep_at(l, i) {
        lemma_first_sep(l, i + 1);
    }
}

/// The first separator in `cs[lo..hi]`, as an offset from `lo`.
fn find_sep(cs: &Vec<char>, lo: usize, hi: usize) -> (r: Option<usize>)
    requires
        lo <= hi <= cs@.len(),
    ensures
        match r {
            None => first_sep(cs@.subrange(lo as int, hi as int), 0) == -1,
            Some(k) => first_sep(cs@.subrange(lo as int, hi as int), 0) == k as int && k + 2
                <= hi - lo,
        },
{
    let ghost l = cs@.subrange(lo as int, hi as int);
    let mut k: usize = 0;
    while hi - lo - k > 1
        invariant
            lo <= hi <= cs@.len(),
            l == cs@.subrange(lo as int, hi as int),
            first_sep(l, 0) == first_sep(l, k as int),
            k <= hi - lo,
        decreases hi - lo - k,
    {
        if cs[lo + k] == ':' && cs[lo + k + 1] == ' ' {
            return Some(k);
        }
        k = k + 1;
    }
    None
}

/// Parses one trimmed, non-blank line `cs[lo..hi]`.
fn parse_line(cs: &Vec<char>, lo: usize, hi: usize) -> (r: Result<Interjection, ParseError>)
    requires
        lo <= hi <= cs@.len(),
    ensures
        match r {
            Ok(i) => split_line(cs@.subrange(lo as int, hi as int)) == Some(i@),
            Err(e) => split_line(cs@.subrange(lo as int, hi as int)) is None && e.line@
                == cs@.subrange(lo as int, hi as int),
        },
{
    let ghost l = cs@.subrange(lo as int, hi as int);
    match find_sep(cs, lo, hi) {
        None => Err(ParseError { line: string_from_chars(&cs.as_slice()[lo..hi]) }),
        Some(k) => {
            let (a, b) = trim_bounds(cs, lo + k + 2, hi);
            let voice = string_from_chars(&cs.as_slice()[lo..lo + k]);
            let words = string_from_chars(&cs.as_slice()[a..b]);
            assert(l.take(k as int) =~= cs@.subrange(lo as int, lo + k));
            assert(l.skip(k + 2) =~= cs@.subrange(lo + k + 2, hi as int));
            Ok(Interjection { voice, words })
        },
    }
}

/// Parses a transcript of `label: text` lines. Each line is trimmed; blank
/// lines are skipped; every other line must hold `": "`, and is split on
/// its first one into the voice label and the trimmed words. The first line
/// without a separator fails the whole transcript.
pub fn produce(transcript: &str) -> (r: Result<Conversation, ParseError>)
    ensures
        r is Ok <==> naive_parse(transcript@) is Some,
        r is Ok ==> r->Ok_0@ == naive_parse(transcript@)->0,
{
    let cs = chars_of(transcript);
    let ghost s = cs@;
    let n = cs.len();
    let mut out: Vec<Interjection> = Vec::new();
    let mut i: usize = 0;
    loop
        invariant
            s == cs@,
            s == transcript@,
            n == s.len(),
            0 <= i <= n,
            naive_parse(s) == match parse_from(s, i as int) {
                None => None::<Seq<Utterance>>,
                Some(rest) => Some(out@.map_values(|x: Interjection| x@) + rest),
            },
        decreases n - i,
    {
        proof {
            lemma_line_end_bounds(s, i as int);
        }
        let mut e: usize = i;
        while e < n && cs[e] != '\n'
            invariant
                s == cs@,
                n == s.len(),
                i <= e <= n,
                line_end(s, i as int) == line_end(s, e as int),
            decreases n - e,
        {
            e = e + 1;
        }
        let (a, b) = trim_bounds(&cs, i, e);
        let ghost rest = if e < n {
            parse_from(s, e + 1)
        } else {
            Some(Seq::<Utterance>::empty())
        };
        if a < b {
            match parse_line(&cs, a, b) {
                Err(err) => {
                    return Err(err);
                },
                Ok(it) => {
                    let ghost before = out@.map_values(|x: Interjection| x@);
                    out.push(it);
                    assert(out@.map_values(|x: Interjection| x@) =~= before.push(it@));
                    assert forall|r: Seq<Utterance>| before + (seq![it@] + r) =~= before.push(
                        it@,
                    ) + r by {}
                },
            }
        }
        if e >= n {
            let ghost done = out@.map_values(|x: Interjection| x@);
            assert(done + Seq::<Utterance>::empty() =~= done);
            return Ok(Conversation { interjections: out });
        }
        i = e + 1;
    }
}

} // verus!
