//! Output naming, voice resolution and the plan of synthesis calls for a
//! conversation.

use vstd::prelude::*;
use crate::text::string_from_chars;
use crate::transcript::{Conversation, Utterance};

verus! {

/// The decimal digit of `d < 10`.
pub open spec fn digit_char(d: int) -> char {
    (d + 48) as char
}

/// The decimal representation of `n`, without leading zeros.
pub open spec fn decimal(n: nat) -> Seq<char>
    decreases n,
{
    if n < 10 {
        seq![digit_char(n as int)]
    } else {
        decimal(n / 10).push(digit_char((n % 10) as int))
    }
}

/// The file name of utterance `index` (1-based) out of `total`: the index
/// zero-padded to the digit count of `total`, then `.mp3`.
pub open spec fn file_name(index: nat, total: nat) -> Seq<char> {
    let w = decimal(total).len();
    Seq::new((w - decimal(index).len()) as nat, |k: int| '0') + decimal(index) + seq![
        '.',
        'm',
        'p',
        '3',
    ]
}

/// A number has at least one digit, and a larger number never has fewer.
pub proof fn lemma_decimal_len_mono(i: nat, n: nat)
    requires
        i <= n,
    ensures
        1 <= decimal(i).len() <= decimal(n).len(),
    decreases n,
{
    if n >= 10 {
        if i >= 10 {
            lemma_decimal_len_mono(i / 10, n / 10);
        } else {
            lemma_decimal_len_mono(i, i);
            lemma_decimal_len_mono(1, n / 10);
        }
    }
}

fn push_decimal(n: usize, out: &mut Vec<char>)
    ensures
        final(out)@ == old(out)@ + decimal(n as nat),
    decreases n,
{
    let ghost start = out@;
    if n >= 10 {
        push_decimal(n / 10, out);
    }
    let d: u8 = (n % 10) as u8;
    out.push((d + 48) as char);
    if n >= 10 {
        assert(out@ =~= start + decimal(n as nat));
    } else {
        assert(out@ =~= start + decimal(n as nat));
    }
}

/// The output file name of utterance `index` (1-based) of `total`, such as
/// `07.mp3` for index 7 of 12.
pub fn output_file_name(index: usize, total: usize) -> (r: String)
    requires
        1 <= index <= total,
    ensures
        r@ == file_name(index as nat, total as nat),
        r@.len() == decimal(total as nat).len() + 4,
{
    proof {
        lemma_decimal_len_mono(index as nat, total as nat);
    }
    let mut width: Vec<char> = Vec::new();
    push_decimal(total, &mut width);
    let mut digits: Vec<char> = Vec::new();
    push_decimal(index, &mut digits);
    assert(width@ =~= decimal(total as nat));
    assert(digits@ =~= decimal(index as nat));
    let pad = width.len() - digits.len();
    let mut out: Vec<char> = Vec::new();
    let mut k: usize = 0;
    while k < pad
        invariant
            k <= pad,
            out@ =~= Seq::new(k as nat, |j: int| '0'),
        decreases pad - k,
    {
        out.push('0');
        k = k + 1;
    }
    let mut j: usize = 0;
    while j < digits.len()
        invariant
            j <= digits@.len(),
            out@ =~= Seq::new(pad as nat, |j: int| '0') + digits@.take(j as int),
        decreases digits@.len() - j,
    {
        out.push(digits[j]);
        j = j + 1;
        assert(out@ =~= Seq::new(pad as nat, |j: int| '0') + digits@.take(j as int));
    }
    out.push('.');
    out.push('m');
    out.push('p');
    out.push('3');
    assert(digits@.take(digits@.len() as int) =~= digits@);
    assert(out@ =~= file_name(index as nat, total as nat));
    string_from_chars(out.as_slice())
}

/// The mapping that pairs of `(label, id)` give, later pairs winning.
pub open spec fn entries_map(s: Seq<(Seq<char>, Seq<char>)>) -> Map<Seq<char>, Seq<char>>
    decreases s.len(),
{
    if s.len() == 0 {
        Map::empty()
    } else {
        entries_map(s.drop_last()).insert(s.last().0, s.last().1)
    }
}

/// A mapping from speaker labels to synthesis voice identifiers.
#[derive(Debug, Clone)]
pub struct VoiceMap {
    entries: Vec<(String, String)>,
}

impl View for VoiceMap {
    type V = Map<Seq<char>, Seq<char>>;

    closed spec fn view(&self) -> Map<Seq<char>, Seq<char>> {
        entries_map(self.entries@.map_values(|e: (String, String)| (e.0@, e.1@)))
    }
}

proof fn lemma_entries_tail(s: Seq<(Seq<char>, Seq<char>)>, i: int, k: Seq<char>)
    requires
        0 <= i <= s.len(),
        forall|j: int| i <= j < s.len() ==> s[j].0 != k,
    ensures
        entries_map(s).contains_key(k) == entries_map(s.take(i)).contains_key(k),
        entries_map(s).contains_key(k) ==> entries_map(s)[k] == entries_map(s.take(i))[k],
    decreases s.len(),
{
    if s.len() > i {
        lemma_entries_tail(s.drop_last(), i, k);
        assert(s.drop_last().take(i) =~= s.take(i));
    } else {
        assert(s.take(i) =~= s);
    }
}

impl VoiceMap {
    /// An empty mapping.
    pub fn new() -> (r: VoiceMap)
        ensures
            r@ == Map::<Seq<char>, Seq<char>>::empty(),
    {
        let r = VoiceMap { entries: Vec::new() };
        assert(r.entries@.map_values(|e: (String, String)| (e.0@, e.1@)) =~= Seq::empty());
        r
    }

    /// Maps `label` to `voice_id`, replacing what it was mapped to.
    pub fn insert(&mut self, label: String, voice_id: String)
        ensures
            final(self)@ == old(self)@.insert(label@, voice_id@),
    {
        let ghost before = self.entries@.map_values(|e: (String, String)| (e.0@, e.1@));
        self.entries.push((label, voice_id));
        assert(self.entries@.map_values(|e: (String, String)| (e.0@, e.1@)).drop_last()
            =~= before);
    }

    /// The voice identifier of `label`, if it has one.
    pub fn get(&self, label: &String) -> (r: Option<&String>)
        ensures
            r is Some <==> self@.contains_key(label@),
            r is Some ==> r->0@ == self@[label@],
    {
        let ghost s = self.entries@.map_values(|e: (String, String)| (e.0@, e.1@));
        let mut i: usize = self.entries.len();
        while i > 0
            invariant
                i <= self.entries@.len(),
                s == self.entries@.map_values(|e: (String, String)| (e.0@, e.1@)),
                forall|j: int| i <= j < s.len() ==> s[j].0 != label@,
            decreases i,
        {
            if self.entries[i - 1].0 == *label {
                proof {
                    lemma_entries_tail(s, i as int, label@);
                    assert(s.take(i as int).drop_last() =~= s.take(i - 1));
                }
                return Some(&self.entries[i - 1].1);
            }
            i = i - 1;
        }
        proof {
            lemma_entries_tail(s, 0, label@);
            assert(s.take(0) =~= Seq::<(Seq<char>, Seq<char>)>::empty());
        }
        None
    }
}

/// One synthesis call: the 1-based index of the utterance, the file it
/// writes, the voice to speak with and the words to speak.
#[derive(Debug, Clone)]
pub struct SynthesisJob {
    pub index: usize,
    pub file_name: String,
    pub voice_id: String,
    pub words: String,
}

/// A job as (index, file name, voice identifier, words).
pub type JobView = (nat, Seq<char>, Seq<char>, Seq<char>);

impl View for SynthesisJob {
    type V = JobView;

    open spec fn view(&self) -> JobView {
        (self.index as nat, self.file_name@, self.voice_id@, self.words@)
    }
}

/// The synthesis calls of a run, in order, and the label whose missing
/// voice stops the run after them, if any.
#[derive(Debug, Clone)]
pub struct RunPlan {
    pub jobs: Vec<SynthesisJob>,
    pub missing_voice: Option<String>,
}

/// The plan for the first `n` utterances of `u`: each utterance whose output
/// is already `done` is skipped; the others get a job, until one has a label
/// that `voices` lacks, which ends the plan.
pub open spec fn plan_upto(
    u: Seq<Utterance>,
    done: Seq<bool>,
    voices: Map<Seq<char>, Seq<char>>,
    n: nat,
) -> (Seq<JobView>, Option<Seq<char>>)
    decreases n,
{
    if n == 0 {
        (Seq::empty(), None)
    } else {
        let p = plan_upto(u, done, voices, (n - 1) as nat);
        if p.1 is Some || done[n - 1] {
            p
        } else if voices.contains_key(u[n - 1].0) {
            (p.0.push((n, file_name(n, u.len()), voices[u[n - 1].0], u[n - 1].1)), None)
        } else {
            (p.0, Some(u[n - 1].0))
        }
    }
}

/// Plans the synthesis calls for `conv`, where `done[i]` tells whether the
/// output of utterance `i + 1` already exists with a non-zero size.
pub fn plan_run(conv: &Conversation, done: &Vec<bool>, voices: &VoiceMap) -> (r: RunPlan)
    requires
        done@.len() == conv@.len(),
    ensures
        r.jobs@.map_values(|j: SynthesisJob| j@) == plan_upto(
            conv@,
            done@,
            voices@,
            conv@.len(),
        ).0,
        match r.missing_voice {
            None => plan_upto(conv@, done@, voices@, conv@.len()).1 is None,
            Some(l) => plan_upto(conv@, done@, voices@, conv@.len()).1 == Some(l@),
        },
{
    let n = conv.interjections.len();
    let ghost u = conv@;
    let mut jobs: Vec<SynthesisJob> = Vec::new();
    let mut i: usize = 0;
    while i < n
        invariant
            n == conv.interjections@.len(),
            u == conv@,
            done@.len() == n,
            i <= n,
            jobs@.map_values(|j: SynthesisJob| j@) == plan_upto(u, done@, voices@, i as nat).0,
            plan_upto(u, done@, voices@, i as nat).1 is None,
        decreases n - i,
    {
        let ghost before = jobs@.map_values(|j: SynthesisJob| j@);
        let it = &conv.interjections[i];
        assert(u[i as int] == it@);
        if !done[i] {
            match voices.get(&it.voice) {
                None => {
                    proof {
                        lemma_plan_stays(u, done@, voices@, (i + 1) as nat, n as nat);
                    }
                    return RunPlan { jobs, missing_voice: Some(it.voice.clone()) };
                },
                Some(id) => {
                    let job = SynthesisJob {
                        index: i + 1,
                        file_name: output_file_name(i + 1, n),
                        voice_id: id.clone(),
                        words: it.words.clone(),
                    };
                    jobs.push(job);
                    assert(jobs@.map_values(|j: SynthesisJob| j@) =~= before.push(job@));
                },
            }
        }
        i = i + 1;
    }
    RunPlan { jobs, missing_voice: None }
}

proof fn lemma_plan_stays(
    u: Seq<Utterance>,
    done: Seq<bool>,
    voices: Map<Seq<char>, Seq<char>>,
    k: nat,
    n: nat,
)
    requires
        k <= n,
        plan_upto(u, done, voices, k).1 is Some,
    ensures
        plan_upto(u, done, voices, n) == plan_upto(u, done, voices, k),
    decreases n - k,
{
    if n > k {
        lemma_plan_stays(u, done, voices, k, (n - 1) as nat);
    }
}

/// A planned job never regenerates an existing output, and when no voice is
/// missing every utterance without one gets a job.
pub proof fn lemma_plan_skips_done(
    u: Seq<Utterance>,
    done: Seq<bool>,
    voices: Map<Seq<char>, Seq<char>>,
    n: nat,
)
    requires
        n <= u.len(),
        done.len() == u.len(),
    ensures
        forall|j: int|
            0 <= j < plan_upto(u, done, voices, n).0.len() ==> {
                let idx = #[trigger] plan_upto(u, done, voices, n).0[j].0;
                1 <= idx <= n && !done[idx - 1]
            },
        plan_upto(u, done, voices, n).1 is None ==> forall|k: int|
            0 <= k < n && !done[k] ==> exists|j: int|
                0 <= j < plan_upto(u, done, voices, n).0.len() && #[trigger] plan_upto(
                    u,
                    done,
                    voices,
                    n,
                ).0[j].0 == k + 1,
    decreases n,
{
    if n > 0 {
        let m = (n - 1) as nat;
        lemma_plan_skips_done(u, done, voices, m);
        let p = plan_upto(u, done, voices, m);
        let q = plan_upto(u, done, voices, n);
        if p.1 is None && !done[m as int] && voices.contains_key(u[m as int].0) {
            assert(q.0 == p.0.push(q.0.last()));
            assert forall|k: int| 0 <= k < n && !done[k] implies exists|j: int|
                0 <= j < q.0.len() && #[trigger] q.0[j].0 == k + 1 by {
                if k < m {
                    let j = choose|j: int| 0 <= j < p.0.len() && #[trigger] p.0[j].0 == k + 1;
                    assert(q.0[j] == p.0[j]);
                } else {
                    assert(q.0[p.0.len() as int].0 == k + 1);
                }
            }
        }
    }
}

/// A missing voice stops the run at the first utterance that needs it: the
/// label is that utterance's, the mapping lacks it, and no job comes from a
/// later utterance.
pub proof fn lemma_plan_stops_at_missing(
    u: Seq<Utterance>,
    done: Seq<bool>,
    voices: Map<Seq<char>, Seq<char>>,
    n: nat,
)
    requires
        n <= u.len(),
        done.len() == u.len(),
        plan_upto(u, done, voices, n).1 is Some,
    ensures
        exists|k: int|
            0 <= k < n && !done[k] && #[trigger] u[k].0 == plan_upto(u, done, voices, n).1->0
                && !voices.contains_key(u[k].0) && forall|j: int|
                0 <= j < plan_upto(u, done, voices, n).0.len() ==> #[trigger] plan_upto(
                    u,
                    done,
                    voices,
                    n,
                ).0[j].0 <= k,
    decreases n,
{
    let m = (n - 1) as nat;
    let p = plan_upto(u, done, voices, m);
    lemma_plan_skips_done(u, done, voices, m);
    if p.1 is Some {
        lemma_plan_stops_at_missing(u, done, voices, m);
    } else {
        assert(u[m as int].0 == plan_upto(u, done, voices, n).1->0);
    }
}

} // verus!
