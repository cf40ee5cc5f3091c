//! The four answers and the reading of an answer out of free text.

use rand::Rng;
use vstd::prelude::*;
use vstd::string::StrSliceExecFns;
use crate::text::{skip_whitespace, skip_whitespace_back, spec_trim, whitespace};

verus! {

/// One of the four answers of a question. `A` is the topmost answer bar.
#[derive(Clone, Copy, Debug, PartialEq, Eq, Structural)]
pub enum Answer {
    A,
    B,
    C,
    D,
}

impl Answer {
    /// The place of the answer's bar, counted from the top: 0 for `A`.
    pub open spec fn spec_index(self) -> int {
        match self {
            Answer::A => 0,
            Answer::B => 1,
            Answer::C => 2,
            Answer::D => 3,
        }
    }

    /// The answer at place `i`; every place after the third counts as `D`.
    pub open spec fn spec_from_index(i: int) -> Answer {
        if i == 0 {
            Answer::A
        } else if i == 1 {
            Answer::B
        } else if i == 2 {
            Answer::C
        } else {
            Answer::D
        }
    }

    pub fn index(self) -> (i: usize)
        ensures
            i == self.spec_index(),
            i < 4,
    {
        match self {
            Answer::A => 0,
            Answer::B => 1,
            Answer::C => 2,
            Answer::D => 3,
        }
    }

    pub fn from_index(i: u32) -> (a: Answer)
        ensures
            a == Answer::spec_from_index(i as int),
            i < 4 ==> a.spec_index() == i,
    {
        match i {
            0 => Answer::A,
            1 => Answer::B,
            2 => Answer::C,
            _ => Answer::D,
        }
    }

    /// An answer drawn at random. Nothing is known of which one comes back:
    /// it is the answer at a place below four.
    pub fn random() -> (a: Answer)
        ensures
            exists|i: int| 0 <= i < 4 && a == Answer::spec_from_index(i),
    {
        let i = random_below(4);
        let a = Answer::from_index(i);
        assert(a == Answer::spec_from_index(i as int));
        a
    }
}

/// Draws a number with `rand::Rng::random_range` on the generator of the
/// calling thread, `rand::rng()`, from the range `0..bound`. The contract
/// claims only what holds of every draw: the number lies in that range. The
/// outside function panics on an empty range, which `requires` leaves out.
#[verifier::external_body]
fn random_below(bound: u32) -> (value: u32)
    requires
        bound > 0,
    ensures
        value < bound,
{
    rand::rng().random_range(0..bound)
}

/// The first character of the marker that a model puts before its answer.
pub const MARKER_FIRST: char = '\u{7b54}';

/// The second character of that marker.
pub const MARKER_SECOND: char = '\u{6848}';

/// `c` is one of the letters `A` to `Z` and `a` to `z`.
pub open spec fn is_ascii_letter(c: char) -> bool {
    ('A' <= c <= 'Z') || ('a' <= c <= 'z')
}

/// The first index at or after `i` where the marker stands, if it stands
/// anywhere.
pub open spec fn find_marker(s: Seq<char>, i: int) -> Option<int>
    decreases s.len() - i,
{
    if i < 0 || i + 1 >= s.len() {
        None
    } else if s[i] == MARKER_FIRST && s[i + 1] == MARKER_SECOND {
        Some(i)
    } else {
        find_marker(s, i + 1)
    }
}

/// The first letter at or after `i`, or a blank where none follows.
pub open spec fn first_letter(s: Seq<char>, i: int) -> char
    decreases s.len() - i,
{
    if i < 0 || i >= s.len() {
        ' '
    } else if is_ascii_letter(s[i]) {
        s[i]
    } else {
        first_letter(s, i + 1)
    }
}

/// The answer that a letter names, in either case.
pub open spec fn answer_of_letter(c: char) -> Option<Answer> {
    if c == 'A' || c == 'a' {
        Some(Answer::A)
    } else if c == 'B' || c == 'b' {
        Some(Answer::B)
    } else if c == 'C' || c == 'c' {
        Some(Answer::C)
    } else if c == 'D' || c == 'd' {
        Some(Answer::D)
    } else {
        None
    }
}

/// The answer that a text gives. White space at its ends does not count. A
/// text of one character of a single byte names the answer by that
/// character. Any other text must hold the marker, and the first letter after
/// the first marker names the answer. A character that is none of `A` to `D`,
/// in either case, names no answer.
pub open spec fn spec_parse_answer(s: Seq<char>) -> Option<Answer> {
    let t = spec_trim(s);
    if t.len() == 1 && (t[0] as u32) < 0x80 {
        answer_of_letter(t[0])
    } else {
        match find_marker(t, 0) {
            None => None,
            Some(pos) => answer_of_letter(first_letter(t, pos)),
        }
    }
}

fn ascii_letter(c: char) -> (b: bool)
    ensures
        b == is_ascii_letter(c),
{
    ('A' <= c && c <= 'Z') || ('a' <= c && c <= 'z')
}

fn letter_answer(c: char) -> (a: Option<Answer>)
    ensures
        a == answer_of_letter(c),
{
    if c == 'A' || c == 'a' {
        Some(Answer::A)
    } else if c == 'B' || c == 'b' {
        Some(Answer::B)
    } else if c == 'C' || c == 'c' {
        Some(Answer::C)
    } else if c == 'D' || c == 'd' {
        Some(Answer::D)
    } else {
        None
    }
}

/// Reads the answer out of a model's reply.
pub fn parse_answer(arg_answer: &str) -> (res: Option<Answer>)
    ensures
        res == spec_parse_answer(arg_answer@),
{
    let n = arg_answer.unicode_len();
    let mut start: usize = 0;
    while start < n && whitespace(arg_answer.get_char(start))
        invariant
            start <= n,
            n == arg_answer@.len(),
            skip_whitespace(arg_answer@, start as int) == skip_whitespace(arg_answer@, 0),
        decreases n - start,
    {
        start += 1;
    }
    let mut end: usize = n;
    while end > start && whitespace(arg_answer.get_char(end - 1))
        invariant
            start <= end <= n,
            n == arg_answer@.len(),
            skip_whitespace_back(arg_answer@, start as int, end as int) == skip_whitespace_back(
                arg_answer@,
                start as int,
                n as int,
            ),
        decreases end,
    {
        end -= 1;
    }
    let answer = arg_answer.substring_char(start, end);
    assert(answer@ == spec_trim(arg_answer@));
    let len = end - start;
    if len == 1 {
        let c = answer.get_char(0);
        if (c as u32) < 0x80 {
            return letter_answer(c);
        }
    }
    let mut pos: usize = 0;
    let mut found = false;
    while len - pos > 1
        invariant_except_break
            !found,
        invariant
            len == answer@.len(),
            pos <= len,
            find_marker(answer@, pos as int) == find_marker(answer@, 0),
        ensures
            found ==> find_marker(answer@, 0) == Some(pos as int) && pos + 1 < len,
            !found ==> find_marker(answer@, 0) == None::<int>,
        decreases len - pos,
    {
        if answer.get_char(pos) == MARKER_FIRST && answer.get_char(pos + 1) == MARKER_SECOND {
            found = true;
            break ;
        }
        pos += 1;
    }
    if !found {
        return None;
    }
    let mut i: usize = pos;
    while i < len
        invariant
            len == answer@.len(),
            pos <= i <= len,
            first_letter(answer@, i as int) == first_letter(answer@, pos as int),
            answer@ == spec_trim(arg_answer@),
            !(answer@.len() == 1 && (answer@[0] as u32) < 0x80),
            find_marker(answer@, 0) == Some(pos as int),
        decreases len - i,
    {
        let c = answer.get_char(i);
        if ascii_letter(c) {
            return letter_answer(c);
        }
        i += 1;
    }
    letter_answer(' ')
}

/// The running account of the answers of a model: the tokens that its
/// replies cost, the replies counted, and those among them that named no
/// answer.
#[derive(Debug)]
pub struct AnswerTally {
    prompt_tokens: u64,
    completion_tokens: u64,
    answer_total_count: u32,
    answer_fallback_count: u32,
}

/// The numbers of an account.
pub struct AnswerTallyView {
    pub prompt_tokens: nat,
    pub completion_tokens: nat,
    pub answer_total_count: nat,
    pub answer_fallback_count: nat,
}

impl View for AnswerTally {
    type V = AnswerTallyView;

    closed spec fn view(&self) -> AnswerTallyView {
        AnswerTallyView {
            prompt_tokens: self.prompt_tokens as nat,
            completion_tokens: self.completion_tokens as nat,
            answer_total_count: self.answer_total_count as nat,
            answer_fallback_count: self.answer_fallback_count as nat,
        }
    }
}

impl AnswerTallyView {
    /// The account after a reply that cost the given tokens and named
    /// `answer`, or none.
    pub open spec fn after(
        self,
        prompt_tokens: nat,
        completion_tokens: nat,
        answer: Option<Answer>,
    ) -> AnswerTallyView {
        AnswerTallyView {
            prompt_tokens: self.prompt_tokens + prompt_tokens,
            completion_tokens: self.completion_tokens + completion_tokens,
            answer_total_count: self.answer_total_count + 1,
            answer_fallback_count: if answer is None {
                self.answer_fallback_count + 1
            } else {
                self.answer_fallback_count
            },
        }
    }

    /// The account has room for a reply that costs the given tokens.
    pub open spec fn has_room(self, prompt_tokens: nat, completion_tokens: nat) -> bool {
        &&& self.prompt_tokens + prompt_tokens <= u64::MAX
        &&& self.completion_tokens + completion_tokens <= u64::MAX
        &&& self.answer_total_count < u32::MAX
    }
}

impl Default for AnswerTally {
    fn default() -> (tally: AnswerTally)
        ensures
            tally@ == (AnswerTallyView {
                prompt_tokens: 0,
                completion_tokens: 0,
                answer_total_count: 0,
                answer_fallback_count: 0,
            }),
    {
        AnswerTally::new()
    }
}

impl AnswerTally {
    #[verifier::type_invariant]
    spec fn well_formed(self) -> bool {
        self.answer_fallback_count <= self.answer_total_count
    }

    /// An account without replies.
    pub fn new() -> (tally: AnswerTally)
        ensures
            tally@ == (AnswerTallyView {
                prompt_tokens: 0,
                completion_tokens: 0,
                answer_total_count: 0,
                answer_fallback_count: 0,
            }),
    {
        AnswerTally {
            prompt_tokens: 0,
            completion_tokens: 0,
            answer_total_count: 0,
            answer_fallback_count: 0,
        }
    }

    /// Whether a reply that costs the given tokens can be counted.
    pub fn has_room(&self, prompt_tokens: u64, completion_tokens: u64) -> (b: bool)
        ensures
            b == self@.has_room(prompt_tokens as nat, completion_tokens as nat),
    {
        prompt_tokens <= u64::MAX - self.prompt_tokens && completion_tokens <= u64::MAX
            - self.completion_tokens && self.answer_total_count < u32::MAX
    }

    /// Counts a reply with the tokens it cost, and reads its answer. A reply
    /// that names no answer counts as one to fall back on.
    pub fn record(&mut self, prompt_tokens: u64, completion_tokens: u64, message: &str) -> (answer:
        Option<Answer>)
        requires
            old(self)@.has_room(prompt_tokens as nat, completion_tokens as nat),
        ensures
            answer == spec_parse_answer(message@),
            final(self)@ == old(self)@.after(
                prompt_tokens as nat,
                completion_tokens as nat,
                answer,
            ),
    {
        proof {
            use_type_invariant(&*self);
        }
        let answer = parse_answer(message);
        let fallback = if answer.is_none() {
            self.answer_fallback_count + 1
        } else {
            self.answer_fallback_count
        };
        *self = AnswerTally {
            prompt_tokens: self.prompt_tokens + prompt_tokens,
            completion_tokens: self.completion_tokens + completion_tokens,
            answer_total_count: self.answer_total_count + 1,
            answer_fallback_count: fallback,
        };
        answer
    }

    /// The tokens that went into the model.
    pub fn input_tokens(&self) -> (n: u64)
        ensures
            n == self@.prompt_tokens,
    {
        self.prompt_tokens
    }

    /// The tokens that came out of the model.
    pub fn output_tokens(&self) -> (n: u64)
        ensures
            n == self@.completion_tokens,
    {
        self.completion_tokens
    }

    /// The tokens in both directions, or nothing where their sum is above
    /// `u64::MAX`.
    pub fn tokens(&self) -> (n: Option<u64>)
        ensures
            match n {
                Some(sum) => sum == self@.prompt_tokens + self@.completion_tokens,
                None => self@.prompt_tokens + self@.completion_tokens > u64::MAX,
            },
    {
        self.prompt_tokens.checked_add(self.completion_tokens)
    }

    /// The replies counted.
    pub fn answer_total_count(&self) -> (n: u32)
        ensures
            n == self@.answer_total_count,
    {
        self.answer_total_count
    }

    /// The replies that named no answer; never more than the replies counted.
    pub fn answer_fallback_count(&self) -> (n: u32)
        ensures
            n == self@.answer_fallback_count,
            n <= self@.answer_total_count,
    {
        proof {
            use_type_invariant(self);
        }
        self.answer_fallback_count
    }
}

} // verus!
