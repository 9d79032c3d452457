//! Path segments: how one command-line token is read as a step of a path.

use vstd::prelude::*;
use vstd::string::*;

verus! {

/// The mathematical model of a segment.
pub enum Step {
    /// A token that is not a decimal number: it can only name an object key.
    Key(Seq<char>),
    /// A token that is a decimal number, with its text and its value: it
    /// names an array position, or the object key spelled by the text.
    Index(Seq<char>, nat),
}

impl Step {
    /// The token that the step was read from.
    pub open spec fn text(self) -> Seq<char> {
        match self {
            Step::Key(t) => t,
            Step::Index(t, _) => t,
        }
    }
}

/// One step of a path.
#[derive(Debug, PartialEq, Eq)]
pub enum Segment {
    Key(String),
    Index(String, usize),
}

impl View for Segment {
    type V = Step;

    open spec fn view(&self) -> Step {
        match *self {
            Segment::Key(t) => Step::Key(t@),
            Segment::Index(t, n) => Step::Index(t@, n as nat),
        }
    }
}

/// Whether a character is one of the ten decimal digits.
pub open spec fn is_digit(c: char) -> bool {
    '0' <= c && c <= '9'
}

/// The number that a decimal digit stands for.
pub open spec fn digit_value(c: char) -> nat {
    (c as nat - '0' as nat) as nat
}

/// Whether a text holds decimal digits only.
pub open spec fn all_digits(s: Seq<char>) -> bool {
    forall|i: int| 0 <= i < s.len() ==> is_digit(#[trigger] s[i])
}

/// The number that a sequence of decimal digits spells, most significant
/// digit first.
pub open spec fn digits_value(s: Seq<char>) -> nat
    decreases s.len(),
{
    if s.len() == 0 {
        0
    } else {
        10 * digits_value(s.drop_last()) + digit_value(s.last())
    }
}

/// The array position that a token spells: the token is one or more decimal
/// digits, nothing else, and the number fits the machine's `usize`.
pub open spec fn index_of_token(s: Seq<char>) -> Option<nat> {
    if s.len() > 0 && all_digits(s) && digits_value(s) <= usize::MAX {
        Some(digits_value(s))
    } else {
        None
    }
}

/// The step that a token stands for. Every token stands for one.
pub open spec fn step_of_token(s: Seq<char>) -> Step {
    match index_of_token(s) {
        Some(n) => Step::Index(s, n),
        None => Step::Key(s),
    }
}

impl Step {
    /// Whether the step is what its own text is read as: an index whose
    /// value is the number that the text spells, or a key whose text spells
    /// no array position.
    pub open spec fn well_formed(self) -> bool {
        self == step_of_token(self.text())
    }
}

/// Reading a token keeps its text, and gives an index exactly where the
/// token spells an array position.
pub proof fn law_token_read(token: Seq<char>)
    ensures
        step_of_token(token).text() == token,
        step_of_token(token).well_formed(),
        step_of_token(token) is Index <==> index_of_token(token) is Some,
{
}

/// The steps that a list of tokens stands for, in the same order.
pub open spec fn steps_of_tokens(tokens: Seq<Seq<char>>) -> Seq<Step> {
    tokens.map_values(|t: Seq<char>| step_of_token(t))
}

/// The steps that a sequence of segments stands for.
pub open spec fn path_view(segments: Seq<Segment>) -> Seq<Step> {
    segments.map_values(|s: Segment| s@)
}

/// The texts of a sequence of strings.
pub open spec fn texts(strings: Seq<String>) -> Seq<Seq<char>> {
    strings.map_values(|s: String| s@)
}

/// A prefix of a digit sequence spells a number no larger than the whole.
pub proof fn lemma_prefix_value(s: Seq<char>, k: int)
    requires
        0 <= k <= s.len(),
    ensures
        digits_value(s.take(k)) <= digits_value(s),
    decreases s.len() - k,
{
    if k < s.len() {
        lemma_prefix_value(s, k + 1);
        assert(s.take(k + 1).drop_last() =~= s.take(k));
    } else {
        assert(s.take(k) =~= s);
    }
}

/// Reads a token as an array position, where it spells one.
pub fn parse_index(token: &str) -> (r: Option<usize>)
    ensures
        match r {
            Some(n) => index_of_token(token@) == Some(n as nat),
            None => index_of_token(token@) is None,
        },
{
    let len: usize = token.unicode_len();
    if len == 0 {
        return None;
    }
    let mut value: usize = 0;
    let mut i: usize = 0;
    while i < len
        invariant
            len == token@.len(),
            0 <= i <= len,
            all_digits(token@.take(i as int)),
            value == digits_value(token@.take(i as int)),
        decreases len - i,
    {
        let c: char = token.get_char(i);
        let ghost before = token@.take(i as int);
        let ghost after = token@.take(i + 1);
        proof {
            assert(after.drop_last() =~= before);
            assert(after.last() == c);
        }
        if !('0' <= c && c <= '9') {
            proof {
                assert(!is_digit(token@[i as int]));
            }
            return None;
        }
        let d: usize = (c as u32 - '0' as u32) as usize;
        assert(d == digit_value(c));
        if value > (usize::MAX - d) / 10 {
            proof {
                assert(digits_value(after) > usize::MAX);
                lemma_prefix_value(token@, i + 1);
            }
            return None;
        }
        value = value * 10 + d;
        proof {
            assert forall|j: int| 0 <= j < after.len() implies is_digit(#[trigger] after[j]) by {
                if j < i {
                    assert(after[j] == before[j]);
                }
            }
        }
        i = i + 1;
    }
    proof {
        assert(token@.take(len as int) =~= token@);
    }
    Some(value)
}

impl Segment {
    /// Reads one token as a segment: an index where the token spells an
    /// array position, a key otherwise.
    pub fn from_token(token: String) -> (s: Segment)
        ensures
            s@ == step_of_token(token@),
            s@.well_formed(),
    {
        match parse_index(token.as_str()) {
            Some(n) => Segment::Index(token, n),
            None => Segment::Key(token),
        }
    }

    /// The token that the segment was read from.
    pub fn text(&self) -> (t: &String)
        ensures
            t@ == self@.text(),
    {
        match self {
            Segment::Key(t) => t,
            Segment::Index(t, _) => t,
        }
    }
}

/// Reads a list of tokens as a path, one segment per token, in order.
pub fn build_path(tokens: Vec<String>) -> (path: Vec<Segment>)
    ensures
        path_view(path@) == steps_of_tokens(texts(tokens@)),
{
    let mut path: Vec<Segment> = Vec::new();
    let mut i: usize = 0;
    let n: usize = tokens.len();
    while i < n
        invariant
            n == tokens@.len(),
            0 <= i <= n,
            path@.len() == i,
            forall|j: int| 0 <= j < i ==> (#[trigger] path@[j])@ == step_of_token(tokens@[j]@),
        decreases n - i,
    {
        let token: String = tokens[i].clone();
        path.push(Segment::from_token(token));
        i = i + 1;
    }
    proof {
        assert(path_view(path@) =~= steps_of_tokens(texts(tokens@)));
    }
    path
}

} // verus!
