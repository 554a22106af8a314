//! Answers typed at a prompt: the topic, and the consent to overwrite a file.
//!
//! A typed line is taken without the white space around it. Consent is given
//! by `y` or `yes`, in any mix of upper and lower case; anything else, an
//! empty line included, is a refusal.

use vstd::prelude::*;

verus! {

/// White space as Unicode defines it.
pub open spec fn is_whitespace(c: char) -> bool {
    let u = c as u32;
    ||| 0x09 <= u <= 0x0D
    ||| u == 0x20
    ||| u == 0x85
    ||| u == 0xA0
    ||| u == 0x1680
    ||| 0x2000 <= u <= 0x200A
    ||| u == 0x2028
    ||| u == 0x2029
    ||| u == 0x202F
    ||| u == 0x205F
    ||| u == 0x3000
}

/// `s` without the white space at its start.
pub open spec fn trim_start(s: Seq<char>) -> Seq<char>
    decreases s.len(),
{
    if s.len() > 0 && is_whitespace(s[0]) {
        trim_start(s.drop_first())
    } else {
        s
    }
}

/// `s` without the white space at its end.
pub open spec fn trim_end(s: Seq<char>) -> Seq<char>
    decreases s.len(),
{
    if s.len() > 0 && is_whitespace(s.last()) {
        trim_end(s.drop_last())
    } else {
        s
    }
}

/// `s` without the white space around it.
pub open spec fn trim(s: Seq<char>) -> Seq<char> {
    trim_end(trim_start(s))
}

/// Whether an answer, already trimmed, gives consent: `y` or `yes`, each
/// letter in either case.
pub open spec fn is_yes(answer: Seq<char>) -> bool {
    ||| answer.len() == 1 && (answer[0] == 'y' || answer[0] == 'Y')
    ||| answer.len() == 3 && (answer[0] == 'y' || answer[0] == 'Y') && (answer[1] == 'e'
        || answer[1] == 'E') && (answer[2] == 's' || answer[2] == 'S')
}

/// Whether a typed line gives consent.
pub open spec fn consents(line: Seq<char>) -> bool {
    is_yes(trim(line))
}

fn whitespace(c: char) -> (yes: bool)
    ensures
        yes == is_whitespace(c),
{
    let u: u32 = c as u32;
    (0x09 <= u && u <= 0x0D) || u == 0x20 || u == 0x85 || u == 0xA0 || u == 0x1680 || (0x2000 <= u
        && u <= 0x200A) || u == 0x2028 || u == 0x2029 || u == 0x202F || u == 0x205F || u == 0x3000
}

/// A line without the white space around it.
pub fn trimmed(line: &str) -> (text: &str)
    ensures
        text@ == trim(line@),
{
    let len: usize = line.unicode_len();
    let mut from: usize = 0;
    proof {
        assert(line@.subrange(0, len as int) =~= line@);
    }
    while from < len && whitespace(line.get_char(from))
        invariant
            from <= len,
            len == line@.len(),
            trim_start(line@) == trim_start(line@.subrange(from as int, len as int)),
        decreases len - from,
    {
        proof {
            assert(line@.subrange(from as int, len as int).drop_first() =~= line@.subrange(
                from as int + 1,
                len as int,
            ));
        }
        from = from + 1;
    }
    proof {
        assert(trim_start(line@) == line@.subrange(from as int, len as int));
    }
    let mut to: usize = len;
    while to > from && whitespace(line.get_char(to - 1))
        invariant
            from <= to <= len,
            len == line@.len(),
            trim(line@) == trim_end(line@.subrange(from as int, to as int)),
        decreases to,
    {
        proof {
            assert(line@.subrange(from as int, to as int).drop_last() =~= line@.subrange(
                from as int,
                to as int - 1,
            ));
        }
        to = to - 1;
    }
    line.substring_char(from, to)
}

/// The topic that a line typed at the prompt names.
pub fn topic_from_prompt(line: &str) -> (topic: String)
    ensures
        topic@ == trim(line@),
{
    trimmed(line).to_owned()
}

/// Tells whether the answer to "overwrite the file?" gives consent.
///
/// The default is no: only `y` and `yes`, in any case and with any white
/// space around them, let the run go on.
pub fn confirms_overwrite(answer: &str) -> (yes: bool)
    ensures
        yes == consents(answer@),
{
    let text: &str = trimmed(answer);
    let len: usize = text.unicode_len();
    if len == 1 {
        let c0: char = text.get_char(0);
        c0 == 'y' || c0 == 'Y'
    } else if len == 3 {
        let c0: char = text.get_char(0);
        let c1: char = text.get_char(1);
        let c2: char = text.get_char(2);
        (c0 == 'y' || c0 == 'Y') && (c1 == 'e' || c1 == 'E') && (c2 == 's' || c2 == 'S')
    } else {
        false
    }
}

} // verus!
