//! Splitting a typed line into arguments.
//!
//! Arguments are separated by spaces. A single or a double quote opens a
//! quoted stretch that runs to the next quote of the same kind; inside it a
//! space is part of the argument, and so is a quote of the other kind.

use crate::text::without_trailing;
use vstd::prelude::*;
use vstd::std_specs::iter::IteratorSpec;
use vstd::string::*;

verus! {

/// Whether a character opens or closes a quoted stretch.
pub open spec fn is_quote(c: char) -> bool {
    c == '\'' || c == '"'
}

/// What the splitter knows in the middle of a line.
pub struct Scan {
    /// The arguments that are complete.
    pub args: Seq<Seq<char>>,
    /// The argument that is being read.
    pub current: Seq<char>,
    /// The quote that is open, if one is.
    pub quote: Option<char>,
}

/// What the splitter knows after one more character.
pub open spec fn scan_step(s: Scan, c: char) -> Scan {
    if is_quote(c) {
        match s.quote {
            Some(q) => if c == q {
                Scan { quote: None, ..s }
            } else {
                Scan { current: s.current.push(c), ..s }
            },
            None => Scan { quote: Some(c), ..s },
        }
    } else if c == ' ' && s.quote is None {
        if s.current.len() > 0 {
            Scan { args: s.args.push(s.current), current: Seq::empty(), ..s }
        } else {
            s
        }
    } else {
        Scan { current: s.current.push(c), ..s }
    }
}

/// What the splitter knows at the end of `input`.
pub open spec fn scan(input: Seq<char>) -> Scan
    decreases input.len(),
{
    if input.len() == 0 {
        Scan { args: Seq::empty(), current: Seq::empty(), quote: None }
    } else {
        scan_step(scan(input.drop_last()), input.last())
    }
}

/// The text of the error for a quote that is never closed.
pub open spec fn unclosed_quote() -> Seq<char> {
    "クォートが閉じられていません"@
}

/// The arguments of a line, or the error for a quote that is never closed.
pub open spec fn arguments(input: Seq<char>) -> Result<Seq<Seq<char>>, Seq<char>> {
    let end = scan(input);
    if end.quote is Some {
        Err(unclosed_quote())
    } else if end.current.len() > 0 {
        Ok(end.args.push(end.current))
    } else {
        Ok(end.args)
    }
}

/// No argument of a line is empty: an empty quoted stretch alone adds none.
pub proof fn lemma_no_empty_argument(input: Seq<char>)
    ensures
        forall|i: int| 0 <= i < scan(input).args.len() ==> (#[trigger] scan(input).args[i]).len() > 0,
        arguments(input) matches Ok(list) ==> forall|i: int|
            0 <= i < list.len() ==> (#[trigger] list[i]).len() > 0,
    decreases input.len(),
{
    if input.len() > 0 {
        lemma_no_empty_argument(input.drop_last());
    }
}

/// A line without quotes has no error, and none of its arguments holds a
/// space.
pub proof fn lemma_plain_line(input: Seq<char>)
    requires
        forall|i: int| 0 <= i < input.len() ==> !is_quote(#[trigger] input[i]),
    ensures
        scan(input).quote is None,
        !scan(input).current.contains(' '),
        forall|i: int|
            0 <= i < scan(input).args.len() ==> !(#[trigger] scan(input).args[i]).contains(' '),
        arguments(input) matches Ok(list) && forall|i: int|
            0 <= i < list.len() ==> !(#[trigger] list[i]).contains(' '),
    decreases input.len(),
{
    if input.len() > 0 {
        let before = input.drop_last();
        assert forall|i: int| 0 <= i < before.len() implies !is_quote(#[trigger] before[i]) by {
            assert(before[i] == input[i]);
        }
        lemma_plain_line(before);
        let s = scan(before);
        let c = input.last();
        assert(!is_quote(c)) by {
            assert(c == input[input.len() - 1]);
        }
        if c != ' ' {
            assert forall|k: int| 0 <= k < s.current.push(c).len() implies s.current.push(c)[k]
                != ' ' by {
                if k < s.current.len() {
                    assert(s.current.contains(s.current[k]));
                }
            }
        }
    }
}

/// The texts of a list of strings, in order.
pub open spec fn texts_of(list: Seq<String>) -> Seq<Seq<char>> {
    Seq::new(list.len(), |i: int| list[i]@)
}

/// `String::push` of std: appends one character to the text.
#[verifier::external_body]
fn push_char(text: &mut String, c: char)
    ensures
        final(text)@ == old(text)@.push(c),
{
    text.push(c);
}

/// `str::trim_end` of std: the text without its trailing white space, in
/// Unicode's sense of the word.
#[verifier::external_body]
fn trim_end(text: &str) -> (inner: &str)
    ensures
        inner@ == without_trailing(text@),
{
    text.trim_end()
}

/// Splits a line into its arguments.
pub fn parse_arguments(input: &str) -> (r: Result<Vec<String>, String>)
    ensures
        match arguments(input@) {
            Ok(list) => r matches Ok(args) && texts_of(args@) == list,
            Err(text) => r matches Err(e) && e@ == text,
        },
{
    let mut args: Vec<String> = Vec::new();
    let mut current_arg: String = String::new();
    let mut in_quotes: Option<char> = None;
    let ghost chars = input@;
    for c in it: input.chars()
        invariant
            it.seq() == chars,
            0 <= it.index() <= chars.len(),
            texts_of(args@) == scan(chars.subrange(0, it.index())).args,
            current_arg@ == scan(chars.subrange(0, it.index())).current,
            in_quotes == scan(chars.subrange(0, it.index())).quote,
    {
        proof {
            let i = it.index();
            assert(chars.subrange(0, i + 1).drop_last() =~= chars.subrange(0, i));
            assert(chars.subrange(0, i + 1).last() == c);
        }
        let ghost before = texts_of(args@);
        if c == '\'' || c == '"' {
            match in_quotes {
                Some(q) => {
                    if c == q {
                        in_quotes = None;
                    } else {
                        push_char(&mut current_arg, c);
                    }
                },
                None => {
                    in_quotes = Some(c);
                },
            }
        } else if c == ' ' && in_quotes.is_none() {
            if !current_arg.as_str().is_empty() {
                args.push(current_arg);
                current_arg = String::new();
                proof {
                    assert(texts_of(args@) =~= before.push(args@.last()@));
                }
            }
        } else {
            push_char(&mut current_arg, c);
        }
    }
    proof {
        assert(chars.subrange(0, chars.len() as int) =~= chars);
    }
    if in_quotes.is_some() {
        return Err("クォートが閉じられていません".to_string());
    }
    if !current_arg.as_str().is_empty() {
        let ghost before = texts_of(args@);
        args.push(current_arg);
        proof {
            assert(texts_of(args@) =~= before.push(args@.last()@));
        }
    }
    Ok(args)
}

/// What the space cleaner knows in the middle of a line.
pub struct Clean {
    /// The text written so far.
    pub output: Seq<char>,
    /// The quote that is open, if one is.
    pub quote: Option<char>,
    /// Whether the last character outside quotes was a space that was
    /// written or skipped.
    pub spaced: bool,
}

/// Whether a character is a space, of half or of full width.
pub open spec fn is_space(c: char) -> bool {
    c == ' ' || c == '\u{3000}'
}

/// What the space cleaner knows after one more character.
pub open spec fn clean_step(s: Clean, c: char) -> Clean {
    if is_quote(c) {
        Clean {
            output: s.output.push(c),
            quote: if s.quote == Some(c) {
                None
            } else if s.quote is None {
                Some(c)
            } else {
                s.quote
            },
            spaced: false,
        }
    } else if is_space(c) {
        if s.quote is Some {
            Clean { output: s.output.push(c), ..s }
        } else if !s.spaced && s.output.len() > 0 {
            Clean { output: s.output.push(' '), spaced: true, ..s }
        } else {
            s
        }
    } else {
        Clean { output: s.output.push(c), spaced: false, ..s }
    }
}

/// What the space cleaner knows at the end of `input`.
pub open spec fn clean(input: Seq<char>) -> Clean
    decreases input.len(),
{
    if input.len() == 0 {
        Clean { output: Seq::empty(), quote: None, spaced: false }
    } else {
        clean_step(clean(input.drop_last()), input.last())
    }
}

/// A line in which, outside quotes, every run of spaces of either width is
/// one half-width space, and none stands at the start. If no quote is left
/// open, the white space at the end is gone as well.
pub open spec fn cleaned(input: Seq<char>) -> Seq<char> {
    let end = clean(input);
    if end.quote is None {
        without_trailing(end.output)
    } else {
        end.output
    }
}

/// Turns full-width spaces outside quotes into half-width ones, and
/// squeezes runs of spaces outside quotes.
pub fn replace_full_width_spaces_to_half_width_spaces_if_not_in_quotes(input: &str) -> (output:
    String)
    ensures
        output@ == cleaned(input@),
{
    let mut output = String::new();
    let mut in_quotes: Option<char> = None;
    let mut last_was_space = false;
    let ghost chars = input@;
    for c in it: input.chars()
        invariant
            it.seq() == chars,
            0 <= it.index() <= chars.len(),
            output@ == clean(chars.subrange(0, it.index())).output,
            in_quotes == clean(chars.subrange(0, it.index())).quote,
            last_was_space == clean(chars.subrange(0, it.index())).spaced,
    {
        proof {
            let i = it.index();
            assert(chars.subrange(0, i + 1).drop_last() =~= chars.subrange(0, i));
            assert(chars.subrange(0, i + 1).last() == c);
        }
        if c == '\'' || c == '"' {
            match in_quotes {
                Some(q) => {
                    if c == q {
                        in_quotes = None;
                    }
                },
                None => {
                    in_quotes = Some(c);
                },
            }
            push_char(&mut output, c);
            last_was_space = false;
        } else if c == ' ' || c == '\u{3000}' {
            if in_quotes.is_none() {
                if !last_was_space && !output.as_str().is_empty() {
                    push_char(&mut output, ' ');
                    last_was_space = true;
                }
            } else {
                push_char(&mut output, c);
            }
        } else {
            push_char(&mut output, c);
            last_was_space = false;
        }
    }
    proof {
        assert(chars.subrange(0, chars.len() as int) =~= chars);
    }
    if in_quotes.is_none() {
        output = trim_end(output.as_str()).to_string();
    }
    output
}

} // verus!
