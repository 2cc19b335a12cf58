use vstd::prelude::*;
use vstd::string::StringSliceAdditionalSpecFns;
use vstd::utf8::*;

use crate::combinator::{lemma_boundary_in_range, skip_by_parse, skipper, Lit, NoMap};
use crate::parser::{
    frags, parse_skip_view, Output, ParseError, Parser, Skipper, Step,
};

verus! {

broadcast use group_utf8_lib;

#[verifier::external_type_specification]
#[verifier::external_body]
pub struct ExRegex(regex::Regex);

#[verifier::external_type_specification]
#[verifier::external_body]
pub struct ExRegexError(regex::Error);

/// Relies on Regex's Clone, which copies the compiled pattern; nothing is
/// claimed of the copy.
pub assume_specification[ <regex::Regex as Clone>::clone ](r: &regex::Regex) -> regex::Regex;

/// The byte span of the first match that the pattern written `pattern` finds
/// in `hay`, if any.
pub uninterp spec fn regex_find(pattern: Seq<char>, hay: Seq<u8>) -> Option<(int, int)>;

/// Whether the pattern written `source` compiles.
pub uninterp spec fn regex_compiles(source: Seq<char>) -> bool;

/// Relies on regex::Regex::new: compiles the pattern `source`, or says why it
/// cannot; the outcome depends on the pattern text alone.
#[verifier::external_body]
fn compile(source: &str) -> (r: Result<regex::Regex, regex::Error>)
    ensures
        r is Ok == regex_compiles(source@),
{
    regex::Regex::new(source)
}

/// Relies on regex::Regex::find, with Match::start and Match::end: the byte
/// span of the first match in `hay`; the span is ordered, lies in `hay`, and
/// its ends fall on char boundaries. A `Re` is built only by `re`, which
/// compiles `pattern` from `source`, so the span depends on that text and on
/// `hay` alone.
#[verifier::external_body]
fn find_span(re: &Re, hay: &str) -> (r: Option<(usize, usize)>)
    ensures
        regex_find(re.source@, hay.spec_bytes()) == match r {
            Some((a, b)) => Some((a as int, b as int)),
            None => None,
        },
        match r {
            Some((a, b)) => a <= b <= hay.spec_bytes().len() && is_char_boundary(
                hay.spec_bytes(),
                a as int,
            ) && is_char_boundary(hay.spec_bytes(), b as int),
            None => true,
        },
{
    match re.pattern.find(hay) {
        Some(m) => Some((m.start(), m.end())),
        None => None,
    }
}

/// What the pattern written `source` does on `src` from byte offset `pos`: at a
/// char boundary, a match of the rest of the input that starts right there is
/// its one fragment, and skip-consumption follows it; anything else fails with
/// rule "re" at `pos`.
pub open spec fn pattern_step(source: Seq<char>, src: Seq<u8>, pos: int, skip: spec_fn(int) -> int) -> Step {
    if is_char_boundary(src, pos) {
        match regex_find(source, src.subrange(pos, src.len() as int)) {
            Some((a, b)) => if a == 0 {
                Step::Done {
                    mapped: false,
                    parsed: seq![src.subrange(pos, pos + b)],
                    end: skip(pos + b),
                }
            } else {
                Step::Fail { rule: "re"@, at: pos }
            },
            None => Step::Fail { rule: "re"@, at: pos },
        }
    } else {
        Step::Fail { rule: "re"@, at: pos }
    }
}

/// Matches a regular expression at the current position only.
#[derive(Debug, Clone)]
pub struct Re {
    pattern: regex::Regex,
    source: String,
}

impl Re {
    /// The text the pattern was compiled from.
    pub closed spec fn source(&self) -> Seq<char> {
        self.source@
    }
}

impl Parser for Re {
    type Mapped = NoMap;

    open spec fn wf(&self) -> bool {
        true
    }

    closed spec fn run(&self, src: Seq<u8>, pos: int, skip: spec_fn(int) -> int) -> Step {
        pattern_step(self.source@, src, pos, skip)
    }

    open spec fn mapped_ok(
        &self,
        src: Seq<u8>,
        pos: int,
        skip: spec_fn(int) -> int,
        m: Option<Self::Mapped>,
    ) -> bool {
        m is None
    }

    fn parse_with_position<S: Skipper>(&self, src: &str, pos: usize, skip: &Option<S>) -> (r:
        Result<Output<Self::Mapped>, ParseError>) {
        let ghost bytes = src.spec_bytes();
        if !src.is_char_boundary(pos) {
            return Err(ParseError { rule: "re".to_owned(), pos });
        }
        proof {
            lemma_boundary_in_range(bytes, pos as int);
        }
        let n = src.as_bytes().len();
        let (_, hay) = src.split_at(pos);
        match find_span(self, hay) {
            Some((a, b)) => {
                if a != 0 {
                    return Err(ParseError { rule: "re".to_owned(), pos });
                }
                let (m, _) = hay.split_at(b);
                let frag = m.to_owned();
                let mut parsed: Vec<String> = Vec::new();
                parsed.push(frag);
                proof {
                    assert(hay.spec_bytes() =~= bytes.subrange(pos as int, bytes.len() as int));
                    assert(m.spec_bytes() =~= hay.spec_bytes().subrange(0, b as int));
                    assert(m.spec_bytes() =~= bytes.subrange(pos as int, pos + b));
                    assert(encode_utf8(frag@) == m.spec_bytes());
                    assert(frags(parsed@) =~= seq![bytes.subrange(pos as int, pos + b)]);
                }
                let end = skipper(src, pos + b, skip);
                Ok(Output { mapped: None, parsed, pos: end })
            },
            None => Err(ParseError { rule: "re".to_owned(), pos }),
        }
    }
}

impl Skipper for Re {
    open spec fn skip_wf(&self) -> bool {
        self.wf()
    }

    open spec fn skip_view(&self, src: Seq<u8>) -> spec_fn(int) -> int {
        parse_skip_view(self, src)
    }

    fn skip_at(&self, src: &str, pos: usize) -> (r: usize) {
        skip_by_parse(self, src, pos)
    }
}

/// A pattern matches only at the current position: where its first match in
/// the rest of the input starts later, it fails with rule "re" at the current
/// position, and never skips ahead to that match.
pub proof fn lemma_pattern_anchored(r: &Re, src: Seq<u8>, pos: int, skip: spec_fn(int) -> int)
    requires
        valid_utf8(src),
        is_char_boundary(src, pos),
        regex_find(r.source(), src.subrange(pos, src.len() as int)) matches Some((a, _)) && a > 0,
    ensures
        r.run(src, pos, skip) == (Step::Fail { rule: "re"@, at: pos }),
{
}

/// A pattern matcher steps as `pattern_step` says of the text it was compiled
/// from.
pub proof fn lemma_pattern_run(r: &Re, src: Seq<u8>, pos: int, skip: spec_fn(int) -> int)
    ensures
        r.run(src, pos, skip) == pattern_step(r.source(), src, pos, skip),
{
}

/// A literal matcher for `text`.
pub fn lit(text: &str) -> (r: Lit)
    ensures
        r.text@ == text@,
{
    Lit { text: text.to_owned() }
}

/// A pattern matcher for the regular expression `source`, or the error that
/// compiling it gave.
pub fn re(source: &str) -> (r: Result<Re, regex::Error>)
    ensures
        r is Ok == regex_compiles(source@),
        r matches Ok(p) ==> p.source() == source@,
{
    match compile(source) {
        Ok(pattern) => Ok(Re { pattern, source: source.to_owned() }),
        Err(e) => Err(e),
    }
}

} // verus!
