use vstd::prelude::*;
use vstd::string::StringSliceAdditionalSpecFns;
use vstd::utf8::encode_utf8;

use crate::combinator::{Eoi, MapParser, NoSkip, Opt, Repeated, Skip, Then};

verus! {

/// What one parse step yields, as a mathematical value: either the outcome
/// (whether a mapped value is present, the raw fragments as UTF-8 bytes, and
/// the byte offset reached) or the failing rule and its byte offset.
pub enum Step {
    Done { mapped: bool, parsed: Seq<Seq<u8>>, end: int },
    Fail { rule: Seq<char>, at: int },
}

/// The UTF-8 bytes of each fragment.
pub open spec fn frags(v: Seq<String>) -> Seq<Seq<u8>> {
    v.map_values(|s: String| encode_utf8(s@))
}

/// The skip that leaves every position where it is.
pub open spec fn no_skip() -> spec_fn(int) -> int {
    |p: int| p
}

/// Where skip-consumption leaves `p` after the skip parser's step `s`: the
/// step's end where it succeeded within the text, else `p`.
pub open spec fn skip_end(s: Step, p: int, len: int) -> int {
    match s {
        Step::Done { end, .. } => if p <= end <= len {
            end
        } else {
            p
        },
        Step::Fail { .. } => p,
    }
}

/// The position reached by skip-consumption from a given one.
pub open spec fn skip_fn<S: Skipper>(src: Seq<u8>, skip: Option<S>) -> spec_fn(int) -> int {
    match skip {
        None => no_skip(),
        Some(s) => s.skip_view(src),
    }
}

/// A skip, if any, is well formed.
pub open spec fn opt_wf<S: Skipper>(skip: Option<S>) -> bool {
    match skip {
        None => true,
        Some(s) => s.skip_wf(),
    }
}

/// An executable result agrees with a step: same success, same presence of a
/// mapped value, same fragments, same position; or same rule and position.
pub open spec fn agrees<T>(r: Result<Output<T>, ParseError>, s: Step) -> bool {
    match r {
        Ok(o) => match s {
            Step::Done { mapped, parsed, end } => o.mapped.is_some() == mapped && frags(o.parsed@)
                == parsed && o.pos == end,
            Step::Fail { .. } => false,
        },
        Err(e) => match s {
            Step::Done { .. } => false,
            Step::Fail { rule, at } => e.rule@ == rule && e.pos == at,
        },
    }
}

/// A successful step never moves back, and never past the end of the input
/// unless it did not move at all.
pub open spec fn advances<T>(r: Result<Output<T>, ParseError>, pos: int, len: int) -> bool {
    match r {
        Ok(o) => pos <= o.pos && (o.pos <= len || o.pos == pos),
        Err(_) => true,
    }
}

/// A value that can consume skippable input: skip-consumption from a position
/// never fails, never moves back, and stays within the text once it moves.
pub trait Skipper: Sized {
    /// The skip's own well-formedness.
    spec fn skip_wf(&self) -> bool;

    /// The position reached from each position of `src`.
    spec fn skip_view(&self, src: Seq<u8>) -> spec_fn(int) -> int;

    fn skip_at(&self, src: &str, pos: usize) -> (r: usize)
        requires
            self.skip_wf(),
        ensures
            r == self.skip_view(src.spec_bytes())(pos as int),
            pos <= r,
            r <= src.spec_bytes().len() || r == pos,
    ;
}

/// Skip-consumption by a parser: it runs without a skip of its own.
pub open spec fn parse_skip_view<P: Parser>(p: &P, src: Seq<u8>) -> spec_fn(int) -> int {
    |q: int| skip_end(p.run(src, q, no_skip()), q, src.len() as int)
}

/// `v` is what `f` returns when applied to the outcome of a step: a mapped
/// value that `ok` admits, present as `mapped` says, and the fragments whose
/// bytes are `parsed`.
pub open spec fn folds_to<T, U, F: Fn(Option<T>, Vec<String>) -> U>(
    f: F,
    ok: spec_fn(Option<T>) -> bool,
    mapped: bool,
    parsed: Seq<Seq<u8>>,
    v: U,
) -> bool {
    exists|m: Option<T>, ps: Vec<String>|
        ok(m) && m.is_some() == mapped && frags(ps@) == parsed && #[trigger] call_ensures(
            f,
            (m, ps),
            v,
        )
}

/// The parsing contract that every matcher and combinator meets: given the
/// text, a byte offset and a skip, it succeeds as `run` says or fails as `run`
/// says.
pub trait Parser: Sized {
    type Mapped;

    /// The parser's own well-formedness (for a transform: that it may be called
    /// on any argument).
    spec fn wf(&self) -> bool;

    /// What parsing `src` from byte offset `pos` yields, where `skip` gives the
    /// position reached by skip-consumption from a given one.
    spec fn run(&self, src: Seq<u8>, pos: int, skip: spec_fn(int) -> int) -> Step;

    /// Whether `m` is the mapped value of a successful parse of `src` from
    /// byte offset `pos` under `skip`.
    spec fn mapped_ok(
        &self,
        src: Seq<u8>,
        pos: int,
        skip: spec_fn(int) -> int,
        m: Option<Self::Mapped>,
    ) -> bool;

    /// Parses `src` from byte offset `pos`, with `skip` as skip-consumption
    /// after each match.
    fn parse_with_position<S: Skipper>(&self, src: &str, pos: usize, skip: &Option<S>) -> (r:
        Result<Output<Self::Mapped>, ParseError>)
        requires
            self.wf(),
            opt_wf(*skip),
        ensures
            agrees(r, self.run(src.spec_bytes(), pos as int, skip_fn(src.spec_bytes(), *skip))),
            r matches Ok(o) ==> self.mapped_ok(
                src.spec_bytes(),
                pos as int,
                skip_fn(src.spec_bytes(), *skip),
                o.mapped,
            ),
            advances(r, pos as int, src.spec_bytes().len() as int),
    ;

    /// Parses `src` from its start, with no skip.
    fn parse(&self, src: &str) -> (r: Result<Output<Self::Mapped>, ParseError>)
        requires
            self.wf(),
        ensures
            agrees(r, self.run(src.spec_bytes(), 0, no_skip())),
            r matches Ok(o) ==> self.mapped_ok(src.spec_bytes(), 0, no_skip(), o.mapped),
    {
        let none: Option<NoSkip> = None;
        self.parse_with_position::<NoSkip>(src, 0, &none)
    }

    /// Parses `src` from its start and folds the outcome through `f`.
    fn parse_with_map<F: Fn(Option<Self::Mapped>, Vec<String>) -> Self::Mapped>(
        &self,
        src: &str,
        f: F,
    ) -> (r: Result<Self::Mapped, ParseError>)
        requires
            self.wf(),
            forall|m: Option<Self::Mapped>, v: Vec<String>| #[trigger] f.requires((m, v)),
        ensures
            match r {
                Ok(v) => {
                    let st = self.run(src.spec_bytes(), 0, no_skip());
                    st is Done && folds_to(
                        f,
                        |m: Option<Self::Mapped>| self.mapped_ok(src.spec_bytes(), 0, no_skip(), m),
                        st->mapped,
                        st->parsed,
                        v,
                    )
                },
                Err(e) => self.run(src.spec_bytes(), 0, no_skip()) == (Step::Fail {
                    rule: e.rule@,
                    at: e.pos as int,
                }),
            },
    {
        let none: Option<NoSkip> = None;
        match self.parse_with_position::<NoSkip>(src, 0, &none) {
            Ok(out) => {
                let ghost gm = out.mapped;
                let ghost gp = out.parsed;
                let v = f(out.mapped, out.parsed);
                let ghost ok = |m: Option<Self::Mapped>| self.mapped_ok(src.spec_bytes(), 0, no_skip(), m);
                assert(folds_to(f, ok, gm.is_some(), frags(gp@), v)) by {
                    assert(ok(gm));
                    assert(call_ensures(f, (gm, gp), v));
                }
                Ok(v)
            },
            Err(e) => Err(e),
        }
    }

    /// On success, folds the mapped value and the fragments through `f`.
    fn map<F, R>(self, f: F) -> (r: MapParser<Self, F, R>) where
        F: Fn(Option<Self::Mapped>, Vec<String>) -> R,
        ensures
            r.parser == self,
            r.func == f,
    {
        MapParser { parser: self, func: f, output: core::marker::PhantomData }
    }

    /// This parser followed by `parser`.
    fn then<P>(self, parser: P) -> (r: Then<Self, P>)
        ensures
            r.parser_a == self,
            r.parser_b == parser,
    {
        Then { parser_a: self, parser_b: parser }
    }

    /// Zero or more repetitions of this parser.
    fn repeated(self) -> (r: Repeated<Self>)
        ensures
            r.parser == self,
    {
        Repeated { parser: self }
    }

    /// This parser, or nothing.
    fn opt(self) -> (r: Opt<Self>)
        ensures
            r.parser == self,
    {
        Opt { parser: self }
    }

    /// This parser, then the end of the input.
    fn eoi(self) -> (r: Eoi<Self>)
        ensures
            r.parser == self,
    {
        Eoi { parser: self }
    }

    /// This parser with `skipper` bound as its skip.
    fn skip<S: Skipper>(self, skipper: S) -> (r: Skip<Self, S>)
        ensures
            r.parser == self,
            r.skipper == Some(skipper),
    {
        Skip { parser: self, skipper: Some(skipper) }
    }
}

/// A successful parse step.
#[derive(Debug, Clone)]
pub struct Output<T> {
    pub mapped: Option<T>,
    pub parsed: Vec<String>,
    pub pos: usize,
}

/// The rule that failed and the byte offset where it failed.
#[derive(Debug, Clone)]
pub struct ParseError {
    pub rule: String,
    pub pos: usize,
}

} // verus!
