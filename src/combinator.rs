use vstd::prelude::*;
use vstd::string::StringSliceAdditionalSpecFns;
use vstd::utf8::*;

use crate::parser::{
    folds_to, frags, no_skip, opt_wf, parse_skip_view, skip_fn, Output,
    ParseError, Parser, Skipper, Step,
};

verus! {

broadcast use group_utf8_lib;

/// The fragments of a concatenation are the concatenated fragments.
pub(crate) proof fn lemma_frags_concat(a: Seq<String>, b: Seq<String>)
    ensures
        frags(a + b) == frags(a) + frags(b),
{
    assert(frags(a + b) =~= frags(a) + frags(b));
}

/// No strings, no fragments.
pub(crate) proof fn lemma_frags_empty()
    ensures
        frags(Seq::<String>::empty()) == Seq::<Seq<u8>>::empty(),
{
    assert(frags(Seq::<String>::empty()) =~= Seq::<Seq<u8>>::empty());
}

/// A valid char boundary lies within the text.
pub(crate) proof fn lemma_boundary_in_range(bytes: Seq<u8>, i: int)
    requires
        valid_utf8(bytes),
        is_char_boundary(bytes, i),
    ensures
        0 <= i <= bytes.len(),
{
    reveal_with_fuel(is_char_boundary, 1);
}

/// Skip-consumption: runs the skip, if any, at `pos`, and returns where it
/// ended.
pub fn skipper<S: Skipper>(src: &str, pos: usize, skip: &Option<S>) -> (r: usize)
    requires
        opt_wf(*skip),
    ensures
        r == skip_fn(src.spec_bytes(), *skip)(pos as int),
        pos <= r,
        r <= src.spec_bytes().len() || r == pos,
{
    match skip {
        Some(s) => s.skip_at(src, pos),
        None => pos,
    }
}

/// Skip-consumption by a parser: runs it at `pos` with no skip of its own, and
/// returns where it ended, or `pos` where it failed.
pub fn skip_by_parse<P: Parser>(p: &P, src: &str, pos: usize) -> (r: usize)
    requires
        p.wf(),
    ensures
        r == parse_skip_view(p, src.spec_bytes())(pos as int),
        pos <= r,
        r <= src.spec_bytes().len() || r == pos,
{
    let none: Option<NoSkip> = None;
    match p.parse_with_position::<NoSkip>(src, pos, &none) {
        Ok(result) => result.pos,
        Err(_) => pos,
    }
}

/// The parser that always fails; it is the skip of a skip parser.
#[derive(Debug, Clone)]
pub struct NoSkip {}

impl Parser for NoSkip {
    type Mapped = NoMap;

    open spec fn wf(&self) -> bool {
        true
    }

    open spec fn run(&self, src: Seq<u8>, pos: int, skip: spec_fn(int) -> int) -> Step {
        Step::Fail { rule: "noskip"@, at: pos }
    }

    open spec fn mapped_ok(
        &self,
        src: Seq<u8>,
        pos: int,
        skip: spec_fn(int) -> int,
        m: Option<Self::Mapped>,
    ) -> bool {
        m is None
    }

    fn parse_with_position<S: Skipper>(&self, src: &str, pos: usize, skip: &Option<S>) -> (r:
        Result<Output<Self::Mapped>, ParseError>) {
        Err(ParseError { rule: "noskip".to_owned(), pos })
    }
}

impl Skipper for NoSkip {
    open spec fn skip_wf(&self) -> bool {
        true
    }

    open spec fn skip_view(&self, src: Seq<u8>) -> spec_fn(int) -> int {
        no_skip()
    }

    fn skip_at(&self, src: &str, pos: usize) -> (r: usize) {
        pos
    }
}

/// The mapped value of a parser that maps nothing.
#[derive(Debug, Clone)]
pub struct NoMap;

/// Matches a fixed string.
#[derive(Debug, Clone)]
pub struct Lit {
    pub text: String,
}

impl Parser for Lit {
    type Mapped = NoMap;

    open spec fn wf(&self) -> bool {
        true
    }

    open spec fn run(&self, src: Seq<u8>, pos: int, skip: spec_fn(int) -> int) -> Step {
        let t = encode_utf8(self.text@);
        if is_char_boundary(src, pos) && pos + t.len() <= src.len() && src.subrange(
            pos,
            pos + t.len(),
        ) == t {
            Step::Done { mapped: false, parsed: seq![t], end: skip(pos + t.len()) }
        } else {
            Step::Fail { rule: "lit"@, at: pos }
        }
    }

    open spec fn mapped_ok(
        &self,
        src: Seq<u8>,
        pos: int,
        skip: spec_fn(int) -> int,
        m: Option<Self::Mapped>,
    ) -> bool {
        m is None
    }

    fn parse_with_position<S: Skipper>(&self, src: &str, pos: usize, skip: &Option<S>) -> (r:
        Result<Output<Self::Mapped>, ParseError>) {
        let ghost bytes = src.spec_bytes();
        if !src.is_char_boundary(pos) {
            return Err(ParseError { rule: "lit".to_owned(), pos });
        }
        proof {
            lemma_boundary_in_range(bytes, pos as int);
        }
        let b = src.as_bytes();
        let t = self.text.as_str().as_bytes();
        let tlen = t.len();
        if tlen > b.len() - pos {
            return Err(ParseError { rule: "lit".to_owned(), pos });
        }
        let mut i: usize = 0;
        while i < tlen
            invariant
                bytes == src.spec_bytes(),
                b@ == bytes,
                t@ == encode_utf8(self.text@),
                tlen == t@.len(),
                pos + tlen <= b.len(),
                b.len() == b@.len(),
                i <= tlen,
                forall|k: int| 0 <= k < i ==> b@[pos + k] == t@[k],
            decreases tlen - i,
        {
            if b[pos + i] != t[i] {
                assert(bytes[pos + i] != t@[i as int]);
                assert(bytes.subrange(pos as int, pos + tlen)[i as int] != t@[i as int]);
                assert(bytes.subrange(pos as int, pos + tlen) != t@);
                return Err(ParseError { rule: "lit".to_owned(), pos });
            }
            i = i + 1;
        }
        assert(bytes.subrange(pos as int, pos + tlen) =~= t@);
        let end = skipper(src, pos + tlen, skip);
        let mut parsed: Vec<String> = Vec::new();
        parsed.push(self.text.clone());
        assert(frags(parsed@) =~= seq![encode_utf8(self.text@)]);
        Ok(Output { mapped: None, parsed, pos: end })
    }
}

/// Folds the inner parser's outcome through a function.
#[derive(Debug)]
pub struct MapParser<P, F, R> {
    pub parser: P,
    pub func: F,
    pub output: core::marker::PhantomData<R>,
}

impl<P: Clone, F: Clone, R> Clone for MapParser<P, F, R> {
    fn clone(&self) -> (r: Self) {
        MapParser {
            parser: self.parser.clone(),
            func: self.func.clone(),
            output: core::marker::PhantomData,
        }
    }
}

impl<P, F, R> Parser for MapParser<P, F, R> where
    P: Parser,
    F: Fn(Option<<P as Parser>::Mapped>, Vec<String>) -> R,
 {
    type Mapped = R;

    open spec fn wf(&self) -> bool {
        &&& self.parser.wf()
        &&& forall|m: Option<P::Mapped>, v: Vec<String>| #[trigger] self.func.requires((m, v))
    }

    open spec fn run(&self, src: Seq<u8>, pos: int, skip: spec_fn(int) -> int) -> Step {
        match self.parser.run(src, pos, skip) {
            Step::Done { end, .. } => Step::Done { mapped: true, parsed: Seq::empty(), end },
            Step::Fail { rule, at } => Step::Fail { rule, at },
        }
    }

    open spec fn mapped_ok(
        &self,
        src: Seq<u8>,
        pos: int,
        skip: spec_fn(int) -> int,
        m: Option<Self::Mapped>,
    ) -> bool {
        let s = self.parser.run(src, pos, skip);
        match m {
            Some(v) => folds_to(
                self.func,
                |mi: Option<P::Mapped>| self.parser.mapped_ok(src, pos, skip, mi),
                s->mapped,
                s->parsed,
                v,
            ),
            None => false,
        }
    }

    fn parse_with_position<S: Skipper>(&self, src: &str, pos: usize, skip: &Option<S>) -> (r:
        Result<Output<Self::Mapped>, ParseError>) {
        match self.parser.parse_with_position(src, pos, skip) {
            Ok(out) => {
                let end = out.pos;
                let f = &self.func;
                let v = f(out.mapped, out.parsed);
                let parsed: Vec<String> = Vec::new();
                proof {
                    lemma_frags_empty();
                    assert(parsed@ =~= Seq::<String>::empty());
                }
                Ok(Output { mapped: Some(v), parsed, pos: end })
            },
            Err(e) => Err(e),
        }
    }
}

/// The sequence-merge rule for two successful steps.
pub open spec fn merge(ma: bool, pa: Seq<Seq<u8>>, mb: bool, pb: Seq<Seq<u8>>, end: int) -> Step {
    if !ma && !mb {
        Step::Done { mapped: true, parsed: pa + pb, end }
    } else if !ma {
        Step::Done { mapped: true, parsed: pa, end }
    } else if !mb {
        Step::Done { mapped: true, parsed: pb, end }
    } else {
        Step::Done { mapped: false, parsed: pa + pb, end }
    }
}

/// The sequence-merge rule for the mapped values of two successful steps: a
/// pair where at most one side has a value, and no value where both have one.
pub open spec fn pair_of<X, Y>(ma: Option<X>, mb: Option<Y>) -> Option<(Option<X>, Option<Y>)> {
    if ma is None && mb is None {
        Some((ma, mb))
    } else if ma is None {
        Some((None, mb))
    } else if mb is None {
        Some((ma, None))
    } else {
        None
    }
}

/// One parser followed by another.
#[derive(Debug, Clone)]
pub struct Then<A, B> {
    pub parser_a: A,
    pub parser_b: B,
}

impl<A: Parser, B: Parser> Parser for Then<A, B> {
    type Mapped = (Option<A::Mapped>, Option<B::Mapped>);

    open spec fn wf(&self) -> bool {
        self.parser_a.wf() && self.parser_b.wf()
    }

    open spec fn run(&self, src: Seq<u8>, pos: int, skip: spec_fn(int) -> int) -> Step {
        match self.parser_a.run(src, pos, skip) {
            Step::Fail { rule, at } => Step::Fail { rule, at },
            Step::Done { mapped: ma, parsed: pa, end: ea } => match self.parser_b.run(
                src,
                ea,
                skip,
            ) {
                Step::Fail { rule, at } => Step::Fail { rule, at },
                Step::Done { mapped: mb, parsed: pb, end: eb } => merge(ma, pa, mb, pb, eb),
            },
        }
    }

    open spec fn mapped_ok(
        &self,
        src: Seq<u8>,
        pos: int,
        skip: spec_fn(int) -> int,
        m: Option<Self::Mapped>,
    ) -> bool {
        let sa = self.parser_a.run(src, pos, skip);
        let sb = self.parser_b.run(src, sa->end, skip);
        exists|ma: Option<A::Mapped>, mb: Option<B::Mapped>|
            #![trigger self.parser_a.mapped_ok(src, pos, skip, ma), self.parser_b.mapped_ok(src, sa->end, skip, mb)]
            self.parser_a.mapped_ok(src, pos, skip, ma) && self.parser_b.mapped_ok(
                src,
                sa->end,
                skip,
                mb,
            ) && ma.is_some() == sa->mapped && mb.is_some() == sb->mapped && m == pair_of(ma, mb)
    }

    fn parse_with_position<S: Skipper>(&self, src: &str, pos: usize, skip: &Option<S>) -> (r:
        Result<Output<Self::Mapped>, ParseError>) {
        let output_a = match self.parser_a.parse_with_position(src, pos, skip) {
            Ok(o) => o,
            Err(e) => return Err(e),
        };
        let output_b = match self.parser_b.parse_with_position(src, output_a.pos, skip) {
            Ok(o) => o,
            Err(e) => return Err(e),
        };
        let end = output_b.pos;
        let mut pa = output_a.parsed;
        let mut pb = output_b.parsed;
        let ghost ga = pa@;
        let ghost gb = pb@;
        proof {
            lemma_frags_concat(ga, gb);
        }
        if output_a.mapped.is_none() {
            if output_b.mapped.is_none() {
                pa.append(&mut pb);
                Ok(Output { mapped: Some((output_a.mapped, output_b.mapped)), parsed: pa, pos: end })
            } else {
                Ok(Output { mapped: Some((None, output_b.mapped)), parsed: pa, pos: end })
            }
        } else {
            if output_b.mapped.is_none() {
                Ok(Output { mapped: Some((output_a.mapped, None)), parsed: pb, pos: end })
            } else {
                pa.append(&mut pb);
                Ok(Output { mapped: None, parsed: pa, pos: end })
            }
        }
    }
}

/// What repeating `p` from `pos` gathers: whether any round mapped a value,
/// the fragments of all rounds, and where it stopped. It stops at the first
/// failure, or after the first round that does not move.
pub open spec fn rep<P: Parser>(p: &P, src: Seq<u8>, pos: int, skip: spec_fn(int) -> int) -> (
    bool,
    Seq<Seq<u8>>,
    int,
)
    decreases src.len() - pos,
{
    match p.run(src, pos, skip) {
        Step::Fail { .. } => (false, Seq::empty(), pos),
        Step::Done { mapped, parsed, end } => if pos < end <= src.len() {
            let t = rep(p, src, end, skip);
            (mapped || t.0, parsed + t.1, t.2)
        } else {
            (mapped, parsed, pos)
        },
    }
}

/// `vs` is the ordered list of the mapped values present in the rounds that
/// repeating `p` from `pos` runs (the rounds of `rep`).
pub open spec fn rep_vals<P: Parser>(
    p: &P,
    src: Seq<u8>,
    pos: int,
    skip: spec_fn(int) -> int,
    vs: Seq<P::Mapped>,
) -> bool
    decreases src.len() - pos,
{
    match p.run(src, pos, skip) {
        Step::Fail { .. } => vs.len() == 0,
        Step::Done { mapped, end, .. } => {
            let k: int = if mapped {
                1
            } else {
                0
            };
            &&& k <= vs.len()
            &&& if mapped {
                p.mapped_ok(src, pos, skip, Some(vs[0]))
            } else {
                p.mapped_ok(src, pos, skip, None)
            }
            &&& if pos < end <= src.len() {
                rep_vals(p, src, end, skip, vs.skip(k))
            } else {
                vs.len() == k
            }
        },
    }
}

/// Zero or more repetitions of a parser.
#[derive(Debug, Clone)]
pub struct Repeated<P> {
    pub parser: P,
}

impl<P: Parser> Parser for Repeated<P> {
    type Mapped = Vec<P::Mapped>;

    open spec fn wf(&self) -> bool {
        self.parser.wf()
    }

    open spec fn run(&self, src: Seq<u8>, pos: int, skip: spec_fn(int) -> int) -> Step {
        let t = rep(&self.parser, src, pos, skip);
        Step::Done { mapped: t.0, parsed: t.1, end: t.2 }
    }

    open spec fn mapped_ok(
        &self,
        src: Seq<u8>,
        pos: int,
        skip: spec_fn(int) -> int,
        m: Option<Self::Mapped>,
    ) -> bool {
        match m {
            None => rep_vals(&self.parser, src, pos, skip, Seq::empty()),
            Some(v) => v@.len() > 0 && rep_vals(&self.parser, src, pos, skip, v@),
        }
    }

    fn parse_with_position<S: Skipper>(&self, src: &str, pos: usize, skip: &Option<S>) -> (r:
        Result<Output<Self::Mapped>, ParseError>) {
        let ghost bytes = src.spec_bytes();
        let ghost sk = skip_fn(bytes, *skip);
        let ghost whole = rep(&self.parser, bytes, pos as int, sk);
        let mut mapped_values: Vec<P::Mapped> = Vec::new();
        let mut parsed: Vec<String> = Vec::new();
        let mut cur = pos;
        proof {
            lemma_frags_empty();
            assert(parsed@ =~= Seq::<String>::empty());
            assert(Seq::empty() + whole.1 =~= whole.1);
            assert forall|tail: Seq<P::Mapped>|
                rep_vals(&self.parser, bytes, pos as int, sk, tail) implies rep_vals(
                &self.parser,
                bytes,
                pos as int,
                sk,
                mapped_values@ + tail,
            ) by {
                assert(mapped_values@ + tail =~= tail);
            }
        }
        loop
            invariant
                self.parser.wf(),
                opt_wf(*skip),
                bytes == src.spec_bytes(),
                sk == skip_fn(bytes, *skip),
                whole == rep(&self.parser, bytes, pos as int, sk),
                pos <= cur,
                cur <= bytes.len() || cur == pos,
                whole == ({
                    let t = rep(&self.parser, bytes, cur as int, sk);
                    (mapped_values@.len() > 0 || t.0, frags(parsed@) + t.1, t.2)
                }),
                forall|tail: Seq<P::Mapped>|
                    rep_vals(&self.parser, bytes, cur as int, sk, tail) ==> rep_vals(
                        &self.parser,
                        bytes,
                        pos as int,
                        sk,
                        mapped_values@ + tail,
                    ),
            decreases (if cur <= bytes.len() {
                bytes.len() - cur + 1
            } else {
                0
            }),
        {
            let ghost acc = parsed@;
            let ghost acc_v = mapped_values@;
            match self.parser.parse_with_position(src, cur, skip) {
                Ok(out) => {
                    let ghost po = out.parsed@;
                    let ghost mi = out.mapped;
                    let ghost one: Seq<P::Mapped> = if mi is Some {
                        seq![mi->0]
                    } else {
                        Seq::empty()
                    };
                    let next = out.pos;
                    match out.mapped {
                        Some(val) => {
                            mapped_values.push(val);
                        },
                        None => {},
                    }
                    let mut more = out.parsed;
                    parsed.append(&mut more);
                    proof {
                        lemma_frags_concat(acc, po);
                    }
                    assert(mapped_values@ =~= acc_v + one);
                    if next == cur {
                        proof {
                            assert(rep_vals(&self.parser, bytes, cur as int, sk, one));
                            assert(acc_v + one =~= mapped_values@);
                            if mapped_values.len() == 0 {
                                assert(mapped_values@ =~= Seq::<P::Mapped>::empty());
                            }
                            assert(frags(acc) + (frags(po) + Seq::empty()) =~= frags(acc) + frags(po));
                        }
                        return Ok(
                            Output {
                                mapped: if mapped_values.len() == 0 {
                                    None
                                } else {
                                    Some(mapped_values)
                                },
                                parsed,
                                pos: cur,
                            },
                        );
                    }
                    proof {
                        assert forall|tail: Seq<P::Mapped>|
                            rep_vals(&self.parser, bytes, next as int, sk, tail) implies rep_vals(
                            &self.parser,
                            bytes,
                            pos as int,
                            sk,
                            mapped_values@ + tail,
                        ) by {
                            let vs = one + tail;
                            let k: int = if mi is Some {
                                1
                            } else {
                                0
                            };
                            assert(vs.skip(k) =~= tail);
                            assert(rep_vals(&self.parser, bytes, cur as int, sk, vs));
                            assert(acc_v + vs =~= mapped_values@ + tail);
                        }
                        let t = rep(&self.parser, bytes, next as int, sk);
                        assert(frags(acc) + (frags(po) + t.1) =~= (frags(acc) + frags(po)) + t.1);
                    }
                    cur = next;
                },
                Err(_) => {
                    proof {
                        assert(frags(acc) + Seq::empty() =~= frags(acc));
                        assert(rep_vals(&self.parser, bytes, cur as int, sk, Seq::empty()));
                        assert(mapped_values@ + Seq::empty() =~= mapped_values@);
                        if mapped_values.len() == 0 {
                            assert(mapped_values@ =~= Seq::<P::Mapped>::empty());
                        }
                    }
                    return Ok(
                        Output {
                            mapped: if mapped_values.len() == 0 {
                                None
                            } else {
                                Some(mapped_values)
                            },
                            parsed,
                            pos: cur,
                        },
                    );
                },
            }
        }
    }
}

/// A parser or nothing: it never fails.
#[derive(Debug, Clone)]
pub struct Opt<P> {
    pub parser: P,
}

impl<P: Parser> Parser for Opt<P> {
    type Mapped = P::Mapped;

    open spec fn wf(&self) -> bool {
        self.parser.wf()
    }

    open spec fn run(&self, src: Seq<u8>, pos: int, skip: spec_fn(int) -> int) -> Step {
        match self.parser.run(src, pos, skip) {
            Step::Done { mapped, parsed, end } => Step::Done { mapped, parsed, end },
            Step::Fail { .. } => Step::Done { mapped: false, parsed: Seq::empty(), end: pos },
        }
    }

    open spec fn mapped_ok(
        &self,
        src: Seq<u8>,
        pos: int,
        skip: spec_fn(int) -> int,
        m: Option<Self::Mapped>,
    ) -> bool {
        match self.parser.run(src, pos, skip) {
            Step::Done { .. } => self.parser.mapped_ok(src, pos, skip, m),
            Step::Fail { .. } => m is None,
        }
    }

    fn parse_with_position<S: Skipper>(&self, src: &str, pos: usize, skip: &Option<S>) -> (r:
        Result<Output<Self::Mapped>, ParseError>) {
        match self.parser.parse_with_position(src, pos, skip) {
            Ok(out) => Ok(Output { mapped: out.mapped, parsed: out.parsed, pos: out.pos }),
            Err(_) => {
                let parsed: Vec<String> = Vec::new();
                proof {
                    lemma_frags_empty();
                    assert(parsed@ =~= Seq::<String>::empty());
                }
                Ok(Output { mapped: None, parsed, pos })
            },
        }
    }
}

/// A parser followed by the end of the input, after skip-consumption.
#[derive(Debug, Clone)]
pub struct Eoi<P> {
    pub parser: P,
}

impl<P: Parser> Parser for Eoi<P> {
    type Mapped = P::Mapped;

    open spec fn wf(&self) -> bool {
        self.parser.wf()
    }

    open spec fn run(&self, src: Seq<u8>, pos: int, skip: spec_fn(int) -> int) -> Step {
        match self.parser.run(src, pos, skip) {
            Step::Done { mapped, parsed, end } => {
                let p = skip(end);
                if p == src.len() {
                    Step::Done { mapped, parsed, end: p }
                } else {
                    Step::Fail { rule: "eoi"@, at: p }
                }
            },
            Step::Fail { rule, at } => Step::Fail { rule, at },
        }
    }

    open spec fn mapped_ok(
        &self,
        src: Seq<u8>,
        pos: int,
        skip: spec_fn(int) -> int,
        m: Option<Self::Mapped>,
    ) -> bool {
        self.parser.mapped_ok(src, pos, skip, m)
    }

    fn parse_with_position<S: Skipper>(&self, src: &str, pos: usize, skip: &Option<S>) -> (r:
        Result<Output<Self::Mapped>, ParseError>) {
        match self.parser.parse_with_position(src, pos, skip) {
            Ok(out) => {
                let p = skipper(src, out.pos, skip);
                if p == src.as_bytes().len() {
                    Ok(Output { mapped: out.mapped, parsed: out.parsed, pos: p })
                } else {
                    Err(ParseError { rule: "eoi".to_owned(), pos: p })
                }
            },
            Err(e) => Err(e),
        }
    }
}

/// A parser with a skip of its own, which it uses in place of any other; it
/// skips once before it starts.
#[derive(Debug, Clone)]
pub struct Skip<P, S> {
    pub parser: P,
    pub skipper: Option<S>,
}

impl<P: Parser, T: Skipper> Parser for Skip<P, T> {
    type Mapped = P::Mapped;

    open spec fn wf(&self) -> bool {
        self.parser.wf() && opt_wf(self.skipper)
    }

    open spec fn run(&self, src: Seq<u8>, pos: int, skip: spec_fn(int) -> int) -> Step {
        let sk = skip_fn(src, self.skipper);
        self.parser.run(src, sk(pos), sk)
    }

    open spec fn mapped_ok(
        &self,
        src: Seq<u8>,
        pos: int,
        skip: spec_fn(int) -> int,
        m: Option<Self::Mapped>,
    ) -> bool {
        let sk = skip_fn(src, self.skipper);
        self.parser.mapped_ok(src, sk(pos), sk, m)
    }

    fn parse_with_position<S: Skipper>(&self, src: &str, pos: usize, skip: &Option<S>) -> (r:
        Result<Output<Self::Mapped>, ParseError>) {
        let start = skipper(src, pos, &self.skipper);
        self.parser.parse_with_position(src, start, &self.skipper)
    }
}

impl Skipper for Lit {
    open spec fn skip_wf(&self) -> bool {
        self.wf()
    }

    open spec fn skip_view(&self, src: Seq<u8>) -> spec_fn(int) -> int {
        parse_skip_view(self, src)
    }

    fn skip_at(&self, src: &str, pos: usize) -> (r: usize) {
        skip_by_parse(self, src, pos)
    }
}

impl<P, F, R> Skipper for MapParser<P, F, R> where
    P: Parser,
    F: Fn(Option<<P as Parser>::Mapped>, Vec<String>) -> R,
 {
    open spec fn skip_wf(&self) -> bool {
        self.wf()
    }

    open spec fn skip_view(&self, src: Seq<u8>) -> spec_fn(int) -> int {
        parse_skip_view(self, src)
    }

    fn skip_at(&self, src: &str, pos: usize) -> (r: usize) {
        skip_by_parse(self, src, pos)
    }
}

impl<A: Parser, B: Parser> Skipper for Then<A, B> {
    open spec fn skip_wf(&self) -> bool {
        self.wf()
    }

    open spec fn skip_view(&self, src: Seq<u8>) -> spec_fn(int) -> int {
        parse_skip_view(self, src)
    }

    fn skip_at(&self, src: &str, pos: usize) -> (r: usize) {
        skip_by_parse(self, src, pos)
    }
}

impl<P: Parser> Skipper for Repeated<P> {
    open spec fn skip_wf(&self) -> bool {
        self.wf()
    }

    open spec fn skip_view(&self, src: Seq<u8>) -> spec_fn(int) -> int {
        parse_skip_view(self, src)
    }

    fn skip_at(&self, src: &str, pos: usize) -> (r: usize) {
        skip_by_parse(self, src, pos)
    }
}

impl<P: Parser> Skipper for Opt<P> {
    open spec fn skip_wf(&self) -> bool {
        self.wf()
    }

    open spec fn skip_view(&self, src: Seq<u8>) -> spec_fn(int) -> int {
        parse_skip_view(self, src)
    }

    fn skip_at(&self, src: &str, pos: usize) -> (r: usize) {
        skip_by_parse(self, src, pos)
    }
}

impl<P: Parser> Skipper for Eoi<P> {
    open spec fn skip_wf(&self) -> bool {
        self.wf()
    }

    open spec fn skip_view(&self, src: Seq<u8>) -> spec_fn(int) -> int {
        parse_skip_view(self, src)
    }

    fn skip_at(&self, src: &str, pos: usize) -> (r: usize) {
        skip_by_parse(self, src, pos)
    }
}

impl<P: Parser, T: Skipper> Skipper for Skip<P, T> {
    open spec fn skip_wf(&self) -> bool {
        self.wf()
    }

    open spec fn skip_view(&self, src: Seq<u8>) -> spec_fn(int) -> int {
        parse_skip_view(self, src)
    }

    fn skip_at(&self, src: &str, pos: usize) -> (r: usize) {
        skip_by_parse(self, src, pos)
    }
}

} // verus!
