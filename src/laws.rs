use vstd::prelude::*;
use vstd::utf8::*;

use crate::combinator::{rep_vals, Eoi, Lit, Opt, Repeated};
use crate::parser::{agrees, frags, Output, ParseError, Parser, Step};

verus! {

broadcast use group_utf8_lib;

/// A literal `L` on the input `L + rest` succeeds, consumes exactly the bytes
/// of `L`, yields `L` as its one fragment, and leaves `rest`: it ends where
/// skip-consumption from the end of `L` leads.
pub proof fn lemma_literal_exact(l: Lit, rest: Seq<u8>, skip: spec_fn(int) -> int)
    requires
        valid_utf8(encode_utf8(l.text@) + rest),
    ensures
        ({
            let t = encode_utf8(l.text@);
            &&& l.run(t + rest, 0, skip) == (Step::Done {
                mapped: false,
                parsed: seq![t],
                end: skip(t.len() as int),
            })
            &&& (t + rest).subrange(t.len() as int, (t + rest).len() as int) == rest
        }),
{
    let t = encode_utf8(l.text@);
    assert((t + rest).subrange(0, t.len() as int) =~= t);
    assert((t + rest).subrange(t.len() as int, (t + rest).len() as int) =~= rest);
}

/// A repetition whose inner parser succeeds without moving stops after that
/// one round: it keeps that round's fragments and stays put, and its mapped
/// value is the one-element list of that round's value, or none.
pub proof fn lemma_repeat_stops_without_progress<P: Parser>(
    rp: &Repeated<P>,
    src: Seq<u8>,
    pos: int,
    skip: spec_fn(int) -> int,
)
    requires
        rp.parser.run(src, pos, skip) is Done,
        rp.parser.run(src, pos, skip)->end == pos,
    ensures
        rp.run(src, pos, skip) == (Step::Done {
            mapped: rp.parser.run(src, pos, skip)->mapped,
            parsed: rp.parser.run(src, pos, skip)->parsed,
            end: pos,
        }),
        rp.parser.run(src, pos, skip)->mapped ==> forall|x: P::Mapped|
            rp.parser.mapped_ok(src, pos, skip, Some(x)) ==> #[trigger] rep_vals(
                &rp.parser,
                src,
                pos,
                skip,
                seq![x],
            ),
        !rp.parser.run(src, pos, skip)->mapped ==> (rp.parser.mapped_ok(src, pos, skip, None)
            ==> rep_vals(&rp.parser, src, pos, skip, Seq::empty())),
{
}

/// An optional parser never fails, whatever it wraps and whatever the input.
pub proof fn lemma_opt_never_fails<P: Parser>(
    o: &Opt<P>,
    src: Seq<u8>,
    pos: int,
    skip: spec_fn(int) -> int,
)
    ensures
        o.run(src, pos, skip) is Done,
{
}

/// After its inner parser succeeds, the end-of-input check succeeds exactly
/// when skip-consumption reaches the end of the input, and it then ends
/// there; otherwise it fails with rule "eoi" where skip-consumption stopped.
pub proof fn lemma_eoi_strict<P: Parser>(
    e: &Eoi<P>,
    src: Seq<u8>,
    pos: int,
    skip: spec_fn(int) -> int,
)
    requires
        e.parser.run(src, pos, skip) is Done,
    ensures
        ({
            let p = skip(e.parser.run(src, pos, skip)->end);
            &&& (e.run(src, pos, skip) is Done) == (p == src.len())
            &&& e.run(src, pos, skip) is Done ==> e.run(src, pos, skip)->end == src.len()
            &&& !(e.run(src, pos, skip) is Done) ==> e.run(src, pos, skip) == (Step::Fail {
                rule: "eoi"@,
                at: p,
            })
        }),
{
}

/// A parser value carries nothing from one call to the next: any two results
/// that its contract admits on one input agree in success, fragments,
/// position and presence of a mapped value, or in rule and position, and the
/// mapped values of both are ones that the same input admits.
pub proof fn lemma_reusable<P: Parser>(
    p: &P,
    src: Seq<u8>,
    pos: int,
    skip: spec_fn(int) -> int,
    r1: Result<Output<P::Mapped>, ParseError>,
    r2: Result<Output<P::Mapped>, ParseError>,
)
    requires
        agrees(r1, p.run(src, pos, skip)),
        agrees(r2, p.run(src, pos, skip)),
        r1 matches Ok(o) ==> p.mapped_ok(src, pos, skip, o.mapped),
        r2 matches Ok(o) ==> p.mapped_ok(src, pos, skip, o.mapped),
    ensures
        r1 is Ok <==> r2 is Ok,
        r1 is Ok ==> frags(r1->Ok_0.parsed@) == frags(r2->Ok_0.parsed@) && r1->Ok_0.pos
            == r2->Ok_0.pos && r1->Ok_0.mapped.is_some() == r2->Ok_0.mapped.is_some(),
        r1 is Err ==> r1->Err_0.rule@ == r2->Err_0.rule@ && r1->Err_0.pos == r2->Err_0.pos,
        r1 is Ok ==> p.mapped_ok(src, pos, skip, r1->Ok_0.mapped) && p.mapped_ok(
            src,
            pos,
            skip,
            r2->Ok_0.mapped,
        ),
{
}

} // verus!
