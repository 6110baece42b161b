//! The shape shared by every record parser, and the count-driven repetition
//! both header formats use for their entry arrays.
//!
//! A record parser is a specification-level function from a buffer and a
//! byte offset to either the parsed record with the offset just past it, or
//! a decode failure. Repetition parses a fixed number of consecutive
//! records, failing as soon as one of them fails.

use vstd::prelude::*;

use crate::error::DecodeError;

verus! {

/// Puts already-parsed records in front of the rest of a repetition parse.
pub open spec fn prepend_parsed<M>(
    pre: Seq<M>,
    r: Result<(Seq<M>, int), DecodeError>,
) -> Result<(Seq<M>, int), DecodeError> {
    match r {
        Ok(p) => Ok((pre + p.0, p.1)),
        Err(e) => Err(e),
    }
}

/// Parses `n` consecutive records with the record parser `f`, starting at
/// byte offset `pos`.
pub open spec fn parse_list<M>(
    f: spec_fn(Seq<u8>, int) -> Result<(M, int), DecodeError>,
    bs: Seq<u8>,
    pos: int,
    n: int,
) -> Result<(Seq<M>, int), DecodeError>
    decreases n,
{
    if n <= 0 {
        Ok((Seq::empty(), pos))
    } else {
        match f(bs, pos) {
            Ok(p) => prepend_parsed(seq![p.0], parse_list(f, bs, p.1, n - 1)),
            Err(e) => Err(e),
        }
    }
}

/// Moving one parsed record from the repetition into the already-parsed
/// prefix changes nothing.
pub proof fn lemma_prepend_parsed_push<M>(
    pre: Seq<M>,
    m: M,
    r: Result<(Seq<M>, int), DecodeError>,
)
    ensures
        prepend_parsed(pre.push(m), r) == prepend_parsed(pre, prepend_parsed(seq![m], r)),
{
    match r {
        Ok(p) => {
            assert(pre.push(m) + p.0 =~= pre + (seq![m] + p.0));
        },
        Err(e) => {},
    }
}

/// A record parser that, whenever it succeeds on this buffer, yields a
/// record satisfying `wf_m` and strictly advances the offset, never past the
/// end of the buffer.
pub open spec fn parser_ok_wf<M>(
    f: spec_fn(Seq<u8>, int) -> Result<(M, int), DecodeError>,
    wf_m: spec_fn(M) -> bool,
    bs: Seq<u8>,
) -> bool {
    forall|p: int|
        0 <= p && (#[trigger] f(bs, p)) is Ok ==> wf_m(f(bs, p)->Ok_0.0) && p < f(bs, p)->Ok_0.1
            <= bs.len()
}

/// A successful repetition parse yields exactly `n` records, each satisfying
/// the record parser's well-formedness, and ends within the buffer.
pub proof fn lemma_parse_list_wf<M>(
    f: spec_fn(Seq<u8>, int) -> Result<(M, int), DecodeError>,
    wf_m: spec_fn(M) -> bool,
    bs: Seq<u8>,
    pos: int,
    n: int,
)
    requires
        0 <= pos <= bs.len(),
        parser_ok_wf(f, wf_m, bs),
        parse_list(f, bs, pos, n) is Ok,
    ensures
        pos <= parse_list(f, bs, pos, n)->Ok_0.1 <= bs.len(),
        parse_list(f, bs, pos, n)->Ok_0.0.len() == if n >= 0 {
            n
        } else {
            0
        },
        forall|i: int|
            0 <= i < parse_list(f, bs, pos, n)->Ok_0.0.len() ==> wf_m(
                #[trigger] parse_list(f, bs, pos, n)->Ok_0.0[i],
            ),
    decreases n,
{
    if n <= 0 {
    } else {
        let step = f(bs, pos);
        let p2 = step->Ok_0.1;
        lemma_parse_list_wf(f, wf_m, bs, p2, n - 1);
        let rest = parse_list(f, bs, p2, n - 1)->Ok_0.0;
        assert forall|i: int| 0 <= i < parse_list(f, bs, pos, n)->Ok_0.0.len() implies wf_m(
            #[trigger] parse_list(f, bs, pos, n)->Ok_0.0[i],
        ) by {
            if i > 0 {
                assert(parse_list(f, bs, pos, n)->Ok_0.0[i] == rest[i - 1]);
            }
        }
    }
}

/// A record parser that reads only bytes before its end offset: truncating
/// the buffer at or past the end changes nothing, and truncating it earlier
/// turns the parse into a failure.
pub open spec fn local_parser<M>(
    f: spec_fn(Seq<u8>, int) -> Result<(M, int), DecodeError>,
) -> bool {
    forall|bs: Seq<u8>, pos: int, k: int|
        #![trigger f(bs.take(k), pos)]
        0 <= pos && 0 <= k <= bs.len() && f(bs, pos) is Ok ==> {
            let end = f(bs, pos)->Ok_0.1;
            &&& pos <= end <= bs.len()
            &&& (end <= k ==> f(bs.take(k), pos) == f(bs, pos))
            &&& (pos <= k < end ==> f(bs.take(k), pos) is Err)
        }
}

/// A repetition of a local record parser is itself local: truncating the
/// buffer at or past the repetition's end changes nothing, and truncating it
/// earlier turns the parse into a failure.
pub proof fn lemma_parse_list_prefix<M>(
    f: spec_fn(Seq<u8>, int) -> Result<(M, int), DecodeError>,
    bs: Seq<u8>,
    pos: int,
    n: int,
    k: int,
)
    requires
        local_parser(f),
        0 <= pos <= bs.len(),
        0 <= k <= bs.len(),
        parse_list(f, bs, pos, n) is Ok,
    ensures
        ({
            let end = parse_list(f, bs, pos, n)->Ok_0.1;
            &&& pos <= end <= bs.len()
            &&& (end <= k ==> parse_list(f, bs.take(k), pos, n) == parse_list(f, bs, pos, n))
            &&& (pos <= k < end ==> parse_list(f, bs.take(k), pos, n) is Err)
        }),
    decreases n,
{
    if n <= 0 {
        assert(bs.take(k).len() == k);
    } else {
        let step = f(bs, pos);
        let end1 = step->Ok_0.1;
        assert(f(bs.take(k), pos) == f(bs.take(k), pos));
        lemma_parse_list_prefix(f, bs, end1, n - 1, k);
        let end = parse_list(f, bs, end1, n - 1)->Ok_0.1;
        if end <= k {
            assert(f(bs.take(k), pos) == step);
        } else if pos <= k < end {
            if k < end1 {
                assert(f(bs.take(k), pos) is Err);
            } else {
                assert(f(bs.take(k), pos) == step);
                assert(parse_list(f, bs.take(k), end1, n - 1) is Err);
            }
        }
    }
}

} // verus!
