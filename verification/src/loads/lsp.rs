//! The load-manifest entry (loadable software part) of the list-of-loads
//! header.

use vstd::prelude::*;

use crate::error::DecodeError;
use crate::parse::{
    lemma_parse_list_prefix, lemma_parse_list_wf, lemma_prepend_parsed_push, local_parser,
    parse_list, prepend_parsed,
};
use crate::reader::Reader;
use crate::render::{append_dec, concat_reports, lemma_concat_reports_push, spec_dec};
use crate::utils::{
    ascii_chars_of, is_ascii_bytes, packed_string_bytes, packed_text, vec16_to_string, word_at,
    word_count, words_at,
};

use super::target_hw::{
    lemma_parse_target_hw_local, lemma_parse_target_hw_wf, parse_target_hw,
    spec_report_target_hw, target_hw_parser, target_hw_report_fn, TargetHW, TargetHwModel,
};

verus! {

/// One load entry: a pointer to the load, its part number and header file
/// name as packed strings, its member sequence number and its
/// target-hardware sub-entries.
#[derive(Debug, Clone, PartialEq, Eq)]
pub struct Lsp {
    pub load_pointer: u16,
    pub load_pn_length: u16,
    pub load_pn: Vec<u16>,
    pub header_filename_length: u16,
    pub header_filename: Vec<u16>,
    pub member_sequence_number: u16,
    pub number_of_target_hw_ids: u16,
    pub target_hw_ids: Vec<TargetHW>,
}

/// The mathematical value of an [`Lsp`].
#[verifier::ext_equal]
pub struct LspModel {
    pub load_pointer: u16,
    pub load_pn_length: u16,
    pub load_pn: Seq<u16>,
    pub header_filename_length: u16,
    pub header_filename: Seq<u16>,
    pub member_sequence_number: u16,
    pub number_of_target_hw_ids: u16,
    pub target_hw_ids: Seq<TargetHwModel>,
}

/// The mathematical values of a sequence of load entries.
pub open spec fn views_of_lsp(s: Seq<Lsp>) -> Seq<LspModel> {
    s.map_values(|l: Lsp| l@)
}

/// The mathematical values of a sequence of target-hardware sub-entries.
pub open spec fn views_of_target_hw(s: Seq<TargetHW>) -> Seq<TargetHwModel> {
    s.map_values(|t: TargetHW| t@)
}

impl View for Lsp {
    type V = LspModel;

    open spec fn view(&self) -> LspModel {
        LspModel {
            load_pointer: self.load_pointer,
            load_pn_length: self.load_pn_length,
            load_pn: self.load_pn@,
            header_filename_length: self.header_filename_length,
            header_filename: self.header_filename@,
            member_sequence_number: self.member_sequence_number,
            number_of_target_hw_ids: self.number_of_target_hw_ids,
            target_hw_ids: views_of_target_hw(self.target_hw_ids@),
        }
    }
}

impl LspModel {
    /// Packed strings hold exactly the word counts their character counts
    /// call for, and the sub-entry array holds exactly the declared number
    /// of well-formed sub-entries.
    pub open spec fn wf(self) -> bool {
        &&& self.load_pn.len() == word_count(self.load_pn_length as int)
        &&& self.header_filename.len() == word_count(self.header_filename_length as int)
        &&& self.target_hw_ids.len() == self.number_of_target_hw_ids
        &&& forall|i: int|
            0 <= i < self.target_hw_ids.len() ==> (#[trigger] self.target_hw_ids[i]).wf()
    }
}

/// Parses one load entry at byte offset `pos`, its target-hardware
/// sub-entry array driven by the entry's own local count field.
pub open spec fn parse_lsp(bs: Seq<u8>, pos: int) -> Result<(LspModel, int), DecodeError> {
    let pn_len = word_at(bs, pos + 2);
    let nw = word_count(pn_len as int);
    let p1 = pos + 4 + 2 * nw;
    let hdr_len = word_at(bs, p1);
    let hw = word_count(hdr_len as int);
    let p2 = p1 + 2 + 2 * hw;
    let n_thw = word_at(bs, p2 + 2);
    if pos + 4 > bs.len() {
        Err(DecodeError::Truncated)
    } else if p1 + 2 > bs.len() {
        Err(DecodeError::Truncated)
    } else if p2 + 4 > bs.len() {
        Err(DecodeError::Truncated)
    } else {
        match parse_list(target_hw_parser(), bs, p2 + 4, n_thw as int) {
            Ok(p) => Ok(
                (
                    LspModel {
                        load_pointer: word_at(bs, pos),
                        load_pn_length: pn_len,
                        load_pn: words_at(bs, pos + 4, nw),
                        header_filename_length: hdr_len,
                        header_filename: words_at(bs, p1 + 2, hw),
                        member_sequence_number: word_at(bs, p2),
                        number_of_target_hw_ids: n_thw,
                        target_hw_ids: p.0,
                    },
                    p.1,
                ),
            ),
            Err(e) => Err(e),
        }
    }
}

/// The record parser for load entries, as a value.
pub open spec fn lsp_parser() -> spec_fn(Seq<u8>, int) -> Result<(LspModel, int), DecodeError> {
    |bs: Seq<u8>, pos: int| parse_lsp(bs, pos)
}

/// A parsed load entry is well formed and ends within the buffer, no
/// earlier than it began.
pub proof fn lemma_parse_lsp_wf(bs: Seq<u8>, pos: int)
    requires
        0 <= pos,
        parse_lsp(bs, pos) is Ok,
    ensures
        parse_lsp(bs, pos)->Ok_0.0.wf(),
        pos < parse_lsp(bs, pos)->Ok_0.1 <= bs.len(),
{
    let wf_m = |t: TargetHwModel| t.wf();
    assert forall|p: int| 0 <= p && (#[trigger] target_hw_parser()(bs, p)) is Ok implies wf_m(
        target_hw_parser()(bs, p)->Ok_0.0,
    ) && p < target_hw_parser()(bs, p)->Ok_0.1 <= bs.len() by {
        lemma_parse_target_hw_wf(bs, p);
    }
    let pn_len = word_at(bs, pos + 2);
    let nw = word_count(pn_len as int);
    let p1 = pos + 4 + 2 * nw;
    let hdr_len = word_at(bs, p1);
    let hw = word_count(hdr_len as int);
    let p2 = p1 + 2 + 2 * hw;
    let n_thw = word_at(bs, p2 + 2);
    lemma_parse_list_wf(target_hw_parser(), wf_m, bs, p2 + 4, n_thw as int);
}

/// The load-entry record parser reads only bytes before its end offset:
/// truncating the buffer at or past the end changes nothing, and truncating
/// it earlier turns the parse into a failure.
pub proof fn lemma_parse_lsp_local()
    ensures
        local_parser(lsp_parser()),
{
    lemma_parse_target_hw_local();
    let f = lsp_parser();
    let g = target_hw_parser();
    assert forall|bs: Seq<u8>, pos: int, k: int|
        0 <= pos && 0 <= k <= bs.len() && f(bs, pos) is Ok implies {
        let end = f(bs, pos)->Ok_0.1;
        &&& pos <= end <= bs.len()
        &&& (end <= k ==> #[trigger] f(bs.take(k), pos) == f(bs, pos))
        &&& (pos <= k < end ==> f(bs.take(k), pos) is Err)
    } by {
        assert(f(bs, pos) == parse_lsp(bs, pos));
        assert(f(bs.take(k), pos) == parse_lsp(bs.take(k), pos));
        let pn_len = word_at(bs, pos + 2);
        let nw = word_count(pn_len as int);
        let p1 = pos + 4 + 2 * nw;
        let hdr_len = word_at(bs, p1);
        let hw = word_count(hdr_len as int);
        let p2 = p1 + 2 + 2 * hw;
        let n_thw = word_at(bs, p2 + 2);
        let end = parse_lsp(bs, pos)->Ok_0.1;
        lemma_parse_list_prefix(g, bs, p2 + 4, n_thw as int, k);
        if end <= k {
            assert(word_at(bs.take(k), pos) == word_at(bs, pos));
            assert(word_at(bs.take(k), pos + 2) == word_at(bs, pos + 2));
            assert(word_at(bs.take(k), p1) == word_at(bs, p1));
            assert(word_at(bs.take(k), p2) == word_at(bs, p2));
            assert(word_at(bs.take(k), p2 + 2) == word_at(bs, p2 + 2));
            assert(words_at(bs.take(k), pos + 4, nw) =~= words_at(bs, pos + 4, nw));
            assert(words_at(bs.take(k), p1 + 2, hw) =~= words_at(bs, p1 + 2, hw));
            assert(parse_list(g, bs.take(k), p2 + 4, n_thw as int) == parse_list(
                g,
                bs,
                p2 + 4,
                n_thw as int,
            ));
            assert(parse_lsp(bs.take(k), pos) is Ok);
            assert(parse_lsp(bs.take(k), pos)->Ok_0.0 =~= parse_lsp(bs, pos)->Ok_0.0);
            assert(parse_lsp(bs.take(k), pos) == parse_lsp(bs, pos));
        } else if pos <= k < end {
            if pos + 4 <= k {
                assert(word_at(bs.take(k), pos + 2) == word_at(bs, pos + 2));
                if p1 + 2 <= k {
                    assert(word_at(bs.take(k), p1) == word_at(bs, p1));
                    if p2 + 4 <= k {
                        assert(word_at(bs.take(k), p2 + 2) == word_at(bs, p2 + 2));
                        assert(parse_list(g, bs.take(k), p2 + 4, n_thw as int) is Err);
                    }
                }
            }
        }
    };
}

impl Lsp {
    /// Decodes one load entry at the reader's position.
    #[verifier::loop_isolation(false)]
    pub fn decode(r: &mut Reader<'_>) -> (res: Result<Lsp, DecodeError>)
        requires
            old(r).wf(),
        ensures
            final(r).wf(),
            final(r).data@ == old(r).data@,
            match res {
                Ok(l) => parse_lsp(old(r).data@, old(r).pos as int) == Ok::<_, DecodeError>(
                    (l@, final(r).pos as int),
                ),
                Err(e) => parse_lsp(old(r).data@, old(r).pos as int) == Err::<
                    (LspModel, int),
                    _,
                >(e),
            },
    {
        let ghost bs = old(r).data@;
        let ghost pos0 = old(r).pos as int;
        let load_pointer = match r.read_u16() {
            Ok(v) => v,
            Err(e) => return Err(e),
        };
        let load_pn_length = match r.read_u16() {
            Ok(v) => v,
            Err(e) => return Err(e),
        };
        let nw = load_pn_length / 2 + load_pn_length % 2;
        let load_pn = match r.read_words(nw as usize) {
            Ok(v) => v,
            Err(e) => return Err(e),
        };
        let header_filename_length = match r.read_u16() {
            Ok(v) => v,
            Err(e) => return Err(e),
        };
        let hw = header_filename_length / 2 + header_filename_length % 2;
        let header_filename = match r.read_words(hw as usize) {
            Ok(v) => v,
            Err(e) => return Err(e),
        };
        let member_sequence_number = match r.read_u16() {
            Ok(v) => v,
            Err(e) => return Err(e),
        };
        let number_of_target_hw_ids = match r.read_u16() {
            Ok(v) => v,
            Err(e) => return Err(e),
        };
        let ghost f = target_hw_parser();
        let ghost plist = r.pos as int;
        let ghost total = parse_list(f, bs, plist, number_of_target_hw_ids as int);
        let n = number_of_target_hw_ids as usize;
        let mut target_hw_ids: Vec<TargetHW> = Vec::new();
        let mut i: usize = 0;
        while i < n
            invariant
                i <= n,
                r.wf(),
                bs == old(r).data@,
                r.data@ == bs,
                f == target_hw_parser(),
                target_hw_ids@.len() == i,
                total == parse_list(f, bs, plist, n as int),
                prepend_parsed(
                    views_of_target_hw(target_hw_ids@),
                    parse_list(f, bs, r.pos as int, n - i),
                ) == total,
            decreases n - i,
        {
            let ghost q = r.pos as int;
            match TargetHW::decode(r) {
                Ok(t) => {
                    proof {
                        assert(target_hw_parser()(bs, q) == parse_target_hw(bs, q));
                        lemma_prepend_parsed_push(
                            views_of_target_hw(target_hw_ids@),
                            t@,
                            parse_list(f, bs, r.pos as int, n - i - 1),
                        );
                        assert(views_of_target_hw(target_hw_ids@.push(t)) =~= views_of_target_hw(
                            target_hw_ids@,
                        ).push(t@));
                    }
                    target_hw_ids.push(t);
                    i += 1;
                },
                Err(e) => {
                    proof {
                        assert(target_hw_parser()(bs, q) == parse_target_hw(bs, q));
                        assert(parse_list(f, bs, q, n - i) == Err::<
                            (Seq<TargetHwModel>, int),
                            _,
                        >(e));
                    }
                    return Err(e);
                },
            }
        }
        proof {
            assert(parse_list(f, bs, r.pos as int, 0) == Ok::<_, DecodeError>(
                (Seq::<TargetHwModel>::empty(), r.pos as int),
            ));
            assert(views_of_target_hw(target_hw_ids@) + Seq::<TargetHwModel>::empty()
                =~= views_of_target_hw(target_hw_ids@));
        }
        let l = Lsp {
            load_pointer,
            load_pn_length,
            load_pn,
            header_filename_length,
            header_filename,
            member_sequence_number,
            number_of_target_hw_ids,
            target_hw_ids,
        };
        proof {
            assert(parse_lsp(bs, pos0) == Ok::<_, DecodeError>((l@, r.pos as int)));
        }
        Ok(l)
    }

    /// The load's part number, decoded from its packed form.
    pub fn get_load_pn(&self) -> (r: String)
        requires
            self@.wf(),
        ensures
            r@ == packed_text(self@.load_pn, self@.load_pn_length as int),
            is_ascii_bytes(packed_string_bytes(self@.load_pn, self@.load_pn_length as int))
                ==> r@ == ascii_chars_of(
                packed_string_bytes(self@.load_pn, self@.load_pn_length as int),
            ),
    {
        vec16_to_string(self.load_pn.as_slice(), self.load_pn_length as usize)
    }

    /// The name of the load's header file, decoded from its packed form.
    pub fn get_header_filename(&self) -> (r: String)
        requires
            self@.wf(),
        ensures
            r@ == packed_text(self@.header_filename, self@.header_filename_length as int),
            is_ascii_bytes(
                packed_string_bytes(self@.header_filename, self@.header_filename_length as int),
            ) ==> r@ == ascii_chars_of(
                packed_string_bytes(self@.header_filename, self@.header_filename_length as int),
            ),
    {
        vec16_to_string(self.header_filename.as_slice(), self.header_filename_length as usize)
    }
}

/// The report block for one load entry: one labelled line per field,
/// followed by one block per target-hardware sub-entry, in on-disk order.
pub open spec fn spec_report_lsp(m: LspModel) -> Seq<char> {
    "\t"@ + spec_dec(m.load_pointer as int) + " Offsets\n\t"@ + spec_dec(m.load_pn_length as int)
        + " Chars in Load PN\n\t"@ + packed_text(m.load_pn, m.load_pn_length as int)
        + " Load PN\n\t"@ + spec_dec(m.header_filename_length as int)
        + " Chars in Header filename\n\t"@ + packed_text(
        m.header_filename,
        m.header_filename_length as int,
    ) + " Header filename\n\t"@ + spec_dec(m.member_sequence_number as int)
        + " Sequence number\n\t"@ + spec_dec(m.number_of_target_hw_ids as int)
        + " Total target HW IDs\n"@ + concat_reports(target_hw_report_fn(), m.target_hw_ids)
}

/// The record renderer for load entries, as a value.
pub open spec fn lsp_report_fn() -> spec_fn(LspModel) -> Seq<char> {
    |m: LspModel| spec_report_lsp(m)
}

impl Lsp {
    /// Renders the entry's report block.
    #[verifier::loop_isolation(false)]
    pub fn report(&self) -> (r: String)
        requires
            self@.wf(),
        ensures
            r@ == spec_report_lsp(self@),
    {
        let mut out = String::new();
        out.append("\t");
        append_dec(&mut out, self.load_pointer as u64);
        out.append(" Offsets\n\t");
        append_dec(&mut out, self.load_pn_length as u64);
        out.append(" Chars in Load PN\n\t");
        let pn = self.get_load_pn();
        out.append(pn.as_str());
        out.append(" Load PN\n\t");
        append_dec(&mut out, self.header_filename_length as u64);
        out.append(" Chars in Header filename\n\t");
        let hdr = self.get_header_filename();
        out.append(hdr.as_str());
        out.append(" Header filename\n\t");
        append_dec(&mut out, self.member_sequence_number as u64);
        out.append(" Sequence number\n\t");
        append_dec(&mut out, self.number_of_target_hw_ids as u64);
        out.append(" Total target HW IDs\n");
        let ghost prefix = out@;
        let ghost views = views_of_target_hw(self.target_hw_ids@);
        let n = self.target_hw_ids.len();
        let mut i: usize = 0;
        while i < n
            invariant
                i <= n,
                out@ == prefix + concat_reports(target_hw_report_fn(), views.take(i as int)),
            decreases n - i,
        {
            proof {
                assert(views[i as int] == self.target_hw_ids@[i as int]@);
            }
            let block = self.target_hw_ids[i].report();
            out.append(block.as_str());
            proof {
                lemma_concat_reports_push(
                    target_hw_report_fn(),
                    views.take(i as int),
                    views[i as int],
                );
                assert(views.take(i + 1) =~= views.take(i as int).push(views[i as int]));
                assert(target_hw_report_fn()(views[i as int]) == spec_report_target_hw(
                    views[i as int],
                ));
            }
            i += 1;
        }
        proof {
            assert(views.take(n as int) =~= views);
            assert(out@ =~= spec_report_lsp(self@));
        }
        out
    }
}

} // verus!
